//! State of the player window, and the decisions it takes on keys pressed
//! and on the captions it shows, apart from any windowing toolkit.

use crate::interactive::kernel::ActiveDiscMode;
use crate::text::{dec_digits, padded_text, push_dec, push_padded, push_str, str_eq};
use vstd::prelude::*;

verus! {

/// The tab shown in the side drawer.
#[derive(Debug, Clone, Copy, PartialEq, Eq, Structural, Default)]
pub enum DrawerTab {
    #[default]
    Remote,
    Tracks,
}

// ---------------------------------------------------------------------------
// Keyboard
// ---------------------------------------------------------------------------

/// The keys the player reacts to that were pressed during one frame;
/// `digits[d]` is the number key `d`.
#[derive(Debug, Clone, Copy, PartialEq, Eq, Default)]
pub struct PressedKeys {
    pub enter: bool,
    pub space: bool,
    pub escape: bool,
    pub backspace: bool,
    pub up: bool,
    pub down: bool,
    pub left: bool,
    pub right: bool,
    pub digits: [bool; 10],
}

/// The first index from `i` on where `s` holds `true`.
pub open spec fn first_set_from(s: Seq<bool>, i: int) -> Option<i32>
    decreases s.len() - i,
{
    if i < 0 || i >= s.len() {
        None
    } else if s[i] {
        Some(i as i32)
    } else {
        first_set_from(s, i + 1)
    }
}

/// The lowest number key pressed.
pub open spec fn digit_pressed(k: PressedKeys) -> Option<i32> {
    first_set_from(k.digits@, 0)
}

fn first_digit(k: &PressedKeys) -> (r: Option<i32>)
    ensures
        r == digit_pressed(*k),
{
    let mut i: usize = 0;
    while i < 10
        invariant
            i <= 10,
            k.digits@.len() == 10,
            first_set_from(k.digits@, 0) == first_set_from(k.digits@, i as int),
        decreases 10 - i,
    {
        if k.digits[i] {
            return Some(i as i32);
        }
        i += 1;
    }
    None
}

/// The remote key a frame's keys send while no video plays: Enter or Space
/// confirm (31), Escape or Backspace return (32), the arrows step (34 up, 35
/// down, 36 left, 37 right), else the lowest number key pressed.
pub open spec fn menu_key_spec(k: PressedKeys) -> Option<i32> {
    if k.enter || k.space {
        Some(31i32)
    } else if k.escape || k.backspace {
        Some(32i32)
    } else if k.up {
        Some(34i32)
    } else if k.down {
        Some(35i32)
    } else if k.left {
        Some(36i32)
    } else if k.right {
        Some(37i32)
    } else {
        digit_pressed(k)
    }
}

/// The remote key sent for `k` while no video plays (`menu_key_spec`).
pub fn menu_remote_key(k: &PressedKeys) -> (r: Option<i32>)
    ensures
        r == menu_key_spec(*k),
{
    if k.enter || k.space {
        Some(31)
    } else if k.escape || k.backspace {
        Some(32)
    } else if k.up {
        Some(34)
    } else if k.down {
        Some(35)
    } else if k.left {
        Some(36)
    } else if k.right {
        Some(37)
    } else {
        first_digit(k)
    }
}

/// What the keys of a frame do while a video plays.
#[derive(Debug, Clone, Copy, PartialEq, Eq, Structural)]
pub enum VideoKey {
    /// Pause or resume.
    TogglePause,
    /// Leave the video through the PBC return action.
    PbcReturn,
    /// Stop the video and go to its exit page.
    StopVideo,
    /// Seek by this many seconds.
    Seek(i32),
    /// Send this remote key.
    Remote(i32),
    /// Nothing to do.
    Nothing,
}

/// The effect of `k` during a video: Space pauses; Escape or Backspace leave
/// (through PBC return on a classic disc with PBC); the left and right
/// arrows seek 5 s; in the classic and linear modes Enter sends 31 and a
/// number key its digit.
pub open spec fn video_key_spec(k: PressedKeys, mode: ActiveDiscMode, has_pbc: bool) -> VideoKey {
    if k.space {
        VideoKey::TogglePause
    } else if k.escape || k.backspace {
        if mode == ActiveDiscMode::Vcd20Classic && has_pbc {
            VideoKey::PbcReturn
        } else {
            VideoKey::StopVideo
        }
    } else if k.left {
        VideoKey::Seek(-5i32)
    } else if k.right {
        VideoKey::Seek(5i32)
    } else if mode == ActiveDiscMode::Vcd20Classic || mode == ActiveDiscMode::Vcd10Linear {
        if k.enter {
            VideoKey::Remote(31i32)
        } else {
            match digit_pressed(k) {
                Some(d) => VideoKey::Remote(d),
                None => VideoKey::Nothing,
            }
        }
    } else {
        VideoKey::Nothing
    }
}

/// The effect of `k` while a video plays (`video_key_spec`).
pub fn video_key(k: &PressedKeys, mode: ActiveDiscMode, has_pbc: bool) -> (r: VideoKey)
    ensures
        r == video_key_spec(*k, mode, has_pbc),
{
    if k.space {
        VideoKey::TogglePause
    } else if k.escape || k.backspace {
        if mode == ActiveDiscMode::Vcd20Classic && has_pbc {
            VideoKey::PbcReturn
        } else {
            VideoKey::StopVideo
        }
    } else if k.left {
        VideoKey::Seek(-5)
    } else if k.right {
        VideoKey::Seek(5)
    } else if mode == ActiveDiscMode::Vcd20Classic || mode == ActiveDiscMode::Vcd10Linear {
        if k.enter {
            VideoKey::Remote(31)
        } else {
            match first_digit(k) {
                Some(d) => VideoKey::Remote(d),
                None => VideoKey::Nothing,
            }
        }
    } else {
        VideoKey::Nothing
    }
}

// ---------------------------------------------------------------------------
// Captions
// ---------------------------------------------------------------------------

/// `" 轨道 NN (title)"`-style text of a track: its number on two digits and
/// its title in brackets, after `prefix`.
pub open spec fn track_caption(prefix: Seq<char>, index: usize, title: Seq<char>) -> Seq<char> {
    prefix + padded_text(index as nat, 2) + " ("@ + title + ")"@
}

/// The page name, followed by its title in brackets when it has one, after `prefix`.
pub open spec fn page_caption(prefix: Seq<char>, name: Seq<char>, title: Seq<char>) -> Seq<char> {
    if title.len() == 0 {
        prefix + name
    } else {
        prefix + name + " ("@ + title + ")"@
    }
}

fn push_track(s: &mut String, index: usize, title: &str)
    ensures
        final(s)@ == old(s)@ + padded_text(index as nat, 2) + " ("@ + title@ + ")"@,
{
    push_padded(s, index as u64, 2);
    push_str(s, " (");
    push_str(s, title);
    push_str(s, ")");
}

fn push_page(s: &mut String, name: &str, title: &str)
    ensures
        final(s)@ == page_caption(old(s)@, name@, title@),
{
    push_str(s, name);
    if title.unicode_len() > 0 {
        push_str(s, " (");
        push_str(s, title);
        push_str(s, ")");
    }
}

/// The window title: the page and its title while a page is shown, else the
/// track playing (`track`: its number and title), else the program name.
pub open spec fn window_title_spec(page: Seq<char>, title: Seq<char>, track: Option<(usize, Seq<char>)>) -> Seq<
    char,
> {
    if page.len() > 0 {
        page_caption("vcd30player - "@, page, title)
    } else {
        match track {
            Some((i, t)) => track_caption("vcd30player - 轨道 "@, i, t),
            None => "vcd30player"@,
        }
    }
}

/// The window title (`window_title_spec`).
pub fn window_title(page: &str, title: &str, track: Option<(usize, &str)>) -> (r: String)
    ensures
        r@ == window_title_spec(
            page@,
            title@,
            match track {
                Some((i, t)) => Some((i, t@)),
                None => None,
            },
        ),
{
    let mut s = String::new();
    if page.unicode_len() > 0 {
        push_str(&mut s, "vcd30player - ");
        push_page(&mut s, page, title);
    } else {
        match track {
            Some((i, t)) => {
                push_str(&mut s, "vcd30player - 轨道 ");
                push_track(&mut s, i, t);
            },
            None => {
                push_str(&mut s, "vcd30player");
            },
        }
    }
    s
}

/// The status line shown with a disc loaded and nothing transient to say:
/// the page and its title, else the track playing, else that no page is loaded.
pub open spec fn page_status_spec(page: Seq<char>, title: Seq<char>, track: Option<(usize, Seq<char>)>) -> Seq<
    char,
> {
    if page.len() > 0 {
        page_caption("📄 "@, page, title)
    } else {
        match track {
            Some((i, t)) => track_caption("🎵 轨道 "@, i, t),
            None => "未载入页面"@,
        }
    }
}

/// The default status line (`page_status_spec`).
pub fn page_status(page: &str, title: &str, track: Option<(usize, &str)>) -> (r: String)
    ensures
        r@ == page_status_spec(
            page@,
            title@,
            match track {
                Some((i, t)) => Some((i, t@)),
                None => None,
            },
        ),
{
    let mut s = String::new();
    if page.unicode_len() > 0 {
        push_str(&mut s, "📄 ");
        push_page(&mut s, page, title);
    } else {
        match track {
            Some((i, t)) => {
                push_str(&mut s, "🎵 轨道 ");
                push_track(&mut s, i, t);
            },
            None => {
                push_str(&mut s, "未载入页面");
            },
        }
    }
    s
}

/// The decimal digits of each entry of `d`, one after another.
pub open spec fn digits_text(d: Seq<u8>) -> Seq<char>
    decreases d.len(),
{
    if d.len() == 0 {
        Seq::empty()
    } else {
        digits_text(d.drop_last()) + dec_digits(d.last() as nat)
    }
}

/// The status after a remote key: the number being typed while digits are
/// buffered; else the new track when the track changed (nothing when it has
/// no entry); else the new page when the page changed to a named one; else
/// no new status.
pub open spec fn remote_status_spec(
    digits: Seq<u8>,
    old_track: Option<usize>,
    cur_track: Option<usize>,
    track: Option<(usize, Seq<char>)>,
    old_page: Seq<char>,
    cur_page: Seq<char>,
) -> Option<Seq<char>> {
    if digits.len() > 0 {
        Some("输入曲目: "@ + digits_text(digits) + " (按 Enter 确认或等待)"@)
    } else if cur_track != old_track {
        match (cur_track, track) {
            (Some(_), Some((i, t))) => Some(track_caption("正在播放: 轨道 "@, i, t)),
            _ => None,
        }
    } else if cur_page != old_page && cur_page.len() > 0 {
        Some("已切换至: "@ + cur_page)
    } else {
        None
    }
}

/// The status after a remote key (`remote_status_spec`); `track` is the
/// entry of the current track, where it has one.
pub fn remote_status(
    digits: &Vec<u8>,
    old_track: Option<usize>,
    cur_track: Option<usize>,
    track: Option<(usize, &str)>,
    old_page: &str,
    cur_page: &str,
) -> (r: Option<String>)
    ensures
        ({
            let expected = remote_status_spec(
                digits@,
                old_track,
                cur_track,
                match track {
                    Some((i, t)) => Some((i, t@)),
                    None => None,
                },
                old_page@,
                cur_page@,
            );
            match r {
                Some(s) => expected == Some(s@),
                None => expected is None,
            }
        }),
{
    if digits.len() > 0 {
        let mut s = String::new();
        push_str(&mut s, "输入曲目: ");
        let ghost start = s@;
        let mut i: usize = 0;
        while i < digits.len()
            invariant
                i <= digits@.len(),
                s@ == start + digits_text(digits@.subrange(0, i as int)),
            decreases digits@.len() - i,
        {
            push_dec(&mut s, digits[i] as u64);
            assert(digits@.subrange(0, i + 1).drop_last() =~= digits@.subrange(0, i as int));
            assert(start + digits_text(digits@.subrange(0, i as int)) + dec_digits(digits@[i as int] as nat)
                =~= start + digits_text(digits@.subrange(0, i + 1)));
            i += 1;
        }
        assert(digits@.subrange(0, digits@.len() as int) =~= digits@);
        push_str(&mut s, " (按 Enter 确认或等待)");
        return Some(s);
    }
    let same_track = match (old_track, cur_track) {
        (Some(a), Some(b)) => a == b,
        (None, None) => true,
        _ => false,
    };
    if !same_track {
        match (cur_track, track) {
            (Some(_), Some((i, t))) => {
                let mut s = String::new();
                push_str(&mut s, "正在播放: 轨道 ");
                push_track(&mut s, i, t);
                Some(s)
            },
            _ => None,
        }
    } else if !str_eq(cur_page, old_page) && cur_page.unicode_len() > 0 {
        let mut s = String::new();
        push_str(&mut s, "已切换至: ");
        push_str(&mut s, cur_page);
        Some(s)
    } else {
        None
    }
}

} // verus!
