//! Decisions of the interactive kernel: variable names, the karaoke
//! playlist, playback modes, hotspot hit testing, page history, remote-key
//! routing and numeric input, independent of the files, audio and video the
//! player drives with them.

use crate::assets::chm::{half, is_point, raw_box, spans_fit, AreaView, MapArea};
use crate::interactive::script_ast::{clamp32, tdiv};
use crate::vcd::pbc::{PbcAction, PbcEngine};
use crate::text::{
    chars_of, dec_digits, ends_ci, int_text, padded_text, push_dec, push_padded, is_alpha, lower, parse_i32, push_int, push_str, range_occurs_at,
    range_parse_i32, starts_with, str_ends_ci, str_eq, string_from_range, trim, trim_range,
};
use vstd::prelude::*;

verus! {

broadcast use vstd::string::group_string_axioms;

pub const CANVAS_WIDTH: u32 = 352;

pub const CANVAS_HEIGHT: u32 = 288;

// ---------------------------------------------------------------------------
// Variable names
// ---------------------------------------------------------------------------

/// The variable slot a name on a page selects: `i_a`..`i_z` or a single
/// letter (case ignored) give 0..25.
pub open spec fn var_index_spec(s: Seq<char>) -> Option<usize> {
    let t = trim(s);
    if t.len() == 0 {
        None
    } else {
        let ch = if (starts_with(t, "i_"@) || starts_with(t, "I_"@)) && t.len() >= 3 {
            t[2]
        } else {
            t[0]
        };
        if is_alpha(ch) {
            Some(((lower(ch) as int) - 97) as usize)
        } else {
            None
        }
    }
}

/// The variable slot a name selects (`var_index_spec`).
pub fn var_name_to_index(var: &str) -> (r: Option<usize>)
    ensures
        r == var_index_spec(var@),
        r matches Some(i) ==> i < 26,
{
    let v = chars_of(var);
    assert(v@.subrange(0, v@.len() as int) =~= v@);
    let (a, b) = trim_range(&v, 0, v.len());
    if a == b {
        return None;
    }
    let prefixed = (range_occurs_at(&v, a, b, "i_", 0) || range_occurs_at(&v, a, b, "I_", 0)) && b - a >= 3;
    let ch = if prefixed {
        v[a + 2]
    } else {
        v[a]
    };
    assert(v@.subrange(a as int, b as int)[0] == v@[a as int]);
    if prefixed {
        assert(v@.subrange(a as int, b as int)[2] == v@[a + 2]);
    }
    if ('a' <= ch && ch <= 'z') || ('A' <= ch && ch <= 'Z') {
        let low = crate::text::char_lower(ch);
        Some((low as u32 - 97) as usize)
    } else {
        None
    }
}

// ---------------------------------------------------------------------------
// Karaoke playlist
// ---------------------------------------------------------------------------

/// The karaoke request list: up to 19 song numbers in `slots[0..count]`.
#[derive(Debug, Clone, PartialEq, Eq)]
pub struct KaraokePlaylist {
    pub slots: [i32; 19],
    pub count: usize,
}

/// The slots after removing entry `idx` of the first `count`: later entries
/// move up and the freed last slot becomes 0.
pub open spec fn removed_at(s: Seq<i32>, count: int, idx: int) -> Seq<i32> {
    Seq::new(
        s.len(),
        |i: int|
            if i < idx {
                s[i]
            } else if i < count - 1 {
                s[i + 1]
            } else if i == count - 1 {
                0
            } else {
                s[i]
            },
    )
}

/// The slots after inserting `val` before entry `idx`, keeping at most `cap` entries.
pub open spec fn inserted_at(s: Seq<i32>, cap: int, idx: int, val: i32) -> Seq<i32> {
    Seq::new(
        s.len(),
        |i: int|
            if i < idx {
                s[i]
            } else if i == idx {
                val
            } else if i < cap {
                s[i - 1]
            } else {
                s[i]
            },
    )
}

impl KaraokePlaylist {
    /// The list holds at most 19 entries.
    pub open spec fn wf(&self) -> bool {
        self.count <= 19
    }

    /// The requested songs, in order.
    pub open spec fn songs(&self) -> Seq<i32> {
        self.slots@.subrange(0, self.count as int)
    }

    /// An empty list.
    pub fn new() -> (r: Self)
        ensures
            r.wf(),
            r.count == 0,
            r.slots@ == Seq::new(19, |i: int| 0i32),
    {
        let r = KaraokePlaylist { slots: [0; 19], count: 0 };
        assert(r.slots@ =~= Seq::new(19, |i: int| 0i32));
        r
    }

    /// Whether the list is empty.
    pub fn is_empty(&self) -> (r: bool)
        ensures
            r == (self.count == 0),
    {
        self.count == 0
    }

    /// The number of entries.
    pub fn len(&self) -> (r: usize)
        ensures
            r == self.count,
    {
        self.count
    }

    /// Sets entry `index` (1-based): an index of 0 or less sets the first slot,
    /// one past the entries appends (at most 19 entries; the last slot is
    /// overwritten when full).
    pub fn set(&mut self, index: i32, val: i32)
        requires
            old(self).wf(),
        ensures
            final(self).wf(),
            index <= 0 ==> final(self).count == old(self).count && final(self).slots@ == old(self).slots@.update(
                0,
                val,
            ),
            0 < index <= old(self).count ==> final(self).count == old(self).count && final(self).slots@
                == old(self).slots@.update(index - 1, val),
            index > 0 && index > old(self).count ==> {
                let nc = if old(self).count < 19 { old(self).count + 1 } else { 19 };
                final(self).count == nc && final(self).slots@ == old(self).slots@.update(nc - 1, val)
            },
    {
        if index <= 0 {
            self.slots[0] = val;
            return;
        }
        let idx = index as usize;
        if idx <= self.count {
            self.slots[idx - 1] = val;
        } else {
            let next_slot = if self.count + 1 < 19 {
                self.count + 1
            } else {
                19
            };
            self.count = next_slot;
            self.slots[next_slot - 1] = val;
        }
    }

    /// Entry `index` (1-based), or -1 outside the entries.
    pub fn get(&self, index: i32) -> (r: i32)
        requires
            self.wf(),
        ensures
            r == (if index <= 0 || index > self.count {
                -1i32
            } else {
                self.slots@[index - 1]
            }),
    {
        if index <= 0 || (index as usize) > self.count {
            -1
        } else {
            self.slots[(index - 1) as usize]
        }
    }

    /// Removes entry `index` (1-based); outside the entries nothing changes.
    pub fn del(&mut self, index: i32)
        requires
            old(self).wf(),
        ensures
            final(self).wf(),
            (index <= 0 || index > old(self).count) ==> *final(self) == *old(self),
            0 < index <= old(self).count ==> final(self).count == old(self).count - 1 && final(self).slots@
                == removed_at(old(self).slots@, old(self).count as int, index - 1),
    {
        if index <= 0 || (index as usize) > self.count {
            return;
        }
        let idx = (index - 1) as usize;
        self.remove_at(idx);
    }

    fn remove_at(&mut self, idx: usize)
        requires
            old(self).wf(),
            idx < old(self).count,
        ensures
            final(self).wf(),
            final(self).count == old(self).count - 1,
            final(self).slots@ == removed_at(old(self).slots@, old(self).count as int, idx as int),
    {
        let n = self.count;
        let mut i = idx;
        while i < n - 1
            invariant
                n == old(self).count,
                n <= 19,
                self.count == n,
                idx <= i <= n - 1,
                forall|k: int|
                    0 <= k < 19 ==> #[trigger] self.slots@[k] == (if idx <= k < i {
                        old(self).slots@[k + 1]
                    } else {
                        old(self).slots@[k]
                    }),
            decreases n - 1 - i,
        {
            let nx = self.slots[i + 1];
            self.slots[i] = nx;
            i += 1;
        }
        self.slots[n - 1] = 0;
        self.count = n - 1;
        assert(self.slots@ =~= removed_at(old(self).slots@, n as int, idx as int));
    }

    /// Inserts `val` before entry `index` (1-based), keeping at most 19
    /// entries; outside the entries nothing changes.
    pub fn ins(&mut self, index: i32, val: i32)
        requires
            old(self).wf(),
        ensures
            final(self).wf(),
            (index <= 0 || index > old(self).count) ==> *final(self) == *old(self),
            0 < index <= old(self).count ==> {
                let nc = if old(self).count < 19 { old(self).count + 1 } else { 19 };
                final(self).count == nc && final(self).slots@ == inserted_at(
                    old(self).slots@,
                    nc as int,
                    index - 1,
                    val,
                )
            },
    {
        if index <= 0 || (index as usize) > self.count {
            return;
        }
        let idx = (index - 1) as usize;
        let new_count = if self.count + 1 < 19 {
            self.count + 1
        } else {
            19
        };
        self.count = new_count;
        let mut i = new_count;
        while i > idx + 1
            invariant
                old(self).count >= 1,
                new_count <= 19,
                idx < new_count,
                idx + 1 <= i <= new_count,
                self.count == new_count,
                forall|k: int|
                    0 <= k < 19 ==> #[trigger] self.slots@[k] == (if i <= k < new_count {
                        old(self).slots@[k - 1]
                    } else {
                        old(self).slots@[k]
                    }),
            decreases i,
        {
            let pv = self.slots[i - 2];
            self.slots[i - 1] = pv;
            i -= 1;
        }
        self.slots[idx] = val;
        assert(self.slots@ =~= inserted_at(old(self).slots@, new_count as int, idx as int, val));
    }

    /// Takes the first entry off the list, or `None` when it is empty.
    pub fn play(&mut self) -> (r: Option<i32>)
        requires
            old(self).wf(),
        ensures
            final(self).wf(),
            old(self).count == 0 ==> r is None && *final(self) == *old(self),
            old(self).count > 0 ==> r == Some(old(self).slots@[0]) && final(self).count == old(self).count - 1
                && final(self).slots@ == removed_at(old(self).slots@, old(self).count as int, 0),
    {
        if self.count == 0 {
            return None;
        }
        let song_id = self.slots[0];
        self.remove_at(0);
        Some(song_id)
    }

    /// Empties the list.
    pub fn clear(&mut self)
        ensures
            final(self).count == 0,
            final(self).slots@ == Seq::new(19, |i: int| 0i32),
    {
        self.slots = [0; 19];
        self.count = 0;
        assert(self.slots@ =~= Seq::new(19, |i: int| 0i32));
    }
}

impl Default for KaraokePlaylist {
    fn default() -> (r: Self)
        ensures
            r.count == 0,
            r.slots@ == Seq::new(19, |i: int| 0i32),
    {
        Self::new()
    }
}

/// Reading an entry just set gives the value set.
pub proof fn lemma_karaoke_get_after_set(before: KaraokePlaylist, after: KaraokePlaylist, index: i32, val: i32)
    requires
        before.wf(),
        0 < index <= before.count,
        after.count == before.count,
        after.slots@ == before.slots@.update(index - 1, val),
    ensures
        after.songs() == before.songs().update(index - 1, val),
        after.slots@[index - 1] == val,
{
    assert(after.songs() =~= before.songs().update(index - 1, val));
}

/// Inserting an entry into a list with room and deleting it again gives back the list.
pub proof fn lemma_karaoke_del_undoes_ins(s: Seq<i32>, count: int, idx: int, val: i32)
    requires
        s.len() == 19,
        0 <= idx < count < 19,
    ensures
        removed_at(inserted_at(s, count + 1, idx, val), count + 1, idx).subrange(0, count) == s.subrange(
            0,
            count,
        ),
{
    assert(removed_at(inserted_at(s, count + 1, idx, val), count + 1, idx).subrange(0, count) =~= s.subrange(
        0,
        count,
    ));
}

/// Playing takes the first requested song and leaves the rest in order.
pub proof fn lemma_karaoke_play_order(s: Seq<i32>, count: int)
    requires
        s.len() == 19,
        0 < count <= 19,
    ensures
        removed_at(s, count, 0).subrange(0, count - 1) == s.subrange(1, count),
{
    assert(removed_at(s, count, 0).subrange(0, count - 1) =~= s.subrange(1, count));
}

// ---------------------------------------------------------------------------
// Modes and errors
// ---------------------------------------------------------------------------

/// What happens when a track ends in the linear and classic modes.
#[derive(Debug, Clone, Copy, PartialEq, Eq, Structural, Default)]
pub enum PlaybackMode {
    #[default]
    Sequential,
    ListRepeat,
    SingleRepeat,
}

/// The mode after `m` in the cycle Sequential, ListRepeat, SingleRepeat.
pub open spec fn next_playback_mode(m: PlaybackMode) -> PlaybackMode {
    match m {
        PlaybackMode::Sequential => PlaybackMode::ListRepeat,
        PlaybackMode::ListRepeat => PlaybackMode::SingleRepeat,
        PlaybackMode::SingleRepeat => PlaybackMode::Sequential,
    }
}

impl PlaybackMode {
    /// The next mode: Sequential, ListRepeat, SingleRepeat, then Sequential again.
    pub fn cycle(&self) -> (r: Self)
        ensures
            r == next_playback_mode(*self),
    {
        match self {
            PlaybackMode::Sequential => PlaybackMode::ListRepeat,
            PlaybackMode::ListRepeat => PlaybackMode::SingleRepeat,
            PlaybackMode::SingleRepeat => PlaybackMode::Sequential,
        }
    }

    /// The button label.
    pub fn label(&self) -> (r: &'static str)
        ensures
            r@ == (match *self {
                PlaybackMode::Sequential => "➡ 顺序播放"@,
                PlaybackMode::ListRepeat => "🔁 列表循环"@,
                PlaybackMode::SingleRepeat => "🔂 单曲循环"@,
            }),
    {
        match self {
            PlaybackMode::Sequential => "➡ 顺序播放",
            PlaybackMode::ListRepeat => "🔁 列表循环",
            PlaybackMode::SingleRepeat => "🔂 单曲循环",
        }
    }

    /// The button icon.
    pub fn icon(&self) -> (r: &'static str)
        ensures
            r@ == (match *self {
                PlaybackMode::Sequential => "➡"@,
                PlaybackMode::ListRepeat => "🔁"@,
                PlaybackMode::SingleRepeat => "🔂"@,
            }),
    {
        match self {
            PlaybackMode::Sequential => "➡",
            PlaybackMode::ListRepeat => "🔁",
            PlaybackMode::SingleRepeat => "🔂",
        }
    }

    /// The description.
    pub fn description(&self) -> (r: &'static str)
        ensures
            r@ == (match *self {
                PlaybackMode::Sequential => "顺序播放"@,
                PlaybackMode::ListRepeat => "列表循环"@,
                PlaybackMode::SingleRepeat => "单曲循环"@,
            }),
    {
        match self {
            PlaybackMode::Sequential => "顺序播放",
            PlaybackMode::ListRepeat => "列表循环",
            PlaybackMode::SingleRepeat => "单曲循环",
        }
    }
}

/// Three presses of the playback-mode button return to the mode one started from.
pub proof fn lemma_playback_cycle_period(m: PlaybackMode)
    ensures
        next_playback_mode(next_playback_mode(next_playback_mode(m))) == m,
        next_playback_mode(m) != m,
{
}

/// How a disc is being played.
#[derive(Debug, Clone, Copy, PartialEq, Eq, Structural, Default)]
pub enum ActiveDiscMode {
    #[default]
    Vcd30Interactive,
    Vcd20Classic,
    Vcd10Linear,
}

impl ActiveDiscMode {
    /// The mode's name.
    pub fn label(&self) -> (r: &'static str)
        ensures
            r@ == (match *self {
                ActiveDiscMode::Vcd30Interactive => "VCD 3.0 互动模式"@,
                ActiveDiscMode::Vcd20Classic => "VCD 2.0 经典模式"@,
                ActiveDiscMode::Vcd10Linear => "VCD 1.0 纯视频模式"@,
            }),
    {
        match self {
            ActiveDiscMode::Vcd30Interactive => "VCD 3.0 互动模式",
            ActiveDiscMode::Vcd20Classic => "VCD 2.0 经典模式",
            ActiveDiscMode::Vcd10Linear => "VCD 1.0 纯视频模式",
        }
    }
}

/// The mode a disc opens in: interactive for VCD 3.0, classic for VCD 2.0
/// with Playback Control, linear otherwise.
pub fn initial_mode(t: &crate::vcd::detector::VcdDiscType) -> (r: ActiveDiscMode)
    ensures
        r == (if *t is Vcd30Interactive {
            ActiveDiscMode::Vcd30Interactive
        } else if *t is Vcd20WithPbc {
            ActiveDiscMode::Vcd20Classic
        } else {
            ActiveDiscMode::Vcd10Linear
        }),
{
    match t {
        crate::vcd::detector::VcdDiscType::Vcd30Interactive { .. } => ActiveDiscMode::Vcd30Interactive,
        crate::vcd::detector::VcdDiscType::Vcd20WithPbc { .. } => ActiveDiscMode::Vcd20Classic,
        _ => ActiveDiscMode::Vcd10Linear,
    }
}

/// The page an interactive disc opens on and the video played over it first:
/// the home page of the start-up class (`HOMEPAGE.CHM` without one) and its
/// opening video, when it names one.
pub fn startup_plan(cfg: Option<&crate::assets::cls::AutoRunConfig>) -> (r: (String, Option<String>))
    ensures
        r.0@ == (match cfg {
            Some(c) => c.homepage_chm@,
            None => "HOMEPAGE.CHM"@,
        }),
        match r.1 {
            Some(v) => cfg matches Some(c) && c.opening_mpeg matches Some(m) && m@.len() > 0 && v@ == m@,
            None => !(cfg matches Some(c) && c.opening_mpeg matches Some(m) && m@.len() > 0),
        },
{
    match cfg {
        Some(c) => {
            let mut home = String::new();
            push_str(&mut home, c.homepage_chm.as_str());
            let video = match &c.opening_mpeg {
                Some(m) => if m.unicode_len() > 0 {
                    let mut v = String::new();
                    push_str(&mut v, m.as_str());
                    Some(v)
                } else {
                    None
                },
                None => None,
            };
            (home, video)
        },
        None => (String::from_str("HOMEPAGE.CHM"), None),
    }
}

/// The canvas cleared to opaque black, pixel by pixel; a trailing partial
/// pixel is left alone.
pub open spec fn cleared(old: Seq<u8>) -> Seq<u8> {
    Seq::new(
        old.len(),
        |k: int|
            if k - k % 4 + 4 <= old.len() {
                if k % 4 == 3 {
                    255u8
                } else {
                    0u8
                }
            } else {
                old[k]
            },
    )
}

/// Clears the canvas to opaque black.
pub fn clear_canvas(canvas: &mut [u8])
    ensures
        final(canvas)@ == cleared(old(canvas)@),
{
    let ghost start = canvas@;
    let n = canvas.len();
    let whole = n / 4;
    let mut p: usize = 0;
    while p < whole
        invariant
            n == canvas@.len(),
            n == start.len(),
            whole == n / 4,
            p <= whole,
            forall|k: int|
                0 <= k < n ==> #[trigger] canvas@[k] == if k < p * 4 {
                    cleared(start)[k]
                } else {
                    start[k]
                },
        decreases whole - p,
    {
        canvas[4 * p] = 0;
        canvas[4 * p + 1] = 0;
        canvas[4 * p + 2] = 0;
        canvas[4 * p + 3] = 255;
        p += 1;
    }
    assert forall|k: int| 0 <= k < n implies #[trigger] canvas@[k] == cleared(start)[k] by {
        if k >= whole * 4 {
            assert(k - k % 4 + 4 > n);
        }
    }
    assert(canvas@ =~= cleared(start));
}

/// Why the kernel could not open a disc or a page.
#[derive(Debug, Clone, PartialEq, Eq)]
pub enum KernelError {
    DiscNotFound(String),
    FileNotFound(String),
    ChmParseError(String),
    YbmDecodeError(String),
}

impl KernelError {
    /// The text of the error.
    pub fn message(&self) -> (r: String)
        ensures
            r@ == (match self {
                KernelError::DiscNotFound(p) => "Disc directory not found: "@ + p@,
                KernelError::FileNotFound(p) => "File not found: "@ + p@,
                KernelError::ChmParseError(e) => "CHM parse error: "@ + e@,
                KernelError::YbmDecodeError(e) => "YBM decode error: "@ + e@,
            }),
    {
        let mut s = String::new();
        match self {
            KernelError::DiscNotFound(p) => {
                push_str(&mut s, "Disc directory not found: ");
                push_str(&mut s, p.as_str());
            },
            KernelError::FileNotFound(p) => {
                push_str(&mut s, "File not found: ");
                push_str(&mut s, p.as_str());
            },
            KernelError::ChmParseError(e) => {
                push_str(&mut s, "CHM parse error: ");
                push_str(&mut s, e.as_str());
            },
            KernelError::YbmDecodeError(e) => {
                push_str(&mut s, "YBM decode error: ");
                push_str(&mut s, e.as_str());
            },
        }
        s
    }
}

// ---------------------------------------------------------------------------
// Hotspot micro-scripts
// ---------------------------------------------------------------------------

/// The value of a micro-script operand: a variable named `i_x` or by one
/// letter, else a decimal number, else 0.
pub open spec fn operand_value(vars: Seq<i32>, s: Seq<char>) -> i32 {
    let t = trim(s);
    if t.len() == 0 {
        0
    } else if var_index_spec(t) is Some && (starts_with(t, "i_"@) || starts_with(t, "I_"@) || (t.len() == 1
        && is_alpha(t[0]))) {
        vars[var_index_spec(t)->Some_0 as int]
    } else {
        match parse_i32(t) {
            Some(n) => n,
            None => 0,
        }
    }
}

/// The value a micro-script assigns: `op1` alone when `op2` is blank, else
/// `op1 <opcode> op2` with opcodes 0..3 for `+ - * /` (saturating; a zero
/// divisor gives 0) and `op1` for any other opcode.
pub open spec fn micro_value(vars: Seq<i32>, op: crate::assets::chm::MicroOpView) -> int {
    let a = operand_value(vars, op.op1);
    let b = operand_value(vars, op.op2);
    if trim(op.op2).len() == 0 {
        a as int
    } else if op.opcode == 0 {
        clamp32(a + b) as int
    } else if op.opcode == 1 {
        clamp32(a - b) as int
    } else if op.opcode == 2 {
        clamp32(a * b) as int
    } else if op.opcode == 3 {
        if b == 0 {
            0
        } else {
            tdiv(a as int, b as int)
        }
    } else {
        a as int
    }
}

/// `i32::MIN / -1`, a quotient that `i32` cannot hold.
pub open spec fn micro_overflows(vars: Seq<i32>, op: crate::assets::chm::MicroOpView) -> bool {
    trim(op.op2).len() != 0 && op.opcode == 3 && operand_value(vars, op.op1) == i32::MIN && operand_value(
        vars,
        op.op2,
    ) == -1
}

fn operand(vars: &[i32; 26], s: &str) -> (r: i32)
    ensures
        r == operand_value(vars@, s@),
{
    let v = chars_of(s);
    assert(v@.subrange(0, v@.len() as int) =~= v@);
    let (a, b) = trim_range(&v, 0, v.len());
    if a == b {
        return 0;
    }
    let t = crate::text::string_from_range(&v, a, b);
    let idx = var_name_to_index(t.as_str());
    proof {
        crate::text::lemma_trim_idem(v@);
    }
    if let Some(i) = idx {
        let c = v[a];
        assert(v@.subrange(a as int, b as int)[0] == c);
        if range_occurs_at(&v, a, b, "i_", 0) || range_occurs_at(&v, a, b, "I_", 0) || (b - a == 1 && (('a'
            <= c && c <= 'z') || ('A' <= c && c <= 'Z'))) {
            return vars[i];
        }
    }
    match range_parse_i32(&v, a, b) {
        Some(n) => n,
        None => 0,
    }
}

/// Runs one micro-script of a hotspot: sets its target variable, when it
/// names one, to `micro_value`.
pub fn execute_micro_script(vars: &mut [i32; 26], op: &crate::assets::chm::MicroScriptOp)
    requires
        !micro_overflows(old(vars)@, op@),
    ensures
        final(vars)@ == (match var_index_spec(op.target_var@) {
            Some(i) => old(vars)@.update(i as int, micro_value(old(vars)@, op@) as i32),
            None => old(vars)@,
        }),
{
    let a = operand(vars, op.op1.as_str());
    let b = operand(vars, op.op2.as_str());
    let v2 = chars_of(op.op2.as_str());
    assert(v2@.subrange(0, v2@.len() as int) =~= v2@);
    let (p, q) = trim_range(&v2, 0, v2.len());
    let res: i32 = if p == q {
        a
    } else if op.opcode == 0 {
        match a.checked_add(b) {
            Some(x) => x,
            None => if b > 0 { i32::MAX } else { i32::MIN },
        }
    } else if op.opcode == 1 {
        match a.checked_sub(b) {
            Some(x) => x,
            None => if b < 0 { i32::MAX } else { i32::MIN },
        }
    } else if op.opcode == 2 {
        match a.checked_mul(b) {
            Some(x) => x,
            None => {
                if (a > 0) == (b > 0) {
                    assert(a * b >= 0) by (nonlinear_arith)
                        requires
                            (a > 0) == (b > 0),
                            a != 0,
                            b != 0,
                    ;
                    i32::MAX
                } else {
                    assert(a * b <= 0) by (nonlinear_arith)
                        requires
                            (a > 0) != (b > 0),
                    ;
                    i32::MIN
                }
            },
        }
    } else if op.opcode == 3 {
        if b != 0 {
            proof {
                crate::interactive::script_ast::lemma_tdiv_range(a as int, b as int);
            }
            match a.checked_div(b) {
                Some(x) => x,
                None => 0,
            }
        } else {
            0
        }
    } else {
        a
    };
    if let Some(i) = var_name_to_index(op.target_var.as_str()) {
        vars[i] = res;
    }
}

// ---------------------------------------------------------------------------
// Remote keys
// ---------------------------------------------------------------------------

/// What a remote-control key does.
#[derive(Debug, Clone, Copy, PartialEq, Eq, Structural)]
pub enum KeyRoute {
    /// A digit for the classic-mode selection menu.
    PbcDigit(u8),
    /// Confirm the classic-mode selection.
    PbcEnter,
    /// Back in classic mode.
    PbcReturn,
    /// Previous item in classic mode.
    PbcPrev,
    /// Next item in classic mode.
    PbcNext,
    /// A digit choosing a track in linear mode.
    LinearDigit(u8),
    /// Confirm the track number typed in linear mode.
    LinearEnter,
    /// Stop the video and return to what started it.
    StopVideo,
    /// Previous track in linear mode.
    PrevTrack,
    /// Next track in linear mode, wrapping at the end.
    NextTrack,
    /// Hand the key to the waiting page script.
    ScriptKey,
    /// Go back a page, or home when there is no page to go back to.
    BackOrHome,
    /// Nothing.
    Ignore,
}

/// The route of remote key `key`: classic-mode keys when a PBC engine runs,
/// linear-mode keys, then the stop key during a video, then the page
/// script's key wait, then the back key. Keys 0..9 are digits, 31 confirms,
/// 32 goes back, 34 and 36 go to the previous item, 35 and 37 to the next.
pub open spec fn key_route(mode: ActiveDiscMode, has_pbc: bool, video_active: bool, waiting_for_key: bool, key: i32) -> KeyRoute {
    if mode == ActiveDiscMode::Vcd20Classic && has_pbc {
        if 0 <= key <= 9 {
            KeyRoute::PbcDigit(key as u8)
        } else if key == 31 {
            KeyRoute::PbcEnter
        } else if key == 32 {
            KeyRoute::PbcReturn
        } else if key == 34 || key == 36 {
            KeyRoute::PbcPrev
        } else if key == 35 || key == 37 {
            KeyRoute::PbcNext
        } else {
            KeyRoute::Ignore
        }
    } else if mode == ActiveDiscMode::Vcd10Linear {
        if 0 <= key <= 9 {
            KeyRoute::LinearDigit(key as u8)
        } else if key == 31 {
            KeyRoute::LinearEnter
        } else if key == 32 {
            KeyRoute::StopVideo
        } else if key == 34 || key == 36 {
            KeyRoute::PrevTrack
        } else if key == 35 || key == 37 {
            KeyRoute::NextTrack
        } else {
            KeyRoute::Ignore
        }
    } else if video_active {
        if key == 32 {
            KeyRoute::StopVideo
        } else {
            KeyRoute::Ignore
        }
    } else if waiting_for_key {
        KeyRoute::ScriptKey
    } else if key == 32 {
        KeyRoute::BackOrHome
    } else {
        KeyRoute::Ignore
    }
}

/// Routes a remote key (`key_route`).
pub fn route_remote_key(mode: ActiveDiscMode, has_pbc: bool, video_active: bool, waiting_for_key: bool, key: i32) -> (r: KeyRoute)
    ensures
        r == key_route(mode, has_pbc, video_active, waiting_for_key, key),
{
    if mode == ActiveDiscMode::Vcd20Classic && has_pbc {
        if 0 <= key && key <= 9 {
            KeyRoute::PbcDigit(key as u8)
        } else if key == 31 {
            KeyRoute::PbcEnter
        } else if key == 32 {
            KeyRoute::PbcReturn
        } else if key == 34 || key == 36 {
            KeyRoute::PbcPrev
        } else if key == 35 || key == 37 {
            KeyRoute::PbcNext
        } else {
            KeyRoute::Ignore
        }
    } else if mode == ActiveDiscMode::Vcd10Linear {
        if 0 <= key && key <= 9 {
            KeyRoute::LinearDigit(key as u8)
        } else if key == 31 {
            KeyRoute::LinearEnter
        } else if key == 32 {
            KeyRoute::StopVideo
        } else if key == 34 || key == 36 {
            KeyRoute::PrevTrack
        } else if key == 35 || key == 37 {
            KeyRoute::NextTrack
        } else {
            KeyRoute::Ignore
        }
    } else if video_active {
        if key == 32 {
            KeyRoute::StopVideo
        } else {
            KeyRoute::Ignore
        }
    } else if waiting_for_key {
        KeyRoute::ScriptKey
    } else if key == 32 {
        KeyRoute::BackOrHome
    } else {
        KeyRoute::Ignore
    }
}

/// After a key went to the page script: the back key that finished the script
/// also goes back a page.
pub fn back_after_script(finished: bool, key: i32) -> (r: bool)
    ensures
        r == (finished && key == 32),
{
    finished && key == 32
}

// ---------------------------------------------------------------------------
// Numeric input
// ---------------------------------------------------------------------------

/// The number typed as the digits `b`.
pub open spec fn digits_value(b: Seq<u8>) -> int
    decreases b.len(),
{
    if b.len() == 0 {
        0
    } else {
        digits_value(b.drop_last()) * 10 + b.last()
    }
}

/// What a digit key leads to.
#[derive(Debug, Clone, Copy, PartialEq, Eq, Structural)]
pub enum DigitOutcome {
    /// Nothing happens.
    Ignore,
    /// Choose this number.
    Select(usize),
    /// The digit is kept, waiting for more.
    Wait,
}

proof fn lemma_digits_value_mono(b: Seq<u8>)
    ensures
        digits_value(b) >= 0,
        b.len() > 0 ==> digits_value(b) >= digits_value(b.drop_last()) * 10,
    decreases b.len(),
{
    if b.len() > 0 {
        lemma_digits_value_mono(b.drop_last());
    }
}

/// The number typed so far.
fn buffered_value(buffer: &Vec<u8>) -> (r: usize)
    requires
        digits_value(buffer@) <= usize::MAX,
    ensures
        r == digits_value(buffer@),
{
    let mut acc: usize = 0;
    let mut i: usize = 0;
    while i < buffer.len()
        invariant
            i <= buffer@.len(),
            digits_value(buffer@) <= usize::MAX,
            acc == digits_value(buffer@.take(i as int)),
        decreases buffer@.len() - i,
    {
        proof {
            assert(buffer@.take(i + 1).drop_last() =~= buffer@.take(i as int));
            lemma_prefix_value(buffer@, i + 1);
        }
        acc = acc * 10 + buffer[i] as usize;
        i += 1;
    }
    assert(buffer@.take(i as int) =~= buffer@);
    acc
}

proof fn lemma_prefix_value(b: Seq<u8>, k: int)
    requires
        0 <= k <= b.len(),
    ensures
        digits_value(b.take(k)) <= digits_value(b),
    decreases b.len() - k,
{
    if k < b.len() {
        lemma_prefix_value(b, k + 1);
        assert(b.take(k + 1).drop_last() =~= b.take(k));
        lemma_digits_value_mono(b.take(k + 1));
        lemma_digits_value_mono(b.take(k));
    } else {
        assert(b.take(k) =~= b);
    }
}

/// The outcome of digit `digit` on a menu whose numbers run from `bsn` to
/// `max`, with the digits typed so far in `buffer`: with no numbers nothing
/// happens; with at most nine numbers the digit chooses at once; otherwise
/// the digit is typed, and the number is chosen (and the typing cleared) once
/// no further digit can extend it, two digits are typed, or it is already a
/// number of the menu that no further digit could extend.
pub open spec fn digit_outcome(max: usize, bsn: usize, typed: Seq<u8>) -> DigitOutcome {
    let val = digits_value(typed);
    if val * 10 > max || typed.len() >= 2 || (val >= bsn && val > max / 10 && val <= max) {
        DigitOutcome::Select(val as usize)
    } else {
        DigitOutcome::Wait
    }
}

/// Handles a digit key on a menu (`digit_outcome`).
pub fn menu_digit(max: usize, bsn: usize, buffer: &mut Vec<u8>, digit: u8) -> (r: DigitOutcome)
    requires
        max > 9 ==> digits_value(old(buffer)@.push(digit)) * 10 <= usize::MAX,
    ensures
        max == 0 ==> r == DigitOutcome::Ignore && final(buffer)@ == old(buffer)@,
        0 < max <= 9 ==> r == DigitOutcome::Select(digit as usize) && final(buffer)@ == old(buffer)@,
        max > 9 ==> r == digit_outcome(max, bsn, old(buffer)@.push(digit)) && final(buffer)@ == (if r is Select {
            Seq::<u8>::empty()
        } else {
            old(buffer)@.push(digit)
        }),
{
    if max == 0 {
        return DigitOutcome::Ignore;
    }
    if max <= 9 {
        return DigitOutcome::Select(digit as usize);
    }
    buffer.push(digit);
    let val = buffered_value(buffer);
    if val * 10 > max || buffer.len() >= 2 || (val >= bsn && val > max / 10 && val <= max) {
        buffer.clear();
        DigitOutcome::Select(val)
    } else {
        DigitOutcome::Wait
    }
}

/// Handles a digit key choosing one of `count` tracks: a chosen number
/// outside 1..=count chooses nothing.
pub fn track_digit(count: usize, buffer: &mut Vec<u8>, digit: u8) -> (r: DigitOutcome)
    requires
        count > 9 ==> digits_value(old(buffer)@.push(digit)) * 10 <= usize::MAX,
    ensures
        count == 0 ==> r == DigitOutcome::Ignore && final(buffer)@ == old(buffer)@,
        0 < count <= 9 ==> final(buffer)@ == old(buffer)@ && r == (if 1 <= digit <= count {
            DigitOutcome::Select(digit as usize)
        } else {
            DigitOutcome::Ignore
        }),
        count > 9 ==> {
            let d = digit_outcome(count, 1, old(buffer)@.push(digit));
            &&& final(buffer)@ == (if d is Select {
                Seq::<u8>::empty()
            } else {
                old(buffer)@.push(digit)
            })
            &&& r == (match d {
                DigitOutcome::Select(v) => if 1 <= v <= count {
                    DigitOutcome::Select(v)
                } else {
                    DigitOutcome::Ignore
                },
                _ => d,
            })
        },
{
    if count == 0 {
        return DigitOutcome::Ignore;
    }
    if count <= 9 {
        let sel = digit as usize;
        return if sel >= 1 && sel <= count {
            DigitOutcome::Select(sel)
        } else {
            DigitOutcome::Ignore
        };
    }
    match menu_digit(count, 1, buffer, digit) {
        DigitOutcome::Select(v) => if v >= 1 && v <= count {
            DigitOutcome::Select(v)
        } else {
            DigitOutcome::Ignore
        },
        d => d,
    }
}

/// Takes the typed number, clearing the typing; `None` when nothing was typed.
pub fn take_typed(buffer: &mut Vec<u8>) -> (r: Option<usize>)
    requires
        digits_value(old(buffer)@) <= usize::MAX,
    ensures
        old(buffer)@.len() == 0 ==> r is None && final(buffer)@ == old(buffer)@,
        old(buffer)@.len() > 0 ==> r == Some(digits_value(old(buffer)@) as usize) && final(buffer)@ == Seq::<
            u8,
        >::empty(),
{
    if buffer.len() == 0 {
        return None;
    }
    let val = buffered_value(buffer);
    buffer.clear();
    Some(val)
}

/// Whether typed digits have waited long enough (2 s) to be taken as they are.
pub fn typing_timed_out(typed: usize, elapsed_ms: Option<u64>) -> (r: bool)
    ensures
        r == (typed > 0 && (match elapsed_ms {
            Some(t) => t >= 2000,
            None => false,
        })),
{
    if typed == 0 {
        return false;
    }
    match elapsed_ms {
        Some(t) => t >= 2000,
        None => false,
    }
}

// ---------------------------------------------------------------------------
// Tracks
// ---------------------------------------------------------------------------

/// The track before the current one (the first track when none is current);
/// the list wraps to its last track in list-repeat mode.
pub open spec fn prev_track(count: usize, cur: Option<usize>, mode: PlaybackMode) -> Option<usize> {
    let c = match cur {
        Some(i) => i,
        None => 0,
    };
    if count == 0 {
        None
    } else if c > 0 {
        Some((c - 1) as usize)
    } else if mode == PlaybackMode::ListRepeat {
        Some((count - 1) as usize)
    } else {
        Some(0)
    }
}

/// The track to go back to (`prev_track`).
pub fn prev_track_index(count: usize, cur: Option<usize>, mode: PlaybackMode) -> (r: Option<usize>)
    ensures
        r == prev_track(count, cur, mode),
{
    let c = match cur {
        Some(i) => i,
        None => 0,
    };
    if count == 0 {
        None
    } else if c > 0 {
        Some(c - 1)
    } else if mode == PlaybackMode::ListRepeat {
        Some(count - 1)
    } else {
        Some(0)
    }
}

/// Moving on from the current track.
#[derive(Debug, Clone, Copy, PartialEq, Eq, Structural)]
pub enum NextTrack {
    /// There are no tracks.
    Nothing,
    /// Play this track.
    Play(usize),
    /// Stop the video: the list has ended.
    Stop,
}

/// The track after the current one (the first when none is current); past the
/// last track the list wraps when asked to or in list-repeat mode, else stops.
pub open spec fn next_track(count: usize, cur: Option<usize>, allow_wrap: bool, mode: PlaybackMode) -> NextTrack {
    let c = match cur {
        Some(i) => i,
        None => 0,
    };
    if count == 0 {
        NextTrack::Nothing
    } else if c + 1 < count {
        NextTrack::Play((c + 1) as usize)
    } else if allow_wrap || mode == PlaybackMode::ListRepeat {
        NextTrack::Play(0)
    } else {
        NextTrack::Stop
    }
}

/// The track to move on to (`next_track`).
pub fn next_track_index(count: usize, cur: Option<usize>, allow_wrap: bool, mode: PlaybackMode) -> (r: NextTrack)
    ensures
        r == next_track(count, cur, allow_wrap, mode),
{
    let c = match cur {
        Some(i) => i,
        None => 0,
    };
    if count == 0 {
        NextTrack::Nothing
    } else if c < count - 1 {
        NextTrack::Play(c + 1)
    } else if allow_wrap || mode == PlaybackMode::ListRepeat {
        NextTrack::Play(0)
    } else {
        NextTrack::Stop
    }
}

/// What to do when a video ends.
#[derive(Debug, Clone, Copy, PartialEq, Eq, Structural)]
pub enum VideoEnd {
    /// Close the video and let the PBC engine move on.
    PbcItemFinished,
    /// Play the current track again.
    Repeat,
    /// Move on, wrapping at the end of the list.
    NextWrapping,
    /// Move on, stopping at the end of the list.
    NextOrStop,
    /// Close the video and return to the page.
    Exit,
}

/// The action at the end of a video: the PBC engine decides in classic mode,
/// the playback mode in the other non-interactive modes, and an interactive
/// page gets control back.
pub open spec fn video_end(mode: ActiveDiscMode, has_pbc: bool, playback: PlaybackMode) -> VideoEnd {
    if mode == ActiveDiscMode::Vcd20Classic && has_pbc {
        VideoEnd::PbcItemFinished
    } else if mode != ActiveDiscMode::Vcd30Interactive {
        match playback {
            PlaybackMode::SingleRepeat => VideoEnd::Repeat,
            PlaybackMode::ListRepeat => VideoEnd::NextWrapping,
            PlaybackMode::Sequential => VideoEnd::NextOrStop,
        }
    } else {
        VideoEnd::Exit
    }
}

/// Decides what follows the end of a video (`video_end`).
pub fn on_video_end(mode: ActiveDiscMode, has_pbc: bool, playback: PlaybackMode) -> (r: VideoEnd)
    ensures
        r == video_end(mode, has_pbc, playback),
{
    if mode == ActiveDiscMode::Vcd20Classic && has_pbc {
        VideoEnd::PbcItemFinished
    } else if mode != ActiveDiscMode::Vcd30Interactive {
        match playback {
            PlaybackMode::SingleRepeat => VideoEnd::Repeat,
            PlaybackMode::ListRepeat => VideoEnd::NextWrapping,
            PlaybackMode::Sequential => VideoEnd::NextOrStop,
        }
    } else {
        VideoEnd::Exit
    }
}

/// A track of a PBC item: the first track with the item's track number, or
/// whose position is the item number less one (items 2..99 are tracks).
pub open spec fn pbc_track_match(t: (u8, usize), track_number: u8, item_id: u16) -> bool {
    t.0 == track_number || (2 <= item_id <= 99 && t.1 == item_id - 1)
}

/// The track to play for a PBC item among `tracks` (track number, index):
/// the first match, else track number less two clamped to the list, else none.
pub fn resolve_pbc_track(tracks: &Vec<(u8, usize)>, track_number: u8, item_id: u16) -> (r: Option<usize>)
    ensures
        match r {
            Some(i) => i < tracks@.len() && ((pbc_track_match(tracks@[i as int], track_number, item_id) && forall|k: int|
                0 <= k < i ==> !pbc_track_match(tracks@[k], track_number, item_id)) || ((forall|k: int|
                0 <= k < tracks@.len() ==> !pbc_track_match(tracks@[k], track_number, item_id)) && i == (if track_number
                >= 2 && track_number - 2 < tracks@.len() {
                track_number - 2
            } else if track_number >= 2 {
                tracks@.len() - 1
            } else {
                0
            }))),
            None => tracks@.len() == 0,
        },
{
    let mut i: usize = 0;
    while i < tracks.len()
        invariant
            i <= tracks@.len(),
            forall|k: int| 0 <= k < i ==> !pbc_track_match(tracks@[k], track_number, item_id),
        decreases tracks@.len() - i,
    {
        let (no, idx) = tracks[i];
        if no == track_number || (item_id >= 2 && item_id <= 99 && idx == (item_id - 1) as usize) {
            return Some(i);
        }
        i += 1;
    }
    if tracks.len() == 0 {
        return None;
    }
    let base: usize = if track_number >= 2 {
        (track_number - 2) as usize
    } else {
        0
    };
    Some(if base < tracks.len() - 1 {
        base
    } else {
        tracks.len() - 1
    })
}

/// Whether the playback-control clock runs: only on a classic disc whose
/// engine is set up, and then while the engine counts a wait or a menu
/// timeout down.
pub fn has_active_pbc_timer(mode: ActiveDiscMode, pbc: &Option<PbcEngine>) -> (r: bool)
    ensures
        r == (mode == ActiveDiscMode::Vcd20Classic && (match pbc {
            Some(e) => e.timer_spec() is Some,
            None => false,
        })),
{
    if mode != ActiveDiscMode::Vcd20Classic {
        return false;
    }
    match pbc {
        Some(e) => e.has_active_timer(),
        None => false,
    }
}

/// Drives the playback-control clock by `dt_ms` milliseconds: on a classic
/// disc with an engine, the engine's tick, giving the action to carry out;
/// otherwise nothing changes.
pub fn tick_pbc(mode: ActiveDiscMode, pbc: &mut Option<PbcEngine>, dt_ms: u32) -> (r: Option<PbcAction>)
    requires
        *old(pbc) matches Some(e) ==> e.wf(),
    ensures
        mode == ActiveDiscMode::Vcd20Classic ==> match *old(pbc) {
            Some(o) => (*final(pbc) matches Some(e) && e.wf() && e.took(&o, o.tick_step(dt_ms)) && r
                == o.tick_step(dt_ms).action),
            None => *final(pbc) == *old(pbc) && r is None,
        },
        mode != ActiveDiscMode::Vcd20Classic ==> *final(pbc) == *old(pbc) && r is None,
{
    if mode != ActiveDiscMode::Vcd20Classic {
        return None;
    }
    match pbc {
        Some(e) => e.tick(dt_ms),
        None => None,
    }
}

/// The page name the player shows once a PBC action is carried out: the
/// still menu's segment file, the motion menu's track number, and none while
/// a track plays or after the end.
pub open spec fn pbc_page_name_spec(a: PbcAction) -> Seq<char> {
    match a {
        PbcAction::DisplayStillMenu { segment_index, .. } => "PBC 菜单 (ITEM"@ + padded_text(
            segment_index as nat,
            4,
        ) + ".DAT)"@,
        PbcAction::PlayMotionMenu { track_number, .. } => "PBC 动态选单 ("@ + dec_digits(track_number as nat)
            + ")"@,
        _ => Seq::empty(),
    }
}

/// The page name shown after carrying out `a` (`pbc_page_name_spec`).
pub fn pbc_page_name(a: &PbcAction) -> (r: String)
    ensures
        r@ == pbc_page_name_spec(*a),
{
    let mut s = String::new();
    match a {
        PbcAction::DisplayStillMenu { segment_index, .. } => {
            push_str(&mut s, "PBC 菜单 (ITEM");
            push_padded(&mut s, *segment_index as u64, 4);
            push_str(&mut s, ".DAT)");
        },
        PbcAction::PlayMotionMenu { track_number, .. } => {
            push_str(&mut s, "PBC 动态选单 (");
            push_dec(&mut s, *track_number as u64);
            push_str(&mut s, ")");
        },
        _ => {},
    }
    s
}

/// The error when what a PBC action needs is not on the disc: no track to
/// play, or no file for the still menu.
pub open spec fn pbc_missing_spec(a: PbcAction) -> Seq<char> {
    match a {
        PbcAction::PlayTrack { track_number, .. } => "未找到 PBC 轨道: "@ + dec_digits(track_number as nat),
        PbcAction::DisplayStillMenu { segment_index, .. } => "未找到段菜单文件: ITEM"@ + padded_text(
            segment_index as nat,
            4,
        ) + ".DAT"@,
        PbcAction::PlayMotionMenu { track_number, .. } => "未找到 PBC 动态选单轨道: "@ + dec_digits(
            track_number as nat,
        ),
        PbcAction::End => Seq::empty(),
    }
}

/// The error for `a` when what it needs is missing (`pbc_missing_spec`).
pub fn pbc_missing_message(a: &PbcAction) -> (r: String)
    ensures
        r@ == pbc_missing_spec(*a),
{
    let mut s = String::new();
    match a {
        PbcAction::PlayTrack { track_number, .. } => {
            push_str(&mut s, "未找到 PBC 轨道: ");
            push_dec(&mut s, *track_number as u64);
        },
        PbcAction::DisplayStillMenu { segment_index, .. } => {
            push_str(&mut s, "未找到段菜单文件: ITEM");
            push_padded(&mut s, *segment_index as u64, 4);
            push_str(&mut s, ".DAT");
        },
        PbcAction::PlayMotionMenu { track_number, .. } => {
            push_str(&mut s, "未找到 PBC 动态选单轨道: ");
            push_dec(&mut s, *track_number as u64);
        },
        PbcAction::End => {},
    }
    s
}

/// The files a karaoke song number may be stored in, in the order they are tried.
pub fn karaoke_candidates(song_id: i32) -> (r: Vec<String>)
    ensures
        r@.len() == 4,
        r@[0]@ == (if song_id < 10 { "MPEGAV/MUSIC0"@ } else { "MPEGAV/MUSIC"@ }) + int_text(song_id as int) + ".DAT"@,
        r@[1]@ == (if song_id < 10 { "MPEGAV/AVSEQ0"@ } else { "MPEGAV/AVSEQ"@ }) + int_text(song_id as int) + ".DAT"@,
        r@[2]@ == (if song_id < 10 { "MUSIC0"@ } else { "MUSIC"@ }) + int_text(song_id as int) + ".DAT"@,
        r@[3]@ == (if song_id < 10 { "AVSEQ0"@ } else { "AVSEQ"@ }) + int_text(song_id as int) + ".DAT"@,
{
    let small = song_id < 10;
    let mut r: Vec<String> = Vec::new();
    let mut a = String::new();
    push_str(&mut a, if small { "MPEGAV/MUSIC0" } else { "MPEGAV/MUSIC" });
    push_int(&mut a, song_id as i64);
    push_str(&mut a, ".DAT");
    r.push(a);
    let mut b = String::new();
    push_str(&mut b, if small { "MPEGAV/AVSEQ0" } else { "MPEGAV/AVSEQ" });
    push_int(&mut b, song_id as i64);
    push_str(&mut b, ".DAT");
    r.push(b);
    let mut c = String::new();
    push_str(&mut c, if small { "MUSIC0" } else { "MUSIC" });
    push_int(&mut c, song_id as i64);
    push_str(&mut c, ".DAT");
    r.push(c);
    let mut d = String::new();
    push_str(&mut d, if small { "AVSEQ0" } else { "AVSEQ" });
    push_int(&mut d, song_id as i64);
    push_str(&mut d, ".DAT");
    r.push(d);
    r
}

// ---------------------------------------------------------------------------
// Page history
// ---------------------------------------------------------------------------

/// The pages behind and ahead of the current one.
#[derive(Debug, Clone)]
pub struct PageHistory {
    pub back: Vec<String>,
    pub forward: Vec<String>,
}

impl PageHistory {
    /// The pages behind, oldest first.
    pub open spec fn back_view(&self) -> Seq<Seq<char>> {
        self.back@.map_values(|s: String| s@)
    }

    /// The pages ahead, farthest first.
    pub open spec fn forward_view(&self) -> Seq<Seq<char>> {
        self.forward@.map_values(|s: String| s@)
    }

    /// No pages behind or ahead.
    pub fn new() -> (r: Self)
        ensures
            r.back_view().len() == 0,
            r.forward_view().len() == 0,
    {
        PageHistory { back: Vec::new(), forward: Vec::new() }
    }

    /// Leaving page `current` for a new one: it goes behind and the pages ahead are dropped.
    /// Without a current page nothing changes.
    pub fn visit(&mut self, current: &str)
        ensures
            current@.len() == 0 ==> final(self).back_view() == old(self).back_view() && final(self).forward_view()
                == old(self).forward_view(),
            current@.len() > 0 ==> final(self).back_view() == old(self).back_view().push(current@)
                && final(self).forward_view().len() == 0,
    {
        if current.is_empty() {
            return;
        }
        let ghost b = self.back_view();
        self.back.push(String::from_str(current));
        assert(self.back_view() =~= b.push(current@));
        self.forward.clear();
        assert(self.forward_view() =~= Seq::<Seq<char>>::empty());
    }

    /// Going back from page `current`: the page behind, with `current` put ahead.
    pub fn go_back(&mut self, current: &str) -> (r: Option<String>)
        ensures
            old(self).back_view().len() == 0 ==> r is None && final(self).back_view() == old(self).back_view()
                && final(self).forward_view() == old(self).forward_view(),
            old(self).back_view().len() > 0 ==> (r matches Some(p) && p@ == old(self).back_view().last())
                && final(self).back_view() == old(self).back_view().drop_last() && final(self).forward_view()
                == old(self).forward_view().push(current@),
    {
        let ghost b = self.back_view();
        let ghost f = self.forward_view();
        match self.back.pop() {
            Some(prev) => {
                assert(self.back_view() =~= b.drop_last());
                self.forward.push(String::from_str(current));
                assert(self.forward_view() =~= f.push(current@));
                Some(prev)
            },
            None => None,
        }
    }

    /// Going forward from page `current`: the page ahead, with `current` put behind.
    pub fn go_forward(&mut self, current: &str) -> (r: Option<String>)
        ensures
            old(self).forward_view().len() == 0 ==> r is None && final(self).back_view() == old(self).back_view()
                && final(self).forward_view() == old(self).forward_view(),
            old(self).forward_view().len() > 0 ==> (r matches Some(p) && p@ == old(self).forward_view().last())
                && final(self).forward_view() == old(self).forward_view().drop_last() && final(self).back_view()
                == old(self).back_view().push(current@),
    {
        let ghost b = self.back_view();
        let ghost f = self.forward_view();
        match self.forward.pop() {
            Some(next) => {
                assert(self.forward_view() =~= f.drop_last());
                self.back.push(String::from_str(current));
                assert(self.back_view() =~= b.push(current@));
                Some(next)
            },
            None => None,
        }
    }

    /// Forgets all pages.
    pub fn clear(&mut self)
        ensures
            final(self).back_view().len() == 0,
            final(self).forward_view().len() == 0,
    {
        self.back.clear();
        self.forward.clear();
    }
}

/// Going back from `cur` and then forward from the page reached returns to
/// `cur`, with the history as it was.
pub proof fn lemma_back_then_forward(back: Seq<Seq<char>>, forward: Seq<Seq<char>>, cur: Seq<char>)
    requires
        back.len() > 0,
    ensures
        ({
            let prev = back.last();
            let back1 = back.drop_last();
            let fwd1 = forward.push(cur);
            fwd1.last() == cur && fwd1.drop_last() == forward && back1.push(prev) == back
        }),
{
    assert(forward.push(cur).drop_last() =~= forward);
    assert(back.drop_last().push(back.last()) =~= back);
}

// ---------------------------------------------------------------------------
// Hit testing
// ---------------------------------------------------------------------------

/// The point lies in the area's box, edges included.
pub open spec fn inside(a: AreaView, x: i32, y: i32) -> bool {
    let b = raw_box(a);
    b.0 <= x <= b.2 && b.1 <= y <= b.3
}

/// Scanning `s` from `i` for the first area, not a point anchor, whose box
/// holds the point. `None` where an area's width or height leaves `i32`.
pub open spec fn exact_scan(s: Seq<AreaView>, i: int, x: i32, y: i32) -> Option<Option<int>>
    decreases s.len() - i,
{
    if i < 0 || i >= s.len() {
        Some(None)
    } else if !spans_fit(s[i]) {
        None
    } else if !is_point(s[i]) && inside(s[i], x, y) {
        Some(Some(i))
    } else {
        exact_scan(s, i + 1, x, y)
    }
}

/// Whether the point lies near a thin underline area (at most 8 high, more
/// than 8 wide): 2 pixels beside it, 8 above, 3 below. The bounds are
/// compared in turn; `None` where one of them leaves `i32`.
pub open spec fn thin_hit(a: AreaView, x: i32, y: i32) -> Option<bool> {
    let b = raw_box(a);
    if b.3 - b.1 <= 8 && b.2 - b.0 > 8 {
        if b.0 - 2 < i32::MIN {
            None
        } else if !(x >= b.0 - 2) {
            Some(false)
        } else if b.2 + 2 > i32::MAX {
            None
        } else if !(x <= b.2 + 2) {
            Some(false)
        } else if b.1 - 8 < i32::MIN {
            None
        } else if !(y >= b.1 - 8) {
            Some(false)
        } else if b.3 + 3 > i32::MAX {
            None
        } else {
            Some(y <= b.3 + 3)
        }
    } else {
        Some(false)
    }
}

/// Scanning `s` from `i` for the first area, not a point anchor, the point is near (`thin_hit`).
pub open spec fn thin_scan(s: Seq<AreaView>, i: int, x: i32, y: i32) -> Option<Option<int>>
    decreases s.len() - i,
{
    if i < 0 || i >= s.len() {
        Some(None)
    } else if !spans_fit(s[i]) {
        None
    } else if is_point(s[i]) {
        thin_scan(s, i + 1, x, y)
    } else {
        match thin_hit(s[i], x, y) {
            None => None,
            Some(true) => Some(Some(i)),
            Some(false) => thin_scan(s, i + 1, x, y),
        }
    }
}

/// The squared distance from the point to the centre of a point anchor;
/// `None` where a sum, difference or product leaves `i32`.
pub open spec fn point_dist(a: AreaView, x: i32, y: i32) -> Option<int> {
    let b = raw_box(a);
    let sx = b.0 + b.2;
    let sy = b.1 + b.3;
    if !crate::assets::chm::fits_i32(sx) || !crate::assets::chm::fits_i32(sy) {
        None
    } else {
        let dx = x - half(sx);
        let dy = y - half(sy);
        if !crate::assets::chm::fits_i32(dx) || !crate::assets::chm::fits_i32(dx * dx) || !crate::assets::chm::fits_i32(dy)
            || !crate::assets::chm::fits_i32(dy * dy) || !crate::assets::chm::fits_i32(dx * dx + dy * dy) {
            None
        } else {
            Some(dx * dx + dy * dy)
        }
    }
}

/// Scanning `s` from `i` for the nearest point anchor within 16 pixels (the
/// first of equally near ones), with the best so far in `best`.
pub open spec fn point_scan(s: Seq<AreaView>, i: int, x: i32, y: i32, best: Option<(int, int)>) -> Option<Option<int>>
    decreases s.len() - i,
{
    if i < 0 || i >= s.len() {
        Some(
            match best {
                Some(b) => Some(b.0),
                None => None,
            },
        )
    } else if !spans_fit(s[i]) {
        None
    } else if !is_point(s[i]) {
        point_scan(s, i + 1, x, y, best)
    } else {
        match point_dist(s[i], x, y) {
            None => None,
            Some(d) => if d <= 256 && (match best {
                Some(b) => d < b.1,
                None => true,
            }) {
                point_scan(s, i + 1, x, y, Some((i, d)))
            } else {
                point_scan(s, i + 1, x, y, best)
            },
        }
    }
}

/// The area a click at the point hits: on an overlay page its areas by exact
/// box and then by underline tolerance; then on the page the same, then the
/// nearest point anchor. `(true, i)` names overlay area `i`, `(false, i)` page
/// area `i`. `None` where the arithmetic on some area leaves `i32`.
pub open spec fn hit_spec(overlay: Option<Seq<AreaView>>, page: Option<Seq<AreaView>>, x: i32, y: i32) -> Option<
    Option<(bool, int)>,
> {
    let over = match overlay {
        None => Some(None),
        Some(o) => match exact_scan(o, 0, x, y) {
            None => None,
            Some(Some(i)) => Some(Some(i)),
            Some(None) => thin_scan(o, 0, x, y),
        },
    };
    match over {
        None => None,
        Some(Some(i)) => Some(Some((true, i))),
        Some(None) => match page {
            None => Some(None),
            Some(p) => {
                let r = match exact_scan(p, 0, x, y) {
                    None => None,
                    Some(Some(i)) => Some(Some(i)),
                    Some(None) => match thin_scan(p, 0, x, y) {
                        None => None,
                        Some(Some(i)) => Some(Some(i)),
                        Some(None) => point_scan(p, 0, x, y, None),
                    },
                };
                match r {
                    None => None,
                    Some(Some(i)) => Some(Some((false, i))),
                    Some(None) => Some(None),
                }
            },
        },
    }
}

/// The views of a list of areas.
pub open spec fn areas_view(v: Seq<&MapArea>) -> Seq<AreaView> {
    v.map_values(|a: &MapArea| a@)
}

fn raw_box_wide(a: &MapArea) -> (r: (i64, i64, i64, i64))
    ensures
        r.0 == raw_box(a@).0 && r.1 == raw_box(a@).1 && r.2 == raw_box(a@).2 && r.3 == raw_box(a@).3,
{
    let (x0, y0, x1, y1) = a.raw_bounds();
    (x0 as i64, y0 as i64, x1 as i64, y1 as i64)
}

fn exact_scan_exec(v: &Vec<&MapArea>, x: i32, y: i32) -> (r: Option<Option<usize>>)
    ensures
        match r {
            None => exact_scan(areas_view(v@), 0, x, y) is None,
            Some(None) => exact_scan(areas_view(v@), 0, x, y) == Some(None::<int>),
            Some(Some(i)) => exact_scan(areas_view(v@), 0, x, y) == Some(Some(i as int)) && i < v@.len(),
        },
{
    let ghost s = areas_view(v@);
    let mut i: usize = 0;
    while i < v.len()
        invariant
            s == areas_view(v@),
            i <= v@.len(),
            exact_scan(s, 0, x, y) == exact_scan(s, i as int, x, y),
        decreases v@.len() - i,
    {
        let a = v[i];
        assert(s[i as int] == a@);
        let (x0, y0, x1, y1) = raw_box_wide(a);
        if x1 - x0 > i32::MAX as i64 || y1 - y0 > i32::MAX as i64 {
            return None;
        }
        let point = x1 - x0 <= 3 && y1 - y0 <= 3;
        if !point && x0 <= x as i64 && x as i64 <= x1 && y0 <= y as i64 && y as i64 <= y1 {
            return Some(Some(i));
        }
        i += 1;
    }
    Some(None)
}

fn thin_scan_exec(v: &Vec<&MapArea>, x: i32, y: i32) -> (r: Option<Option<usize>>)
    ensures
        match r {
            None => thin_scan(areas_view(v@), 0, x, y) is None,
            Some(None) => thin_scan(areas_view(v@), 0, x, y) == Some(None::<int>),
            Some(Some(i)) => thin_scan(areas_view(v@), 0, x, y) == Some(Some(i as int)) && i < v@.len(),
        },
{
    let ghost s = areas_view(v@);
    let mut i: usize = 0;
    let lo = i32::MIN as i64;
    let hi = i32::MAX as i64;
    while i < v.len()
        invariant
            s == areas_view(v@),
            i <= v@.len(),
            lo == i32::MIN,
            hi == i32::MAX,
            thin_scan(s, 0, x, y) == thin_scan(s, i as int, x, y),
        decreases v@.len() - i,
    {
        let a = v[i];
        assert(s[i as int] == a@);
        let (x0, y0, x1, y1) = raw_box_wide(a);
        if x1 - x0 > hi || y1 - y0 > hi {
            return None;
        }
        let point = x1 - x0 <= 3 && y1 - y0 <= 3;
        if !point && y1 - y0 <= 8 && x1 - x0 > 8 {
            let xi = x as i64;
            let yi = y as i64;
            if x0 - 2 < lo {
                return None;
            }
            if xi >= x0 - 2 {
                if x1 + 2 > hi {
                    return None;
                }
                if xi <= x1 + 2 {
                    if y0 - 8 < lo {
                        return None;
                    }
                    if yi >= y0 - 8 {
                        if y1 + 3 > hi {
                            return None;
                        }
                        if yi <= y1 + 3 {
                            return Some(Some(i));
                        }
                    }
                }
            }
        }
        i += 1;
    }
    Some(None)
}

fn half_wide(v: i64) -> (r: i64)
    requires
        i32::MIN <= v <= i32::MAX,
    ensures
        r == half(v as int),
{
    if v >= 0 {
        v / 2
    } else {
        -((-v) / 2)
    }
}

fn point_scan_exec(v: &Vec<&MapArea>, x: i32, y: i32) -> (r: Option<Option<usize>>)
    ensures
        match r {
            None => point_scan(areas_view(v@), 0, x, y, None) is None,
            Some(None) => point_scan(areas_view(v@), 0, x, y, None) == Some(None::<int>),
            Some(Some(i)) => point_scan(areas_view(v@), 0, x, y, None) == Some(Some(i as int)) && i < v@.len(),
        },
{
    let ghost s = areas_view(v@);
    let mut i: usize = 0;
    let mut best: Option<(usize, i64)> = None;
    let lo = i32::MIN as i64;
    let hi = i32::MAX as i64;
    while i < v.len()
        invariant
            s == areas_view(v@),
            i <= v@.len(),
            lo == i32::MIN,
            hi == i32::MAX,
            best matches Some(b) ==> b.0 < i,
            point_scan(s, 0, x, y, None) == point_scan(
                s,
                i as int,
                x,
                y,
                match best {
                    Some(b) => Some((b.0 as int, b.1 as int)),
                    None => None,
                },
            ),
        decreases v@.len() - i,
    {
        let a = v[i];
        assert(s[i as int] == a@);
        let (x0, y0, x1, y1) = raw_box_wide(a);
        if x1 - x0 > hi || y1 - y0 > hi {
            return None;
        }
        let point = x1 - x0 <= 3 && y1 - y0 <= 3;
        if point {
            let sx = x0 + x1;
            let sy = y0 + y1;
            if sx < lo || sx > hi || sy < lo || sy > hi {
                return None;
            }
            let dx = x as i64 - half_wide(sx);
            let dy = y as i64 - half_wide(sy);
            if dx < lo || dx > hi || dy < lo || dy > hi {
                return None;
            }
            assert(0 <= dx * dx <= 4611686018427387904) by (nonlinear_arith)
                requires
                    -2147483648 <= dx <= 2147483647,
            ;
            assert(0 <= dy * dy <= 4611686018427387904) by (nonlinear_arith)
                requires
                    -2147483648 <= dy <= 2147483647,
            ;
            let dxx = dx * dx;
            let dyy = dy * dy;
            if dxx > hi || dyy > hi || dxx + dyy > hi {
                return None;
            }
            let d = dxx + dyy;
            let better = match best {
                None => true,
                Some((_, bd)) => d < bd,
            };
            if d <= 256 && better {
                best = Some((i, d));
            }
        }
        i += 1;
    }
    Some(
        match best {
            Some((b, _)) => Some(b),
            None => None,
        },
    )
}

/// The area a click at `(x, y)` hits (`hit_spec`): `Some(None)` when none,
/// `None` where the distance or bounds computed for some area leave `i32`.
pub fn hit_test_areas<'a>(overlay: Option<&Vec<&'a MapArea>>, page: Option<&Vec<&'a MapArea>>, x: i32, y: i32) -> (r:
    Option<Option<&'a MapArea>>)
    ensures
        ({
            let ov = match overlay {
                Some(o) => Some(areas_view(o@)),
                None => None,
            };
            let pv = match page {
                Some(p) => Some(areas_view(p@)),
                None => None,
            };
            match hit_spec(ov, pv, x, y) {
                None => r is None,
                Some(None) => r == Some(None::<&MapArea>),
                Some(Some((true, i))) => r matches Some(Some(a)) && overlay matches Some(o) && 0 <= i < o@.len()
                    && a@ == o@[i]@,
                Some(Some((false, i))) => r matches Some(Some(a)) && page matches Some(p) && 0 <= i < p@.len()
                    && a@ == p@[i]@,
            }
        }),
{
    if let Some(o) = overlay {
        match exact_scan_exec(o, x, y) {
            None => {
                return None;
            },
            Some(Some(i)) => {
                return Some(Some(o[i]));
            },
            Some(None) => {},
        }
        match thin_scan_exec(o, x, y) {
            None => {
                return None;
            },
            Some(Some(i)) => {
                return Some(Some(o[i]));
            },
            Some(None) => {},
        }
    }
    let p = match page {
        Some(p) => p,
        None => {
            return Some(None);
        },
    };
    match exact_scan_exec(p, x, y) {
        None => {
            return None;
        },
        Some(Some(i)) => {
            return Some(Some(p[i]));
        },
        Some(None) => {},
    }
    match thin_scan_exec(p, x, y) {
        None => {
            return None;
        },
        Some(Some(i)) => {
            return Some(Some(p[i]));
        },
        Some(None) => {},
    }
    match point_scan_exec(p, x, y) {
        None => None,
        Some(Some(i)) => Some(Some(p[i])),
        Some(None) => Some(None),
    }
}

/// What activating a hotspot leads to, once its micro-scripts have run.
#[derive(Debug, Clone, PartialEq, Eq)]
pub enum HotspotAction {
    /// Run the page script from this line.
    RunScript(u32),
    /// Play the MPEG file the trimmed target names.
    PlayVideo(String),
    /// Open the page the trimmed target names; as an overlay when the flag is set.
    OpenPage(String, bool),
    /// Play the sound file the trimmed target names.
    PlaySound(String),
    /// Nothing to do.
    Ignore,
}

/// The action for a hotspot with script line `line`, target `target` and
/// overlay flag `overlay`: a script line wins; otherwise the trimmed target's
/// extension (case ignored) decides, a bare `.CHM` opening nothing.
pub open spec fn hotspot_action_spec(line: Option<u32>, target: Seq<char>, overlay: bool, r: HotspotAction) -> bool {
    let t = trim(target);
    match line {
        Some(l) => r == HotspotAction::RunScript(l),
        None => if ends_ci(t, ".DAT"@) {
            (r matches HotspotAction::PlayVideo(s) && s@ == t)
        } else if ends_ci(t, ".CHM"@) && t != ".CHM"@ {
            (r matches HotspotAction::OpenPage(s, o) && s@ == t && o == overlay)
        } else if ends_ci(t, ".WAV"@) {
            (r matches HotspotAction::PlaySound(s) && s@ == t)
        } else {
            r is Ignore
        },
    }
}

/// Decides what activating `area` does (`hotspot_action_spec`).
pub fn hotspot_action(area: &MapArea) -> (r: HotspotAction)
    ensures
        hotspot_action_spec(area.script_entry_line, area.target@, area.is_overlay, r),
{
    if let Some(l) = area.script_entry_line {
        return HotspotAction::RunScript(l);
    }
    let v = chars_of(area.target.as_str());
    let (a, b) = trim_range(&v, 0, v.len());
    proof {
        assert(v@.subrange(0, v@.len() as int) =~= v@);
    }
    let t = string_from_range(&v, a, b);
    if str_ends_ci(t.as_str(), ".DAT") {
        HotspotAction::PlayVideo(t)
    } else if str_ends_ci(t.as_str(), ".CHM") && !str_eq(t.as_str(), ".CHM") {
        HotspotAction::OpenPage(t, area.is_overlay)
    } else if str_ends_ci(t.as_str(), ".WAV") {
        HotspotAction::PlaySound(t)
    } else {
        HotspotAction::Ignore
    }
}


// ---------------------------------------------------------------------------
// Text on the canvas
// ---------------------------------------------------------------------------

/// The 8x16 glyph of a character the canvas text can show (digits, `-`, `+`):
/// one byte per row, the leftmost pixel in the highest bit.
pub open spec fn glyph_rows(ch: char) -> Option<Seq<u8>> {
    match ch {
        '0' => Some(seq![0x00u8, 0x3c, 0x66, 0x66, 0x6e, 0x76, 0x66, 0x66, 0x66, 0x66, 0x66, 0x66, 0x3c, 0x00, 0x00, 0x00]),
        '1' => Some(seq![0x00u8, 0x18, 0x38, 0x18, 0x18, 0x18, 0x18, 0x18, 0x18, 0x18, 0x18, 0x18, 0x7e, 0x00, 0x00, 0x00]),
        '2' => Some(seq![0x00u8, 0x3c, 0x66, 0x06, 0x06, 0x0c, 0x18, 0x30, 0x60, 0x60, 0x66, 0x7e, 0x7e, 0x00, 0x00, 0x00]),
        '3' => Some(seq![0x00u8, 0x3c, 0x66, 0x06, 0x06, 0x1c, 0x06, 0x06, 0x06, 0x06, 0x66, 0x3c, 0x00, 0x00, 0x00, 0x00]),
        '4' => Some(seq![0x00u8, 0x0c, 0x1c, 0x3c, 0x6c, 0xcc, 0xfe, 0x0c, 0x0c, 0x0c, 0x0c, 0x1e, 0x00, 0x00, 0x00, 0x00]),
        '5' => Some(seq![0x00u8, 0x7e, 0x60, 0x60, 0x7c, 0x66, 0x06, 0x06, 0x06, 0x66, 0x66, 0x3c, 0x00, 0x00, 0x00, 0x00]),
        '6' => Some(seq![0x00u8, 0x1c, 0x30, 0x60, 0x60, 0x7c, 0x66, 0x66, 0x66, 0x66, 0x66, 0x3c, 0x00, 0x00, 0x00, 0x00]),
        '7' => Some(seq![0x00u8, 0x7e, 0x66, 0x06, 0x0c, 0x18, 0x18, 0x18, 0x18, 0x18, 0x18, 0x18, 0x00, 0x00, 0x00, 0x00]),
        '8' => Some(seq![0x00u8, 0x3c, 0x66, 0x66, 0x66, 0x3c, 0x66, 0x66, 0x66, 0x66, 0x66, 0x3c, 0x00, 0x00, 0x00, 0x00]),
        '9' => Some(seq![0x00u8, 0x3c, 0x66, 0x66, 0x66, 0x66, 0x3e, 0x06, 0x06, 0x0c, 0x18, 0x30, 0x00, 0x00, 0x00, 0x00]),
        '-' => Some(seq![0x00u8, 0x00, 0x00, 0x00, 0x00, 0x00, 0x7e, 0x7e, 0x00, 0x00, 0x00, 0x00, 0x00, 0x00, 0x00, 0x00]),
        '+' => Some(seq![0x00u8, 0x00, 0x00, 0x18, 0x18, 0x18, 0x7e, 0x7e, 0x18, 0x18, 0x18, 0x00, 0x00, 0x00, 0x00, 0x00]),
        _ => None,
    }
}

fn glyph_of(ch: char) -> (r: Option<[u8; 16]>)
    ensures
        match r {
            Some(g) => glyph_rows(ch) == Some(g@),
            None => glyph_rows(ch) is None,
        },
{
    let g: [u8; 16] = match ch {
        '0' => [0x00, 0x3c, 0x66, 0x66, 0x6e, 0x76, 0x66, 0x66, 0x66, 0x66, 0x66, 0x66, 0x3c, 0x00, 0x00, 0x00],
        '1' => [0x00, 0x18, 0x38, 0x18, 0x18, 0x18, 0x18, 0x18, 0x18, 0x18, 0x18, 0x18, 0x7e, 0x00, 0x00, 0x00],
        '2' => [0x00, 0x3c, 0x66, 0x06, 0x06, 0x0c, 0x18, 0x30, 0x60, 0x60, 0x66, 0x7e, 0x7e, 0x00, 0x00, 0x00],
        '3' => [0x00, 0x3c, 0x66, 0x06, 0x06, 0x1c, 0x06, 0x06, 0x06, 0x06, 0x66, 0x3c, 0x00, 0x00, 0x00, 0x00],
        '4' => [0x00, 0x0c, 0x1c, 0x3c, 0x6c, 0xcc, 0xfe, 0x0c, 0x0c, 0x0c, 0x0c, 0x1e, 0x00, 0x00, 0x00, 0x00],
        '5' => [0x00, 0x7e, 0x60, 0x60, 0x7c, 0x66, 0x06, 0x06, 0x06, 0x66, 0x66, 0x3c, 0x00, 0x00, 0x00, 0x00],
        '6' => [0x00, 0x1c, 0x30, 0x60, 0x60, 0x7c, 0x66, 0x66, 0x66, 0x66, 0x66, 0x3c, 0x00, 0x00, 0x00, 0x00],
        '7' => [0x00, 0x7e, 0x66, 0x06, 0x0c, 0x18, 0x18, 0x18, 0x18, 0x18, 0x18, 0x18, 0x00, 0x00, 0x00, 0x00],
        '8' => [0x00, 0x3c, 0x66, 0x66, 0x66, 0x3c, 0x66, 0x66, 0x66, 0x66, 0x66, 0x3c, 0x00, 0x00, 0x00, 0x00],
        '9' => [0x00, 0x3c, 0x66, 0x66, 0x66, 0x66, 0x3e, 0x06, 0x06, 0x0c, 0x18, 0x30, 0x00, 0x00, 0x00, 0x00],
        '-' => [0x00, 0x00, 0x00, 0x00, 0x00, 0x00, 0x7e, 0x7e, 0x00, 0x00, 0x00, 0x00, 0x00, 0x00, 0x00, 0x00],
        '+' => [0x00, 0x00, 0x00, 0x18, 0x18, 0x18, 0x7e, 0x7e, 0x18, 0x18, 0x18, 0x00, 0x00, 0x00, 0x00, 0x00],
        _ => {
            return None;
        },
    };
    assert(glyph_rows(ch) matches Some(s) && s =~= g@);
    Some(g)
}

/// Whether bit `col` (from the left) of a glyph row is set.
pub open spec fn glyph_bit(mask: u8, col: int) -> bool {
    (mask & (1u8 << ((7 - col) as u8))) != 0
}

/// Whether the glyph of `ch` drawn at (`x`, `y`) sets canvas pixel (`px`, `py`).
pub open spec fn glyph_covers(ch: char, x: int, y: int, py: int, px: int) -> bool {
    match glyph_rows(ch) {
        Some(g) => 0 <= py - y < 16 && 0 <= px - x < 8 && glyph_bit(g[py - y], px - x),
        None => false,
    }
}

/// The canvas `old` with the glyph of `ch` drawn at (`x`, `y`) in `color`,
/// counting only the pixels of rows before `row`, and of row `row` before
/// column `col`; pixels off the 352x288 canvas or past the buffer are skipped.
pub open spec fn glyph_drawn_until(
    old: Seq<u8>,
    x: int,
    y: int,
    ch: char,
    color: Seq<u8>,
    row: int,
    col: int,
) -> Seq<u8> {
    Seq::new(
        old.len(),
        |k: int|
            {
                let p = k / 4;
                let py = p / 352;
                let px = p % 352;
                if p < 352 * 288 && p * 4 + 4 <= old.len() && glyph_covers(ch, x, y, py, px) && (py
                    - y < row || (py - y == row && px - x < col)) {
                    color[k % 4]
                } else {
                    old[k]
                }
            },
    )
}

/// The canvas `old` with the glyph of `ch` drawn at (`x`, `y`) in `color`.
pub open spec fn char_drawn(old: Seq<u8>, x: int, y: int, ch: char, color: Seq<u8>) -> Seq<u8> {
    glyph_drawn_until(old, x, y, ch, color, 16, 0)
}

proof fn lemma_pixel_index(py: int, px: int, c: int)
    requires
        0 <= py,
        0 <= px < 352,
        0 <= c < 4,
    ensures
        ((py * 352 + px) * 4 + c) / 4 == py * 352 + px,
        ((py * 352 + px) * 4 + c) % 4 == c,
        (py * 352 + px) / 352 == py,
        (py * 352 + px) % 352 == px,
{
    assert(((py * 352 + px) * 4 + c) / 4 == py * 352 + px) by (nonlinear_arith)
        requires
            0 <= c < 4,
            0 <= py,
            0 <= px,
    ;
    assert(((py * 352 + px) * 4 + c) % 4 == c) by (nonlinear_arith)
        requires
            0 <= c < 4,
            0 <= py,
            0 <= px,
    ;
    assert((py * 352 + px) / 352 == py) by (nonlinear_arith)
        requires
            0 <= px < 352,
            0 <= py,
    ;
    assert((py * 352 + px) % 352 == px) by (nonlinear_arith)
        requires
            0 <= px < 352,
            0 <= py,
    ;
}

/// Draws a digit, `-` or `+` in an 8x16 glyph onto the 352x288 RGBA canvas at
/// (`x`, `y`); other characters draw nothing.
pub fn draw_char_on_canvas(canvas: &mut [u8], x: i32, y: i32, ch: char, color: [u8; 4])
    requires
        x <= i32::MAX - 7,
        y <= i32::MAX - 15,
    ensures
        final(canvas)@ == char_drawn(old(canvas)@, x as int, y as int, ch, color@),
{
    let ghost start = canvas@;
    let g = match glyph_of(ch) {
        Some(g) => g,
        None => {
            assert(canvas@ =~= char_drawn(start, x as int, y as int, ch, color@));
            return;
        },
    };
    let n = canvas.len();
    let mut row: i32 = 0;
    assert(canvas@ =~= glyph_drawn_until(start, x as int, y as int, ch, color@, 0, 0));
    while row < 16
        invariant
            glyph_rows(ch) == Some(g@),
            n == canvas@.len(),
            n == start.len(),
            x <= i32::MAX - 7,
            y <= i32::MAX - 15,
            0 <= row <= 16,
            canvas@ == glyph_drawn_until(start, x as int, y as int, ch, color@, row as int, 0),
        decreases 16 - row,
    {
        let py = y + row;
        if py >= 0 && py < 288 {
            let mask = g[row as usize];
            let mut col: i32 = 0;
            while col < 8
                invariant
                    glyph_rows(ch) == Some(g@),
                    n == canvas@.len(),
                    n == start.len(),
                    x <= i32::MAX - 7,
                    0 <= row < 16,
                    py == y + row,
                    0 <= py < 288,
                    mask == g@[row as int],
                    0 <= col <= 8,
                    canvas@ == glyph_drawn_until(start, x as int, y as int, ch, color@, row as int, col as int),
                decreases 8 - col,
            {
                let ghost before = canvas@;
                let px = x + col;
                let bit = (mask & (1u8 << ((7 - col) as u8))) != 0;
                assert(bit == glyph_bit(mask, col as int));
                if bit && px >= 0 && px < 352 {
                    let off = ((py as u32 * 352 + px as u32) * 4) as usize;
                    if off <= n && 4 <= n - off {
                        canvas[off] = color[0];
                        canvas[off + 1] = color[1];
                        canvas[off + 2] = color[2];
                        canvas[off + 3] = color[3];
                    }
                }
                assert forall|k: int| 0 <= k < n implies #[trigger] canvas@[k] == glyph_drawn_until(
                    start,
                    x as int,
                    y as int,
                    ch,
                    color@,
                    row as int,
                    col + 1,
                )[k] by {
                    let p = k / 4;
                    let kpy = p / 352;
                    let kpx = p % 352;
                    assert(k == p * 4 + k % 4);
                    assert(p == kpy * 352 + kpx);
                    if kpy == py && kpx == px {
                        lemma_pixel_index(py as int, px as int, k % 4);
                    } else {
                        assert(before[k] == glyph_drawn_until(
                            start,
                            x as int,
                            y as int,
                            ch,
                            color@,
                            row as int,
                            col as int,
                        )[k]);
                    }
                }
                assert(canvas@ =~= glyph_drawn_until(start, x as int, y as int, ch, color@, row as int, col + 1));
                col += 1;
            }
        }
        assert(canvas@ =~= glyph_drawn_until(start, x as int, y as int, ch, color@, row + 1, 0));
        row += 1;
    }
}

/// The canvas `old` with the characters `cs` drawn from (`x`, `y`): a space
/// moves on 8 pixels, any other character is drawn and moves on 9.
pub open spec fn string_drawn(old: Seq<u8>, x: int, y: int, cs: Seq<char>, color: Seq<u8>) -> Seq<u8>
    decreases cs.len(),
{
    if cs.len() == 0 {
        old
    } else if cs[0] == ' ' {
        string_drawn(old, x + 8, y, cs.drop_first(), color)
    } else {
        string_drawn(char_drawn(old, x, y, cs[0], color), x + 9, y, cs.drop_first(), color)
    }
}

/// Draws a line of text onto the canvas from (`x`, `y`).
pub fn draw_string_on_canvas(canvas: &mut [u8], x: i32, y: i32, text: &str, color: [u8; 4])
    requires
        x + 9 * text@.len() <= i32::MAX - 7,
        y <= i32::MAX - 15,
    ensures
        final(canvas)@ == string_drawn(old(canvas)@, x as int, y as int, text@, color@),
{
    let ghost start = canvas@;
    let cs = crate::text::chars_of(text);
    let mut cx = x;
    let mut i: usize = 0;
    assert(text@.skip(0) =~= text@);
    while i < cs.len()
        invariant
            cs@ == text@,
            i <= cs@.len(),
            x <= cx <= x + 9 * i,
            x + 9 * text@.len() <= i32::MAX - 7,
            y <= i32::MAX - 15,
            string_drawn(start, x as int, y as int, text@, color@) == string_drawn(
                canvas@,
                cx as int,
                y as int,
                text@.skip(i as int),
                color@,
            ),
        decreases cs@.len() - i,
    {
        let c = cs[i];
        assert(text@.skip(i as int)[0] == c);
        assert(text@.skip(i as int).drop_first() =~= text@.skip(i + 1));
        if c == ' ' {
            cx = cx + 8;
        } else {
            draw_char_on_canvas(canvas, cx, y, c, color);
            cx = cx + 9;
        }
        i += 1;
    }
}


/// The value of the variable a name denotes (`i_a`, `A`, ...), 0 for a name
/// that denotes none.
pub open spec fn value_by_name(vars: Seq<i32>, name: Seq<char>) -> i32 {
    match var_index_spec(name) {
        Some(i) => vars[i as int],
        None => 0,
    }
}

/// Reads a variable by name (see `value_by_name`).
pub fn get_variable_by_name(vars: &[i32; 26], var_name: &str) -> (r: i32)
    ensures
        r == value_by_name(vars@, var_name@),
{
    match var_name_to_index(var_name) {
        Some(i) => vars[i],
        None => 0,
    }
}

/// Sets a variable by name; a name that denotes no variable changes nothing.
pub fn set_variable_by_name(vars: &mut [i32; 26], var_name: &str, val: i32)
    ensures
        final(vars)@ == (match var_index_spec(var_name@) {
            Some(i) => old(vars)@.update(i as int, val),
            None => old(vars)@,
        }),
{
    match var_name_to_index(var_name) {
        Some(i) => {
            vars.set(i, val);
        },
        None => {},
    }
}

/// The canvas `old` with each variable text (x, y, variable name) drawn in
/// black as the variable's decimal value, in order.
pub open spec fn variable_texts_drawn(old: Seq<u8>, texts: Seq<(i32, i32, Seq<char>)>, vars: Seq<i32>) -> Seq<u8>
    decreases texts.len(),
{
    if texts.len() == 0 {
        old
    } else {
        variable_texts_drawn(
            string_drawn(
                old,
                texts[0].0 as int,
                texts[0].1 as int,
                int_text(value_by_name(vars, texts[0].2) as int),
                seq![0u8, 0u8, 0u8, 255u8],
            ),
            texts.drop_first(),
            vars,
        )
    }
}

/// Draws the variable texts of an overlay page (`get_variable_texts`) onto
/// the canvas, each as the current value of its variable, in black.
pub fn draw_variable_texts(canvas: &mut [u8], texts: &Vec<(i32, i32, &str)>, vars: &[i32; 26])
    requires
        forall|k: int|
            0 <= k < texts@.len() ==> (#[trigger] texts@[k]).0 <= i32::MAX - 7 - 9 * 21 && texts@[k].1
                <= i32::MAX - 15,
    ensures
        final(canvas)@ == variable_texts_drawn(
            old(canvas)@,
            texts@.map_values(|t: (i32, i32, &str)| (t.0, t.1, t.2@)),
            vars@,
        ),
{
    let ghost all = texts@.map_values(|t: (i32, i32, &str)| (t.0, t.1, t.2@));
    let ghost start = canvas@;
    let black: [u8; 4] = [0, 0, 0, 255];
    assert(black@ =~= seq![0u8, 0u8, 0u8, 255u8]);
    let mut i: usize = 0;
    assert(all.skip(0) =~= all);
    while i < texts.len()
        invariant
            all == texts@.map_values(|t: (i32, i32, &str)| (t.0, t.1, t.2@)),
            black@ == seq![0u8, 0u8, 0u8, 255u8],
            i <= texts@.len(),
            forall|k: int|
                0 <= k < texts@.len() ==> (#[trigger] texts@[k]).0 <= i32::MAX - 7 - 9 * 21 && texts@[k].1
                    <= i32::MAX - 15,
            variable_texts_drawn(start, all, vars@) == variable_texts_drawn(canvas@, all.skip(i as int), vars@),
        decreases texts@.len() - i,
    {
        let (x, y, name) = texts[i];
        let val = get_variable_by_name(vars, name);
        let mut text = String::new();
        crate::text::push_int(&mut text, val as i64);
        proof {
            crate::text::lemma_dec_len_pow(if val < 0 {
                (0 - val) as nat
            } else {
                val as nat
            });
        }
        assert(text@.len() <= 21);
        assert(all.skip(i as int)[0] == (x, y, name@));
        assert(all.skip(i as int).drop_first() =~= all.skip(i + 1));
        draw_string_on_canvas(canvas, x, y, text.as_str(), black);
        i += 1;
    }
}

/// What follows the end of a video: on a classic disc with PBC the engine
/// moves on; in the interactive mode the video closes back to its page;
/// otherwise the current track repeats only in single-repeat mode,
/// sequential play moves on and stops after the last track, and
/// list-repeat moves on and wraps around.
pub proof fn lemma_video_end_follows_playback(mode: ActiveDiscMode, has_pbc: bool, playback: PlaybackMode)
    ensures
        mode == ActiveDiscMode::Vcd20Classic && has_pbc ==> video_end(mode, has_pbc, playback) is PbcItemFinished,
        mode == ActiveDiscMode::Vcd30Interactive ==> video_end(mode, has_pbc, playback) is Exit,
        mode != ActiveDiscMode::Vcd30Interactive && !(mode == ActiveDiscMode::Vcd20Classic && has_pbc) ==> {
            &&& video_end(mode, has_pbc, playback) is Repeat <==> playback == PlaybackMode::SingleRepeat
            &&& video_end(mode, has_pbc, playback) is NextOrStop <==> playback == PlaybackMode::Sequential
            &&& video_end(mode, has_pbc, playback) is NextWrapping <==> playback == PlaybackMode::ListRepeat
        },
{
}

} // verus!
