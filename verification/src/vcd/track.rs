//! The tracks of a disc: its MPEG files in name order, split into chapters
//! where `ENTRIES.VCD` puts several entry points into one file.
//!
//! Listing the `MPEGAV` folder and reading `ENTRIES.VCD` is the caller's part.
//! Chapter times are in frames (75 per second) from the start of the file.

use crate::text::{padded_text, push_padded, push_str, text_le, text_le_exec, upper_seq};
use crate::vcd::entries::{msf_text, VcdEntries, VcdEntry};
use vstd::prelude::*;

verus! {

broadcast use vstd::string::group_string_axioms;

/// A playable track or chapter.
#[derive(Debug, Clone, PartialEq, Eq)]
pub struct TrackPlan {
    /// 1-based position in the track list.
    pub index: usize,
    /// CD track number.
    pub track_no: u8,
    /// The title shown, e.g. `MUSIC01.DAT` or `AVSEQ01.DAT (02)`.
    pub title: String,
    /// The file to play, e.g. `MPEGAV/MUSIC01.DAT`.
    pub file_name: String,
    /// The start as `MM:SS:FF` when `ENTRIES.VCD` gave it.
    pub msf_start: Option<String>,
    /// Where playback starts, in frames from the start of the file.
    pub start_frame: u32,
    /// Where playback ends, in frames from the start of the file (the end of
    /// the file when `None`).
    pub end_frame: Option<u32>,
}

/// A track apart from its position, with its texts as character sequences.
pub struct TrackView {
    pub track_no: u8,
    pub title: Seq<char>,
    pub file_name: Seq<char>,
    pub msf_start: Option<Seq<char>>,
    pub start_frame: u32,
    pub end_frame: Option<u32>,
}

/// The view of a track.
pub open spec fn track_view(t: TrackPlan) -> TrackView {
    TrackView {
        track_no: t.track_no,
        title: t.title@,
        file_name: t.file_name@,
        msf_start: match t.msf_start {
            Some(m) => Some(m@),
            None => None,
        },
        start_frame: t.start_frame,
        end_frame: t.end_frame,
    }
}

/// The views of a list of tracks.
pub open spec fn tracks_view(ts: Seq<TrackPlan>) -> Seq<TrackView> {
    ts.map_values(|t: TrackPlan| track_view(t))
}

/// The texts of a list of names.
pub open spec fn names_view(ns: Seq<String>) -> Seq<Seq<char>> {
    ns.map_values(|s: String| s@)
}

// ---------------------------------------------------------------------------
// Ordering
// ---------------------------------------------------------------------------

/// `x` put into the name-ordered `s` after every name that does not come
/// after it (names compared in ASCII upper case).
pub open spec fn insert_name(s: Seq<Seq<char>>, x: Seq<char>) -> Seq<Seq<char>>
    decreases s.len(),
{
    if s.len() == 0 {
        seq![x]
    } else if !text_le(upper_seq(s[0]), upper_seq(x)) {
        seq![x] + s
    } else {
        seq![s[0]] + insert_name(s.drop_first(), x)
    }
}

/// File names sorted in ASCII upper-case order; names that compare equal keep
/// their order.
pub open spec fn sort_names(f: Seq<Seq<char>>) -> Seq<Seq<char>>
    decreases f.len(),
{
    if f.len() == 0 {
        f
    } else {
        insert_name(sort_names(f.drop_last()), f.last())
    }
}

/// The time of an entry point in frames.
pub open spec fn entry_frames(e: VcdEntry) -> int {
    e.min * 4500 + e.sec * 75 + e.frame
}

/// `x` put into the time-ordered `s` after every entry not later than it.
pub open spec fn insert_entry(s: Seq<VcdEntry>, x: VcdEntry) -> Seq<VcdEntry>
    decreases s.len(),
{
    if s.len() == 0 {
        seq![x]
    } else if entry_frames(s[0]) > entry_frames(x) {
        seq![x] + s
    } else {
        seq![s[0]] + insert_entry(s.drop_first(), x)
    }
}

/// Entry points sorted by time; entries of equal time keep their order.
pub open spec fn sort_entries(es: Seq<VcdEntry>) -> Seq<VcdEntry>
    decreases es.len(),
{
    if es.len() == 0 {
        es
    } else {
        insert_entry(sort_entries(es.drop_last()), es.last())
    }
}

proof fn lemma_insert_name_at(s: Seq<Seq<char>>, x: Seq<char>, p: int)
    requires
        0 <= p <= s.len(),
        forall|q: int| 0 <= q < p ==> text_le(upper_seq(#[trigger] s[q]), upper_seq(x)),
        p < s.len() ==> !text_le(upper_seq(s[p]), upper_seq(x)),
    ensures
        insert_name(s, x) == s.insert(p, x),
    decreases p,
{
    if p == 0 {
        assert(seq![x] + s =~= s.insert(0, x));
    } else {
        assert(text_le(upper_seq(s[0]), upper_seq(x)));
        let t = s.drop_first();
        assert forall|q: int| 0 <= q < p - 1 implies text_le(upper_seq(#[trigger] t[q]), upper_seq(x)) by {
            assert(t[q] == s[q + 1]);
        }
        lemma_insert_name_at(t, x, p - 1);
        assert(seq![s[0]] + t.insert(p - 1, x) =~= s.insert(p, x));
    }
}

proof fn lemma_insert_entry_at(s: Seq<VcdEntry>, x: VcdEntry, p: int)
    requires
        0 <= p <= s.len(),
        forall|q: int| 0 <= q < p ==> entry_frames(#[trigger] s[q]) <= entry_frames(x),
        p < s.len() ==> entry_frames(s[p]) > entry_frames(x),
    ensures
        insert_entry(s, x) == s.insert(p, x),
    decreases p,
{
    if p == 0 {
        assert(seq![x] + s =~= s.insert(0, x));
    } else {
        assert(entry_frames(s[0]) <= entry_frames(x));
        let t = s.drop_first();
        assert forall|q: int| 0 <= q < p - 1 implies entry_frames(#[trigger] t[q]) <= entry_frames(x) by {
            assert(t[q] == s[q + 1]);
        }
        lemma_insert_entry_at(t, x, p - 1);
        assert(seq![s[0]] + t.insert(p - 1, x) =~= s.insert(p, x));
    }
}

fn upper_string(s: &str) -> (r: String)
    ensures
        r@ == upper_seq(s@),
{
    let v = crate::text::chars_of(s);
    let mut out = String::new();
    let mut i: usize = 0;
    while i < v.len()
        invariant
            v@ == s@,
            i <= v@.len(),
            out@ == upper_seq(s@).take(i as int),
        decreases v@.len() - i,
    {
        let ghost before = out@;
        crate::text::push_char(&mut out, crate::text::char_upper(v[i]));
        assert(out@ =~= upper_seq(s@).take(i + 1));
        i += 1;
    }
    assert(upper_seq(s@).take(v@.len() as int) =~= upper_seq(s@));
    out
}

fn sort_file_names(files: Vec<String>) -> (r: Vec<String>)
    ensures
        names_view(r@) == sort_names(names_view(files@)),
        r@.len() == files@.len(),
{
    let ghost all = names_view(files@);
    let n = files.len();
    let mut rest = files;
    let mut sorted: Vec<String> = Vec::new();
    let mut k: usize = 0;
    assert(all.take(0) =~= Seq::<Seq<char>>::empty());
    assert(names_view(sorted@) =~= Seq::<Seq<char>>::empty());
    assert(names_view(rest@) =~= all.skip(0));
    while rest.len() > 0
        invariant
            all.len() == n,
            k + rest@.len() == n,
            names_view(sorted@) == sort_names(all.take(k as int)),
            names_view(rest@) == all.skip(k as int),
            sorted@.len() == k,
        decreases rest@.len(),
    {
        let ghost before = rest@;
        let name = rest.remove(0);
        assert(name == before[0]);
        assert(names_view(before)[0] == before[0]@);
        assert(name@ == all[k as int]);
        assert forall|q: int| 0 <= q < rest@.len() implies #[trigger] names_view(rest@)[q] == all.skip(
            k + 1,
        )[q] by {
            assert(rest@[q] == before[q + 1]);
            assert(names_view(before)[q + 1] == all.skip(k as int)[q + 1]);
        }
        assert(names_view(rest@) =~= all.skip(k + 1));
        let key = upper_string(name.as_str());
        let ghost s = names_view(sorted@);
        let mut p: usize = 0;
        loop
            invariant
                s == names_view(sorted@),
                key@ == upper_seq(name@),
                p <= sorted@.len(),
                forall|q: int| 0 <= q < p ==> text_le(upper_seq(#[trigger] s[q]), upper_seq(name@)),
            ensures
                p <= sorted@.len(),
                forall|q: int| 0 <= q < p ==> text_le(upper_seq(#[trigger] s[q]), upper_seq(name@)),
                p < sorted@.len() ==> !text_le(upper_seq(s[p as int]), upper_seq(name@)),
            decreases sorted@.len() - p,
        {
            if p >= sorted.len() {
                break;
            }
            let u = upper_string(sorted[p].as_str());
            if !text_le_exec(u.as_str(), key.as_str()) {
                break;
            }
            p += 1;
        }
        proof {
            lemma_insert_name_at(s, name@, p as int);
            assert(all.take(k + 1).drop_last() =~= all.take(k as int));
        }
        let ghost nm = name@;
        sorted.insert(p, name);
        assert(names_view(sorted@) =~= s.insert(p as int, nm));
        k += 1;
    }
    assert(all.take(n as int) =~= all);
    sorted
}

fn sort_group(g: Vec<VcdEntry>) -> (r: Vec<VcdEntry>)
    ensures
        r@ == sort_entries(g@),
{
    let mut sorted: Vec<VcdEntry> = Vec::new();
    let mut k: usize = 0;
    assert(g@.take(0) =~= Seq::<VcdEntry>::empty());
    while k < g.len()
        invariant
            k <= g@.len(),
            sorted@ == sort_entries(g@.take(k as int)),
        decreases g@.len() - k,
    {
        let x = g[k];
        let fx = x.total_frames();
        let mut p: usize = 0;
        while p < sorted.len() && sorted[p].total_frames() <= fx
            invariant
                p <= sorted@.len(),
                fx == entry_frames(x),
                forall|q: int| 0 <= q < p ==> entry_frames(#[trigger] sorted@[q]) <= entry_frames(x),
            decreases sorted@.len() - p,
        {
            p += 1;
        }
        proof {
            lemma_insert_entry_at(sorted@, x, p as int);
            assert(g@.take(k + 1).drop_last() =~= g@.take(k as int));
        }
        sorted.insert(p, x);
        k += 1;
    }
    assert(g@.take(g@.len() as int) =~= g@);
    sorted
}

// ---------------------------------------------------------------------------
// Tracks
// ---------------------------------------------------------------------------

/// The file (by position in the sorted list of `n` files) an entry point
/// belongs to: the only file, else the file of its track (track 2 is the
/// first file), else the file at its own position, else the first.
pub open spec fn file_of_entry(e: VcdEntry, n: int) -> int {
    if n == 1 {
        0
    } else if e.track_no >= 2 && e.track_no - 2 < n {
        e.track_no - 2
    } else if e.index - 1 < n {
        e.index - 1
    } else {
        0
    }
}

/// The entry points of file `i`, in the order of `ENTRIES.VCD`.
pub open spec fn entries_of_file(es: Seq<VcdEntry>, n: int, i: int) -> Seq<VcdEntry>
    decreases es.len(),
{
    if es.len() == 0 {
        es
    } else {
        let g = entries_of_file(es.drop_last(), n, i);
        if file_of_entry(es.last(), n) == i {
            g.push(es.last())
        } else {
            g
        }
    }
}

/// `MPEGAV/` and the name.
pub open spec fn mpegav_path(name: Seq<char>) -> Seq<char> {
    "MPEGAV/"@ + name
}

/// The title of chapter `j` (from 0) of a file: `NAME (01)`.
pub open spec fn chapter_title(name: Seq<char>, j: int) -> Seq<char> {
    name + " ("@ + padded_text((j + 1) as nat, 2) + ")"@
}

/// The start of chapter `j` of the time-ordered entries `g`, from the first
/// entry point, never below 0.
pub open spec fn chapter_start(g: Seq<VcdEntry>, j: int) -> int {
    if entry_frames(g[j]) >= entry_frames(g[0]) {
        entry_frames(g[j]) - entry_frames(g[0])
    } else {
        0
    }
}

/// The end of chapter `j`: the start of the next one (never before its own
/// start), none for the last.
pub open spec fn chapter_end(g: Seq<VcdEntry>, j: int) -> Option<u32> {
    if j + 1 < g.len() {
        let next = entry_frames(g[j + 1]) - entry_frames(g[0]);
        Some(
            (if next >= chapter_start(g, j) {
                next
            } else {
                chapter_start(g, j)
            }) as u32,
        )
    } else {
        None
    }
}

/// The tracks of file `name` whose entry points, in time order, are `g`:
/// none without entry points, the whole file for one, a chapter per entry
/// point for several.
pub open spec fn file_tracks(name: Seq<char>, g: Seq<VcdEntry>) -> Seq<TrackView> {
    if g.len() == 0 {
        seq![]
    } else if g.len() == 1 {
        seq![
            TrackView {
                track_no: g[0].track_no,
                title: name,
                file_name: mpegav_path(name),
                msf_start: Some(msf_text(g[0].min, g[0].sec, g[0].frame)),
                start_frame: 0,
                end_frame: None,
            },
        ]
    } else {
        Seq::new(
            g.len(),
            |j: int|
                TrackView {
                    track_no: g[j].track_no,
                    title: chapter_title(name, j),
                    file_name: mpegav_path(name),
                    msf_start: Some(msf_text(g[j].min, g[j].sec, g[j].frame)),
                    start_frame: chapter_start(g, j) as u32,
                    end_frame: chapter_end(g, j),
                },
        )
    }
}

/// The tracks of the sorted files from the `i`-th on.
pub open spec fn tracks_from(sf: Seq<Seq<char>>, es: Seq<VcdEntry>, i: int) -> Seq<TrackView>
    decreases sf.len() - i,
{
    if i < 0 || i >= sf.len() {
        seq![]
    } else {
        file_tracks(sf[i], sort_entries(entries_of_file(es, sf.len() as int, i))) + tracks_from(
            sf,
            es,
            i + 1,
        )
    }
}

/// One whole-file track per file, numbered from track 2 (at most 99).
pub open spec fn one_per_file(sf: Seq<Seq<char>>) -> Seq<TrackView> {
    Seq::new(
        sf.len(),
        |i: int|
            TrackView {
                track_no: (if i + 2 < 99 {
                    i + 2
                } else {
                    99
                }) as u8,
                title: sf[i],
                file_name: mpegav_path(sf[i]),
                msf_start: None,
                start_frame: 0,
                end_frame: None,
            },
    )
}

/// The track list of a disc with video files `files` and the entry points
/// `entries` (when `ENTRIES.VCD` was read).
pub open spec fn disc_tracks(files: Seq<Seq<char>>, entries: Option<Seq<VcdEntry>>) -> Seq<TrackView> {
    if files.len() == 0 {
        seq![]
    } else {
        let sf = sort_names(files);
        match entries {
            Some(es) => if es.len() > 0 && tracks_from(sf, es, 0).len() > 0 {
                tracks_from(sf, es, 0)
            } else {
                one_per_file(sf)
            },
            None => one_per_file(sf),
        }
    }
}

fn entries_of(es: &Vec<VcdEntry>, n: usize, i: usize) -> (r: Vec<VcdEntry>)
    requires
        forall|k: int| 0 <= k < es@.len() ==> (#[trigger] es@[k]).index >= 1,
    ensures
        r@ == entries_of_file(es@, n as int, i as int),
{
    let mut out: Vec<VcdEntry> = Vec::new();
    let mut k: usize = 0;
    assert(es@.take(0) =~= Seq::<VcdEntry>::empty());
    while k < es.len()
        invariant
            k <= es@.len(),
            forall|q: int| 0 <= q < es@.len() ==> (#[trigger] es@[q]).index >= 1,
            out@ == entries_of_file(es@.take(k as int), n as int, i as int),
        decreases es@.len() - k,
    {
        let e = es[k];
        assert(es@[k as int].index >= 1);
        let f: usize = if n == 1 {
            0
        } else if e.track_no >= 2 && ((e.track_no - 2) as usize) < n {
            (e.track_no - 2) as usize
        } else if e.index - 1 < n {
            e.index - 1
        } else {
            0
        };
        proof {
            assert(es@.take(k + 1).drop_last() =~= es@.take(k as int));
        }
        if f == i {
            out.push(e);
        }
        k += 1;
    }
    assert(es@.take(es@.len() as int) =~= es@);
    out
}

fn mpegav_string(name: &String) -> (r: String)
    ensures
        r@ == mpegav_path(name@),
{
    let mut s = String::new();
    push_str(&mut s, "MPEGAV/");
    push_str(&mut s, name.as_str());
    s
}

fn copy_string(s: &String) -> (r: String)
    ensures
        r@ == s@,
{
    let mut t = String::new();
    push_str(&mut t, s.as_str());
    t
}

/// Every track is numbered by its position, from 1.
pub open spec fn numbered(ts: Seq<TrackPlan>) -> bool {
    forall|k: int| 0 <= k < ts.len() ==> (#[trigger] ts[k]).index == k + 1
}

fn push_file_tracks(tracks: &mut Vec<TrackPlan>, name: &String, g: &Vec<VcdEntry>)
    requires
        numbered(old(tracks)@),
        old(tracks)@.len() + g@.len() < usize::MAX,
    ensures
        numbered(final(tracks)@),
        tracks_view(final(tracks)@) == tracks_view(old(tracks)@) + file_tracks(name@, g@),
{
    let ghost start = tracks_view(tracks@);
    if g.len() == 0 {
        assert(tracks_view(tracks@) =~= start + file_tracks(name@, g@));
        return;
    }
    if g.len() == 1 {
        let e = g[0];
        let t = TrackPlan {
            index: tracks.len() + 1,
            track_no: e.track_no,
            title: copy_string(name),
            file_name: mpegav_string(name),
            msf_start: Some(e.msf_string()),
            start_frame: 0,
            end_frame: None,
        };
        let ghost before = tracks@;
        tracks.push(t);
        assert(tracks_view(tracks@) =~= tracks_view(before).push(track_view(t)));
        assert(tracks_view(tracks@) =~= start + file_tracks(name@, g@));
        return;
    }
    let base = g[0].total_frames();
    let ghost all = file_tracks(name@, g@);
    let mut j: usize = 0;
    while j < g.len()
        invariant
            g@.len() >= 2,
            base == entry_frames(g@[0]),
            j <= g@.len(),
            start.len() + g@.len() < usize::MAX,
            all == file_tracks(name@, g@),
            numbered(tracks@),
            tracks@.len() == start.len() + j,
            tracks_view(tracks@) == start + all.take(j as int),
        decreases g@.len() - j,
    {
        let e = g[j];
        let f = e.total_frames();
        let st: u32 = if f >= base {
            f - base
        } else {
            0
        };
        let end: Option<u32> = if j + 1 < g.len() {
            let nx = g[j + 1].total_frames();
            if nx >= base && nx - base >= st {
                Some(nx - base)
            } else {
                Some(st)
            }
        } else {
            None
        };
        let mut title = copy_string(name);
        push_str(&mut title, " (");
        push_padded(&mut title, (j + 1) as u64, 2);
        push_str(&mut title, ")");
        let t = TrackPlan {
            index: tracks.len() + 1,
            track_no: e.track_no,
            title,
            file_name: mpegav_string(name),
            msf_start: Some(e.msf_string()),
            start_frame: st,
            end_frame: end,
        };
        assert(t.title@ =~= chapter_title(name@, j as int));
        assert(track_view(t) == all[j as int]);
        let ghost before = tracks@;
        tracks.push(t);
        assert(tracks_view(tracks@) =~= tracks_view(before).push(track_view(t)));
        assert(all.take(j + 1) =~= all.take(j as int).push(all[j as int]));
        assert(tracks_view(tracks@) =~= start + all.take(j + 1));
        j += 1;
    }
    assert(all.take(g@.len() as int) =~= all);
}

proof fn lemma_entries_of_file_len(es: Seq<VcdEntry>, n: int, i: int)
    ensures
        entries_of_file(es, n, i).len() <= es.len(),
    decreases es.len(),
{
    if es.len() > 0 {
        lemma_entries_of_file_len(es.drop_last(), n, i);
    }
}

proof fn lemma_insert_entry_len(s: Seq<VcdEntry>, x: VcdEntry)
    ensures
        insert_entry(s, x).len() == s.len() + 1,
    decreases s.len(),
{
    if s.len() > 0 && entry_frames(s[0]) <= entry_frames(x) {
        lemma_insert_entry_len(s.drop_first(), x);
    }
}

proof fn lemma_sort_entries_len(es: Seq<VcdEntry>)
    ensures
        sort_entries(es).len() == es.len(),
    decreases es.len(),
{
    if es.len() > 0 {
        lemma_sort_entries_len(es.drop_last());
        lemma_insert_entry_len(sort_entries(es.drop_last()), es.last());
    }
}

/// Lists the tracks of a disc from the names of its video files (those of
/// the `MPEGAV` folder with a `DAT`, `MPG` or `MPEG` extension) and, when
/// `ENTRIES.VCD` was read, its entry points.
pub fn plan_disc_tracks(files: Vec<String>, entries: Option<&VcdEntries>) -> (r: Vec<TrackPlan>)
    requires
        entries matches Some(e) ==> forall|k: int|
            0 <= k < e.entries@.len() ==> (#[trigger] e.entries@[k]).index >= 1,
        entries matches Some(e) ==> files@.len() * e.entries@.len() < usize::MAX,
    ensures
        numbered(r@),
        tracks_view(r@) == disc_tracks(
            names_view(files@),
            match entries {
                Some(e) => Some(e.entries@),
                None => None,
            },
        ),
{
    let n = files.len();
    if n == 0 {
        let r: Vec<TrackPlan> = Vec::new();
        assert(tracks_view(r@) =~= Seq::<TrackView>::empty());
        return r;
    }
    let ghost fv = names_view(files@);
    let sorted = sort_file_names(files);
    let ghost sf = names_view(sorted@);
    let mut tracks: Vec<TrackPlan> = Vec::new();
    match entries {
        Some(e) => {
            if e.entries.len() > 0 {
                let es = &e.entries;
                let mut i: usize = 0;
                assert(tracks_view(tracks@) =~= Seq::<TrackView>::empty());
                while i < n
                    invariant
                        n == sorted@.len(),
                        sf == names_view(sorted@),
                        n * es@.len() < usize::MAX,
                        forall|k: int| 0 <= k < es@.len() ==> (#[trigger] es@[k]).index >= 1,
                        i <= n,
                        numbered(tracks@),
                        tracks@.len() <= i * es@.len(),
                        tracks_view(tracks@) + tracks_from(sf, es@, i as int) == tracks_from(
                            sf,
                            es@,
                            0,
                        ),
                    decreases n - i,
                {
                    let g = entries_of(es, n, i);
                    let sg = sort_group(g);
                    proof {
                        lemma_entries_of_file_len(es@, n as int, i as int);
                        lemma_sort_entries_len(g@);
                        assert(tracks@.len() + sg@.len() <= (i + 1) * es@.len()) by (nonlinear_arith)
                            requires
                                tracks@.len() <= i * es@.len(),
                                sg@.len() <= es@.len(),
                        ;
                        assert((i + 1) * es@.len() <= n * es@.len()) by (nonlinear_arith)
                            requires
                                i + 1 <= n,
                        ;
                    }
                    let ghost before = tracks_view(tracks@);
                    push_file_tracks(&mut tracks, &sorted[i], &sg);
                    assert(sf[i as int] == sorted@[i as int]@);
                    assert(before + tracks_from(sf, es@, i as int) =~= tracks_view(tracks@)
                        + tracks_from(sf, es@, i + 1));
                    i += 1;
                }
                assert(tracks_view(tracks@) =~= tracks_from(sf, es@, 0));
                if tracks.len() > 0 {
                    return tracks;
                }
            }
        },
        None => {},
    }
    let mut fallback: Vec<TrackPlan> = Vec::new();
    let mut i: usize = 0;
    while i < n
        invariant
            n == sorted@.len(),
            sf == names_view(sorted@),
            i <= n,
            numbered(fallback@),
            tracks_view(fallback@) == one_per_file(sf).take(i as int),
        decreases n - i,
    {
        let no: u8 = if i < 97 {
            (i + 2) as u8
        } else {
            99
        };
        let t = TrackPlan {
            index: i + 1,
            track_no: no,
            title: copy_string(&sorted[i]),
            file_name: mpegav_string(&sorted[i]),
            msf_start: None,
            start_frame: 0,
            end_frame: None,
        };
        let ghost before = fallback@;
        fallback.push(t);
        assert(tracks_view(fallback@) =~= tracks_view(before).push(track_view(t)));
        assert(track_view(t) == one_per_file(sf)[i as int]);
        assert(one_per_file(sf).take(i + 1) =~= one_per_file(sf).take(i as int).push(
            one_per_file(sf)[i as int],
        ));
        assert(tracks_view(fallback@) =~= one_per_file(sf).take(i + 1));
        i += 1;
    }
    assert(one_per_file(sf).take(n as int) =~= one_per_file(sf));
    fallback
}

} // verus!
