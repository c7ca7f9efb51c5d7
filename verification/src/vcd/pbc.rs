//! Playback Control (PBC) state machine over `LOT.VCD` and `PSD.VCD`.
//!
//! The engine moves between descriptors on user input (numbers, PBC, Prev,
//! Next, Return, Default), when a media item finishes, and on clock ticks.
//! Timers count milliseconds.

use crate::vcd::lot::{lot_unit, LotTable};
use crate::vcd::psd::{
    desc_byte, first_sel_from, lemma_byte_index_sound, DescView, PlayListDesc, PlayListView, PsdDescriptor, PsdTable,
    SelectionListDesc, SelectionListView,
};
use vstd::prelude::*;

verus! {

/// What the player has to do after a transition.
#[derive(Debug, Clone, Copy, PartialEq, Eq, Structural)]
pub enum PbcAction {
    /// Play an MPEG track from MPEGAV.
    PlayTrack { track_number: u8, item_id: u16, ptime: u16, wtime: u8 },
    /// Show a still menu from /SEGMENT/ITEMxxxx.DAT.
    DisplayStillMenu { item_id: u16, segment_index: u16, nos: u8, bsn: u8, timeout_sec: u8 },
    /// Play a motion menu track.
    PlayMotionMenu { track_number: u8, item_id: u16, nos: u8, bsn: u8, timeout_sec: u8 },
    /// Playback of the sequence ends.
    End,
}

/// Where the engine stands.
#[derive(Debug, PartialEq)]
pub enum PbcState {
    Uninitialized,
    /// On a SelectionList menu. The timeout counts down in milliseconds
    /// while it runs; `remaining_loops` is how many plays of a motion menu
    /// are left, counting the one under way (`None`: it repeats forever).
    InSelection { desc: SelectionListDesc, remaining_timeout: Option<i64>, remaining_loops: Option<u8> },
    /// Playing item `current_item_index` of a PlayList.
    InPlayList { desc: PlayListDesc, current_item_index: usize },
    /// Waiting `wtime` after a PlayList; counts down in milliseconds
    /// (`None`: waits with no time limit).
    WaitingDelay { desc: PlayListDesc, remaining_wait: Option<i64> },
    Ended,
}

/// The abstract value of a `PbcState`.
pub enum StateView {
    Uninitialized,
    InSelection(SelectionListView, Option<i64>, Option<u8>),
    InPlayList(PlayListView, usize),
    WaitingDelay(PlayListView, Option<i64>),
    Ended,
}

impl View for PbcState {
    type V = StateView;

    open spec fn view(&self) -> StateView {
        match self {
            PbcState::Uninitialized => StateView::Uninitialized,
            PbcState::InSelection { desc, remaining_timeout, remaining_loops } => StateView::InSelection(
                desc@,
                *remaining_timeout,
                *remaining_loops,
            ),
            PbcState::InPlayList { desc, current_item_index } => StateView::InPlayList(
                desc@,
                *current_item_index,
            ),
            PbcState::WaitingDelay { desc, remaining_wait } => StateView::WaitingDelay(
                desc@,
                *remaining_wait,
            ),
            PbcState::Ended => StateView::Ended,
        }
    }
}

/// The outcome of a transition: the new state, the current descriptor offset, and the action.
pub struct Step {
    pub state: StateView,
    pub cur: Option<usize>,
    pub action: Option<PbcAction>,
}

/// The action for item `idx` of a PlayList.
pub open spec fn item_action(p: PlayListView, idx: int) -> PbcAction {
    let item = p.items[idx];
    if item < 1000 {
        PbcAction::PlayTrack { track_number: item as u8, item_id: item, ptime: p.ptime, wtime: p.wtime }
    } else {
        PbcAction::DisplayStillMenu {
            item_id: item,
            segment_index: (item - 999) as u16,
            nos: 0,
            bsn: 0,
            timeout_sec: 0,
        }
    }
}

/// The action for entering a SelectionList.
pub open spec fn sel_action(s: SelectionListView) -> PbcAction {
    if s.item_id >= 1000 {
        PbcAction::DisplayStillMenu {
            item_id: s.item_id,
            segment_index: (s.item_id - 999) as u16,
            nos: s.nos,
            bsn: s.bsn,
            timeout_sec: s.timeout_time,
        }
    } else if 2 <= s.item_id <= 99 {
        PbcAction::PlayMotionMenu {
            track_number: s.item_id as u8,
            item_id: s.item_id,
            nos: s.nos,
            bsn: s.bsn,
            timeout_sec: s.timeout_time,
        }
    } else {
        PbcAction::DisplayStillMenu {
            item_id: s.item_id,
            segment_index: 1,
            nos: s.nos,
            bsn: s.bsn,
            timeout_sec: s.timeout_time,
        }
    }
}

/// The countdown a SelectionList starts with.
pub open spec fn sel_timer(s: SelectionListView) -> Option<i64> {
    if s.timeout_time > 0 {
        Some((s.timeout_time * 1000) as i64)
    } else {
        None
    }
}

/// Whether a SelectionList's menu is a motion video (an MPEG track).
pub open spec fn is_motion(s: SelectionListView) -> bool {
    s.item_id < 1000 && 2 <= s.item_id <= 99
}

/// The plays of a motion menu: the low seven bits of `loop_count`, 0 meaning
/// forever (`None`).
pub open spec fn menu_loops(s: SelectionListView) -> Option<u8> {
    if s.loop_count % 128 == 0 {
        None
    } else {
        Some((s.loop_count % 128) as u8)
    }
}

/// The state on entering a SelectionList: a motion menu plays its loops with
/// no countdown; a still menu starts its countdown at once.
pub open spec fn sel_entry(s: SelectionListView) -> StateView {
    if is_motion(s) {
        StateView::InSelection(s, None, menu_loops(s))
    } else {
        StateView::InSelection(s, sel_timer(s), Some(0))
    }
}

/// No transition: everything stays.
pub open spec fn stay(st: StateView, cur: Option<usize>) -> Step {
    Step { state: st, cur, action: None }
}

/// Executing a descriptor. `fuel` bounds the chain of empty PlayLists followed.
pub open spec fn run_desc(t: PsdTable, d: DescView, st: StateView, cur: Option<usize>, fuel: nat) -> Step
    decreases fuel, 0nat,
{
    match d {
        DescView::PlayList(p) => if p.items.len() == 0 {
            if p.next_ofs != 0xFFFF {
                if fuel == 0 {
                    stay(st, cur)
                } else {
                    run_byte(t, (p.next_ofs * t.offset_mult) as usize, st, cur, (fuel - 1) as nat)
                }
            } else {
                Step { state: StateView::Ended, cur, action: Some(PbcAction::End) }
            }
        } else {
            Step { state: StateView::InPlayList(p, 0), cur, action: Some(item_action(p, 0)) }
        },
        DescView::SelectionList(s) => Step { state: sel_entry(s), cur, action: Some(sel_action(s)) },
        DescView::EndList(_) => Step { state: StateView::Ended, cur, action: Some(PbcAction::End) },
    }
}

/// Executing the descriptor at byte offset `b`; nothing happens when there is none.
pub open spec fn run_byte(t: PsdTable, b: usize, st: StateView, cur: Option<usize>, fuel: nat) -> Step
    decreases fuel, 1nat,
{
    match t.spec_by_byte(b) {
        Some(d) => run_desc(t, d@, st, Some(b), fuel),
        None => stay(st, cur),
    }
}

/// Executing the descriptor at unit offset `u`; `0xFFFF` means none.
pub open spec fn run_unit(t: PsdTable, u: u16, st: StateView, cur: Option<usize>, fuel: nat) -> Step {
    if u == 0xFFFF {
        stay(st, cur)
    } else {
        run_byte(t, (u * t.offset_mult) as usize, st, cur, fuel)
    }
}

/// From byte offset `b`, the chain of empty PlayLists ends within `fuel` hops.
pub open spec fn chain_ok(t: PsdTable, b: usize, fuel: nat) -> bool
    decreases fuel,
{
    match t.spec_by_byte(b) {
        Some(PsdDescriptor::PlayList(p)) => if p.items@.len() == 0 && p.next_ofs != 0xFFFF {
            fuel > 0 && chain_ok(t, (p.next_ofs * t.offset_mult) as usize, (fuel - 1) as nat)
        } else {
            true
        },
        _ => true,
    }
}

/// The fuel that every transition is given: the number of descriptors.
pub open spec fn full_fuel(t: PsdTable) -> nat {
    t.descriptors@.len()
}

/// The link of a state's descriptor: 0 prev, 1 next, 2 return (`0xFFFF` when none).
pub open spec fn state_link(st: StateView, which: int) -> u16 {
    match st {
        StateView::InSelection(s, _, _) => if which == 0 {
            s.prev_ofs
        } else if which == 1 {
            s.next_ofs
        } else {
            s.return_ofs
        },
        StateView::InPlayList(p, _) => if which == 0 {
            p.prev_ofs
        } else if which == 1 {
            p.next_ofs
        } else {
            p.return_ofs
        },
        StateView::WaitingDelay(p, _) => if which == 0 {
            p.prev_ofs
        } else if which == 1 {
            p.next_ofs
        } else {
            p.return_ofs
        },
        _ => 0xFFFF,
    }
}

/// The index of the first PlayList whose first item is `item`, at or after `i`.
pub open spec fn track_desc_from(descs: Seq<PsdDescriptor>, item: u16, i: int) -> Option<int>
    decreases descs.len() - i,
{
    if i < 0 || i >= descs.len() {
        None
    } else if descs[i] matches PsdDescriptor::PlayList(p) && p.items@.len() > 0 && p.items@[0]
        == item {
        Some(i)
    } else {
        track_desc_from(descs, item, i + 1)
    }
}

/// Selecting the PlayList that starts with physical track `t`, from state `st`.
pub open spec fn track_step_at(t: PsdTable, st: StateView, cur: Option<usize>, tr: u8) -> Step {
    match track_desc_from(t.descriptors@, tr as u16, 0) {
        Some(i) => run_byte(t, desc_byte(t.descriptors@[i]), st, cur, full_fuel(t)),
        None => stay(st, cur),
    }
}

/// The PBC engine.
pub struct PbcEngine {
    pub lot: LotTable,
    pub psd: PsdTable,
    pub current_desc_offset: Option<usize>,
    pub root_menu_offset: Option<usize>,
    pub state: PbcState,
}

/// The tables fit together: lookups agree, offsets cannot overflow, and no
/// chain of empty PlayLists loops.
pub open spec fn tables_ok(lot: LotTable, psd: PsdTable) -> bool {
    &&& psd.wf()
    &&& psd.offset_mult * 65536 <= usize::MAX
    &&& lot.mult() * 65536 <= usize::MAX
    &&& forall|b: usize| #[trigger] chain_ok(psd, b, full_fuel(psd))
}

impl PbcEngine {
    /// The engine's invariant.
    pub open spec fn wf(&self) -> bool {
        &&& tables_ok(self.lot, self.psd)
        &&& (self.state matches PbcState::InPlayList { desc, current_item_index } ==> current_item_index
            < desc.items@.len())
    }

    /// The outcome of executing the descriptor at byte offset `b` now.
    pub open spec fn at_byte(&self, b: usize) -> Step {
        run_byte(self.psd, b, self.state@, self.current_desc_offset, full_fuel(self.psd))
    }

    /// The outcome of executing the descriptor at unit offset `u` now.
    pub open spec fn at_unit(&self, u: u16) -> Step {
        run_unit(self.psd, u, self.state@, self.current_desc_offset, full_fuel(self.psd))
    }

    /// The engine after `step`, with everything else unchanged.
    pub open spec fn took(&self, old: &Self, step: Step) -> bool {
        &&& self.state@ == step.state
        &&& self.current_desc_offset == step.cur
        &&& self.lot == old.lot
        &&& self.psd == old.psd
        &&& self.root_menu_offset == old.root_menu_offset
    }

    /// The countdown under way, in milliseconds: a wait after a PlayList or
    /// a menu timeout; none while a motion menu loops, during a wait with no
    /// time limit, or after a timeout expired.
    pub open spec fn timer_spec(&self) -> Option<i64> {
        match self.state@ {
            StateView::WaitingDelay(_, w) => w,
            StateView::InSelection(_, t, _) => t,
            _ => None,
        }
    }

    /// Whether a countdown is under way (`timer_spec`).
    pub fn has_active_timer(&self) -> (r: bool)
        ensures
            r == self.timer_spec() is Some,
    {
        self.remaining_timer_ms().is_some()
    }

    /// The milliseconds left on the countdown under way (`timer_spec`).
    pub fn remaining_timer_ms(&self) -> (r: Option<i64>)
        ensures
            r == self.timer_spec(),
    {
        match &self.state {
            PbcState::WaitingDelay { remaining_wait, .. } => *remaining_wait,
            PbcState::InSelection { remaining_timeout, .. } => *remaining_timeout,
            _ => None,
        }
    }

    /// On a menu, the plays of its motion video left, counting the one under
    /// way (0 once they ran out, or for a still menu); `None` on a menu that
    /// repeats forever and outside menus.
    pub fn remaining_selection_loops(&self) -> (r: Option<u8>)
        ensures
            r == (match self.state@ {
                StateView::InSelection(_, _, l) => l,
                _ => None,
            }),
    {
        match &self.state {
            PbcState::InSelection { remaining_loops, .. } => *remaining_loops,
            _ => None,
        }
    }

    /// Starting: LID 1, else the first descriptor.
    pub open spec fn start_step(&self) -> Step {
        match lot_unit(self.lot.entries(), 1) {
            Some(u) => self.at_byte((u * self.lot.mult()) as usize),
            None => if self.psd.descriptors@.len() > 0 {
                self.at_byte(desc_byte(self.psd.descriptors@[0]))
            } else {
                stay(self.state@, self.current_desc_offset)
            },
        }
    }

    /// Creates an engine over parsed tables.
    pub fn new(lot: LotTable, psd: PsdTable) -> (r: Self)
        requires
            tables_ok(lot, psd),
        ensures
            r.wf(),
            r.lot == lot,
            r.psd == psd,
            r.current_desc_offset is None,
            r.state@ == StateView::Uninitialized,
            r.root_menu_offset == (match first_sel_from(psd.descriptors@, 0) {
                Some(i) => Some(desc_byte(psd.descriptors@[i])),
                None => None,
            }),
    {
        let root_menu_offset = match psd.first_selection_list() {
            Some(s) => Some(s.byte_offset),
            None => None,
        };
        PbcEngine { lot, psd, current_desc_offset: None, root_menu_offset, state: PbcState::Uninitialized }
    }

    /// Creates an engine when the tables fit together (`tables_ok`), else `None`.
    pub fn try_new(lot: LotTable, psd: PsdTable) -> (r: Option<Self>)
        requires
            psd.wf(),
        ensures
            r is Some <==> tables_ok(lot, psd),
            r matches Some(e) ==> e.wf() && e.lot == lot && e.psd == psd
                && e.current_desc_offset is None && e.state@ == StateView::Uninitialized,
    {
        let m = psd.offset_mult;
        let lm = lot.offset_multiplier();
        if m > usize::MAX / 65536 || lm > usize::MAX / 65536 {
            return None;
        }
        let n = psd.descriptors.len();
        let mut i: usize = 0;
        while i < n
            invariant
                n == psd.descriptors@.len(),
                i <= n,
                psd.wf(),
                psd.offset_mult * 65536 <= usize::MAX,
                forall|k: int| 0 <= k < i ==> chain_ok(psd, desc_byte(#[trigger] psd.descriptors@[k]), n as nat),
            decreases n - i,
        {
            let b = psd.descriptors[i].byte_offset();
            if !chain_settles(&psd, b, n) {
                assert(!chain_ok(psd, desc_byte(psd.descriptors@[i as int]), full_fuel(psd)));
                return None;
            }
            i += 1;
        }
        proof {
            lemma_byte_index_sound(psd.descriptors@);
            assert forall|b: usize| #[trigger] chain_ok(psd, b, full_fuel(psd)) by {
                if psd.offset_map@.contains_key(b) {
                    let k = psd.offset_map@[b] as int;
                    assert(chain_ok(psd, desc_byte(psd.descriptors@[k]), n as nat));
                }
            }
        }
        Some(PbcEngine::new(lot, psd))
    }

    /// Starts playback at LID 1 (or the first descriptor when LID 1 is missing).
    pub fn start(&mut self) -> (r: Option<PbcAction>)
        requires
            old(self).wf(),
        ensures
            final(self).wf(),
            final(self).took(old(self), old(self).start_step()),
            r == old(self).start_step().action,
    {
        proof {
            if let Some(u) = lot_unit(self.lot.entries(), 1) {
                lemma_unit_mul(u, self.lot.mult());
            }
        }
        if let Some(b) = self.lot.get_byte_offset(1) {
            return self.execute_descriptor_at_byte_offset(b);
        }
        if self.psd.descriptors.len() > 0 {
            let b = self.psd.descriptors[0].byte_offset();
            return self.execute_descriptor_at_byte_offset(b);
        }
        None
    }

    /// The dedicated PBC button: the root menu, or a restart.
    pub fn press_pbc(&mut self) -> (r: Option<PbcAction>)
        requires
            old(self).wf(),
        ensures
            final(self).wf(),
            ({
                let step = match old(self).root_menu_offset {
                    Some(b) => old(self).at_byte(b),
                    None => old(self).start_step(),
                };
                final(self).took(old(self), step) && r == step.action
            }),
    {
        match self.root_menu_offset {
            Some(b) => self.execute_descriptor_at_byte_offset(b),
            None => self.start(),
        }
    }

    /// Selecting number `num` on a menu (`bsn..bsn+nos`), or track `num` elsewhere.
    pub open spec fn select_step(&self, num: usize) -> Step {
        match self.state@ {
            StateView::InSelection(s, _, _) => {
                if s.bsn <= num < s.bsn + s.nos && num - s.bsn < s.selections.len()
                    && s.selections[num - s.bsn] != 0xFFFF {
                    self.at_unit(s.selections[num - s.bsn])
                } else {
                    stay(self.state@, self.current_desc_offset)
                }
            },
            _ => if num == 0 {
                stay(self.state@, self.current_desc_offset)
            } else {
                let first = self.track_step(((num + 1) % 256) as u8);
                if first.action is Some {
                    first
                } else {
                    track_step_at(self.psd, first.state, first.cur, (num % 256) as u8)
                }
            },
        }
    }

    /// Selecting the PlayList that starts with physical track `t`.
    pub open spec fn track_step(&self, t: u8) -> Step {
        track_step_at(self.psd, self.state@, self.current_desc_offset, t)
    }

    /// A number entered on the keypad. Never fails.
    pub fn select_number(&mut self, num: usize) -> (r: Result<Option<PbcAction>, String>)
        requires
            old(self).wf(),
        ensures
            final(self).wf(),
            final(self).took(old(self), old(self).select_step(num)),
            r == Ok::<Option<PbcAction>, String>(old(self).select_step(num).action),
    {
        let mut target: Option<u16> = None;
        let mut in_sel = false;
        if let PbcState::InSelection { desc, .. } = &self.state {
            in_sel = true;
            let bsn = desc.bsn as usize;
            let nos = desc.nos as usize;
            if num >= bsn && num < bsn + nos {
                let sel_index = num - bsn;
                if sel_index < desc.selections.len() {
                    let t = desc.selections[sel_index];
                    if t != 0xFFFF {
                        target = Some(t);
                    }
                }
            }
        }
        if in_sel {
            return match target {
                Some(t) => Ok(self.execute_descriptor_at_unit_offset(t)),
                None => Ok(None),
            };
        }
        if num == 0 {
            return Ok(None);
        }
        let low: usize = num % 256;
        let physical: u8 = ((low + 1) % 256) as u8;
        assert(physical == ((num + 1) % 256) as u8);
        if let Some(act) = self.select_track(physical) {
            return Ok(Some(act));
        }
        let second: u8 = low as u8;
        if let Some(act) = self.select_track(second) {
            return Ok(Some(act));
        }
        Ok(None)
    }

    /// Jumps to the PlayList that starts with physical track `track_number`.
    pub fn select_track(&mut self, track_number: u8) -> (r: Option<PbcAction>)
        requires
            old(self).wf(),
        ensures
            final(self).wf(),
            final(self).took(old(self), old(self).track_step(track_number)),
            r == old(self).track_step(track_number).action,
    {
        match self.find_track_desc(track_number as u16) {
            Some(b) => self.execute_descriptor_at_byte_offset(b),
            None => None,
        }
    }

    fn find_track_desc(&self, item_id: u16) -> (r: Option<usize>)
        ensures
            match track_desc_from(self.psd.descriptors@, item_id, 0) {
                Some(i) => r == Some(desc_byte(self.psd.descriptors@[i])),
                None => r is None,
            },
    {
        let mut i: usize = 0;
        let n = self.psd.descriptors.len();
        while i < n
            invariant
                n == self.psd.descriptors@.len(),
                i <= n,
                track_desc_from(self.psd.descriptors@, item_id, 0) == track_desc_from(
                    self.psd.descriptors@,
                    item_id,
                    i as int,
                ),
            decreases n - i,
        {
            if let PsdDescriptor::PlayList(pl) = &self.psd.descriptors[i] {
                if pl.items.len() > 0 && pl.items[0] == item_id {
                    return Some(pl.byte_offset);
                }
            }
            i += 1;
        }
        None
    }

    /// Following link `which` (0 prev, 1 next) of the current descriptor.
    pub open spec fn link_step(&self, which: int) -> Step {
        self.at_unit(state_link(self.state@, which))
    }

    /// The Prev button.
    pub fn press_prev(&mut self) -> (r: Option<PbcAction>)
        requires
            old(self).wf(),
        ensures
            final(self).wf(),
            final(self).took(old(self), old(self).link_step(0)),
            r == old(self).link_step(0).action,
    {
        let ofs = self.link_of(0);
        self.execute_descriptor_at_unit_offset(ofs)
    }

    /// The Next button.
    pub fn press_next(&mut self) -> (r: Option<PbcAction>)
        requires
            old(self).wf(),
        ensures
            final(self).wf(),
            final(self).took(old(self), old(self).link_step(1)),
            r == old(self).link_step(1).action,
    {
        let ofs = self.link_of(1);
        self.execute_descriptor_at_unit_offset(ofs)
    }

    /// The Return button: the return link, else the root menu.
    pub open spec fn return_step(&self) -> Step {
        let ofs = state_link(self.state@, 2);
        if ofs != 0xFFFF {
            self.at_unit(ofs)
        } else {
            match self.root_menu_offset {
                Some(b) => self.at_byte(b),
                None => stay(self.state@, self.current_desc_offset),
            }
        }
    }

    /// The Return button.
    pub fn press_return(&mut self) -> (r: Option<PbcAction>)
        requires
            old(self).wf(),
        ensures
            final(self).wf(),
            final(self).took(old(self), old(self).return_step()),
            r == old(self).return_step().action,
    {
        let ofs = self.link_of(2);
        if ofs != 0xFFFF {
            self.execute_descriptor_at_unit_offset(ofs)
        } else {
            match self.root_menu_offset {
                Some(b) => self.execute_descriptor_at_byte_offset(b),
                None => None,
            }
        }
    }

    /// The Default / Enter button on a menu.
    pub open spec fn default_step(&self) -> Step {
        match self.state@ {
            StateView::InSelection(s, _, _) => if s.default_ofs != 0xFFFF {
                self.at_unit(s.default_ofs)
            } else {
                stay(self.state@, self.current_desc_offset)
            },
            _ => stay(self.state@, self.current_desc_offset),
        }
    }

    /// The Default / Enter button.
    pub fn press_default(&mut self) -> (r: Option<PbcAction>)
        requires
            old(self).wf(),
        ensures
            final(self).wf(),
            final(self).took(old(self), old(self).default_step()),
            r == old(self).default_step().action,
    {
        let mut def: u16 = 0xFFFF;
        if let PbcState::InSelection { desc, .. } = &self.state {
            def = desc.default_ofs;
        }
        if def != 0xFFFF {
            return self.execute_descriptor_at_unit_offset(def);
        }
        None
    }

    fn link_of(&self, which: u8) -> (r: u16)
        requires
            which <= 2,
        ensures
            r == state_link(self.state@, which as int),
    {
        match &self.state {
            PbcState::InSelection { desc, .. } => if which == 0 {
                desc.prev_ofs
            } else if which == 1 {
                desc.next_ofs
            } else {
                desc.return_ofs
            },
            PbcState::InPlayList { desc, .. } => if which == 0 {
                desc.prev_ofs
            } else if which == 1 {
                desc.next_ofs
            } else {
                desc.return_ofs
            },
            PbcState::WaitingDelay { desc, .. } => if which == 0 {
                desc.prev_ofs
            } else if which == 1 {
                desc.next_ofs
            } else {
                desc.return_ofs
            },
            _ => 0xFFFF,
        }
    }

    /// After a PlayList: its `next` link, else the root menu, else the end.
    pub open spec fn after_list_step(&self, p: PlayListView) -> Step {
        if p.next_ofs != 0xFFFF {
            self.at_unit(p.next_ofs)
        } else {
            match self.root_menu_offset {
                Some(b) => self.at_byte(b),
                None => Step { state: StateView::Ended, cur: self.current_desc_offset, action: Some(PbcAction::End) },
            }
        }
    }

    /// The media item that was playing has finished.
    pub open spec fn finished_step(&self) -> Step {
        match self.state@ {
            StateView::InPlayList(p, idx) => {
                if idx + 1 < p.items.len() {
                    Step {
                        state: StateView::InPlayList(p, (idx + 1) as usize),
                        cur: self.current_desc_offset,
                        action: Some(item_action(p, idx + 1)),
                    }
                } else if p.wtime > 0 && p.wtime < 255 {
                    Step {
                        state: StateView::WaitingDelay(p, Some((p.wtime * 1000) as i64)),
                        cur: self.current_desc_offset,
                        action: None,
                    }
                } else if p.wtime == 255 {
                    Step { state: StateView::WaitingDelay(p, None), cur: self.current_desc_offset, action: None }
                } else {
                    self.after_list_step(p)
                }
            },
            StateView::InSelection(s, timer, loops) => match loops {
                None => Step {
                    state: StateView::InSelection(s, timer, None),
                    cur: self.current_desc_offset,
                    action: Some(sel_action(s)),
                },
                Some(n) => if n > 1 {
                    Step {
                        state: StateView::InSelection(s, timer, Some((n - 1) as u8)),
                        cur: self.current_desc_offset,
                        action: Some(sel_action(s)),
                    }
                } else {
                    Step {
                        state: StateView::InSelection(
                            s,
                            if timer is Some {
                                timer
                            } else {
                                sel_timer(s)
                            },
                            Some(0),
                        ),
                        cur: self.current_desc_offset,
                        action: None,
                    }
                },
            },
            _ => stay(self.state@, self.current_desc_offset),
        }
    }

    /// The current media item has finished playing.
    pub fn on_item_finished(&mut self) -> (r: Option<PbcAction>)
        requires
            old(self).wf(),
        ensures
            final(self).wf(),
            final(self).took(old(self), old(self).finished_step()),
            r == old(self).finished_step().action,
    {
        let mut st = PbcState::Uninitialized;
        std::mem::swap(&mut st, &mut self.state);
        match st {
            PbcState::InPlayList { desc, current_item_index } => {
                let n_items = desc.items.len();
                if current_item_index + 1 < n_items {
                    let next_idx = current_item_index + 1;
                    let item_id = desc.items[next_idx];
                    let act = item_action_exec(&desc, next_idx);
                    self.state = PbcState::InPlayList { desc, current_item_index: next_idx };
                    assert(item_id == desc.items@[next_idx as int]);
                    Some(act)
                } else if desc.wtime > 0 && desc.wtime < 255 {
                    let w: i64 = desc.wtime as i64 * 1000;
                    self.state = PbcState::WaitingDelay { desc, remaining_wait: Some(w) };
                    None
                } else if desc.wtime == 255 {
                    self.state = PbcState::WaitingDelay { desc, remaining_wait: None };
                    None
                } else {
                    let next_ofs = desc.next_ofs;
                    self.state = PbcState::InPlayList { desc, current_item_index };
                    self.after_list(next_ofs)
                }
            },
            PbcState::InSelection { desc, remaining_timeout, remaining_loops } => {
                match remaining_loops {
                    None => {
                        let act = sel_action_exec(&desc);
                        self.state = PbcState::InSelection { desc, remaining_timeout, remaining_loops: None };
                        Some(act)
                    },
                    Some(n) => {
                        if n > 1 {
                            let act = sel_action_exec(&desc);
                            self.state = PbcState::InSelection {
                                desc,
                                remaining_timeout,
                                remaining_loops: Some(n - 1),
                            };
                            Some(act)
                        } else {
                            let timer = match remaining_timeout {
                                Some(t) => Some(t),
                                None => sel_timer_exec(&desc),
                            };
                            self.state = PbcState::InSelection { desc, remaining_timeout: timer, remaining_loops: Some(0) };
                            None
                        }
                    },
                }
            },
            other => {
                self.state = other;
                None
            },
        }
    }

    fn after_list(&mut self, next_ofs: u16) -> (r: Option<PbcAction>)
        requires
            old(self).wf(),
            old(self).state matches PbcState::InPlayList { desc, .. } && desc.next_ofs == next_ofs,
        ensures
            final(self).wf(),
            final(self).took(old(self), old(self).after_list_step(match old(self).state@ {
                StateView::InPlayList(p, _) => p,
                _ => arbitrary(),
            })),
            r == old(self).after_list_step(match old(self).state@ {
                StateView::InPlayList(p, _) => p,
                _ => arbitrary(),
            }).action,
    {
        if next_ofs != 0xFFFF {
            self.execute_descriptor_at_unit_offset(next_ofs)
        } else {
            match self.root_menu_offset {
                Some(b) => self.execute_descriptor_at_byte_offset(b),
                None => {
                    self.state = PbcState::Ended;
                    Some(PbcAction::End)
                },
            }
        }
    }

    /// A clock tick of `dt_ms` milliseconds.
    pub open spec fn tick_step(&self, dt_ms: u32) -> Step {
        match self.state@ {
            StateView::WaitingDelay(p, Some(w)) => {
                let left = sat_sub(w, dt_ms);
                if left <= 0 {
                    self.after_wait_step(p, left)
                } else {
                    Step {
                        state: StateView::WaitingDelay(p, Some(left)),
                        cur: self.current_desc_offset,
                        action: None,
                    }
                }
            },
            StateView::InSelection(s, Some(t), loops) => {
                let left = sat_sub(t, dt_ms);
                if left <= 0 {
                    let st = StateView::InSelection(s, None, loops);
                    run_unit(self.psd, s.timeout_ofs, st, self.current_desc_offset, full_fuel(self.psd))
                } else {
                    stay(StateView::InSelection(s, Some(left), loops), self.current_desc_offset)
                }
            },
            _ => stay(self.state@, self.current_desc_offset),
        }
    }

    /// Expiry of a wait: the `next` link, else the root menu, else the end;
    /// the counter has already reached `left`.
    pub open spec fn after_wait_step(&self, p: PlayListView, left: i64) -> Step {
        let st = StateView::WaitingDelay(p, Some(left));
        if p.next_ofs != 0xFFFF {
            run_unit(self.psd, p.next_ofs, st, self.current_desc_offset, full_fuel(self.psd))
        } else {
            match self.root_menu_offset {
                Some(b) => run_byte(self.psd, b, st, self.current_desc_offset, full_fuel(self.psd)),
                None => Step { state: StateView::Ended, cur: self.current_desc_offset, action: Some(PbcAction::End) },
            }
        }
    }

    /// Advances the wait and menu timers by `dt_ms` milliseconds.
    pub fn tick(&mut self, dt_ms: u32) -> (r: Option<PbcAction>)
        requires
            old(self).wf(),
        ensures
            final(self).wf(),
            final(self).took(old(self), old(self).tick_step(dt_ms)),
            r == old(self).tick_step(dt_ms).action,
    {
        let mut st = PbcState::Uninitialized;
        std::mem::swap(&mut st, &mut self.state);
        match st {
            PbcState::WaitingDelay { desc, remaining_wait: None } => {
                self.state = PbcState::WaitingDelay { desc, remaining_wait: None };
                None
            },
            PbcState::WaitingDelay { desc, remaining_wait: Some(w) } => {
                let left = sat_sub_exec(w, dt_ms);
                let next_ofs = desc.next_ofs;
                self.state = PbcState::WaitingDelay { desc, remaining_wait: Some(left) };
                if left <= 0 {
                    if next_ofs != 0xFFFF {
                        self.execute_descriptor_at_unit_offset(next_ofs)
                    } else {
                        match self.root_menu_offset {
                            Some(b) => self.execute_descriptor_at_byte_offset(b),
                            None => {
                                self.state = PbcState::Ended;
                                Some(PbcAction::End)
                            },
                        }
                    }
                } else {
                    None
                }
            },
            PbcState::InSelection { desc, remaining_timeout, remaining_loops } => {
                match remaining_timeout {
                    Some(t) => {
                        let left = sat_sub_exec(t, dt_ms);
                        let to = desc.timeout_ofs;
                        if left <= 0 {
                            self.state = PbcState::InSelection { desc, remaining_timeout: None, remaining_loops };
                            self.execute_descriptor_at_unit_offset(to)
                        } else {
                            self.state = PbcState::InSelection {
                                desc,
                                remaining_timeout: Some(left),
                                remaining_loops,
                            };
                            None
                        }
                    },
                    None => {
                        self.state = PbcState::InSelection { desc, remaining_timeout: None, remaining_loops };
                        None
                    },
                }
            },
            other => {
                self.state = other;
                None
            },
        }
    }

    /// Executes the descriptor at unit offset `unit_ofs` (`0xFFFF`: nothing).
    pub fn execute_descriptor_at_unit_offset(&mut self, unit_ofs: u16) -> (r: Option<PbcAction>)
        requires
            old(self).wf(),
        ensures
            final(self).wf(),
            final(self).took(old(self), old(self).at_unit(unit_ofs)),
            r == old(self).at_unit(unit_ofs).action,
    {
        if unit_ofs == 0xFFFF {
            return None;
        }
        proof {
            lemma_unit_mul(unit_ofs, self.psd.offset_mult);
        }
        let b = (unit_ofs as usize) * self.psd.offset_mult;
        self.execute_descriptor_at_byte_offset(b)
    }

    /// Executes the descriptor at byte offset `byte_ofs` (nothing when there is none).
    pub fn execute_descriptor_at_byte_offset(&mut self, byte_ofs: usize) -> (r: Option<PbcAction>)
        requires
            old(self).wf(),
        ensures
            final(self).wf(),
            final(self).took(old(self), old(self).at_byte(byte_ofs)),
            r == old(self).at_byte(byte_ofs).action,
    {
        self.run_at_byte(byte_ofs, Ghost(full_fuel(self.psd)))
    }

    fn run_at_byte(&mut self, byte_ofs: usize, Ghost(fuel): Ghost<nat>) -> (r: Option<PbcAction>)
        requires
            old(self).wf(),
            chain_ok(old(self).psd, byte_ofs, fuel),
        ensures
            final(self).wf(),
            final(self).took(old(self), run_byte(old(self).psd, byte_ofs, old(self).state@, old(self).current_desc_offset, fuel)),
            r == run_byte(old(self).psd, byte_ofs, old(self).state@, old(self).current_desc_offset, fuel).action,
        decreases fuel, 1nat,
    {
        let found = match self.psd.get_by_byte_offset(byte_ofs) {
            Some(d) => Some(d.clone()),
            None => None,
        };
        match found {
            Some(desc) => {
                self.current_desc_offset = Some(byte_ofs);
                self.run_desc(desc, Ghost(fuel))
            },
            None => None,
        }
    }

    fn run_desc(&mut self, desc: PsdDescriptor, Ghost(fuel): Ghost<nat>) -> (r: Option<PbcAction>)
        requires
            old(self).wf(),
            desc matches PsdDescriptor::PlayList(p) ==> (p.items@.len() == 0 && p.next_ofs != 0xFFFF
                ==> (fuel > 0 && chain_ok(old(self).psd, (p.next_ofs * old(self).psd.offset_mult) as usize, (fuel - 1) as nat))),
        ensures
            final(self).wf(),
            final(self).took(old(self), run_desc(old(self).psd, desc@, old(self).state@, old(self).current_desc_offset, fuel)),
            r == run_desc(old(self).psd, desc@, old(self).state@, old(self).current_desc_offset, fuel).action,
        decreases fuel, 0nat,
    {
        match desc {
            PsdDescriptor::PlayList(p) => {
                if p.items.len() == 0 {
                    if p.next_ofs != 0xFFFF {
                        proof {
                            lemma_unit_mul(p.next_ofs, self.psd.offset_mult);
                        }
                        let b = (p.next_ofs as usize) * self.psd.offset_mult;
                        return self.run_at_byte(b, Ghost((fuel - 1) as nat));
                    } else {
                        self.state = PbcState::Ended;
                        return Some(PbcAction::End);
                    }
                }
                let act = item_action_exec(&p, 0);
                self.state = PbcState::InPlayList { desc: p, current_item_index: 0 };
                Some(act)
            },
            PsdDescriptor::SelectionList(s) => {
                let act = sel_action_exec(&s);
                let (timer, loops) = sel_entry_exec(&s);
                self.state = PbcState::InSelection { desc: s, remaining_timeout: timer, remaining_loops: loops };
                Some(act)
            },
            PsdDescriptor::EndList(_) => {
                self.state = PbcState::Ended;
                Some(PbcAction::End)
            },
        }
    }
}

/// A unit offset times a small enough multiplier fits in `usize`.
pub proof fn lemma_unit_mul(u: u16, m: usize)
    requires
        m * 65536 <= usize::MAX,
    ensures
        u * m <= usize::MAX,
        u * m < 65536 * m + 1,
{
    assert(u * m <= 65535 * m) by (nonlinear_arith)
        requires
            u <= 65535,
            m >= 0,
    ;
}

/// Follows the chain of empty PlayLists from byte offset `b` for at most `fuel` hops.
pub fn chain_settles(t: &PsdTable, b: usize, fuel: usize) -> (r: bool)
    requires
        t.wf(),
        t.offset_mult * 65536 <= usize::MAX,
    ensures
        r == chain_ok(*t, b, fuel as nat),
{
    let mut cur = b;
    let mut f = fuel;
    loop
        invariant
            t.wf(),
            t.offset_mult * 65536 <= usize::MAX,
            f <= fuel,
            chain_ok(*t, b, fuel as nat) == chain_ok(*t, cur, f as nat),
        decreases f,
    {
        let mut next: Option<u16> = None;
        match t.get_by_byte_offset(cur) {
            Some(PsdDescriptor::PlayList(p)) => {
                if p.items.len() == 0 && p.next_ofs != 0xFFFF {
                    next = Some(p.next_ofs);
                }
            },
            _ => {},
        }
        match next {
            None => return true,
            Some(u) => {
                if f == 0 {
                    return false;
                }
                proof {
                    lemma_unit_mul(u, t.offset_mult);
                }
                cur = (u as usize) * t.offset_mult;
                f -= 1;
            },
        }
    }
}

/// `x - y` saturated at `i64::MIN`.
pub open spec fn sat_sub(x: i64, y: u32) -> i64 {
    if x - y < i64::MIN {
        i64::MIN
    } else {
        (x - y) as i64
    }
}

fn sat_sub_exec(x: i64, y: u32) -> (r: i64)
    ensures
        r == sat_sub(x, y),
{
    if x < i64::MIN + y as i64 {
        i64::MIN
    } else {
        x - y as i64
    }
}

fn item_action_exec(p: &PlayListDesc, idx: usize) -> (r: PbcAction)
    requires
        idx < p.items@.len(),
    ensures
        r == item_action(p@, idx as int),
{
    let item = p.items[idx];
    if item < 1000 {
        PbcAction::PlayTrack { track_number: item as u8, item_id: item, ptime: p.ptime, wtime: p.wtime }
    } else {
        PbcAction::DisplayStillMenu { item_id: item, segment_index: item - 999, nos: 0, bsn: 0, timeout_sec: 0 }
    }
}

fn sel_action_exec(s: &SelectionListDesc) -> (r: PbcAction)
    ensures
        r == sel_action(s@),
{
    if s.item_id >= 1000 {
        PbcAction::DisplayStillMenu {
            item_id: s.item_id,
            segment_index: s.item_id - 999,
            nos: s.nos,
            bsn: s.bsn,
            timeout_sec: s.timeout_time,
        }
    } else if s.item_id >= 2 && s.item_id <= 99 {
        PbcAction::PlayMotionMenu {
            track_number: s.item_id as u8,
            item_id: s.item_id,
            nos: s.nos,
            bsn: s.bsn,
            timeout_sec: s.timeout_time,
        }
    } else {
        PbcAction::DisplayStillMenu {
            item_id: s.item_id,
            segment_index: 1,
            nos: s.nos,
            bsn: s.bsn,
            timeout_sec: s.timeout_time,
        }
    }
}

fn sel_timer_exec(s: &SelectionListDesc) -> (r: Option<i64>)
    ensures
        r == sel_timer(s@),
{
    if s.timeout_time > 0 {
        Some(s.timeout_time as i64 * 1000)
    } else {
        None
    }
}

fn sel_entry_exec(s: &SelectionListDesc) -> (r: (Option<i64>, Option<u8>))
    ensures
        sel_entry(s@) == StateView::InSelection(s@, r.0, r.1),
{
    if s.item_id < 1000 && s.item_id >= 2 && s.item_id <= 99 {
        let n = s.loop_count % 128;
        if n == 0 {
            (None, None)
        } else {
            (None, Some(n))
        }
    } else {
        (sel_timer_exec(s), Some(0))
    }
}

/// A PlayList item numbered 1000 or more is a still-picture segment, shown
/// as segment `item - 999`; a lower one is the MPEG track of that number.
/// Distinct segment items therefore show distinct segments.
pub proof fn lemma_item_action_segment(p: PlayListView, idx: int, q: PlayListView, jdx: int)
    requires
        0 <= idx < p.items.len(),
        0 <= jdx < q.items.len(),
    ensures
        p.items[idx] >= 1000 ==> (item_action(p, idx) matches PbcAction::DisplayStillMenu { item_id, segment_index, .. }
            && item_id == p.items[idx] && segment_index as int + 999 == p.items[idx] as int),
        p.items[idx] < 1000 ==> (item_action(p, idx) matches PbcAction::PlayTrack { track_number, item_id, .. }
            && item_id == p.items[idx] && track_number as int == p.items[idx] as int % 256),
        p.items[idx] >= 1000 && q.items[jdx] >= 1000 && p.items[idx] != q.items[jdx] ==> item_action(p, idx)
            != item_action(q, jdx),
{
    let x: u16 = p.items[idx];
    assert((x as u8) as int == x as int % 256) by (bit_vector);
}

/// A menu whose picture is item 1000 or more shows segment `item - 999`.
pub proof fn lemma_sel_action_segment(s: SelectionListView)
    ensures
        s.item_id >= 1000 ==> (sel_action(s) matches PbcAction::DisplayStillMenu { item_id, segment_index, .. }
            && item_id == s.item_id && segment_index as int + 999 == s.item_id as int),
{
}

} // verus!
