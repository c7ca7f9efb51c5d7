//! The VCDSCRIPT interpreter: a coroutine that runs a page script one
//! statement at a time and yields when it waits for a key, a delay, a video
//! or the user's answer to an alert.

use crate::interactive::script_ast::{
    eval_spec, read_var, var_slot, BinOp, CondOp, Expr, ScriptProgram, Statement, StmtView,
};
use crate::text::{dec_digits, push_dec, push_str};
use std::collections::BTreeMap;
use vstd::prelude::*;

verus! {

broadcast use vstd::string::group_string_axioms;

/// What the interpreter asks of the page it runs on.
pub trait VmHost {
    fn draw_image(&mut self, filename: &str, x: i32, y: i32, mode: i32);

    fn draw_cursor(&mut self, x: i32, y: i32);

    fn play_sound(&mut self, filename: &str);

    fn play_video(&mut self, filename: &str, start_frame: i32, end_frame: i32, exit_page: Option<&str>);

    fn karaoke_set(&mut self, channel: i32, mode: i32) {
    }

    /// The song at `index` of the host's playlist; a host without one has none (-1).
    fn karaoke_get(&self, index: i32) -> (r: i32)
        default_ensures
            r == -1,
    {
        -1
    }

    fn karaoke_del(&mut self, index: i32) {
    }

    fn karaoke_ins(&mut self, index: i32, val: i32) {
    }

    /// Starts the next song of the host's playlist; a host without one starts nothing.
    fn karaoke_play(&mut self) -> (r: bool)
        default_ensures
            !r,
    {
        false
    }

    fn get_time_ms(&self) -> u64;

    /// The time in tenths of a second.
    fn get_time_units(&self) -> i32 {
        (self.get_time_ms() / 100) as i32
    }
}

/// A statement the interpreter could not run, shown to the user.
#[derive(Debug, Clone, PartialEq, Eq)]
pub struct UnrecognizedInstruction {
    pub line_no: u32,
    pub raw_code: String,
    pub reason: String,
}

/// Where the interpreter stands.
#[derive(Debug, Clone, PartialEq, Eq)]
pub enum VmState {
    Ready,
    Running,
    WaitingForKey { target_var: u8 },
    WaitingForDelay { until_time: i32 },
    WaitingForVideo,
    Finished,
    PausedForAlert(UnrecognizedInstruction),
    Error(String),
}

/// A `VmState` with its texts as character sequences.
pub enum StateView {
    Ready,
    Running,
    WaitingForKey { target_var: u8 },
    WaitingForDelay { until_time: i32 },
    WaitingForVideo,
    Finished,
    PausedForAlert(u32, Seq<char>, Seq<char>),
    Error(Seq<char>),
}

impl View for VmState {
    type V = StateView;

    open spec fn view(&self) -> StateView {
        match self {
            VmState::Ready => StateView::Ready,
            VmState::Running => StateView::Running,
            VmState::WaitingForKey { target_var } => StateView::WaitingForKey { target_var: *target_var },
            VmState::WaitingForDelay { until_time } => StateView::WaitingForDelay { until_time: *until_time },
            VmState::WaitingForVideo => StateView::WaitingForVideo,
            VmState::Finished => StateView::Finished,
            VmState::PausedForAlert(a) => StateView::PausedForAlert(a.line_no, a.raw_code@, a.reason@),
            VmState::Error(e) => StateView::Error(e@),
        }
    }
}

impl VmState {
    /// A copy of the state.
    pub fn copy(&self) -> (r: VmState)
        ensures
            r@ == self@,
    {
        match self {
            VmState::Ready => VmState::Ready,
            VmState::Running => VmState::Running,
            VmState::WaitingForKey { target_var } => VmState::WaitingForKey { target_var: *target_var },
            VmState::WaitingForDelay { until_time } => VmState::WaitingForDelay { until_time: *until_time },
            VmState::WaitingForVideo => VmState::WaitingForVideo,
            VmState::Finished => VmState::Finished,
            VmState::PausedForAlert(a) => VmState::PausedForAlert(
                UnrecognizedInstruction { line_no: a.line_no, raw_code: a.raw_code.clone(), reason: a.reason.clone() },
            ),
            VmState::Error(e) => VmState::Error(e.clone()),
        }
    }
}

/// Whether `k` lies after line `l`: at or after it when `inclusive`.
pub open spec fn line_after(k: u32, l: u32, inclusive: bool) -> bool {
    if inclusive {
        k >= l
    } else {
        k > l
    }
}

/// The first key of `dom` after line `l`.
pub open spec fn first_after(dom: Set<u32>, l: u32, inclusive: bool) -> Option<u32> {
    if exists|k: u32| dom.contains(k) && line_after(k, l, inclusive) {
        Some(
            choose|k: u32|
                dom.contains(k) && line_after(k, l, inclusive) && forall|j: u32|
                    dom.contains(j) && line_after(j, l, inclusive) ==> k <= j,
        )
    } else {
        None
    }
}

/// The first line of `lines` after line `l`.
fn first_key_after(lines: &BTreeMap<u32, Vec<Statement>>, l: u32, inclusive: bool) -> (r: Option<u32>)
    ensures
        match r {
            Some(k) => lines@.contains_key(k) && line_after(k, l, inclusive) && forall|j: u32|
                lines@.contains_key(j) && line_after(j, l, inclusive) ==> k <= j,
            None => forall|j: u32| lines@.contains_key(j) ==> !line_after(j, l, inclusive),
        },
{
    let mut best: Option<u32> = None;
    for k in it: lines.keys()
        invariant
            it.seq().unref().to_set() == lines@.dom(),
            match best {
                Some(b) => lines@.contains_key(b) && line_after(b, l, inclusive) && forall|i: int|
                    0 <= i < it.index() && line_after(*it.seq()[i], l, inclusive) ==> b <= *it.seq()[i],
                None => forall|i: int| 0 <= i < it.index() ==> !line_after(*it.seq()[i], l, inclusive),
            },
    {
        let key = *k;
        let after = if inclusive {
            key >= l
        } else {
            key > l
        };
        if after {
            match best {
                Some(b) => {
                    if key < b {
                        best = Some(key);
                    }
                },
                None => {
                    best = Some(key);
                },
            }
        }
    }
    best
}

// ---------------------------------------------------------------------------
// Interpreter state
// ---------------------------------------------------------------------------

/// An open `FOR` loop: its variable, its end value, and where `NEXT` jumps back to.
#[derive(Debug, Clone, Copy)]
pub struct ForLoopState {
    pub var: u8,
    pub end: i32,
    pub loop_start_pc: Option<(u32, usize)>,
}

/// The interpreter.
pub struct VcdScriptVm {
    pub program: ScriptProgram,
    pub variables: [i32; 26],
    pub pc: Option<(u32, usize)>,
    pub state: VmState,
    pub call_stack: Vec<Option<(u32, usize)>>,
    pub for_stack: Vec<ForLoopState>,
    pub prng_seed: u32,
    /// Every request made of the host so far, with the host's answer (0 where
    /// the answer does not matter).
    pub host_log: Ghost<Seq<(HostCall, i32)>>,
}

/// An open `FOR` loop, as a value.
pub struct ForView {
    pub var: u8,
    pub end: i32,
    pub start_pc: Option<(u32, usize)>,
}

/// The interpreter as a value.
pub struct VmView {
    pub lines: Map<u32, Seq<StmtView>>,
    pub vars: Seq<i32>,
    pub pc: Option<(u32, usize)>,
    pub state: StateView,
    pub calls: Seq<Option<(u32, usize)>>,
    pub fors: Seq<ForView>,
    pub seed: u32,
}

impl View for VcdScriptVm {
    type V = VmView;

    open spec fn view(&self) -> VmView {
        VmView {
            lines: self.program.line_map(),
            vars: self.variables@,
            pc: self.pc,
            state: self.state@,
            calls: self.call_stack@,
            fors: self.for_stack@.map_values(
                |f: ForLoopState| ForView { var: f.var, end: f.end, start_pc: f.loop_start_pc },
            ),
            seed: self.prng_seed,
        }
    }
}

/// `vars` with variable `v` set to `x` (no change for a slot past `Z`).
pub open spec fn set_var(vars: Seq<i32>, v: u8, x: i32) -> Seq<i32> {
    if var_slot(v) < 26 {
        vars.update(var_slot(v), x)
    } else {
        vars
    }
}

/// The statement after `(line, idx)`: the next on the line, else the first of the next line.
pub open spec fn next_pc(lines: Map<u32, Seq<StmtView>>, line: u32, idx: usize) -> Option<(u32, usize)> {
    if lines.contains_key(line) && idx + 1 < lines[line].len() {
        Some((line, (idx + 1) as usize))
    } else {
        match first_after(lines.dom(), line, false) {
            Some(k) => Some((k, 0)),
            None => None,
        }
    }
}

/// The text of the error for a missing `GOTO`/`GOSUB` target.
pub open spec fn jump_error(gosub: bool, target: u32) -> Seq<char> {
    (if gosub {
        "GOSUB 目标行号不存在: "@
    } else {
        "GOTO 目标行号不存在: "@
    }) + dec_digits(target as nat)
}

/// The text of the error for an `i32` quotient or increment that does not exist.
pub open spec fn overflow_error() -> Seq<char> {
    "算术溢出"@
}

/// The text of the error for a script that runs too long without yielding.
pub open spec fn step_limit_error() -> Seq<char> {
    "执行步数超出单帧上限 (可能存在死循环)"@
}

/// A comparison.
pub open spec fn compare(op: CondOp, l: i32, r: i32) -> bool {
    match op {
        CondOp::Eq => l == r,
        CondOp::Ne => l != r,
        CondOp::Lt => l < r,
        CondOp::Gt => l > r,
        CondOp::Le => l <= r,
        CondOp::Ge => l >= r,
    }
}

/// A line that reads the clock.
pub open spec fn reads_time(stmts: Seq<StmtView>) -> bool {
    exists|i: int| 0 <= i < stmts.len() && stmts[i] is CallTime
}

/// The Park–Miller step of the random generator.
pub open spec fn prng_next(seed: u32) -> u32 {
    ((seed as int * 16807) % 2147483647) as u32
}

/// The seed a first `RAND` derives from the time `t`.
pub open spec fn seed_from_time(t: i32) -> u32 {
    if (t as u32) & 0xff == 0 {
        1
    } else {
        (t as u32) & 0xff
    }
}

/// `v` running at `pc`.
pub open spec fn go(v: VmView, pc: Option<(u32, usize)>) -> VmView {
    VmView { pc, state: StateView::Running, ..v }
}

/// `v` stopped on an error.
pub open spec fn fail(v: VmView, e: Seq<char>) -> VmView {
    VmView { state: StateView::Error(e), ..v }
}

/// A jump to the start of line `target`, or an error where it does not exist.
pub open spec fn jump(v: VmView, target: u32, push: Option<Option<(u32, usize)>>) -> VmView {
    if v.lines.contains_key(target) {
        VmView {
            pc: Some((target, 0)),
            state: StateView::Running,
            calls: match push {
                Some(ret) => v.calls.push(ret),
                None => v.calls,
            },
            ..v
        }
    } else {
        fail(v, jump_error(push is Some, target))
    }
}

/// `RETURN`: back to the last `GOSUB`, else on to `np`.
pub open spec fn ret(v: VmView, np: Option<(u32, usize)>) -> VmView {
    if v.calls.len() > 0 {
        VmView { pc: v.calls.last(), state: StateView::Running, calls: v.calls.drop_last(), ..v }
    } else {
        go(v, np)
    }
}

/// The statement run as the branch of an `IF`, continuing at `np`.
pub open spec fn sub_step(v: VmView, st: StmtView, np: Option<(u32, usize)>) -> VmView {
    match st {
        StmtView::Goto(e) => match eval_spec(e, v.vars) {
            Some(t) => jump(v, t as u32, None),
            None => fail(v, overflow_error()),
        },
        StmtView::Gosub(e) => match eval_spec(e, v.vars) {
            Some(t) => jump(v, t as u32, Some(np)),
            None => fail(v, overflow_error()),
        },
        StmtView::Return => ret(v, np),
        StmtView::Assign(x, e) => match eval_spec(e, v.vars) {
            Some(val) => go(VmView { vars: set_var(v.vars, x, val), ..v }, np),
            None => fail(v, overflow_error()),
        },
        StmtView::DrawImage { file, x, y, mode } => if eval_spec(x, v.vars) is Some && eval_spec(y, v.vars) is Some
            && eval_spec(mode, v.vars) is Some {
            go(v, np)
        } else {
            fail(v, overflow_error())
        },
        StmtView::End => VmView { pc: None, state: StateView::Finished, ..v },
        _ => go(v, np),
    }
}

/// The wait an `IF l < r THEN GOTO n` makes when it loops back to a line that
/// reads the clock: the target line, when it is such a delay loop.
pub open spec fn delay_loop(v: VmView, line: u32, op: CondOp, then_stmt: StmtView) -> bool {
    &&& op == CondOp::Lt
    &&& then_stmt matches StmtView::Goto(te)
    &&& eval_spec(te, v.vars) matches Some(t)
    &&& (t as u32) <= line
    &&& v.lines.contains_key(t as u32)
    &&& reads_time(v.lines[t as u32])
}

/// Runs statement `st` of line `line`, continuing at `np`; `reply` is what the
/// host answered to `step_call` (the time, a playlist entry, or 1 when a song started).
pub open spec fn exec_stmt(v: VmView, line: u32, st: StmtView, np: Option<(u32, usize)>, reply: i32) -> VmView {
    match st {
        StmtView::Assign(x, e) => sub_step(v, st, np),
        StmtView::CallIrkey(t) => VmView { pc: np, state: StateView::WaitingForKey { target_var: t }, ..v },
        StmtView::CallTime(t) => go(VmView { vars: set_var(v.vars, t, reply), ..v }, np),
        StmtView::CallRand(t) => {
            let s0 = if v.seed == 0 {
                seed_from_time(reply)
            } else {
                v.seed
            };
            let nx = prng_next(s0);
            go(VmView { vars: set_var(v.vars, t, nx as i32), seed: nx, ..v }, np)
        },
        StmtView::DrawCursor(x, y) => if eval_spec(x, v.vars) is Some && eval_spec(y, v.vars) is Some {
            go(v, np)
        } else {
            fail(v, overflow_error())
        },
        StmtView::DrawImage { .. } => sub_step(v, st, np),
        StmtView::PlaySound(_) => go(v, np),
        StmtView::PlayVideo { start_frame, end_frame, .. } => if eval_spec(start_frame, v.vars) is Some
            && eval_spec(end_frame, v.vars) is Some {
            VmView { pc: np, state: StateView::WaitingForVideo, ..v }
        } else {
            fail(v, overflow_error())
        },
        StmtView::KaraokeSet(a, b) | StmtView::KaraokeIns(a, b) => if eval_spec(a, v.vars) is Some && eval_spec(
            b,
            v.vars,
        ) is Some {
            go(v, np)
        } else {
            fail(v, overflow_error())
        },
        StmtView::KaraokeGet { index, target_var } => if eval_spec(index, v.vars) is Some {
            go(VmView { vars: set_var(v.vars, target_var, reply), ..v }, np)
        } else {
            fail(v, overflow_error())
        },
        StmtView::KaraokeDel(a) => if eval_spec(a, v.vars) is Some {
            go(v, np)
        } else {
            fail(v, overflow_error())
        },
        StmtView::KaraokePlay => VmView {
            pc: np,
            state: if reply != 0 {
                StateView::WaitingForVideo
            } else {
                StateView::Running
            },
            ..v
        },
        StmtView::Goto(_) | StmtView::Gosub(_) | StmtView::Return => sub_step(v, st, np),
        StmtView::IfThen { lhs, op, rhs, then_stmt, else_stmt } => match (eval_spec(lhs, v.vars), eval_spec(rhs, v.vars)) {
            (Some(l), Some(r)) => if compare(op, l, r) {
                if *then_stmt matches StmtView::Goto(te) && op == CondOp::Lt && eval_spec(te, v.vars) is None {
                    fail(v, overflow_error())
                } else if delay_loop(v, line, op, *then_stmt) {
                    VmView {
                        vars: match lhs {
                            Expr::Var(x) => set_var(v.vars, x, r),
                            _ => v.vars,
                        },
                        pc: np,
                        state: StateView::WaitingForDelay { until_time: r },
                        ..v
                    }
                } else {
                    sub_step(v, *then_stmt, np)
                }
            } else {
                match else_stmt {
                    Some(es) => sub_step(v, *es, np),
                    None => go(v, np),
                }
            },
            _ => fail(v, overflow_error()),
        },
        StmtView::ForTo { var, start, end } => match (eval_spec(start, v.vars), eval_spec(end, v.vars)) {
            (Some(sv), Some(ev)) => go(
                VmView {
                    vars: set_var(v.vars, var, sv),
                    fors: v.fors.push(ForView { var, end: ev, start_pc: np }),
                    ..v
                },
                np,
            ),
            _ => fail(v, overflow_error()),
        },
        StmtView::Next(x) => if v.fors.len() > 0 && v.fors.last().var == x {
            let cur = crate::interactive::script_ast::var_value(v.vars, x) + 1;
            if cur > i32::MAX {
                fail(v, overflow_error())
            } else if cur <= v.fors.last().end {
                go(VmView { vars: set_var(v.vars, x, cur as i32), ..v }, v.fors.last().start_pc)
            } else {
                go(VmView { vars: set_var(v.vars, x, cur as i32), fors: v.fors.drop_last(), ..v }, np)
            }
        } else {
            go(v, np)
        },
        StmtView::End => VmView { pc: None, state: StateView::Finished, ..v },
        StmtView::Rem(_) => go(v, np),
        StmtView::Unknown { raw, reason } => VmView {
            pc: np,
            state: StateView::PausedForAlert(line, raw, reason),
            ..v
        },
    }
}

/// One step of the interpreter, given the host's reply to `step_call`.
pub open spec fn step_next(v: VmView, reply: i32) -> VmView {
    match v.pc {
        None => VmView { state: StateView::Finished, ..v },
        Some((line, idx)) => if !v.lines.contains_key(line) {
            VmView { pc: None, state: StateView::Finished, ..v }
        } else if idx >= v.lines[line].len() {
            VmView { pc: next_pc(v.lines, line, idx), ..v }
        } else {
            exec_stmt(v, line, v.lines[line][idx as int], next_pc(v.lines, line, idx), reply)
        },
    }
}

/// The statement the interpreter stands at, if there is one.
pub open spec fn current_stmt(v: VmView) -> Option<StmtView> {
    match v.pc {
        Some((l, i)) => if v.lines.contains_key(l) && i < v.lines[l].len() {
            Some(v.lines[l][i as int])
        } else {
            None
        },
        None => None,
    }
}

/// A `RETURN` reached with the call stack a `GOSUB` left behind resumes at
/// the statement after that `GOSUB`, with the call stack as it was before it.
pub proof fn lemma_gosub_then_return(v: VmView, r1: i32, w: VmView, r2: i32)
    requires
        current_stmt(v) matches Some(StmtView::Gosub(e)) && (eval_spec(e, v.vars) matches Some(t)
            && v.lines.contains_key(t as u32)),
        w.lines == v.lines,
        w.calls == step_next(v, r1).calls,
        current_stmt(w) matches Some(StmtView::Return),
    ensures
        step_next(v, r1).state == StateView::Running,
        step_next(w, r2).pc == next_pc(v.lines, v.pc.unwrap().0, v.pc.unwrap().1),
        step_next(w, r2).calls == v.calls,
        step_next(w, r2).state == StateView::Running,
{
    let (line, idx) = v.pc.unwrap();
    let np = next_pc(v.lines, line, idx);
    assert(step_next(v, r1).calls == v.calls.push(np));
    assert(v.calls.push(np).drop_last() =~= v.calls);
}

/// What one step reports: the new state, except past the end of a line,
/// where it reports `Running` and leaves the state as it was.
pub open spec fn step_report(v: VmView, reply: i32) -> StateView {
    match v.pc {
        Some((line, idx)) => if v.lines.contains_key(line) && idx >= v.lines[line].len() {
            StateView::Running
        } else {
            step_next(v, reply).state
        },
        None => step_next(v, reply).state,
    }
}

// ---------------------------------------------------------------------------
// Host requests
// ---------------------------------------------------------------------------

/// What one step hands to the host.
pub enum HostCall {
    Nothing,
    Time,
    DrawCursor(i32, i32),
    DrawImage(Seq<char>, i32, i32, i32),
    PlaySound(Seq<char>),
    PlayVideo(Seq<char>, i32, i32, Option<Seq<char>>),
    KaraokeSet(i32, i32),
    KaraokeGet(i32),
    KaraokeDel(i32),
    KaraokeIns(i32, i32),
    KaraokePlay,
}

/// A request to the host, as a value the interpreter hands over.
pub enum HostRequest {
    Nothing,
    Time,
    DrawCursor(i32, i32),
    DrawImage(String, i32, i32, i32),
    PlaySound(String),
    PlayVideo(String, i32, i32, Option<String>),
    KaraokeSet(i32, i32),
    KaraokeGet(i32),
    KaraokeDel(i32),
    KaraokeIns(i32, i32),
    KaraokePlay,
}

impl View for HostRequest {
    type V = HostCall;

    open spec fn view(&self) -> HostCall {
        match self {
            HostRequest::Nothing => HostCall::Nothing,
            HostRequest::Time => HostCall::Time,
            HostRequest::DrawCursor(x, y) => HostCall::DrawCursor(*x, *y),
            HostRequest::DrawImage(f, x, y, m) => HostCall::DrawImage(f@, *x, *y, *m),
            HostRequest::PlaySound(f) => HostCall::PlaySound(f@),
            HostRequest::PlayVideo(f, a, b, e) => HostCall::PlayVideo(
                f@,
                *a,
                *b,
                match e {
                    Some(p) => Some(p@),
                    None => None,
                },
            ),
            HostRequest::KaraokeSet(a, b) => HostCall::KaraokeSet(*a, *b),
            HostRequest::KaraokeGet(a) => HostCall::KaraokeGet(*a),
            HostRequest::KaraokeDel(a) => HostCall::KaraokeDel(*a),
            HostRequest::KaraokeIns(a, b) => HostCall::KaraokeIns(*a, *b),
            HostRequest::KaraokePlay => HostCall::KaraokePlay,
        }
    }
}

/// What the branch `st` of an `IF` hands to the host.
pub open spec fn sub_call(v: VmView, st: StmtView) -> HostCall {
    match st {
        StmtView::DrawImage { file, x, y, mode } => match (eval_spec(x, v.vars), eval_spec(y, v.vars), eval_spec(mode, v.vars)) {
            (Some(a), Some(b), Some(c)) => HostCall::DrawImage(file, a, b, c),
            _ => HostCall::Nothing,
        },
        StmtView::PlaySound(f) => HostCall::PlaySound(f),
        _ => HostCall::Nothing,
    }
}

/// What statement `st` of line `line` hands to the host.
pub open spec fn stmt_call(v: VmView, line: u32, st: StmtView) -> HostCall {
    match st {
        StmtView::CallTime(_) => HostCall::Time,
        StmtView::CallRand(_) => if v.seed == 0 {
            HostCall::Time
        } else {
            HostCall::Nothing
        },
        StmtView::DrawCursor(x, y) => match (eval_spec(x, v.vars), eval_spec(y, v.vars)) {
            (Some(a), Some(b)) => HostCall::DrawCursor(a, b),
            _ => HostCall::Nothing,
        },
        StmtView::DrawImage { .. } => sub_call(v, st),
        StmtView::PlaySound(f) => HostCall::PlaySound(f),
        StmtView::PlayVideo { file, start_frame, end_frame, exit_page } => match (eval_spec(start_frame, v.vars), eval_spec(end_frame, v.vars)) {
            (Some(a), Some(b)) => HostCall::PlayVideo(file, a, b, exit_page),
            _ => HostCall::Nothing,
        },
        StmtView::KaraokeSet(a, b) => match (eval_spec(a, v.vars), eval_spec(b, v.vars)) {
            (Some(x), Some(y)) => HostCall::KaraokeSet(x, y),
            _ => HostCall::Nothing,
        },
        StmtView::KaraokeIns(a, b) => match (eval_spec(a, v.vars), eval_spec(b, v.vars)) {
            (Some(x), Some(y)) => HostCall::KaraokeIns(x, y),
            _ => HostCall::Nothing,
        },
        StmtView::KaraokeGet { index, .. } => match eval_spec(index, v.vars) {
            Some(x) => HostCall::KaraokeGet(x),
            None => HostCall::Nothing,
        },
        StmtView::KaraokeDel(a) => match eval_spec(a, v.vars) {
            Some(x) => HostCall::KaraokeDel(x),
            None => HostCall::Nothing,
        },
        StmtView::KaraokePlay => HostCall::KaraokePlay,
        StmtView::IfThen { lhs, op, rhs, then_stmt, else_stmt } => match (eval_spec(lhs, v.vars), eval_spec(rhs, v.vars)) {
            (Some(l), Some(r)) => if compare(op, l, r) {
                if *then_stmt matches StmtView::Goto(te) && op == CondOp::Lt && eval_spec(te, v.vars) is None {
                    HostCall::Nothing
                } else if delay_loop(v, line, op, *then_stmt) {
                    HostCall::Nothing
                } else {
                    sub_call(v, *then_stmt)
                }
            } else {
                match else_stmt {
                    Some(es) => sub_call(v, *es),
                    None => HostCall::Nothing,
                }
            },
            _ => HostCall::Nothing,
        },
        _ => HostCall::Nothing,
    }
}

/// What the next step hands to the host.
pub open spec fn step_call(v: VmView) -> HostCall {
    match v.pc {
        Some((line, idx)) => if v.lines.contains_key(line) && idx < v.lines[line].len() {
            stmt_call(v, line, v.lines[line][idx as int])
        } else {
            HostCall::Nothing
        },
        None => HostCall::Nothing,
    }
}

/// Whether the host's reply to a request matters.
pub open spec fn needs_reply(c: HostCall) -> bool {
    c is Time || c is KaraokeGet || c is KaraokePlay
}

// ---------------------------------------------------------------------------
// Copies of expressions and statements
// ---------------------------------------------------------------------------

/// A copy of an expression.
pub fn copy_expr(e: &Expr) -> (r: Expr)
    ensures
        r == *e,
    decreases e,
{
    match e {
        Expr::Var(v) => Expr::Var(*v),
        Expr::Const(n) => Expr::Const(*n),
        Expr::Binary(l, op, r) => Expr::Binary(Box::new(copy_expr(l)), *op, Box::new(copy_expr(r))),
    }
}

/// A copy of a statement.
pub fn copy_stmt(s: &Statement) -> (r: Statement)
    ensures
        r@ == s@,
    decreases s,
{
    match s {
        Statement::Assign(v, e) => Statement::Assign(*v, copy_expr(e)),
        Statement::CallIrkey(v) => Statement::CallIrkey(*v),
        Statement::CallTime(v) => Statement::CallTime(*v),
        Statement::CallRand(v) => Statement::CallRand(*v),
        Statement::DrawCursor(x, y) => Statement::DrawCursor(copy_expr(x), copy_expr(y)),
        Statement::DrawImage { file, x, y, mode } => Statement::DrawImage {
            file: file.clone(),
            x: copy_expr(x),
            y: copy_expr(y),
            mode: copy_expr(mode),
        },
        Statement::PlaySound(f) => Statement::PlaySound(f.clone()),
        Statement::PlayVideo { file, start_frame, end_frame, exit_page } => Statement::PlayVideo {
            file: file.clone(),
            start_frame: copy_expr(start_frame),
            end_frame: copy_expr(end_frame),
            exit_page: match exit_page {
                Some(p) => Some(p.clone()),
                None => None,
            },
        },
        Statement::KaraokeSet(a, b) => Statement::KaraokeSet(copy_expr(a), copy_expr(b)),
        Statement::KaraokeGet { index, target_var } => Statement::KaraokeGet {
            index: copy_expr(index),
            target_var: *target_var,
        },
        Statement::KaraokeDel(a) => Statement::KaraokeDel(copy_expr(a)),
        Statement::KaraokeIns(a, b) => Statement::KaraokeIns(copy_expr(a), copy_expr(b)),
        Statement::KaraokePlay => Statement::KaraokePlay,
        Statement::Goto(e) => Statement::Goto(copy_expr(e)),
        Statement::Gosub(e) => Statement::Gosub(copy_expr(e)),
        Statement::Return => Statement::Return,
        Statement::IfThen { lhs, op, rhs, then_stmt, else_stmt } => Statement::IfThen {
            lhs: copy_expr(lhs),
            op: *op,
            rhs: copy_expr(rhs),
            then_stmt: Box::new(copy_stmt(then_stmt)),
            else_stmt: match else_stmt {
                Some(e) => Some(Box::new(copy_stmt(e))),
                None => None,
            },
        },
        Statement::ForTo { var, start, end } => Statement::ForTo {
            var: *var,
            start: copy_expr(start),
            end: copy_expr(end),
        },
        Statement::Next(v) => Statement::Next(*v),
        Statement::End => Statement::End,
        Statement::Rem(t) => Statement::Rem(t.clone()),
        Statement::Unknown { raw, reason } => Statement::Unknown { raw: raw.clone(), reason: reason.clone() },
    }
}

// ---------------------------------------------------------------------------
// Running statements
// ---------------------------------------------------------------------------

/// Sets variable `v`.
fn write_var(vars: &mut [i32; 26], v: u8, x: i32)
    ensures
        final(vars)@ == set_var(old(vars)@, v, x),
{
    let u: u8 = if 97 <= v && v <= 122 {
        v - 32
    } else {
        v
    };
    let idx: usize = if u >= 65 {
        (u - 65) as usize
    } else {
        0
    };
    if idx < 26 {
        vars[idx] = x;
    }
}

/// Whether a line reads the clock.
fn has_time_call(stmts: &Vec<Statement>) -> (r: bool)
    ensures
        r == reads_time(stmts@.map_values(|s: Statement| s@)),
{
    let ghost sv = stmts@.map_values(|s: Statement| s@);
    let mut i: usize = 0;
    while i < stmts.len()
        invariant
            sv == stmts@.map_values(|s: Statement| s@),
            i <= stmts@.len(),
            forall|k: int| 0 <= k < i ==> !(sv[k] is CallTime),
        decreases stmts@.len() - i,
    {
        match &stmts[i] {
            Statement::CallTime(_) => {
                assert(sv[i as int] is CallTime);
                return true;
            },
            _ => {},
        }
        assert(!(sv[i as int] is CallTime));
        i += 1;
    }
    false
}

/// The text of a jump error.
fn jump_error_text(gosub: bool, target: u32) -> (r: String)
    ensures
        r@ == jump_error(gosub, target),
{
    let mut s = String::new();
    if gosub {
        push_str(&mut s, "GOSUB 目标行号不存在: ");
    } else {
        push_str(&mut s, "GOTO 目标行号不存在: ");
    }
    push_dec(&mut s, target as u64);
    s
}

impl VcdScriptVm {
    proof fn lemma_lines(&self)
        ensures
            self@.lines.dom() == self.program.lines@.dom(),
            forall|k: u32|
                self.program.lines@.contains_key(k) ==> #[trigger] self@.lines[k] == self.program.lines@[k]@.map_values(
                    |s: Statement| s@,
                ),
    {
        assert(self@.lines.dom() =~= self.program.lines@.dom());
    }

    /// The statement after `(line, idx)` (`next_pc`).
    fn next_pc_at(&self, line: u32, idx: usize) -> (r: Option<(u32, usize)>)
        ensures
            r == next_pc(self@.lines, line, idx),
    {
        proof {
            self.lemma_lines();
        }
        match self.program.lines.get(&line) {
            Some(stmts) => {
                if stmts.len() > 0 && idx < stmts.len() - 1 {
                    return Some((line, idx + 1));
                }
            },
            None => {},
        }
        let k = first_key_after(&self.program.lines, line, false);
        proof {
            let dom = self@.lines.dom();
            match k {
                Some(x) => {
                    assert(dom.contains(x) && line_after(x, line, false));
                    let c = choose|c: u32|
                        dom.contains(c) && line_after(c, line, false) && forall|j: u32|
                            dom.contains(j) && line_after(j, line, false) ==> c <= j;
                    assert(c == x);
                },
                None => {},
            }
        }
        match k {
            Some(x) => Some((x, 0)),
            None => None,
        }
    }

    fn go_to(&mut self, np: Option<(u32, usize)>)
        ensures
            final(self)@ == go(old(self)@, np),
    {
        self.pc = np;
        self.state = VmState::Running;
    }

    fn fail_overflow(&mut self)
        ensures
            final(self)@ == fail(old(self)@, overflow_error()),
    {
        self.state = VmState::Error(String::from_str("算术溢出"));
    }

    fn jump_to(&mut self, target: u32, push: Option<Option<(u32, usize)>>)
        ensures
            final(self)@ == jump(old(self)@, target, push),
    {
        proof {
            self.lemma_lines();
        }
        if self.program.lines.contains_key(&target) {
            match push {
                Some(ret) => {
                    self.call_stack.push(ret);
                },
                None => {},
            }
            self.pc = Some((target, 0));
            self.state = VmState::Running;
        } else {
            self.state = VmState::Error(jump_error_text(push.is_some(), target));
        }
    }

    fn do_return(&mut self, np: Option<(u32, usize)>)
        ensures
            final(self)@ == ret(old(self)@, np),
    {
        match self.call_stack.pop() {
            Some(r) => {
                self.pc = r;
                self.state = VmState::Running;
            },
            None => {
                self.go_to(np);
            },
        }
    }

    /// Runs the branch `st` of an `IF` (`sub_step`).
    fn sub_exec(&mut self, st: &Statement, np: Option<(u32, usize)>)
        ensures
            final(self)@ == sub_step(old(self)@, st@, np),
    {
        match st {
            Statement::Goto(e) => match e.eval_checked(&self.variables) {
                Some(t) => self.jump_to(t as u32, None),
                None => self.fail_overflow(),
            },
            Statement::Gosub(e) => match e.eval_checked(&self.variables) {
                Some(t) => self.jump_to(t as u32, Some(np)),
                None => self.fail_overflow(),
            },
            Statement::Return => self.do_return(np),
            Statement::Assign(x, e) => match e.eval_checked(&self.variables) {
                Some(val) => {
                    write_var(&mut self.variables, *x, val);
                    self.go_to(np);
                },
                None => self.fail_overflow(),
            },
            Statement::DrawImage { x, y, mode, .. } => {
                let a = x.eval_checked(&self.variables);
                let b = y.eval_checked(&self.variables);
                let c = mode.eval_checked(&self.variables);
                if a.is_some() && b.is_some() && c.is_some() {
                    self.go_to(np);
                } else {
                    self.fail_overflow();
                }
            },
            Statement::End => {
                self.pc = None;
                self.state = VmState::Finished;
            },
            _ => self.go_to(np),
        }
    }
}

impl VcdScriptVm {
    /// Runs statement `st` of line `line` (`exec_stmt`).
    #[verifier::rlimit(40)]
    fn exec(&mut self, line: u32, st: &Statement, np: Option<(u32, usize)>, reply: i32)
        ensures
            final(self)@ == exec_stmt(old(self)@, line, st@, np, reply),
    {
        proof {
            self.lemma_lines();
        }
        match st {
            Statement::Assign(x, e) => {
                self.sub_exec(st, np);
            },
            Statement::DrawImage { .. } => self.sub_exec(st, np),
            Statement::Goto(_) => self.sub_exec(st, np),
            Statement::Gosub(_) => self.sub_exec(st, np),
            Statement::Return => self.sub_exec(st, np),
            Statement::CallIrkey(t) => {
                self.pc = np;
                self.state = VmState::WaitingForKey { target_var: *t };
            },
            Statement::CallTime(t) => {
                write_var(&mut self.variables, *t, reply);
                self.go_to(np);
            },
            Statement::CallRand(t) => {
                let s0: u32 = if self.prng_seed == 0 {
                    let tt = (#[verifier::truncate] (reply as u32)) & 0xff;
                    if tt == 0 {
                        1
                    } else {
                        tt
                    }
                } else {
                    self.prng_seed
                };
                let nx = ((s0 as u64 * 16807) % 2147483647) as u32;
                self.prng_seed = nx;
                write_var(&mut self.variables, *t, nx as i32);
                self.go_to(np);
            },
            Statement::DrawCursor(x, y) => {
                let a = x.eval_checked(&self.variables);
                let b = y.eval_checked(&self.variables);
                if a.is_some() && b.is_some() {
                    self.go_to(np);
                } else {
                    self.fail_overflow();
                }
            },
            Statement::PlaySound(_) => self.go_to(np),
            Statement::PlayVideo { start_frame, end_frame, .. } => {
                let a = start_frame.eval_checked(&self.variables);
                let b = end_frame.eval_checked(&self.variables);
                if a.is_some() && b.is_some() {
                    self.pc = np;
                    self.state = VmState::WaitingForVideo;
                } else {
                    self.fail_overflow();
                }
            },
            Statement::KaraokeSet(a, b) => {
                let x = a.eval_checked(&self.variables);
                let y = b.eval_checked(&self.variables);
                if x.is_some() && y.is_some() {
                    self.go_to(np);
                } else {
                    self.fail_overflow();
                }
            },
            Statement::KaraokeIns(a, b) => {
                let x = a.eval_checked(&self.variables);
                let y = b.eval_checked(&self.variables);
                if x.is_some() && y.is_some() {
                    self.go_to(np);
                } else {
                    self.fail_overflow();
                }
            },
            Statement::KaraokeGet { index, target_var } => {
                if index.eval_checked(&self.variables).is_some() {
                    write_var(&mut self.variables, *target_var, reply);
                    self.go_to(np);
                } else {
                    self.fail_overflow();
                }
            },
            Statement::KaraokeDel(a) => {
                if a.eval_checked(&self.variables).is_some() {
                    self.go_to(np);
                } else {
                    self.fail_overflow();
                }
            },
            Statement::KaraokePlay => {
                self.pc = np;
                self.state = if reply != 0 {
                    VmState::WaitingForVideo
                } else {
                    VmState::Running
                };
            },
            Statement::IfThen { lhs, op, rhs, then_stmt, else_stmt } => {
                self.exec_if(line, lhs, *op, rhs, then_stmt, else_stmt, np);
            },
            Statement::ForTo { var, start, end } => {
                let a = start.eval_checked(&self.variables);
                let b = end.eval_checked(&self.variables);
                match (a, b) {
                    (Some(sv), Some(ev)) => {
                        write_var(&mut self.variables, *var, sv);
                        let ghost before = self@.fors;
                        self.for_stack.push(ForLoopState { var: *var, end: ev, loop_start_pc: np });
                        assert(self@.fors =~= before.push(ForView { var: *var, end: ev, start_pc: np }));
                        self.go_to(np);
                    },
                    _ => self.fail_overflow(),
                }
            },
            Statement::Next(x) => {
                let n = self.for_stack.len();
                if n > 0 && self.for_stack[n - 1].var == *x {
                    let top = self.for_stack[n - 1];
                    let cur = read_var(&self.variables, *x) as i64 + 1;
                    if cur > i32::MAX as i64 {
                        self.fail_overflow();
                    } else if cur <= top.end as i64 {
                        write_var(&mut self.variables, *x, cur as i32);
                        self.go_to(top.loop_start_pc);
                    } else {
                        write_var(&mut self.variables, *x, cur as i32);
                        let ghost before = self@.fors;
                        self.for_stack.pop();
                        assert(self@.fors =~= before.drop_last());
                        self.go_to(np);
                    }
                } else {
                    self.go_to(np);
                }
            },
            Statement::End => {
                self.pc = None;
                self.state = VmState::Finished;
            },
            Statement::Rem(_) => self.go_to(np),
            Statement::Unknown { raw, reason } => {
                self.pc = np;
                self.state = VmState::PausedForAlert(
                    UnrecognizedInstruction { line_no: line, raw_code: raw.clone(), reason: reason.clone() },
                );
            },
        }
    }

    /// Runs an `IF` statement of line `line`.
    fn exec_if(
        &mut self,
        line: u32,
        lhs: &Expr,
        op: CondOp,
        rhs: &Expr,
        then_stmt: &Statement,
        else_stmt: &Option<Box<Statement>>,
        np: Option<(u32, usize)>,
    )
        ensures
            final(self)@ == exec_stmt(
                old(self)@,
                line,
                StmtView::IfThen {
                    lhs: *lhs,
                    op,
                    rhs: *rhs,
                    then_stmt: Box::new(then_stmt@),
                    else_stmt: match else_stmt {
                        Some(e) => Some(Box::new((**e)@)),
                        None => None,
                    },
                },
                np,
                0,
            ),
    {
        proof {
            self.lemma_lines();
        }
        let l = lhs.eval_checked(&self.variables);
        let r = rhs.eval_checked(&self.variables);
        let (lv, rv) = match (l, r) {
            (Some(a), Some(b)) => (a, b),
            _ => {
                self.fail_overflow();
                return;
            },
        };
        let met = match op {
            CondOp::Eq => lv == rv,
            CondOp::Ne => lv != rv,
            CondOp::Lt => lv < rv,
            CondOp::Gt => lv > rv,
            CondOp::Le => lv <= rv,
            CondOp::Ge => lv >= rv,
        };
        if met {
            if matches!(op, CondOp::Lt) {
                match then_stmt {
                    Statement::Goto(te) => {
                        let t = match te.eval_checked(&self.variables) {
                            Some(t) => t,
                            None => {
                                self.fail_overflow();
                                return;
                            },
                        };
                        let target = t as u32;
                        if target <= line {
                            let is_loop = match self.program.lines.get(&target) {
                                Some(ts) => has_time_call(ts),
                                None => false,
                            };
                            if is_loop {
                                match lhs {
                                    Expr::Var(x) => write_var(&mut self.variables, *x, rv),
                                    _ => {},
                                }
                                self.pc = np;
                                self.state = VmState::WaitingForDelay { until_time: rv };
                                return;
                            }
                        }
                    },
                    _ => {},
                }
            }
            self.sub_exec(then_stmt, np);
        } else {
            match else_stmt {
                Some(es) => self.sub_exec(es, np),
                None => self.go_to(np),
            }
        }
    }
}

/// What the branch `st` of an `IF` hands to the host (`sub_call`).
fn sub_request(vars: &[i32; 26], st: &Statement, v: Ghost<VmView>) -> (r: HostRequest)
    requires
        v@.vars == vars@,
    ensures
        r@ == sub_call(v@, st@),
{
    match st {
        Statement::DrawImage { file, x, y, mode } => {
            match (x.eval_checked(vars), y.eval_checked(vars), mode.eval_checked(vars)) {
                (Some(a), Some(b), Some(c)) => HostRequest::DrawImage(file.clone(), a, b, c),
                _ => HostRequest::Nothing,
            }
        },
        Statement::PlaySound(f) => HostRequest::PlaySound(f.clone()),
        _ => HostRequest::Nothing,
    }
}

/// The entries a request adds to the host log: none for no request, else
/// the request with the host's answer.
pub open spec fn host_events(c: HostCall, reply: i32) -> Seq<(HostCall, i32)> {
    if c is Nothing {
        Seq::empty()
    } else {
        seq![(c, reply)]
    }
}

fn ask_time<H: VmHost>(host: &mut H, log: &mut Ghost<Seq<(HostCall, i32)>>) -> (r: i32)
    ensures
        final(log)@ == old(log)@.push((HostCall::Time, r)),
{
    let r = host.get_time_units();
    *log = Ghost(log@.push((HostCall::Time, r)));
    r
}

fn tell_draw_cursor<H: VmHost>(host: &mut H, log: &mut Ghost<Seq<(HostCall, i32)>>, x: i32, y: i32)
    ensures
        final(log)@ == old(log)@.push((HostCall::DrawCursor(x, y), 0)),
{
    host.draw_cursor(x, y);
    *log = Ghost(log@.push((HostCall::DrawCursor(x, y), 0)));
}

fn tell_draw_image<H: VmHost>(host: &mut H, log: &mut Ghost<Seq<(HostCall, i32)>>, f: &str, x: i32, y: i32, m: i32)
    ensures
        final(log)@ == old(log)@.push((HostCall::DrawImage(f@, x, y, m), 0)),
{
    host.draw_image(f, x, y, m);
    *log = Ghost(log@.push((HostCall::DrawImage(f@, x, y, m), 0)));
}

fn tell_play_sound<H: VmHost>(host: &mut H, log: &mut Ghost<Seq<(HostCall, i32)>>, f: &str)
    ensures
        final(log)@ == old(log)@.push((HostCall::PlaySound(f@), 0)),
{
    host.play_sound(f);
    *log = Ghost(log@.push((HostCall::PlaySound(f@), 0)));
}

fn tell_play_video<H: VmHost>(
    host: &mut H,
    log: &mut Ghost<Seq<(HostCall, i32)>>,
    f: &str,
    a: i32,
    b: i32,
    exit: Option<&str>,
)
    ensures
        final(log)@ == old(log)@.push(
            (
                HostCall::PlayVideo(
                    f@,
                    a,
                    b,
                    match exit {
                        Some(p) => Some(p@),
                        None => None,
                    },
                ),
                0,
            ),
        ),
{
    host.play_video(f, a, b, exit);
    *log = Ghost(
        log@.push(
            (
                HostCall::PlayVideo(
                    f@,
                    a,
                    b,
                    match exit {
                        Some(p) => Some(p@),
                        None => None,
                    },
                ),
                0,
            ),
        ),
    );
}

fn tell_karaoke_set<H: VmHost>(host: &mut H, log: &mut Ghost<Seq<(HostCall, i32)>>, a: i32, b: i32)
    ensures
        final(log)@ == old(log)@.push((HostCall::KaraokeSet(a, b), 0)),
{
    host.karaoke_set(a, b);
    *log = Ghost(log@.push((HostCall::KaraokeSet(a, b), 0)));
}

fn ask_karaoke_get<H: VmHost>(host: &mut H, log: &mut Ghost<Seq<(HostCall, i32)>>, a: i32) -> (r: i32)
    ensures
        final(log)@ == old(log)@.push((HostCall::KaraokeGet(a), r)),
{
    let r = host.karaoke_get(a);
    *log = Ghost(log@.push((HostCall::KaraokeGet(a), r)));
    r
}

fn tell_karaoke_del<H: VmHost>(host: &mut H, log: &mut Ghost<Seq<(HostCall, i32)>>, a: i32)
    ensures
        final(log)@ == old(log)@.push((HostCall::KaraokeDel(a), 0)),
{
    host.karaoke_del(a);
    *log = Ghost(log@.push((HostCall::KaraokeDel(a), 0)));
}

fn tell_karaoke_ins<H: VmHost>(host: &mut H, log: &mut Ghost<Seq<(HostCall, i32)>>, a: i32, b: i32)
    ensures
        final(log)@ == old(log)@.push((HostCall::KaraokeIns(a, b), 0)),
{
    host.karaoke_ins(a, b);
    *log = Ghost(log@.push((HostCall::KaraokeIns(a, b), 0)));
}

fn ask_karaoke_play<H: VmHost>(host: &mut H, log: &mut Ghost<Seq<(HostCall, i32)>>) -> (r: i32)
    ensures
        r == 0 || r == 1,
        final(log)@ == old(log)@.push((HostCall::KaraokePlay, r)),
{
    let r: i32 = if host.karaoke_play() {
        1
    } else {
        0
    };
    *log = Ghost(log@.push((HostCall::KaraokePlay, r)));
    r
}

/// Makes a request of the host, records it in `log` with the answer, and
/// gives the answer: the time, a playlist entry, 1 when a song started (0
/// when not), else 0.
fn dispatch<H: VmHost>(host: &mut H, req: &HostRequest, log: &mut Ghost<Seq<(HostCall, i32)>>) -> (r: i32)
    ensures
        !needs_reply(req@) ==> r == 0,
        final(log)@ == old(log)@ + host_events(req@, r),
{
    proof {
        assert forall|e: (HostCall, i32)| #[trigger] old(log)@.push(e) == old(log)@ + seq![e] by {
            assert(old(log)@.push(e) =~= old(log)@ + seq![e]);
        }
    }
    match req {
        HostRequest::Nothing => {
            assert(old(log)@ + host_events(req@, 0) =~= old(log)@);
            0
        },
        HostRequest::Time => ask_time(host, log),
        HostRequest::DrawCursor(x, y) => {
            tell_draw_cursor(host, log, *x, *y);
            0
        },
        HostRequest::DrawImage(f, x, y, m) => {
            tell_draw_image(host, log, f.as_str(), *x, *y, *m);
            0
        },
        HostRequest::PlaySound(f) => {
            tell_play_sound(host, log, f.as_str());
            0
        },
        HostRequest::PlayVideo(f, a, b, e) => {
            let exit: Option<&str> = match e {
                Some(p) => Some(p.as_str()),
                None => None,
            };
            tell_play_video(host, log, f.as_str(), *a, *b, exit);
            0
        },
        HostRequest::KaraokeSet(a, b) => {
            tell_karaoke_set(host, log, *a, *b);
            0
        },
        HostRequest::KaraokeGet(a) => ask_karaoke_get(host, log, *a),
        HostRequest::KaraokeDel(a) => {
            tell_karaoke_del(host, log, *a);
            0
        },
        HostRequest::KaraokeIns(a, b) => {
            tell_karaoke_ins(host, log, *a, *b);
            0
        },
        HostRequest::KaraokePlay => ask_karaoke_play(host, log),
    }
}

impl VcdScriptVm {
    /// What the next step hands to the host (`step_call`).
    pub fn host_call(&self) -> (r: HostRequest)
        ensures
            r@ == step_call(self@),
    {
        proof {
            self.lemma_lines();
        }
        let (line, idx) = match self.pc {
            Some(p) => p,
            None => {
                return HostRequest::Nothing;
            },
        };
        let stmts = match self.program.lines.get(&line) {
            Some(s) => s,
            None => {
                return HostRequest::Nothing;
            },
        };
        if idx >= stmts.len() {
            return HostRequest::Nothing;
        }
        let vars = &self.variables;
        let ghost v = self@;
        match &stmts[idx] {
            Statement::CallTime(_) => HostRequest::Time,
            Statement::CallRand(_) => if self.prng_seed == 0 {
                HostRequest::Time
            } else {
                HostRequest::Nothing
            },
            Statement::DrawCursor(x, y) => match (x.eval_checked(vars), y.eval_checked(vars)) {
                (Some(a), Some(b)) => HostRequest::DrawCursor(a, b),
                _ => HostRequest::Nothing,
            },
            Statement::DrawImage { .. } => sub_request(vars, &stmts[idx], Ghost(v)),
            Statement::PlaySound(f) => HostRequest::PlaySound(f.clone()),
            Statement::PlayVideo { file, start_frame, end_frame, exit_page } => {
                match (start_frame.eval_checked(vars), end_frame.eval_checked(vars)) {
                    (Some(a), Some(b)) => HostRequest::PlayVideo(
                        file.clone(),
                        a,
                        b,
                        match exit_page {
                            Some(p) => Some(p.clone()),
                            None => None,
                        },
                    ),
                    _ => HostRequest::Nothing,
                }
            },
            Statement::KaraokeSet(a, b) => match (a.eval_checked(vars), b.eval_checked(vars)) {
                (Some(x), Some(y)) => HostRequest::KaraokeSet(x, y),
                _ => HostRequest::Nothing,
            },
            Statement::KaraokeIns(a, b) => match (a.eval_checked(vars), b.eval_checked(vars)) {
                (Some(x), Some(y)) => HostRequest::KaraokeIns(x, y),
                _ => HostRequest::Nothing,
            },
            Statement::KaraokeGet { index, .. } => match index.eval_checked(vars) {
                Some(x) => HostRequest::KaraokeGet(x),
                None => HostRequest::Nothing,
            },
            Statement::KaraokeDel(a) => match a.eval_checked(vars) {
                Some(x) => HostRequest::KaraokeDel(x),
                None => HostRequest::Nothing,
            },
            Statement::KaraokePlay => HostRequest::KaraokePlay,
            Statement::IfThen { lhs, op, rhs, then_stmt, else_stmt } => {
                let (lv, rv) = match (lhs.eval_checked(vars), rhs.eval_checked(vars)) {
                    (Some(a), Some(b)) => (a, b),
                    _ => {
                        return HostRequest::Nothing;
                    },
                };
                let met = match op {
                    CondOp::Eq => lv == rv,
                    CondOp::Ne => lv != rv,
                    CondOp::Lt => lv < rv,
                    CondOp::Gt => lv > rv,
                    CondOp::Le => lv <= rv,
                    CondOp::Ge => lv >= rv,
                };
                if met {
                    if matches!(op, CondOp::Lt) {
                        match &**then_stmt {
                            Statement::Goto(te) => {
                                let t = match te.eval_checked(vars) {
                                    Some(t) => t,
                                    None => {
                                        return HostRequest::Nothing;
                                    },
                                };
                                let target = t as u32;
                                if target <= line {
                                    let is_loop = match self.program.lines.get(&target) {
                                        Some(ts) => has_time_call(ts),
                                        None => false,
                                    };
                                    if is_loop {
                                        return HostRequest::Nothing;
                                    }
                                }
                            },
                            _ => {},
                        }
                    }
                    sub_request(vars, then_stmt, Ghost(v))
                } else {
                    match else_stmt {
                        Some(es) => sub_request(vars, es, Ghost(v)),
                        None => HostRequest::Nothing,
                    }
                }
            },
            _ => HostRequest::Nothing,
        }
    }

    /// Completes one step with the host's reply to `host_call` (`step_next`,
    /// `step_report`); the host log stays as it was.
    pub fn resume(&mut self, reply: i32) -> (r: VmState)
        ensures
            final(self)@ == step_next(old(self)@, reply),
            r@ == step_report(old(self)@, reply),
            final(self).host_log == old(self).host_log,
    {
        let ghost log = self.host_log@;
        let r = self.resume_statement(reply);
        self.host_log = Ghost(log);
        r
    }

    fn resume_statement(&mut self, reply: i32) -> (r: VmState)
        ensures
            final(self)@ == step_next(old(self)@, reply),
            r@ == step_report(old(self)@, reply),
    {
        proof {
            self.lemma_lines();
        }
        let (line, idx) = match self.pc {
            Some(p) => p,
            None => {
                self.state = VmState::Finished;
                return VmState::Finished;
            },
        };
        let st = match self.program.lines.get(&line) {
            Some(stmts) => {
                if idx >= stmts.len() {
                    let np = self.next_pc_at(line, idx);
                    self.pc = np;
                    return VmState::Running;
                }
                copy_stmt(&stmts[idx])
            },
            None => {
                self.pc = None;
                self.state = VmState::Finished;
                return VmState::Finished;
            },
        };
        let np = self.next_pc_at(line, idx);
        self.exec(line, &st, np, reply);
        self.state.copy()
    }

    /// Runs one statement: makes of the host exactly the request `step_call`
    /// (none, or one call of the matching host method), records it with the
    /// host's answer in the host log, and goes on with that answer (0 where
    /// the request needs none).
    pub fn step<H: VmHost>(&mut self, host: &mut H) -> (r: VmState)
        ensures
            exists|reply: i32| #![trigger step_next(old(self)@, reply)]
                {
                    &&& !needs_reply(step_call(old(self)@)) ==> reply == 0
                    &&& final(self)@ == step_next(old(self)@, reply)
                    &&& r@ == step_report(old(self)@, reply)
                    &&& final(self).host_log@ == old(self).host_log@ + host_events(
                        step_call(old(self)@),
                        reply,
                    )
                },
    {
        let req = self.host_call();
        let reply = dispatch(host, &req, &mut self.host_log);
        self.resume(reply)
    }
}

/// A state in which running stops and control returns to the caller.
pub open spec fn yields(s: StateView) -> bool {
    !(s is Running || s is Ready)
}

/// One step that does not end a run: `m` has a statement to run, the host
/// answers `reply` (0 where the request needs no answer), the step reports a
/// state that does not yield, and the host log `g` grows by the request.
#[verifier::opaque]
pub open spec fn quiet_step(m: VmView, g: Seq<(HostCall, i32)>, reply: i32, m2: VmView, g2: Seq<(HostCall, i32)>) -> bool {
    &&& m.pc is Some
    &&& !needs_reply(step_call(m)) ==> reply == 0
    &&& m2 == step_next(m, reply)
    &&& !yields(step_report(m, reply))
    &&& g2 == g + host_events(step_call(m), reply)
}

/// The step that ends a run: `m` has a statement to run, the host answers,
/// and the step reports a yielding state, which `fin` holds.
pub open spec fn last_step(m: VmView, g: Seq<(HostCall, i32)>, fin: VmView, gfin: Seq<(HostCall, i32)>) -> bool {
    exists|reply: i32| #![trigger step_next(m, reply)]
        {
            &&& m.pc is Some
            &&& !needs_reply(step_call(m)) ==> reply == 0
            &&& fin == step_next(m, reply)
            &&& yields(step_report(m, reply))
            &&& gfin == g + host_events(step_call(m), reply)
        }
}

/// States `ms[0] = a, ..., ms[n] = b` with host logs `gs`, each reached from
/// the one before by a quiet step with the host's answer `rs[i]`.
pub open spec fn run_trace(
    ms: Seq<VmView>,
    gs: Seq<Seq<(HostCall, i32)>>,
    rs: Seq<i32>,
    a: VmView,
    ga: Seq<(HostCall, i32)>,
    b: VmView,
    gb: Seq<(HostCall, i32)>,
    n: int,
) -> bool {
    &&& n >= 0
    &&& ms.len() == n + 1
    &&& gs.len() == n + 1
    &&& rs.len() == n
    &&& ms[0] == a
    &&& gs[0] == ga
    &&& ms[n] == b
    &&& gs[n] == gb
    &&& forall|i: int| 0 <= i < n ==> quiet_step(ms[i], gs[i], #[trigger] rs[i], ms[i + 1], gs[i + 1])
}

/// `b` with log `gb` is reached from `a` with log `ga` by `n` quiet steps.
#[verifier::opaque]
pub open spec fn steps_to(a: VmView, ga: Seq<(HostCall, i32)>, b: VmView, gb: Seq<(HostCall, i32)>, n: int) -> bool {
    exists|ms: Seq<VmView>, gs: Seq<Seq<(HostCall, i32)>>, rs: Seq<i32>| #[trigger] run_trace(ms, gs, rs, a, ga, b, gb, n)
}

proof fn lemma_steps_start(a: VmView, ga: Seq<(HostCall, i32)>)
    ensures
        steps_to(a, ga, a, ga, 0),
{
    reveal(steps_to);
    assert(run_trace(seq![a], seq![ga], Seq::<i32>::empty(), a, ga, a, ga, 0));
}

proof fn lemma_steps_extend(
    a: VmView,
    ga: Seq<(HostCall, i32)>,
    m: VmView,
    gm: Seq<(HostCall, i32)>,
    n: int,
    reply: i32,
    b: VmView,
    gb: Seq<(HostCall, i32)>,
)
    requires
        n >= 0,
        steps_to(a, ga, m, gm, n),
        quiet_step(m, gm, reply, b, gb),
    ensures
        steps_to(a, ga, b, gb, n + 1),
{
    reveal(steps_to);
    let (ms, gs, rs) = choose|ms: Seq<VmView>, gs: Seq<Seq<(HostCall, i32)>>, rs: Seq<i32>|
        run_trace(ms, gs, rs, a, ga, m, gm, n);
    let ms2 = ms.push(b);
    let gs2 = gs.push(gb);
    let rs2 = rs.push(reply);
    assert forall|i: int| 0 <= i < n + 1 implies quiet_step(ms2[i], gs2[i], #[trigger] rs2[i], ms2[i + 1], gs2[i + 1]) by {
        if i < n {
            assert(rs2[i] == rs[i]);
            assert(quiet_step(ms[i], gs[i], rs[i], ms[i + 1], gs[i + 1]));
        }
    }
    assert(run_trace(ms2, gs2, rs2, a, ga, b, gb, n + 1));
}

/// How a run from `start` with host log `g0` ends, in `fin` with log `gfin`:
/// after quiet steps, either at the first step that reports a yielding
/// state, or where no statement is left, or, when 100000 quiet steps pass,
/// on the step-limit error.
pub open spec fn run_ends(start: VmView, g0: Seq<(HostCall, i32)>, fin: VmView, gfin: Seq<(HostCall, i32)>) -> bool {
    exists|n: int, last: VmView, gl: Seq<(HostCall, i32)>|
        #[trigger] steps_to(start, g0, last, gl, n) && ((n < 100000 && last_step(last, gl, fin, gfin)) || (n
            < 100000 && last.pc is None && fin == last && gfin == gl) || (n == 100000 && fin == VmView {
            state: StateView::Error(step_limit_error()),
            ..last
        } && gfin == gl))
}

impl VcdScriptVm {
    /// Runs until the script yields: waiting for a key, a delay or a video,
    /// paused on an alert, finished, or stopped on an error. A running video
    /// returns at once; a pending delay asks the host for the time and returns
    /// at once while the delay has not run out; a script that runs 100000
    /// steps without yielding stops on an error.
    #[verifier::rlimit(60)]
    #[verifier::spinoff_prover]
    pub fn run_until_yield<H: VmHost>(&mut self, host: &mut H) -> (r: VmState)
        ensures
            final(self)@.lines == old(self)@.lines,
            r@ == final(self)@.state,
            old(self)@.state is WaitingForVideo ==> final(self)@ == old(self)@ && final(self).host_log
                == old(self).host_log,
            old(self)@.state matches StateView::WaitingForDelay { until_time } ==> exists|t: i32|
                #![trigger old(self).host_log@.push((HostCall::Time, t))]
                if t < until_time {
                    final(self)@ == old(self)@ && final(self).host_log@ == old(self).host_log@.push(
                        (HostCall::Time, t),
                    )
                } else {
                    run_ends(
                        VmView { state: StateView::Running, ..old(self)@ },
                        old(self).host_log@.push((HostCall::Time, t)),
                        final(self)@,
                        final(self).host_log@,
                    )
                },
            !(old(self)@.state is WaitingForVideo || old(self)@.state is WaitingForDelay) ==> run_ends(
                old(self)@,
                old(self).host_log@,
                final(self)@,
                final(self).host_log@,
            ),
    {
        let ghost mut t_read: i32 = 0;
        match self.state {
            VmState::WaitingForDelay { until_time } => {
                let t = ask_time(host, &mut self.host_log);
                proof {
                    t_read = t;
                }
                if t < until_time {
                    return self.state.copy();
                } else {
                    self.state = VmState::Running;
                }
            },
            VmState::WaitingForVideo => {
                return self.state.copy();
            },
            _ => {},
        }
        let ghost start = self@;
        let ghost g0 = self.host_log@;
        proof {
            lemma_steps_start(start, g0);
        }
        let mut steps: usize = 0;
        while self.pc.is_some() && steps < 100000
            invariant
                self@.lines == start.lines,
                start.lines == old(self)@.lines,
                !(old(self)@.state is WaitingForVideo),
                match old(self)@.state {
                    StateView::WaitingForDelay { until_time } => start == VmView {
                        state: StateView::Running,
                        ..old(self)@
                    } && g0 == old(self).host_log@.push((HostCall::Time, t_read)) && !(t_read < until_time),
                    _ => start == old(self)@ && g0 == old(self).host_log@,
                },
                steps <= 100000,
                steps_to(start, g0, self@, self.host_log@, steps as int),
            decreases 100000 - steps,
        {
            let ghost prev = self@;
            let ghost gprev = self.host_log@;
            let res = self.step(host);
            let ghost reply = choose|reply: i32|
                {
                    &&& !needs_reply(step_call(prev)) ==> reply == 0
                    &&& self@ == step_next(prev, reply)
                    &&& res@ == step_report(prev, reply)
                    &&& self.host_log@ == gprev + host_events(step_call(prev), reply)
                };
            match res {
                VmState::Running | VmState::Ready => {
                    proof {
                        reveal(quiet_step);
                        assert(quiet_step(prev, gprev, reply, self@, self.host_log@));
                        lemma_steps_extend(start, g0, prev, gprev, steps as int, reply, self@, self.host_log@);
                    }
                    steps += 1;
                },
                _ => {
                    proof {
                        assert(self@.state == res@);
                        assert(last_step(prev, gprev, self@, self.host_log@));
                    }
                    assert(run_ends(start, g0, self@, self.host_log@));
                    return res;
                },
            }
        }
        let ghost last = self@;
        if steps >= 100000 {
            self.state = VmState::Error(String::from_str("执行步数超出单帧上限 (可能存在死循环)"));
            assert(self@ == VmView { state: StateView::Error(step_limit_error()), ..last });
        }
        assert(run_ends(start, g0, self@, self.host_log@));
        self.state.copy()
    }
}

impl VcdScriptVm {
    /// A fresh interpreter with an empty program.
    pub fn new() -> (r: Self)
        ensures
            r@.lines == Map::<u32, Seq<StmtView>>::empty(),
            r@.vars == Seq::new(26, |i: int| 0i32),
            r@.pc is None,
            r@.state == StateView::Ready,
            r@.calls.len() == 0,
            r@.fors.len() == 0,
            r@.seed == 0,
    {
        let r = VcdScriptVm {
            program: ScriptProgram { lines: BTreeMap::new() },
            variables: [0; 26],
            pc: None,
            state: VmState::Ready,
            call_stack: Vec::new(),
            for_stack: Vec::new(),
            prng_seed: 0,
            host_log: Ghost(Seq::empty()),
        };
        assert(r@.lines =~= Map::<u32, Seq<StmtView>>::empty());
        assert(r@.vars =~= Seq::new(26, |i: int| 0i32));
        r
    }

    /// Loads a program: variables cleared, stacks emptied, positioned at its
    /// first line, `Ready` (or `Finished` when it has no lines).
    pub fn load_program(&mut self, program: ScriptProgram)
        ensures
            final(self)@.lines == program.line_map(),
            final(self)@.vars == Seq::new(26, |i: int| 0i32),
            final(self)@.calls.len() == 0,
            final(self)@.fors.len() == 0,
            final(self)@.seed == old(self)@.seed,
            final(self)@.pc == (match first_after(program.line_map().dom(), 0, true) {
                Some(k) => Some((k, 0usize)),
                None => None,
            }),
            final(self)@.state == (if final(self)@.pc is Some {
                StateView::Ready
            } else {
                StateView::Finished
            }),
    {
        self.program = program;
        self.variables = [0; 26];
        self.call_stack.clear();
        self.for_stack.clear();
        let first = first_key_after(&self.program.lines, 0, true);
        proof {
            self.lemma_lines();
            let dom = self@.lines.dom();
            match first {
                Some(x) => {
                    assert(dom.contains(x) && line_after(x, 0, true));
                    let c = choose|c: u32|
                        dom.contains(c) && line_after(c, 0, true) && forall|j: u32|
                            dom.contains(j) && line_after(j, 0, true) ==> c <= j;
                    assert(c == x);
                },
                None => {},
            }
        }
        self.pc = match first {
            Some(k) => Some((k, 0)),
            None => None,
        };
        self.state = if self.pc.is_some() {
            VmState::Ready
        } else {
            VmState::Finished
        };
        assert(self@.vars =~= Seq::new(26, |i: int| 0i32));
        assert(self@.fors =~= Seq::<ForView>::empty());
    }

    /// Continues at line `line_no`, or at the first line after it; finished when there is none.
    pub fn start_at_line(&mut self, line_no: u32)
        ensures
            final(self)@ == (match first_after(old(self)@.lines.dom(), line_no, true) {
                Some(k) => VmView { pc: Some((k, 0usize)), state: StateView::Running, ..old(self)@ },
                None => VmView { pc: None, state: StateView::Finished, ..old(self)@ },
            }),
    {
        proof {
            self.lemma_lines();
        }
        let first = first_key_after(&self.program.lines, line_no, true);
        proof {
            let dom = self@.lines.dom();
            match first {
                Some(x) => {
                    assert(dom.contains(x) && line_after(x, line_no, true));
                    let c = choose|c: u32|
                        dom.contains(c) && line_after(c, line_no, true) && forall|j: u32|
                            dom.contains(j) && line_after(j, line_no, true) ==> c <= j;
                    assert(c == x);
                },
                None => {},
            }
        }
        match first {
            Some(k) => {
                self.pc = Some((k, 0));
                self.state = VmState::Running;
            },
            None => {
                self.pc = None;
                self.state = VmState::Finished;
            },
        }
    }

    /// The value of variable `var`.
    pub fn get_variable(&self, var: u8) -> (r: i32)
        ensures
            r == crate::interactive::script_ast::var_value(self@.vars, var),
    {
        read_var(&self.variables, var)
    }

    /// Sets variable `var`.
    pub fn set_variable(&mut self, var: u8, val: i32)
        ensures
            final(self)@ == (VmView { vars: set_var(old(self)@.vars, var, val), ..old(self)@ }),
    {
        write_var(&mut self.variables, var, val);
    }

    /// Answers a wait for a key: the key goes into the waited-for variable and
    /// the script runs on. In any other state nothing changes.
    pub fn inject_key<H: VmHost>(&mut self, key_code: i32, host: &mut H) -> (r: VmState)
        ensures
            !(old(self)@.state is WaitingForKey) ==> final(self)@ == old(self)@ && r@ == old(self)@.state
                && final(self).host_log == old(self).host_log,
            old(self)@.state matches StateView::WaitingForKey { target_var } ==> run_ends(
                VmView {
                    vars: set_var(old(self)@.vars, target_var, key_code),
                    state: StateView::Running,
                    ..old(self)@
                },
                old(self).host_log@,
                final(self)@,
                final(self).host_log@,
            ),
            final(self)@.lines == old(self)@.lines,
            r@ == final(self)@.state,
    {
        match self.state {
            VmState::WaitingForKey { target_var } => {
                write_var(&mut self.variables, target_var, key_code);
                self.state = VmState::Running;
                self.run_until_yield(host)
            },
            _ => self.state.copy(),
        }
    }

    /// Resumes after the user dismissed an alert: the script runs on from the
    /// statement after it. In any other state nothing changes.
    pub fn skip_unrecognized_and_continue<H: VmHost>(&mut self, host: &mut H) -> (r: VmState)
        ensures
            !(old(self)@.state is PausedForAlert) ==> final(self)@ == old(self)@ && r@ == old(self)@.state
                && final(self).host_log == old(self).host_log,
            old(self)@.state is PausedForAlert ==> run_ends(
                VmView { state: StateView::Running, ..old(self)@ },
                old(self).host_log@,
                final(self)@,
                final(self).host_log@,
            ),
            final(self)@.lines == old(self)@.lines,
            r@ == final(self)@.state,
    {
        match self.state {
            VmState::PausedForAlert(_) => {
                self.state = VmState::Running;
                self.run_until_yield(host)
            },
            _ => self.state.copy(),
        }
    }

    /// Stops the script.
    pub fn terminate(&mut self)
        ensures
            final(self)@ == (VmView {
                pc: None,
                state: StateView::Finished,
                calls: Seq::empty(),
                fors: Seq::empty(),
                ..old(self)@
            }),
    {
        self.pc = None;
        self.call_stack.clear();
        self.for_stack.clear();
        self.state = VmState::Finished;
        assert(self@.fors =~= Seq::<ForView>::empty());
    }
}

impl Default for VcdScriptVm {
    fn default() -> (r: Self)
        ensures
            r@.lines == Map::<u32, Seq<StmtView>>::empty(),
            r@.vars == Seq::new(26, |i: int| 0i32),
            r@.pc is None,
            r@.state == StateView::Ready,
            r@.calls.len() == 0,
            r@.fors.len() == 0,
            r@.seed == 0,
    {
        Self::new()
    }
}

proof fn lemma_least_key_exists(dom: Set<u32>, l: u32, inclusive: bool, k0: u32)
    requires
        dom.contains(k0),
        line_after(k0, l, inclusive),
    ensures
        exists|k: u32|
            dom.contains(k) && line_after(k, l, inclusive) && forall|j: u32|
                dom.contains(j) && line_after(j, l, inclusive) ==> k <= j,
    decreases k0,
{
    if exists|j: u32| dom.contains(j) && line_after(j, l, inclusive) && j < k0 {
        let j = choose|j: u32| dom.contains(j) && line_after(j, l, inclusive) && j < k0;
        lemma_least_key_exists(dom, l, inclusive, j);
    } else {
        assert(forall|j: u32| dom.contains(j) && line_after(j, l, inclusive) ==> k0 <= j);
    }
}

/// `first_after` is the smallest key of `dom` at line `l` or after it
/// (strictly after, when not inclusive), and none when no key is there:
/// loading a program starts at its smallest line, and `start_at_line`
/// continues at the smallest line from the one asked for.
pub proof fn lemma_first_after_is_least(dom: Set<u32>, l: u32, inclusive: bool)
    ensures
        match first_after(dom, l, inclusive) {
            Some(k) => dom.contains(k) && line_after(k, l, inclusive) && forall|j: u32|
                dom.contains(j) && line_after(j, l, inclusive) ==> k <= j,
            None => forall|j: u32| dom.contains(j) ==> !line_after(j, l, inclusive),
        },
{
    if exists|k: u32| dom.contains(k) && line_after(k, l, inclusive) {
        let k0 = choose|k: u32| dom.contains(k) && line_after(k, l, inclusive);
        lemma_least_key_exists(dom, l, inclusive, k0);
    }
}

/// The seed a first `RAND` takes from the clock lies in `1..=255`.
pub proof fn lemma_seed_from_time_range(t: i32)
    ensures
        1 <= seed_from_time(t) <= 255,
{
    let u = t as u32;
    assert(u & 0xff <= 255) by (bit_vector);
}

/// The Park–Miller step maps `1..2147483647` into itself: since
/// `16807 * 1407677000 == 1 + 11017 * 2147483647`, a product `16807 * s`
/// divisible by 2147483647 would make `s` itself divisible by it.
pub proof fn lemma_prng_range(seed: u32)
    requires
        1 <= seed < 2147483647,
    ensures
        1 <= prng_next(seed) <= 2147483646,
{
    let x: int = seed as int * 16807;
    let m: int = 2147483647;
    vstd::arithmetic::div_mod::lemma_fundamental_div_mod(x, m);
    vstd::arithmetic::div_mod::lemma_mod_bound(x, m);
    let q = x / m;
    let r = x % m;
    if r == 0 {
        let si = seed as int;
        assert(si == m * (1407677000 * q - 11017 * si)) by (nonlinear_arith)
            requires
                si * 16807 == q * m + 0,
                m == 2147483647,
        ;
        let c = 1407677000 * q - 11017 * si;
        assert(false) by (nonlinear_arith)
            requires
                si == m * c,
                1 <= si < m,
                m == 2147483647,
        ;
    }
}

/// A `RAND` statement leaves a seed in `1..=2147483646` when the seed before
/// it was below 2147483647, whatever the clock answered.
pub proof fn lemma_rand_seed_range(v: VmView, reply: i32)
    requires
        current_stmt(v) matches Some(StmtView::CallRand(_)),
        v.seed < 2147483647,
    ensures
        1 <= step_next(v, reply).seed <= 2147483646,
{
    lemma_seed_from_time_range(reply);
    let s0 = if v.seed == 0 {
        seed_from_time(reply)
    } else {
        v.seed
    };
    lemma_prng_range(s0);
}

/// A run from a state with no statement left ends at once, where it
/// started, with no request of the host: after `terminate`, running again
/// finishes at once.
pub proof fn lemma_run_without_statement(v: VmView, g: Seq<(HostCall, i32)>, fin: VmView, gfin: Seq<(HostCall, i32)>)
    requires
        v.pc is None,
        run_ends(v, g, fin, gfin),
    ensures
        fin == v,
        gfin == g,
{
    reveal(steps_to);
    reveal(quiet_step);
    let (n, last, gl) = choose|n: int, last: VmView, gl: Seq<(HostCall, i32)>|
        #[trigger] steps_to(v, g, last, gl, n) && ((n < 100000 && last_step(last, gl, fin, gfin)) || (n
            < 100000 && last.pc is None && fin == last && gfin == gl) || (n == 100000 && fin == VmView {
            state: StateView::Error(step_limit_error()),
            ..last
        } && gfin == gl));
    let (ms, gs, rs) = choose|ms: Seq<VmView>, gs: Seq<Seq<(HostCall, i32)>>, rs: Seq<i32>|
        run_trace(ms, gs, rs, v, g, last, gl, n);
    if n > 0 {
        assert(quiet_step(ms[0], gs[0], rs[0], ms[1], gs[1]));
    }
}

/// An `IF` takes its THEN branch exactly when its condition holds, read by
/// the arithmetic of its operator: `=` equal, `<>` different, `<` less, `>`
/// greater, `<=` at most, `>=` at least. Otherwise it takes its ELSE branch,
/// or goes on to the next statement when it has none. This holds of the
/// state the step leaves and of the request it makes of the host. (An
/// `IF .. < .. THEN GOTO` is left out: it may start a timed wait.)
pub proof fn lemma_if_branch_by_condition(
    v: VmView,
    line: u32,
    idx: usize,
    lhs: Expr,
    op: CondOp,
    rhs: Expr,
    then_stmt: StmtView,
    else_stmt: Option<Box<StmtView>>,
    l: i32,
    r: i32,
    reply: i32,
)
    requires
        v.pc == Some((line, idx)),
        v.lines.contains_key(line),
        idx < v.lines[line].len(),
        v.lines[line][idx as int] == (StmtView::IfThen { lhs, op, rhs, then_stmt: Box::new(then_stmt), else_stmt }),
        eval_spec(lhs, v.vars) == Some(l),
        eval_spec(rhs, v.vars) == Some(r),
        !(op == CondOp::Lt && then_stmt is Goto),
    ensures
        ({
            let holds = match op {
                CondOp::Eq => r == l,
                CondOp::Ne => r != l,
                CondOp::Lt => r > l,
                CondOp::Gt => r < l,
                CondOp::Le => r >= l,
                CondOp::Ge => r <= l,
            };
            let np = next_pc(v.lines, line, idx);
            &&& holds ==> step_next(v, reply) == sub_step(v, then_stmt, np) && step_call(v) == sub_call(v, then_stmt)
            &&& !holds ==> step_next(v, reply) == (match else_stmt {
                Some(es) => sub_step(v, *es, np),
                None => go(v, np),
            }) && step_call(v) == (match else_stmt {
                Some(es) => sub_call(v, *es),
                None => HostCall::Nothing,
            })
        }),
{
}

} // verus!
