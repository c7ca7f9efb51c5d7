//! The VCDSCRIPT page-script language: syntax tree and parser.
//!
//! A script is a list of numbered lines; each line holds statements
//! separated by `:` (outside quotes, and not inside a `REM` or `'` comment).
//! Expressions are integers, the variables `A`..`Z`, the four arithmetic
//! operators and parentheses.

use crate::text::{
    chars_of, find, find_char, is_alpha, is_digit, is_ws, occurs_at, occurs_at_upper, parse_i32,
    parse_u32, range_find, range_find_char, range_find_upper, range_occurs_at,
    range_occurs_at_upper, range_parse_i32, range_parse_u32, string_from_range, trim,
    trim_range, trim_start, trim_start_range, upper, upper_seq, TrimKind, push_str,
};
use std::collections::BTreeMap;
use vstd::prelude::*;

verus! {

broadcast use vstd::string::group_string_axioms;

/// An arithmetic operator.
#[derive(Debug, Clone, Copy, PartialEq, Eq)]
pub enum BinOp {
    Add,
    Sub,
    Mul,
    Div,
}

/// A comparison operator.
#[derive(Debug, Clone, Copy, PartialEq, Eq)]
pub enum CondOp {
    Eq,
    Ne,
    Lt,
    Gt,
    Le,
    Ge,
}

/// An integer expression over the variables `A`..`Z`.
#[derive(Debug, PartialEq, Eq)]
pub enum Expr {
    Var(u8),
    Const(i32),
    Binary(Box<Expr>, BinOp, Box<Expr>),
}

// ---------------------------------------------------------------------------
// Evaluation
// ---------------------------------------------------------------------------

/// ASCII upper-casing of a byte.
pub open spec fn up_byte(b: u8) -> u8 {
    if 97 <= b <= 122 {
        (b - 32) as u8
    } else {
        b
    }
}

/// The variable slot a name byte selects: its upper-cased distance from `A`, at least 0.
pub open spec fn var_slot(v: u8) -> int {
    if up_byte(v) >= 65 {
        up_byte(v) - 65
    } else {
        0
    }
}

/// The value of variable `v`: its slot when below 26, else 0.
pub open spec fn var_value(vars: Seq<i32>, v: u8) -> i32 {
    if var_slot(v) < 26 {
        vars[var_slot(v)]
    } else {
        0
    }
}

/// Saturation to the `i32` range.
pub open spec fn clamp32(x: int) -> i32 {
    if x > i32::MAX {
        i32::MAX
    } else if x < i32::MIN {
        i32::MIN
    } else {
        x as i32
    }
}

/// Division rounded toward zero.
pub open spec fn tdiv(x: int, d: int) -> int {
    if x == 0 {
        0
    } else if x > 0 && d > 0 {
        x / d
    } else if x < 0 && d < 0 {
        (x * -1) / (d * -1)
    } else if x < 0 {
        ((x * -1) / d) * -1
    } else {
        (x / (d * -1)) * -1
    }
}

/// The value of an expression: sums, differences and products saturate,
/// a quotient rounds toward zero and is 0 for a zero divisor. `None` where
/// `i32::MIN` is divided by -1, which has no `i32` quotient.
pub open spec fn eval_spec(e: Expr, vars: Seq<i32>) -> Option<i32>
    decreases e,
{
    match e {
        Expr::Var(v) => Some(var_value(vars, v)),
        Expr::Const(n) => Some(n),
        Expr::Binary(l, op, r) => match (eval_spec(*l, vars), eval_spec(*r, vars)) {
            (Some(a), Some(b)) => match op {
                BinOp::Add => Some(clamp32(a + b)),
                BinOp::Sub => Some(clamp32(a - b)),
                BinOp::Mul => Some(clamp32(a * b)),
                BinOp::Div => if b == 0 {
                    Some(0)
                } else if a == i32::MIN && b == -1 {
                    None
                } else {
                    Some(tdiv(a as int, b as int) as i32)
                },
            },
            _ => None,
        },
    }
}

proof fn lemma_div_le(x: int, d: int)
    requires
        x >= 0,
        d >= 1,
    ensures
        0 <= x / d <= x,
        d >= 2 ==> x / d <= x / 2,
{
    assert(0 <= x / d <= x) by (nonlinear_arith)
        requires
            x >= 0,
            d >= 1,
    ;
    if d >= 2 {
        assert(x / d <= x / 2) by (nonlinear_arith)
            requires
                x >= 0,
                d >= 2,
        ;
    }
}

/// A quotient of two `i32` values other than `i32::MIN / -1` is an `i32`.
pub proof fn lemma_tdiv_range(a: int, b: int)
    requires
        i32::MIN <= a <= i32::MAX,
        i32::MIN <= b <= i32::MAX,
        b != 0,
        !(a == i32::MIN && b == -1),
    ensures
        i32::MIN <= tdiv(a, b) <= i32::MAX,
{
    if a > 0 && b > 0 {
        lemma_div_le(a, b);
    } else if a < 0 && b < 0 {
        lemma_div_le(-a, -b);
    } else if a < 0 && b > 0 {
        lemma_div_le(-a, b);
    } else if a > 0 && b < 0 {
        lemma_div_le(a, -b);
    }
}

fn sat_add(a: i32, b: i32) -> (r: i32)
    ensures
        r == clamp32(a + b),
{
    match a.checked_add(b) {
        Some(x) => x,
        None => if b > 0 {
            i32::MAX
        } else {
            i32::MIN
        },
    }
}

fn sat_sub(a: i32, b: i32) -> (r: i32)
    ensures
        r == clamp32(a - b),
{
    match a.checked_sub(b) {
        Some(x) => x,
        None => if b < 0 {
            i32::MAX
        } else {
            i32::MIN
        },
    }
}

fn sat_mul(a: i32, b: i32) -> (r: i32)
    ensures
        r == clamp32(a * b),
{
    match a.checked_mul(b) {
        Some(x) => x,
        None => {
            assert(a * b > i32::MAX || a * b < i32::MIN);
            if (a > 0) == (b > 0) {
                assert(a * b >= 0) by (nonlinear_arith)
                    requires
                        (a > 0) == (b > 0),
                        a != 0,
                        b != 0,
                ;
                i32::MAX
            } else {
                assert(a * b <= 0) by (nonlinear_arith)
                    requires
                        (a > 0) != (b > 0),
                ;
                i32::MIN
            }
        },
    }
}

/// Reads variable `v` of `vars`.
pub fn read_var(vars: &[i32; 26], v: u8) -> (r: i32)
    ensures
        r == var_value(vars@, v),
{
    let u: u8 = if 97 <= v && v <= 122 {
        v - 32
    } else {
        v
    };
    let idx: usize = if u >= 65 {
        (u - 65) as usize
    } else {
        0
    };
    if idx < 26 {
        vars[idx]
    } else {
        0
    }
}

impl Expr {
    /// Evaluates the expression, or `None` where it divides `i32::MIN` by -1.
    pub fn eval_checked(&self, vars: &[i32; 26]) -> (r: Option<i32>)
        ensures
            r == eval_spec(*self, vars@),
        decreases self,
    {
        match self {
            Expr::Var(v) => Some(read_var(vars, *v)),
            Expr::Const(n) => Some(*n),
            Expr::Binary(lhs, op, rhs) => {
                let l = match lhs.eval_checked(vars) {
                    Some(x) => x,
                    None => {
                        return None;
                    },
                };
                let r = match rhs.eval_checked(vars) {
                    Some(x) => x,
                    None => {
                        return None;
                    },
                };
                match op {
                    BinOp::Add => Some(sat_add(l, r)),
                    BinOp::Sub => Some(sat_sub(l, r)),
                    BinOp::Mul => Some(sat_mul(l, r)),
                    BinOp::Div => {
                        if r != 0 {
                            if l == i32::MIN && r == -1 {
                                None
                            } else {
                                proof {
                                    lemma_tdiv_range(l as int, r as int);
                                }
                                l.checked_div(r)
                            }
                        } else {
                            Some(0)
                        }
                    },
                }
            },
        }
    }

    /// Evaluates the expression against the variables `A`..`Z`.
    pub fn eval(&self, vars: &[i32; 26]) -> (r: i32)
        requires
            eval_spec(*self, vars@) is Some,
        ensures
            Some(r) == eval_spec(*self, vars@),
    {
        match self.eval_checked(vars) {
            Some(x) => x,
            None => 0,
        }
    }
}

// ---------------------------------------------------------------------------
// Expression syntax
// ---------------------------------------------------------------------------

/// Scanning `s` from index `k` down to 0 with parenthesis depth `d`, the
/// first `+`, or `-` not at index 0, outside parentheses.
pub open spec fn add_pos(s: Seq<char>, k: int, d: int) -> Option<int>
    decreases k + 1,
{
    if k < 0 {
        None
    } else if s[k] == ')' {
        add_pos(s, k - 1, d + 1)
    } else if s[k] == '(' {
        add_pos(s, k - 1, d - 1)
    } else if s[k] == '+' && d == 0 {
        Some(k)
    } else if s[k] == '-' && d == 0 && k > 0 {
        Some(k)
    } else {
        add_pos(s, k - 1, d)
    }
}

/// As `add_pos`, for `*` and `/`.
pub open spec fn mul_pos(s: Seq<char>, k: int, d: int) -> Option<int>
    decreases k + 1,
{
    if k < 0 {
        None
    } else if s[k] == ')' {
        mul_pos(s, k - 1, d + 1)
    } else if s[k] == '(' {
        mul_pos(s, k - 1, d - 1)
    } else if (s[k] == '*' || s[k] == '/') && d == 0 {
        Some(k)
    } else {
        mul_pos(s, k - 1, d)
    }
}

pub proof fn lemma_add_pos_range(s: Seq<char>, k: int, d: int)
    ensures
        add_pos(s, k, d) matches Some(i) ==> 0 <= i <= k,
    decreases k + 1,
{
    if k >= 0 {
        lemma_add_pos_range(s, k - 1, d + 1);
        lemma_add_pos_range(s, k - 1, d - 1);
        lemma_add_pos_range(s, k - 1, d);
    }
}

pub proof fn lemma_mul_pos_range(s: Seq<char>, k: int, d: int)
    ensures
        mul_pos(s, k, d) matches Some(i) ==> 0 <= i <= k,
    decreases k + 1,
{
    if k >= 0 {
        lemma_mul_pos_range(s, k - 1, d + 1);
        lemma_mul_pos_range(s, k - 1, d - 1);
        lemma_mul_pos_range(s, k - 1, d);
    }
}

pub proof fn lemma_trim_len(s: Seq<char>)
    ensures
        trim(s).len() <= s.len(),
{
    crate::text::lemma_trim_bounds(s);
}

/// Combines two parsed operands.
pub open spec fn bin(l: Option<Expr>, op: BinOp, r: Option<Expr>) -> Option<Expr> {
    match (l, r) {
        (Some(a), Some(b)) => Some(Expr::Binary(Box::new(a), op, Box::new(b))),
        _ => None,
    }
}

/// The expression a text denotes, or `None`. The text is trimmed; the last
/// top-level `+`/`-` splits it, else the last top-level `*`/`/`; else
/// enclosing parentheses are dropped; else a leading `-` negates; else it is
/// one letter or a decimal `i32`.
pub open spec fn parse_expr_spec(s0: Seq<char>) -> Option<Expr>
    decreases s0.len(),
{
    let s = trim(s0);
    proof {
        lemma_trim_len(s0);
        lemma_add_pos_range(s, s.len() - 1, 0);
        lemma_mul_pos_range(s, s.len() - 1, 0);
    }
    if s.len() == 0 {
        None
    } else if let Some(k) = add_pos(s, s.len() - 1, 0) {
        bin(
            parse_expr_spec(s.subrange(0, k)),
            if s[k] == '+' { BinOp::Add } else { BinOp::Sub },
            parse_expr_spec(s.subrange(k + 1, s.len() as int)),
        )
    } else if let Some(k) = mul_pos(s, s.len() - 1, 0) {
        bin(
            parse_expr_spec(s.subrange(0, k)),
            if s[k] == '*' { BinOp::Mul } else { BinOp::Div },
            parse_expr_spec(s.subrange(k + 1, s.len() as int)),
        )
    } else if s[0] == '(' && s.last() == ')' && s.len() >= 2 {
        parse_expr_spec(s.subrange(1, s.len() - 1))
    } else if s[0] == '-' {
        bin(Some(Expr::Const(0)), BinOp::Sub, parse_expr_spec(s.subrange(1, s.len() as int)))
    } else if s.len() == 1 && is_alpha(s[0]) {
        Some(Expr::Var(upper(s[0]) as u8))
    } else {
        match parse_i32(s) {
            Some(n) => Some(Expr::Const(n)),
            None => None,
        }
    }
}

/// The split `parse_expr_spec` makes at the given precedence level.
pub open spec fn split_at_spec(s: Seq<char>, additive: bool) -> Option<int> {
    if additive {
        add_pos(s, s.len() - 1, 0)
    } else {
        mul_pos(s, s.len() - 1, 0)
    }
}

/// Finds the operator `parse_expr_spec` splits `v[lo..hi]` at.
fn operator_scan(v: &Vec<char>, lo: usize, hi: usize, additive: bool) -> (r: Option<usize>)
    requires
        lo < hi <= v@.len(),
    ensures
        match r {
            Some(i) => split_at_spec(v@.subrange(lo as int, hi as int), additive) == Some(i as int),
            None => split_at_spec(v@.subrange(lo as int, hi as int), additive) is None,
        },
{
    let ghost s = v@.subrange(lo as int, hi as int);
    let mut k: usize = hi - lo;
    let mut depth: i128 = 0;
    while k > 0
        invariant
            lo < hi <= v@.len(),
            s == v@.subrange(lo as int, hi as int),
            k <= hi - lo,
            -(hi - lo - k) <= depth <= hi - lo - k,
            split_at_spec(s, additive) == (if additive {
                add_pos(s, k - 1, depth as int)
            } else {
                mul_pos(s, k - 1, depth as int)
            }),
        decreases k,
    {
        let i = k - 1;
        let c = v[lo + i];
        assert(c == s[i as int]);
        if c == ')' {
            depth = depth + 1;
        } else if c == '(' {
            depth = depth - 1;
        } else if additive && depth == 0 && (c == '+' || (c == '-' && i > 0)) {
            return Some(i);
        } else if !additive && depth == 0 && (c == '*' || c == '/') {
            return Some(i);
        }
        k = i;
    }
    None
}

/// Parses the expression in `v[lo..hi]`.
pub fn parse_expr_range(v: &Vec<char>, lo: usize, hi: usize) -> (r: Option<Expr>)
    requires
        lo <= hi <= v@.len(),
    ensures
        r == parse_expr_spec(v@.subrange(lo as int, hi as int)),
    decreases hi - lo,
{
    let ghost s0 = v@.subrange(lo as int, hi as int);
    let (a, b) = trim_range(v, lo, hi);
    let ghost s = v@.subrange(a as int, b as int);
    assert(s == trim(s0));
    if a == b {
        return None;
    }
    proof {
        lemma_add_pos_range(s, s.len() - 1, 0);
        lemma_mul_pos_range(s, s.len() - 1, 0);
    }
    if let Some(k) = operator_scan(v, a, b, true) {
        assert(s.subrange(0, k as int) =~= v@.subrange(a as int, a + k));
        assert(s.subrange(k + 1, s.len() as int) =~= v@.subrange(a + k + 1, b as int));
        let l = parse_expr_range(v, a, a + k);
        let r = parse_expr_range(v, a + k + 1, b);
        let op = if v[a + k] == '+' {
            BinOp::Add
        } else {
            BinOp::Sub
        };
        return match (l, r) {
            (Some(x), Some(y)) => Some(Expr::Binary(Box::new(x), op, Box::new(y))),
            _ => None,
        };
    }
    if let Some(k) = operator_scan(v, a, b, false) {
        assert(s.subrange(0, k as int) =~= v@.subrange(a as int, a + k));
        assert(s.subrange(k + 1, s.len() as int) =~= v@.subrange(a + k + 1, b as int));
        let l = parse_expr_range(v, a, a + k);
        let r = parse_expr_range(v, a + k + 1, b);
        let op = if v[a + k] == '*' {
            BinOp::Mul
        } else {
            BinOp::Div
        };
        return match (l, r) {
            (Some(x), Some(y)) => Some(Expr::Binary(Box::new(x), op, Box::new(y))),
            _ => None,
        };
    }
    if v[a] == '(' && v[b - 1] == ')' && b - a >= 2 {
        assert(s.subrange(1, s.len() - 1) =~= v@.subrange(a + 1, b - 1));
        return parse_expr_range(v, a + 1, b - 1);
    }
    if v[a] == '-' {
        assert(s.subrange(1, s.len() as int) =~= v@.subrange(a + 1, b as int));
        return match parse_expr_range(v, a + 1, b) {
            Some(x) => Some(Expr::Binary(Box::new(Expr::Const(0)), BinOp::Sub, Box::new(x))),
            None => None,
        };
    }
    let c = v[a];
    if b - a == 1 && (('a' <= c && c <= 'z') || ('A' <= c && c <= 'Z')) {
        let u: u8 = if 'a' <= c && c <= 'z' {
            (c as u8) - 32
        } else {
            c as u8
        };
        return Some(Expr::Var(u));
    }
    match range_parse_i32(v, a, b) {
        Some(n) => Some(Expr::Const(n)),
        None => None,
    }
}

/// Parses an expression (`parse_expr_spec`).
pub fn parse_expr(s: &str) -> (r: Option<Expr>)
    ensures
        r == parse_expr_spec(s@),
{
    let v = chars_of(s);
    assert(v@.subrange(0, v@.len() as int) =~= v@);
    parse_expr_range(&v, 0, v.len())
}

// ---------------------------------------------------------------------------
// Statements
// ---------------------------------------------------------------------------

/// A statement of a script line.
#[derive(Debug, PartialEq, Eq)]
pub enum Statement {
    Assign(u8, Expr),
    CallIrkey(u8),
    CallTime(u8),
    CallRand(u8),
    DrawCursor(Expr, Expr),
    DrawImage { file: String, x: Expr, y: Expr, mode: Expr },
    PlaySound(String),
    PlayVideo { file: String, start_frame: Expr, end_frame: Expr, exit_page: Option<String> },
    KaraokeSet(Expr, Expr),
    KaraokeGet { index: Expr, target_var: u8 },
    KaraokeDel(Expr),
    KaraokeIns(Expr, Expr),
    KaraokePlay,
    Goto(Expr),
    Gosub(Expr),
    Return,
    IfThen {
        lhs: Expr,
        op: CondOp,
        rhs: Expr,
        then_stmt: Box<Statement>,
        else_stmt: Option<Box<Statement>>,
    },
    ForTo { var: u8, start: Expr, end: Expr },
    Next(u8),
    End,
    Rem(String),
    Unknown { raw: String, reason: String },
}

/// A statement with its texts as character sequences.
pub enum StmtView {
    Assign(u8, Expr),
    CallIrkey(u8),
    CallTime(u8),
    CallRand(u8),
    DrawCursor(Expr, Expr),
    DrawImage { file: Seq<char>, x: Expr, y: Expr, mode: Expr },
    PlaySound(Seq<char>),
    PlayVideo { file: Seq<char>, start_frame: Expr, end_frame: Expr, exit_page: Option<Seq<char>> },
    KaraokeSet(Expr, Expr),
    KaraokeGet { index: Expr, target_var: u8 },
    KaraokeDel(Expr),
    KaraokeIns(Expr, Expr),
    KaraokePlay,
    Goto(Expr),
    Gosub(Expr),
    Return,
    IfThen {
        lhs: Expr,
        op: CondOp,
        rhs: Expr,
        then_stmt: Box<StmtView>,
        else_stmt: Option<Box<StmtView>>,
    },
    ForTo { var: u8, start: Expr, end: Expr },
    Next(u8),
    End,
    Rem(Seq<char>),
    Unknown { raw: Seq<char>, reason: Seq<char> },
}

/// The view of a statement.
pub open spec fn stmt_view(s: Statement) -> StmtView
    decreases s,
{
    match s {
        Statement::Assign(v, e) => StmtView::Assign(v, e),
        Statement::CallIrkey(v) => StmtView::CallIrkey(v),
        Statement::CallTime(v) => StmtView::CallTime(v),
        Statement::CallRand(v) => StmtView::CallRand(v),
        Statement::DrawCursor(x, y) => StmtView::DrawCursor(x, y),
        Statement::DrawImage { file, x, y, mode } => StmtView::DrawImage { file: file@, x, y, mode },
        Statement::PlaySound(f) => StmtView::PlaySound(f@),
        Statement::PlayVideo { file, start_frame, end_frame, exit_page } => StmtView::PlayVideo {
            file: file@,
            start_frame,
            end_frame,
            exit_page: match exit_page {
                Some(p) => Some(p@),
                None => None,
            },
        },
        Statement::KaraokeSet(a, b) => StmtView::KaraokeSet(a, b),
        Statement::KaraokeGet { index, target_var } => StmtView::KaraokeGet { index, target_var },
        Statement::KaraokeDel(a) => StmtView::KaraokeDel(a),
        Statement::KaraokeIns(a, b) => StmtView::KaraokeIns(a, b),
        Statement::KaraokePlay => StmtView::KaraokePlay,
        Statement::Goto(e) => StmtView::Goto(e),
        Statement::Gosub(e) => StmtView::Gosub(e),
        Statement::Return => StmtView::Return,
        Statement::IfThen { lhs, op, rhs, then_stmt, else_stmt } => StmtView::IfThen {
            lhs,
            op,
            rhs,
            then_stmt: Box::new(stmt_view(*then_stmt)),
            else_stmt: match else_stmt {
                Some(e) => Some(Box::new(stmt_view(*e))),
                None => None,
            },
        },
        Statement::ForTo { var, start, end } => StmtView::ForTo { var, start, end },
        Statement::Next(v) => StmtView::Next(v),
        Statement::End => StmtView::End,
        Statement::Rem(t) => StmtView::Rem(t@),
        Statement::Unknown { raw, reason } => StmtView::Unknown { raw: raw@, reason: reason@ },
    }
}

impl View for Statement {
    type V = StmtView;

    open spec fn view(&self) -> StmtView {
        stmt_view(*self)
    }
}

/// `t` starts with `p` after ASCII upper-casing.
pub open spec fn up_starts(t: Seq<char>, p: Seq<char>) -> bool {
    occurs_at_upper(t, p, 0)
}

/// `t` contains `p` after ASCII upper-casing.
pub open spec fn up_has(t: Seq<char>, p: Seq<char>) -> bool {
    find(upper_seq(t), p) is Some
}

/// `t` starts with keyword `kw`, followed by whitespace or the end.
pub open spec fn kw_head(t: Seq<char>, kw: Seq<char>) -> bool {
    up_starts(t, kw) && (t.len() == kw.len() || is_ws(t[kw.len() as int]))
}

/// `t` is a `REM` comment: `REM` followed by the end, whitespace or `:`.
pub open spec fn rem_head(t: Seq<char>) -> bool {
    up_starts(t, "REM"@) && (t.len() == 3 || is_ws(t[3]) || t[3] == ':')
}

/// The reason text `prefix'x'`.
pub open spec fn quoted_reason(prefix: Seq<char>, x: Seq<char>) -> Seq<char> {
    prefix + x + "'"@
}

/// The pieces of `s` between occurrences of `c`, as `str::split(c)` yields them.
pub open spec fn split_on(s: Seq<char>, c: char) -> Seq<Seq<char>>
    decreases s.len(),
{
    proof {
        crate::text::lemma_find_char_at(s, c);
    }
    match find_char(s, c) {
        Some(i) => seq![s.subrange(0, i)] + split_on(s.subrange(i + 1, s.len() as int), c),
        None => seq![s],
    }
}

/// The pieces of `s` between commas.
pub open spec fn split_comma(s: Seq<char>) -> Seq<Seq<char>> {
    split_on(s, ',')
}

/// A single ASCII letter, upper-cased, as a variable name byte.
pub open spec fn single_var(t: Seq<char>) -> Option<u8> {
    if t.len() == 1 && is_alpha(t[0]) {
        Some(upper(t[0]) as u8)
    } else {
        None
    }
}

/// The variable named in `func(X)` within `s`.
pub open spec fn call_arg_var(s: Seq<char>, func: Seq<char>) -> Option<u8> {
    match find(upper_seq(s), func) {
        None => None,
        Some(idx) => {
            let after = s.subrange(idx + func.len(), s.len() as int);
            match (find_char(after, '('), find_char(after, ')')) {
                (Some(o), Some(c)) => if c > o {
                    single_var(trim(after.subrange(o + 1, c)))
                } else {
                    None
                },
                _ => None,
            }
        },
    }
}

/// The text between the first two double quotes of `s`.
pub open spec fn quoted(s: Seq<char>) -> Option<Seq<char>> {
    match find_char(s, '"') {
        Some(st) => match find_char(s.subrange(st + 1, s.len() as int), '"') {
            Some(e) => Some(s.subrange(st + 1, st + 1 + e)),
            None => None,
        },
        None => None,
    }
}

/// The quoted text of `s` and what follows it, without one leading comma.
pub open spec fn string_and_args(s: Seq<char>) -> Option<(Seq<char>, Seq<char>)> {
    match find_char(s, '"') {
        Some(st) => match find_char(s.subrange(st + 1, s.len() as int), '"') {
            Some(e) => {
                let rest = trim(s.subrange(st + 1 + e + 1, s.len() as int));
                let args = if rest.len() > 0 && rest[0] == ',' {
                    trim(rest.subrange(1, rest.len() as int))
                } else {
                    rest
                };
                Some((s.subrange(st + 1, st + 1 + e), args))
            },
            None => None,
        },
        None => None,
    }
}

/// A comparison split at the first occurrence of `sym`.
pub open spec fn cond_try(s: Seq<char>, sym: Seq<char>, op: CondOp) -> Option<(Expr, CondOp, Expr)> {
    match find(s, sym) {
        Some(idx) => match (
            parse_expr_spec(trim(s.subrange(0, idx))),
            parse_expr_spec(trim(s.subrange(idx + sym.len(), s.len() as int))),
        ) {
            (Some(l), Some(r)) => Some((l, op, r)),
            _ => None,
        },
        None => None,
    }
}

/// A comparison: the operators are tried in the order `<=`, `>=`, `<>`, `=`, `<`, `>`.
pub open spec fn condition(s: Seq<char>) -> Option<(Expr, CondOp, Expr)> {
    if cond_try(s, "<="@, CondOp::Le) is Some {
        cond_try(s, "<="@, CondOp::Le)
    } else if cond_try(s, ">="@, CondOp::Ge) is Some {
        cond_try(s, ">="@, CondOp::Ge)
    } else if cond_try(s, "<>"@, CondOp::Ne) is Some {
        cond_try(s, "<>"@, CondOp::Ne)
    } else if cond_try(s, "="@, CondOp::Eq) is Some {
        cond_try(s, "="@, CondOp::Eq)
    } else if cond_try(s, "<"@, CondOp::Lt) is Some {
        cond_try(s, "<"@, CondOp::Lt)
    } else {
        cond_try(s, ">"@, CondOp::Gt)
    }
}

/// The number of UTF-8 bytes of a character.
pub open spec fn cw(c: char) -> int {
    if (c as u32) < 0x80 {
        1
    } else if (c as u32) < 0x800 {
        2
    } else if (c as u32) < 0x10000 {
        3
    } else {
        4
    }
}

/// The number of UTF-8 bytes of a text.
pub open spec fn utf8_len(s: Seq<char>) -> int
    decreases s.len(),
{
    if s.len() == 0 {
        0
    } else {
        utf8_len(s.drop_last()) + cw(s.last())
    }
}

/// Whether byte offset `target` starts a character, walking from character
/// `k` at byte offset `bk`.
pub open spec fn boundary_from(s: Seq<char>, k: int, bk: int, target: int) -> bool
    decreases s.len() - k,
{
    if bk >= target || k < 0 || k >= s.len() {
        bk == target
    } else {
        boundary_from(s, k + 1, bk + cw(s[k]), target)
    }
}

/// Searching `s` for the keyword `ELSE` outside quotes, bounded by
/// whitespace, byte by byte as the line is sliced; character `j` starts
/// at byte `b`, `q` tells whether the scan is inside quotes and `total` is
/// the byte length. `None` where the scan would slice through a character.
pub open spec fn else_scan(s: Seq<char>, j: int, b: int, q: bool, total: int) -> Option<Option<int>>
    decreases s.len() - j,
{
    if j < 0 || j >= s.len() || b + 4 > total {
        Some(None)
    } else if s[j] == '"' {
        else_scan(s, j + 1, b + 1, !q, total)
    } else if q {
        else_scan(s, j + 1, b + cw(s[j]), q, total)
    } else if !boundary_from(s, j, b, b + 4) {
        None
    } else if occurs_at_upper(s, "ELSE"@, j) && (j == 0 || crate::text::is_ascii_ws(s[j - 1])) && (
    j + 4 == s.len() || crate::text::is_ascii_ws(s[j + 4])) {
        Some(Some(j))
    } else if cw(s[j]) > 1 && b + 5 <= total {
        None
    } else {
        else_scan(s, j + 1, b + cw(s[j]), q, total)
    }
}

/// `else_scan` over a whole text.
pub open spec fn find_else(s: Seq<char>) -> Option<Option<int>> {
    else_scan(s, 0, 0, false, utf8_len(s))
}

/// `GOTO`/`GOSUB` with its target expression after `n` characters.
pub open spec fn jump_stmt(t: Seq<char>, n: int, gosub: bool) -> StmtView {
    let rest = trim(t.subrange(n, t.len() as int));
    match parse_expr_spec(rest) {
        Some(e) => if gosub {
            StmtView::Gosub(e)
        } else {
            StmtView::Goto(e)
        },
        None => StmtView::Unknown {
            raw: t,
            reason: quoted_reason(
                if gosub {
                    "无效的 GOSUB 行号表达式: '"@
                } else {
                    "无效的 GOTO 行号表达式: '"@
                },
                rest,
            ),
        },
    }
}

/// The names of the `CALL` functions: 0 `IRKEY`, 1 `TIME`, 2 `RAND`.
pub open spec fn call_name(k: int) -> Seq<char> {
    if k == 0 {
        "IRKEY"@
    } else if k == 1 {
        "TIME"@
    } else {
        "RAND"@
    }
}

/// The reason given for a `CALL` without a single-variable argument.
pub open spec fn call_reason(k: int) -> Seq<char> {
    if k == 0 {
        "CALL IRKEY 必须包含单变量参数，例如 CALL IRKEY(X)"@
    } else if k == 1 {
        "CALL TIME 必须包含单变量参数，例如 CALL TIME(X)"@
    } else {
        "CALL RAND 必须包含单变量参数，例如 CALL RAND(N)"@
    }
}

/// `CALL IRKEY(X)`, `CALL TIME(X)` or `CALL RAND(X)`.
pub open spec fn call_stmt(t: Seq<char>, k: int) -> StmtView {
    match call_arg_var(t, call_name(k)) {
        Some(v) => if k == 0 {
            StmtView::CallIrkey(v)
        } else if k == 1 {
            StmtView::CallTime(v)
        } else {
            StmtView::CallRand(v)
        },
        None => StmtView::Unknown { raw: t, reason: call_reason(k) },
    }
}

/// `DRAWCURSOR x, y`.
pub open spec fn cursor_stmt(t: Seq<char>) -> StmtView {
    let rest = trim(t.subrange(10, t.len() as int));
    let parts = split_comma(rest);
    if parts.len() == 2 && parse_expr_spec(trim(parts[0])) is Some && parse_expr_spec(trim(parts[1])) is Some {
        StmtView::DrawCursor(
            parse_expr_spec(trim(parts[0]))->Some_0,
            parse_expr_spec(trim(parts[1]))->Some_0,
        )
    } else {
        StmtView::Unknown { raw: t, reason: quoted_reason("无效的 DRAWCURSOR 参数: '"@, rest) }
    }
}

/// `DRAWIMAGE "file", x, y[, mode]`.
pub open spec fn image_stmt(t: Seq<char>) -> StmtView {
    let rest = trim(t.subrange(9, t.len() as int));
    let fallback = StmtView::Unknown { raw: t, reason: quoted_reason("无效的 DRAWIMAGE 参数: '"@, rest) };
    match string_and_args(rest) {
        Some((file, args)) => {
            let parts = split_comma(args);
            if parts.len() >= 2 && parse_expr_spec(trim(parts[0])) is Some && parse_expr_spec(
                trim(parts[1]),
            ) is Some {
                StmtView::DrawImage {
                    file,
                    x: parse_expr_spec(trim(parts[0]))->Some_0,
                    y: parse_expr_spec(trim(parts[1]))->Some_0,
                    mode: if parts.len() >= 3 && parse_expr_spec(trim(parts[2])) is Some {
                        parse_expr_spec(trim(parts[2]))->Some_0
                    } else {
                        Expr::Const(0)
                    },
                }
            } else {
                fallback
            }
        },
        None => fallback,
    }
}

/// `PLAYSOUND "file"`.
pub open spec fn sound_stmt(t: Seq<char>) -> StmtView {
    let rest = trim(t.subrange(9, t.len() as int));
    match quoted(rest) {
        Some(f) => StmtView::PlaySound(f),
        None => StmtView::Unknown {
            raw: t,
            reason: quoted_reason("PLAYSOUND 必须包含带双引号的音频文件名: '"@, rest),
        },
    }
}

/// An optional frame argument, 0 where absent or unreadable.
pub open spec fn frame_arg(parts: Seq<Seq<char>>, i: int) -> Expr {
    if parts.len() > i && parse_expr_spec(trim(parts[i])) is Some {
        parse_expr_spec(trim(parts[i]))->Some_0
    } else {
        Expr::Const(0)
    }
}

/// The exit page argument of `PLAYVIDEO`: quoted text, else the bare text without quotes.
pub open spec fn exit_arg(parts: Seq<Seq<char>>) -> Option<Seq<char>> {
    if parts.len() >= 3 {
        let p = trim(parts[2]);
        match quoted(p) {
            Some(q) => Some(q),
            None => if p.len() > 0 {
                Some(trim_quotes(p))
            } else {
                None
            },
        }
    } else {
        None
    }
}

/// `str::trim_matches('"')`.
pub open spec fn trim_quotes(s: Seq<char>) -> Seq<char> {
    crate::text::trim_end_by(crate::text::trim_start_by(s, |c: char| c == '"'), |c: char| c == '"')
}

/// `PLAYVIDEO "file", start, end, "exit page"`.
pub open spec fn video_stmt(t: Seq<char>) -> StmtView {
    let rest = trim(t.subrange(9, t.len() as int));
    match string_and_args(rest) {
        Some((file, args)) => {
            let parts = split_comma(args);
            StmtView::PlayVideo {
                file,
                start_frame: frame_arg(parts, 0),
                end_frame: frame_arg(parts, 1),
                exit_page: exit_arg(parts),
            }
        },
        None => StmtView::Unknown { raw: t, reason: quoted_reason("无效的 PLAYVIDEO 参数: '"@, rest) },
    }
}

/// The text after the first `kw` of `t`, trimmed.
pub open spec fn after_kw(t: Seq<char>, kw: Seq<char>) -> Seq<char> {
    trim(t.subrange(find(upper_seq(t), kw)->Some_0 + kw.len(), t.len() as int))
}

/// The `KARAOKE` sub-commands; `None` where none of them is named.
pub open spec fn karaoke_stmt(t: Seq<char>) -> Option<StmtView> {
    if up_has(t, "PLAY"@) {
        Some(StmtView::KaraokePlay)
    } else if up_has(t, "GET"@) {
        let rest = after_kw(t, "GET"@);
        let parts = split_comma(rest);
        if parts.len() == 2 && single_var(trim(parts[1])) is Some && parse_expr_spec(trim(parts[0])) is Some {
            Some(
                StmtView::KaraokeGet {
                    index: parse_expr_spec(trim(parts[0]))->Some_0,
                    target_var: single_var(trim(parts[1]))->Some_0,
                },
            )
        } else {
            Some(StmtView::Unknown { raw: t, reason: quoted_reason("无效的 KARAOKE GET 参数: '"@, rest) })
        }
    } else if up_has(t, "DEL"@) {
        let rest = after_kw(t, "DEL"@);
        match parse_expr_spec(rest) {
            Some(e) => Some(StmtView::KaraokeDel(e)),
            None => Some(
                StmtView::Unknown { raw: t, reason: quoted_reason("无效的 KARAOKE DEL 参数: '"@, rest) },
            ),
        }
    } else if up_has(t, "INS"@) || up_has(t, "SET"@) {
        let ins = up_has(t, "INS"@);
        let rest = if ins {
            after_kw(t, "INS"@)
        } else {
            after_kw(t, "SET"@)
        };
        let parts = split_comma(rest);
        if parts.len() == 2 && parse_expr_spec(trim(parts[0])) is Some && parse_expr_spec(trim(parts[1])) is Some {
            let a = parse_expr_spec(trim(parts[0]))->Some_0;
            let b = parse_expr_spec(trim(parts[1]))->Some_0;
            Some(if ins {
                StmtView::KaraokeIns(a, b)
            } else {
                StmtView::KaraokeSet(a, b)
            })
        } else {
            Some(
                StmtView::Unknown {
                    raw: t,
                    reason: quoted_reason(
                        if ins {
                            "无效的 KARAOKE INS 参数: '"@
                        } else {
                            "无效的 KARAOKE SET 参数: '"@
                        },
                        rest,
                    ),
                },
            )
        }
    } else {
        None
    }
}

/// The statement starts with one of the spellings of `KARAOKE` found on discs.
pub open spec fn is_karaoke(t: Seq<char>) -> bool {
    up_starts(t, "KARAOKE"@) || up_starts(t, "KRAROKE"@) || up_starts(t, "KRARAOKE"@)
}

/// `FOR v = a TO b`; `None` where the first `TO` precedes the first `=`,
/// so that the text between them would be sliced out of order.
pub open spec fn for_stmt(t: Seq<char>) -> Option<StmtView> {
    let eq = find_char(upper_seq(t), '=')->Some_0;
    let to = find(upper_seq(t), "TO"@)->Some_0;
    if to < eq + 1 {
        None
    } else {
        let var_part = trim(t.subrange(3, eq));
        let start = trim(t.subrange(eq + 1, to));
        let end = trim(t.subrange(to + 2, t.len() as int));
        if single_var(var_part) is Some && parse_expr_spec(start) is Some && parse_expr_spec(end) is Some {
            Some(
                StmtView::ForTo {
                    var: single_var(var_part)->Some_0,
                    start: parse_expr_spec(start)->Some_0,
                    end: parse_expr_spec(end)->Some_0,
                },
            )
        } else {
            Some(StmtView::Unknown { raw: t, reason: quoted_reason("无法解析 FOR 循环语句: '"@, t) })
        }
    }
}

/// `NEXT v`; the variable defaults to `I`.
pub open spec fn next_stmt(t: Seq<char>) -> StmtView {
    let rest = trim(t.subrange(4, t.len() as int));
    match single_var(rest) {
        Some(v) => StmtView::Next(v),
        None => StmtView::Next(73),
    }
}

/// `v = expr`; `None` where the text before the first `=` is not one letter.
pub open spec fn assign_stmt(t: Seq<char>) -> Option<StmtView> {
    match find_char(t, '=') {
        Some(eq) => {
            let var_part = trim(t.subrange(0, eq));
            let val = trim(t.subrange(eq + 1, t.len() as int));
            match single_var(var_part) {
                Some(v) => match parse_expr_spec(val) {
                    Some(e) => Some(StmtView::Assign(v, e)),
                    None => Some(StmtView::Unknown { raw: t, reason: quoted_reason("无效的赋值表达式: '"@, val) }),
                },
                None => None,
            }
        },
        None => None,
    }
}

/// An `IF` branch: a bare line number jumps there, else it is a statement.
pub open spec fn branch_spec(b: Seq<char>) -> Option<StmtView>
    decreases b.len(), 5int,
{
    let bt = trim(b);
    proof {
        lemma_trim_len(b);
    }
    match parse_u32(bt) {
        Some(n) => Some(StmtView::Goto(Expr::Const(n as i32))),
        None => parse_stmt_spec(bt),
    }
}

/// `IF cond THEN stmt [ELSE stmt]`; `None` where the statement, or the
/// search for `ELSE`, would slice the text out of range.
pub open spec fn if_stmt(t: Seq<char>) -> Option<StmtView>
    decreases t.len(), 0int,
{
    let then_pos = find(upper_seq(t), "THEN"@)->Some_0;
    if then_pos < 2 || then_pos + 4 > t.len() {
        None
    } else {
        let cond = trim(t.subrange(2, then_pos));
        let after = trim(t.subrange(then_pos + 4, t.len() as int));
        proof {
            lemma_trim_len(t.subrange(then_pos + 4, t.len() as int));
        }
        match find_else(after) {
            None => None,
            Some(e) => {
                let then_part = match e {
                    Some(j) => if 0 <= j && j + 4 <= after.len() {
                        trim(after.subrange(0, j))
                    } else {
                        after
                    },
                    None => after,
                };
                let else_part = match e {
                    Some(j) => if 0 <= j && j + 4 <= after.len() {
                        Some(trim(after.subrange(j + 4, after.len() as int)))
                    } else {
                        None
                    },
                    None => None,
                };
                proof {
                    if let Some(j) = e {
                        if 0 <= j && j + 4 <= after.len() {
                            lemma_trim_len(after.subrange(0, j));
                            lemma_trim_len(after.subrange(j + 4, after.len() as int));
                        }
                    }
                }
                match condition(cond) {
                    None => Some(StmtView::Unknown { raw: t, reason: quoted_reason("无法解析 IF 条件表达式: '"@, cond) }),
                    Some((l, op, r)) => match branch_spec(then_part) {
                        None => None,
                        Some(ts) => match else_part {
                            None => Some(StmtView::IfThen { lhs: l, op, rhs: r, then_stmt: Box::new(ts), else_stmt: None }),
                            Some(ep) => match branch_spec(ep) {
                                None => None,
                                Some(es) => Some(StmtView::IfThen { lhs: l, op, rhs: r, then_stmt: Box::new(ts), else_stmt: Some(Box::new(es)) }),
                            },
                        },
                    },
                }
            },
        }
    }
}

/// The statement a text denotes; `None` where reading it would slice the
/// text out of range (see `if_stmt` and `for_stmt`).
pub open spec fn parse_stmt_spec(s: Seq<char>) -> Option<StmtView>
    decreases s.len(), 4int,
{
    let t = trim(s);
    proof {
        lemma_trim_len(s);
    }
    if t.len() == 0 {
        Some(StmtView::Rem(seq![]))
    } else {
        stmt_of(t)
    }
}

/// Comments, `END`, `RETURN`, `GOTO` and `GOSUB`, then `stmt_cmd`.
pub open spec fn stmt_of(t: Seq<char>) -> Option<StmtView>
    decreases t.len(), 3int,
{
    if t.len() > 0 && t[0] == '\'' {
        Some(StmtView::Rem(trim(t.subrange(1, t.len() as int))))
    } else if rem_head(t) {
        Some(StmtView::Rem(trim(t.subrange(3, t.len() as int))))
    } else if upper_seq(t) == "END"@ {
        Some(StmtView::End)
    } else if upper_seq(t) == "RETURN"@ {
        Some(StmtView::Return)
    } else if kw_head(t, "GOTO"@) {
        Some(jump_stmt(t, 4, false))
    } else if kw_head(t, "GOSUB"@) {
        Some(jump_stmt(t, 5, true))
    } else {
        stmt_cmd(t)
    }
}

/// `CALL`, `DRAWCURSOR`, `DRAWIMAGE`, `PLAYSOUND` and `PLAYVIDEO`, then `stmt_flow`.
pub open spec fn stmt_cmd(t: Seq<char>) -> Option<StmtView>
    decreases t.len(), 2int,
{
    if up_starts(t, "CALL"@) && up_has(t, "IRKEY"@) {
        Some(call_stmt(t, 0))
    } else if up_starts(t, "CALL"@) && up_has(t, "TIME"@) {
        Some(call_stmt(t, 1))
    } else if up_starts(t, "CALL"@) && up_has(t, "RAND"@) {
        Some(call_stmt(t, 2))
    } else if up_starts(t, "DRAWCURSOR"@) {
        Some(cursor_stmt(t))
    } else if up_starts(t, "DRAWIMAGE"@) || up_starts(t, "DRAWIMGAE"@) {
        Some(image_stmt(t))
    } else if up_starts(t, "PLAYSOUND"@) {
        Some(sound_stmt(t))
    } else if up_starts(t, "PLAYVIDEO"@) {
        Some(video_stmt(t))
    } else {
        stmt_flow(t)
    }
}

/// `KARAOKE`, `IF`, `FOR`, `NEXT` and assignments; anything else is unknown.
pub open spec fn stmt_flow(t: Seq<char>) -> Option<StmtView>
    decreases t.len(), 1int,
{
    if is_karaoke(t) && karaoke_stmt(t) is Some {
        karaoke_stmt(t)
    } else if up_starts(t, "IF"@) && up_has(t, "THEN"@) {
        if_stmt(t)
    } else if up_starts(t, "FOR"@) && up_has(t, "TO"@) && find_char(upper_seq(t), '=') is Some {
        for_stmt(t)
    } else if up_starts(t, "NEXT"@) {
        Some(next_stmt(t))
    } else if assign_stmt(t) is Some {
        assign_stmt(t)
    } else {
        Some(StmtView::Unknown { raw: t, reason: quoted_reason("未识别的 VCDSCRIPT 指令: '"@, t) })
    }
}

// ---------------------------------------------------------------------------
// Parsing helpers over a character buffer
// ---------------------------------------------------------------------------

/// Appends `v[a..b]` to `s`.
fn push_range(s: &mut String, v: &Vec<char>, a: usize, b: usize)
    requires
        a <= b <= v@.len(),
    ensures
        final(s)@ == old(s)@ + v@.subrange(a as int, b as int),
{
    let mut i = a;
    while i < b
        invariant
            a <= i <= b <= v@.len(),
            s@ == old(s)@ + v@.subrange(a as int, i as int),
        decreases b - i,
    {
        crate::text::push_char(s, v[i]);
        assert(v@.subrange(a as int, i + 1) =~= v@.subrange(a as int, i as int).push(v@[i as int]));
        assert(old(s)@ + v@.subrange(a as int, i + 1) =~= (old(s)@ + v@.subrange(a as int, i as int)).push(
            v@[i as int],
        ));
        i += 1;
    }
}

/// The text `prefix'v[a..b]'`.
fn reason_text(prefix: &str, v: &Vec<char>, a: usize, b: usize) -> (r: String)
    requires
        a <= b <= v@.len(),
    ensures
        r@ == quoted_reason(prefix@, v@.subrange(a as int, b as int)),
{
    let mut s = String::new();
    push_str(&mut s, prefix);
    push_range(&mut s, v, a, b);
    push_str(&mut s, "'");
    assert(s@ =~= quoted_reason(prefix@, v@.subrange(a as int, b as int)));
    s
}

/// `parse_expr_spec(trim(v[a..b]))`.
fn parse_trimmed(v: &Vec<char>, a: usize, b: usize) -> (r: Option<Expr>)
    requires
        a <= b <= v@.len(),
    ensures
        r == parse_expr_spec(trim(v@.subrange(a as int, b as int))),
{
    let (x, y) = trim_range(v, a, b);
    parse_expr_range(v, x, y)
}

/// `single_var(v[a..b])`.
fn single_var_range(v: &Vec<char>, a: usize, b: usize) -> (r: Option<u8>)
    requires
        a <= b <= v@.len(),
    ensures
        r == single_var(v@.subrange(a as int, b as int)),
{
    if b - a == 1 {
        let c = v[a];
        if ('a' <= c && c <= 'z') || ('A' <= c && c <= 'Z') {
            let u: u8 = if 'a' <= c && c <= 'z' {
                (c as u8) - 32
            } else {
                c as u8
            };
            return Some(u);
        }
    }
    None
}

/// The pieces of `v[lo..hi]` between commas, as ranges of `v`.
fn split_comma_ranges(v: &Vec<char>, lo: usize, hi: usize) -> (r: Vec<(usize, usize)>)
    requires
        lo <= hi <= v@.len(),
    ensures
        r@.len() == split_comma(v@.subrange(lo as int, hi as int)).len(),
        forall|i: int|
            0 <= i < r@.len() ==> lo <= (#[trigger] r@[i]).0 <= r@[i].1 <= hi && v@.subrange(
                r@[i].0 as int,
                r@[i].1 as int,
            ) == split_comma(v@.subrange(lo as int, hi as int))[i],
{
    split_on_ranges(v, lo, hi, ',')
}

/// The pieces of `v[lo..hi]` between occurrences of `c`, as ranges of `v`.
fn split_on_ranges(v: &Vec<char>, lo: usize, hi: usize, c: char) -> (r: Vec<(usize, usize)>)
    requires
        lo <= hi <= v@.len(),
    ensures
        r@.len() == split_on(v@.subrange(lo as int, hi as int), c).len(),
        forall|i: int|
            0 <= i < r@.len() ==> lo <= (#[trigger] r@[i]).0 <= r@[i].1 <= hi && v@.subrange(
                r@[i].0 as int,
                r@[i].1 as int,
            ) == split_on(v@.subrange(lo as int, hi as int), c)[i],
{
    let ghost whole = split_on(v@.subrange(lo as int, hi as int), c);
    let mut r: Vec<(usize, usize)> = Vec::new();
    let mut start = lo;
    loop
        invariant_except_break
            whole == r@.map_values(|p: (usize, usize)| v@.subrange(p.0 as int, p.1 as int)) + split_on(
                v@.subrange(start as int, hi as int),
                c,
            ),
        invariant
            lo <= start <= hi <= v@.len(),
            whole == split_on(v@.subrange(lo as int, hi as int), c),
            forall|i: int| 0 <= i < r@.len() ==> lo <= (#[trigger] r@[i]).0 <= r@[i].1 <= hi,
        ensures
            whole == r@.map_values(|p: (usize, usize)| v@.subrange(p.0 as int, p.1 as int)),
            forall|i: int| 0 <= i < r@.len() ==> lo <= (#[trigger] r@[i]).0 <= r@[i].1 <= hi,
        decreases hi - start,
    {
        let ghost sub = v@.subrange(start as int, hi as int);
        let ghost before = r@.map_values(|p: (usize, usize)| v@.subrange(p.0 as int, p.1 as int));
        match range_find_char(v, start, hi, c) {
            Some(i) => {
                assert(sub.subrange(0, i as int) =~= v@.subrange(start as int, start + i));
                assert(sub.subrange(i + 1, sub.len() as int) =~= v@.subrange(start + i + 1, hi as int));
                r.push((start, start + i));
                assert(r@.map_values(|p: (usize, usize)| v@.subrange(p.0 as int, p.1 as int)) =~= before.push(
                    v@.subrange(start as int, start + i),
                ));
                assert(before + split_on(sub, c) =~= before.push(v@.subrange(start as int, start + i))
                    + split_on(v@.subrange(start + i + 1, hi as int), c));
                start = start + i + 1;
            },
            None => {
                r.push((start, hi));
                assert(r@.map_values(|p: (usize, usize)| v@.subrange(p.0 as int, p.1 as int)) =~= before.push(
                    sub,
                ));
                assert(before + split_on(sub, c) =~= before.push(sub));
                break;
            },
        }
    }
    assert forall|i: int| 0 <= i < r@.len() implies v@.subrange((#[trigger] r@[i]).0 as int, r@[i].1 as int)
        == whole[i] by {
        assert(whole[i] == r@.map_values(|p: (usize, usize)| v@.subrange(p.0 as int, p.1 as int))[i]);
    }
    r
}

/// `call_arg_var(v[a..b], func)`.
fn call_arg_var_range(v: &Vec<char>, a: usize, b: usize, func: &str) -> (r: Option<u8>)
    requires
        a <= b <= v@.len(),
    ensures
        r == call_arg_var(v@.subrange(a as int, b as int), func@),
{
    let ghost t = v@.subrange(a as int, b as int);
    let idx = match range_find_upper(v, a, b, func) {
        Some(i) => i,
        None => {
            return None;
        },
    };
    proof {
        crate::text::lemma_find_from_occurs(upper_seq(t), func@, 0);
    }
    let n = func.unicode_len();
    let s = a + idx + n;
    let ghost after = t.subrange(idx + func@.len(), t.len() as int);
    assert(after =~= v@.subrange(s as int, b as int));
    let o = match range_find_char(v, s, b, '(') {
        Some(o) => o,
        None => {
            return None;
        },
    };
    let c = match range_find_char(v, s, b, ')') {
        Some(c) => c,
        None => {
            return None;
        },
    };
    if c > o {
        let (x, y) = trim_range(v, s + o + 1, s + c);
        assert(after.subrange(o + 1, c as int) =~= v@.subrange(s + o + 1, s + c));
        single_var_range(v, x, y)
    } else {
        None
    }
}

/// `quoted(v[a..b])`, as a range of `v`.
fn quoted_range(v: &Vec<char>, a: usize, b: usize) -> (r: Option<(usize, usize)>)
    requires
        a <= b <= v@.len(),
    ensures
        match r {
            Some((x, y)) => a <= x <= y <= b && quoted(v@.subrange(a as int, b as int)) == Some(
                v@.subrange(x as int, y as int),
            ),
            None => quoted(v@.subrange(a as int, b as int)) is None,
        },
{
    let ghost t = v@.subrange(a as int, b as int);
    let st = match range_find_char(v, a, b, '"') {
        Some(i) => i,
        None => {
            return None;
        },
    };
    assert(t.subrange(st + 1, t.len() as int) =~= v@.subrange(a + st + 1, b as int));
    let e = match range_find_char(v, a + st + 1, b, '"') {
        Some(e) => e,
        None => {
            return None;
        },
    };
    assert(t.subrange(st + 1, st + 1 + e) =~= v@.subrange(a + st + 1, a + st + 1 + e));
    Some((a + st + 1, a + st + 1 + e))
}

/// `string_and_args(v[a..b])`, as two ranges of `v`.
fn string_and_args_range(v: &Vec<char>, a: usize, b: usize) -> (r: Option<(usize, usize, usize, usize)>)
    requires
        a <= b <= v@.len(),
    ensures
        match r {
            Some((x, y, p, q)) => a <= x <= y <= b && a <= p <= q <= b && string_and_args(
                v@.subrange(a as int, b as int),
            ) == Some((v@.subrange(x as int, y as int), v@.subrange(p as int, q as int))),
            None => string_and_args(v@.subrange(a as int, b as int)) is None,
        },
{
    let ghost t = v@.subrange(a as int, b as int);
    let st = match range_find_char(v, a, b, '"') {
        Some(i) => i,
        None => {
            return None;
        },
    };
    assert(t.subrange(st + 1, t.len() as int) =~= v@.subrange(a + st + 1, b as int));
    let e = match range_find_char(v, a + st + 1, b, '"') {
        Some(e) => e,
        None => {
            return None;
        },
    };
    assert(t.subrange(st + 1, st + 1 + e) =~= v@.subrange(a + st + 1, a + st + 1 + e));
    assert(t.subrange(st + 1 + e + 1, t.len() as int) =~= v@.subrange(a + st + 1 + e + 1, b as int));
    let (p, q) = trim_range(v, a + st + 1 + e + 1, b);
    let ghost rest = v@.subrange(p as int, q as int);
    if p < q && v[p] == ',' {
        assert(rest.subrange(1, rest.len() as int) =~= v@.subrange(p + 1, q as int));
        let (p2, q2) = trim_range(v, p + 1, q);
        Some((a + st + 1, a + st + 1 + e, p2, q2))
    } else {
        Some((a + st + 1, a + st + 1 + e, p, q))
    }
}

/// `cond_try(v[a..b], sym, op)`.
fn cond_try_range(v: &Vec<char>, a: usize, b: usize, sym: &str, op: CondOp) -> (r: Option<(Expr, CondOp, Expr)>)
    requires
        a <= b <= v@.len(),
    ensures
        r == cond_try(v@.subrange(a as int, b as int), sym@, op),
{
    let ghost t = v@.subrange(a as int, b as int);
    match range_find(v, a, b, sym) {
        Some(idx) => {
            proof {
                crate::text::lemma_find_from_occurs(t, sym@, 0);
            }
            let n = sym.unicode_len();
            assert(t.subrange(0, idx as int) =~= v@.subrange(a as int, a + idx));
            assert(t.subrange(idx + n, t.len() as int) =~= v@.subrange(a + idx + n, b as int));
            let l = parse_trimmed(v, a, a + idx);
            let r = parse_trimmed(v, a + idx + n, b);
            match (l, r) {
                (Some(x), Some(y)) => Some((x, op, y)),
                _ => None,
            }
        },
        None => None,
    }
}

/// `condition(v[a..b])`.
fn condition_range(v: &Vec<char>, a: usize, b: usize) -> (r: Option<(Expr, CondOp, Expr)>)
    requires
        a <= b <= v@.len(),
    ensures
        r == condition(v@.subrange(a as int, b as int)),
{
    let r = cond_try_range(v, a, b, "<=", CondOp::Le);
    if r.is_some() {
        return r;
    }
    let r = cond_try_range(v, a, b, ">=", CondOp::Ge);
    if r.is_some() {
        return r;
    }
    let r = cond_try_range(v, a, b, "<>", CondOp::Ne);
    if r.is_some() {
        return r;
    }
    let r = cond_try_range(v, a, b, "=", CondOp::Eq);
    if r.is_some() {
        return r;
    }
    let r = cond_try_range(v, a, b, "<", CondOp::Lt);
    if r.is_some() {
        return r;
    }
    cond_try_range(v, a, b, ">", CondOp::Gt)
}

/// The number of UTF-8 bytes of `c`.
fn char_width(c: char) -> (r: usize)
    ensures
        r == cw(c),
        1 <= r <= 4,
{
    let x = c as u32;
    if x < 0x80 {
        1
    } else if x < 0x800 {
        2
    } else if x < 0x10000 {
        3
    } else {
        4
    }
}

proof fn lemma_utf8_len_push(s: Seq<char>, c: char)
    ensures
        utf8_len(s.push(c)) == utf8_len(s) + cw(c),
{
    assert(s.push(c).drop_last() =~= s);
}

proof fn lemma_utf8_len_bound(s: Seq<char>)
    ensures
        s.len() <= utf8_len(s) <= 4 * s.len(),
    decreases s.len(),
{
    if s.len() > 0 {
        lemma_utf8_len_bound(s.drop_last());
    }
}

/// `boundary_from(v[a..c], j, b, target)`.
fn boundary_range(v: &Vec<char>, a: usize, c: usize, j: usize, b: u128, target: u128) -> (r: bool)
    requires
        a <= c <= v@.len(),
        j <= c - a,
        target <= b + 4,
        b <= 4 * v@.len(),
    ensures
        r == boundary_from(v@.subrange(a as int, c as int), j as int, b as int, target as int),
{
    let ghost t = v@.subrange(a as int, c as int);
    let vl = v.len();
    let mut k = j;
    let mut bk = b;
    while bk < target && k < c - a
        invariant
            a <= c <= v@.len(),
            t == v@.subrange(a as int, c as int),
            j <= k <= c - a,
            b <= bk,
            target <= b + 4,
            b <= 4 * v@.len(),
            vl == v@.len(),
            bk <= b + 4 * (k - j),
            boundary_from(t, j as int, b as int, target as int) == boundary_from(t, k as int, bk as int, target as int),
        decreases c - a - k,
    {
        let w = char_width(v[a + k]);
        assert(t[k as int] == v@[a + k]);
        bk = bk + w as u128;
        k = k + 1;
    }
    bk == target
}

/// `find_else(v[a..c])`, with a found index relative to `a`.
fn find_else_range(v: &Vec<char>, a: usize, c: usize) -> (r: Option<Option<usize>>)
    requires
        a <= c <= v@.len(),
    ensures
        match r {
            None => find_else(v@.subrange(a as int, c as int)) is None,
            Some(None) => find_else(v@.subrange(a as int, c as int)) == Some(None::<int>),
            Some(Some(j)) => find_else(v@.subrange(a as int, c as int)) == Some(Some(j as int)),
        },
{
    let ghost t = v@.subrange(a as int, c as int);
    let n = c - a;
    let mut total: u128 = 0;
    let mut k: usize = 0;
    while k < n
        invariant
            a <= c <= v@.len(),
            n == c - a,
            t == v@.subrange(a as int, c as int),
            k <= n,
            total == utf8_len(t.subrange(0, k as int)),
            total <= 4 * k,
        decreases n - k,
    {
        let w = char_width(v[a + k]);
        proof {
            assert(t.subrange(0, k + 1) =~= t.subrange(0, k as int).push(t[k as int]));
            lemma_utf8_len_push(t.subrange(0, k as int), t[k as int]);
        }
        total = total + w as u128;
        k = k + 1;
    }
    assert(t.subrange(0, n as int) =~= t);
    let mut j: usize = 0;
    let mut b: u128 = 0;
    let mut q = false;
    while j < n && b + 4 <= total
        invariant
            a <= c <= v@.len(),
            n == c - a,
            t == v@.subrange(a as int, c as int),
            total == utf8_len(t),
            j <= n,
            b <= 4 * j,
            find_else(t) == else_scan(t, j as int, b as int, q, total as int),
        decreases n - j,
    {
        let ch = v[a + j];
        assert(t[j as int] == ch);
        let w = char_width(ch);
        if ch == '"' {
            q = !q;
            b = b + 1;
            j = j + 1;
        } else if q {
            b = b + w as u128;
            j = j + 1;
        } else {
            if !boundary_range(v, a, c, j, b, b + 4) {
                return None;
            }
            let kw = range_occurs_at_upper(v, a, c, "ELSE", j);
            let prev_ok = j == 0 || crate::text::char_is_ascii_ws(v[a + j - 1]);
            let next_ok = if kw {
                proof {
                    reveal_strlit("ELSE");
                }
                j + 4 == n || crate::text::char_is_ascii_ws(v[a + j + 4])
            } else {
                false
            };
            if kw && prev_ok && next_ok {
                return Some(Some(j));
            }
            if w > 1 && b + 5 <= total {
                return None;
            }
            b = b + w as u128;
            j = j + 1;
        }
    }
    Some(None)
}

// ---------------------------------------------------------------------------
// Statement parsers over a character buffer; `v[a..b]` is the trimmed statement
// ---------------------------------------------------------------------------

fn jump_range(v: &Vec<char>, a: usize, b: usize, n: usize, gosub: bool) -> (r: Statement)
    requires
        a <= b <= v@.len(),
        n <= b - a,
    ensures
        r@ == jump_stmt(v@.subrange(a as int, b as int), n as int, gosub),
{
    let ghost t = v@.subrange(a as int, b as int);
    assert(t.subrange(n as int, t.len() as int) =~= v@.subrange(a + n, b as int));
    let (x, y) = trim_range(v, a + n, b);
    match parse_expr_range(v, x, y) {
        Some(e) => if gosub {
            Statement::Gosub(e)
        } else {
            Statement::Goto(e)
        },
        None => {
            let reason = if gosub {
                reason_text("无效的 GOSUB 行号表达式: '", v, x, y)
            } else {
                reason_text("无效的 GOTO 行号表达式: '", v, x, y)
            };
            Statement::Unknown { raw: string_from_range(v, a, b), reason }
        },
    }
}

fn call_range(v: &Vec<char>, a: usize, b: usize, k: u8) -> (r: Statement)
    requires
        a <= b <= v@.len(),
        k <= 2,
    ensures
        r@ == call_stmt(v@.subrange(a as int, b as int), k as int),
{
    let var = if k == 0 {
        call_arg_var_range(v, a, b, "IRKEY")
    } else if k == 1 {
        call_arg_var_range(v, a, b, "TIME")
    } else {
        call_arg_var_range(v, a, b, "RAND")
    };
    match var {
        Some(x) => if k == 0 {
            Statement::CallIrkey(x)
        } else if k == 1 {
            Statement::CallTime(x)
        } else {
            Statement::CallRand(x)
        },
        None => {
            let reason = if k == 0 {
                String::from_str("CALL IRKEY 必须包含单变量参数，例如 CALL IRKEY(X)")
            } else if k == 1 {
                String::from_str("CALL TIME 必须包含单变量参数，例如 CALL TIME(X)")
            } else {
                String::from_str("CALL RAND 必须包含单变量参数，例如 CALL RAND(N)")
            };
            Statement::Unknown { raw: string_from_range(v, a, b), reason }
        },
    }
}

fn cursor_range(v: &Vec<char>, a: usize, b: usize) -> (r: Statement)
    requires
        a <= b <= v@.len(),
        10 <= b - a,
    ensures
        r@ == cursor_stmt(v@.subrange(a as int, b as int)),
{
    let ghost t = v@.subrange(a as int, b as int);
    assert(t.subrange(10, t.len() as int) =~= v@.subrange(a + 10, b as int));
    let (x, y) = trim_range(v, a + 10, b);
    let parts = split_comma_ranges(v, x, y);
    if parts.len() == 2 {
        let (p0, q0) = parts[0];
        let (p1, q1) = parts[1];
        let e0 = parse_trimmed(v, p0, q0);
        let e1 = parse_trimmed(v, p1, q1);
        match (e0, e1) {
            (Some(ex), Some(ey)) => {
                return Statement::DrawCursor(ex, ey);
            },
            _ => {},
        }
    }
    Statement::Unknown { raw: string_from_range(v, a, b), reason: reason_text("无效的 DRAWCURSOR 参数: '", v, x, y) }
}

fn image_range(v: &Vec<char>, a: usize, b: usize) -> (r: Statement)
    requires
        a <= b <= v@.len(),
        9 <= b - a,
    ensures
        r@ == image_stmt(v@.subrange(a as int, b as int)),
{
    let ghost t = v@.subrange(a as int, b as int);
    assert(t.subrange(9, t.len() as int) =~= v@.subrange(a + 9, b as int));
    let (x, y) = trim_range(v, a + 9, b);
    if let Some((fa, fb, pa, pb)) = string_and_args_range(v, x, y) {
        let parts = split_comma_ranges(v, pa, pb);
        if parts.len() >= 2 {
            let (p0, q0) = parts[0];
            let (p1, q1) = parts[1];
            let ex = parse_trimmed(v, p0, q0);
            let ey = parse_trimmed(v, p1, q1);
            let mode = if parts.len() >= 3 {
                let (p2, q2) = parts[2];
                match parse_trimmed(v, p2, q2) {
                    Some(m) => m,
                    None => Expr::Const(0),
                }
            } else {
                Expr::Const(0)
            };
            match (ex, ey) {
                (Some(ex), Some(ey)) => {
                    return Statement::DrawImage { file: string_from_range(v, fa, fb), x: ex, y: ey, mode };
                },
                _ => {},
            }
        }
    }
    Statement::Unknown { raw: string_from_range(v, a, b), reason: reason_text("无效的 DRAWIMAGE 参数: '", v, x, y) }
}

fn sound_range(v: &Vec<char>, a: usize, b: usize) -> (r: Statement)
    requires
        a <= b <= v@.len(),
        9 <= b - a,
    ensures
        r@ == sound_stmt(v@.subrange(a as int, b as int)),
{
    let ghost t = v@.subrange(a as int, b as int);
    assert(t.subrange(9, t.len() as int) =~= v@.subrange(a + 9, b as int));
    let (x, y) = trim_range(v, a + 9, b);
    match quoted_range(v, x, y) {
        Some((p, q)) => Statement::PlaySound(string_from_range(v, p, q)),
        None => Statement::Unknown {
            raw: string_from_range(v, a, b),
            reason: reason_text("PLAYSOUND 必须包含带双引号的音频文件名: '", v, x, y),
        },
    }
}

/// `trim_quotes(v[a..b])`, as a range.
fn trim_quotes_range(v: &Vec<char>, a: usize, b: usize) -> (r: (usize, usize))
    requires
        a <= b <= v@.len(),
    ensures
        a <= r.0 <= r.1 <= b,
        v@.subrange(r.0 as int, r.1 as int) == trim_quotes(v@.subrange(a as int, b as int)),
{
    let mut i = a;
    while i < b && v[i] == '"'
        invariant
            a <= i <= b <= v@.len(),
            crate::text::trim_start_by(v@.subrange(i as int, b as int), |c: char| c == '"')
                == crate::text::trim_start_by(v@.subrange(a as int, b as int), |c: char| c == '"'),
        decreases b - i,
    {
        assert(v@.subrange(i as int, b as int).drop_first() =~= v@.subrange(i + 1, b as int));
        i += 1;
    }
    let mut j = b;
    while j > i && v[j - 1] == '"'
        invariant
            a <= i <= j <= b <= v@.len(),
            crate::text::trim_end_by(v@.subrange(i as int, j as int), |c: char| c == '"')
                == crate::text::trim_end_by(v@.subrange(i as int, b as int), |c: char| c == '"'),
        decreases j - i,
    {
        assert(v@.subrange(i as int, j as int).drop_last() =~= v@.subrange(i as int, j - 1));
        j -= 1;
    }
    (i, j)
}

/// The frame expression in `parts[i]`, 0 where absent or unreadable.
fn frame_range(v: &Vec<char>, parts: &Vec<(usize, usize)>, i: usize) -> (r: Expr)
    requires
        forall|k: int| 0 <= k < parts@.len() ==> (#[trigger] parts@[k]).0 <= parts@[k].1 <= v@.len(),
    ensures
        r == frame_arg(parts@.map_values(|p: (usize, usize)| v@.subrange(p.0 as int, p.1 as int)), i as int),
{
    let ghost ps = parts@.map_values(|p: (usize, usize)| v@.subrange(p.0 as int, p.1 as int));
    if parts.len() > i {
        let (p, q) = parts[i];
        assert(ps[i as int] == v@.subrange(p as int, q as int));
        match parse_trimmed(v, p, q) {
            Some(e) => e,
            None => Expr::Const(0),
        }
    } else {
        Expr::Const(0)
    }
}

fn video_range(v: &Vec<char>, a: usize, b: usize) -> (r: Statement)
    requires
        a <= b <= v@.len(),
        9 <= b - a,
    ensures
        r@ == video_stmt(v@.subrange(a as int, b as int)),
{
    let ghost t = v@.subrange(a as int, b as int);
    assert(t.subrange(9, t.len() as int) =~= v@.subrange(a + 9, b as int));
    let (x, y) = trim_range(v, a + 9, b);
    match string_and_args_range(v, x, y) {
        Some((fa, fb, pa, pb)) => {
            let parts = split_comma_ranges(v, pa, pb);
            let ghost ps = parts@.map_values(|p: (usize, usize)| v@.subrange(p.0 as int, p.1 as int));
            assert(ps =~= split_comma(v@.subrange(pa as int, pb as int))) by {
                assert forall|k: int| 0 <= k < ps.len() implies ps[k] == split_comma(
                    v@.subrange(pa as int, pb as int),
                )[k] by {
                    assert(parts@[k] == parts@[k]);
                }
            }
            let start_frame = frame_range(v, &parts, 0);
            let end_frame = frame_range(v, &parts, 1);
            let exit_page = if parts.len() >= 3 {
                let (p2, q2) = parts[2];
                let (c, d) = trim_range(v, p2, q2);
                match quoted_range(v, c, d) {
                    Some((e, f)) => Some(string_from_range(v, e, f)),
                    None => if c < d {
                        let (e, f) = trim_quotes_range(v, c, d);
                        Some(string_from_range(v, e, f))
                    } else {
                        None
                    },
                }
            } else {
                None
            };
            Statement::PlayVideo { file: string_from_range(v, fa, fb), start_frame, end_frame, exit_page }
        },
        None => Statement::Unknown {
            raw: string_from_range(v, a, b),
            reason: reason_text("无效的 PLAYVIDEO 参数: '", v, x, y),
        },
    }
}

/// The trimmed text after the first upper-cased occurrence of `kw`, as a range.
fn after_kw_range(v: &Vec<char>, a: usize, b: usize, kw: &str) -> (r: (usize, usize))
    requires
        a <= b <= v@.len(),
        up_has(v@.subrange(a as int, b as int), kw@),
    ensures
        a <= r.0 <= r.1 <= b,
        v@.subrange(r.0 as int, r.1 as int) == after_kw(v@.subrange(a as int, b as int), kw@),
{
    let ghost t = v@.subrange(a as int, b as int);
    let idx = match range_find_upper(v, a, b, kw) {
        Some(i) => i,
        None => 0,
    };
    proof {
        crate::text::lemma_find_from_occurs(upper_seq(t), kw@, 0);
    }
    let n = kw.unicode_len();
    assert(t.subrange(idx + n, t.len() as int) =~= v@.subrange(a + idx + n, b as int));
    trim_range(v, a + idx + n, b)
}

fn karaoke_range(v: &Vec<char>, a: usize, b: usize) -> (r: Option<Statement>)
    requires
        a <= b <= v@.len(),
    ensures
        match r {
            Some(x) => karaoke_stmt(v@.subrange(a as int, b as int)) == Some(x@),
            None => karaoke_stmt(v@.subrange(a as int, b as int)) is None,
        },
{
    if range_find_upper(v, a, b, "PLAY").is_some() {
        return Some(Statement::KaraokePlay);
    }
    if range_find_upper(v, a, b, "GET").is_some() {
        let (x, y) = after_kw_range(v, a, b, "GET");
        let parts = split_comma_ranges(v, x, y);
        if parts.len() == 2 {
            let (p0, q0) = parts[0];
            let (p1, q1) = parts[1];
            let (c1, d1) = trim_range(v, p1, q1);
            if let Some(var) = single_var_range(v, c1, d1) {
                if let Some(e) = parse_trimmed(v, p0, q0) {
                    return Some(Statement::KaraokeGet { index: e, target_var: var });
                }
            }
        }
        return Some(
            Statement::Unknown {
                raw: string_from_range(v, a, b),
                reason: reason_text("无效的 KARAOKE GET 参数: '", v, x, y),
            },
        );
    }
    if range_find_upper(v, a, b, "DEL").is_some() {
        let (x, y) = after_kw_range(v, a, b, "DEL");
        return match parse_expr_range(v, x, y) {
            Some(e) => Some(Statement::KaraokeDel(e)),
            None => Some(
                Statement::Unknown {
                    raw: string_from_range(v, a, b),
                    reason: reason_text("无效的 KARAOKE DEL 参数: '", v, x, y),
                },
            ),
        };
    }
    let ins = range_find_upper(v, a, b, "INS").is_some();
    if ins || range_find_upper(v, a, b, "SET").is_some() {
        let (x, y) = if ins {
            after_kw_range(v, a, b, "INS")
        } else {
            after_kw_range(v, a, b, "SET")
        };
        let parts = split_comma_ranges(v, x, y);
        if parts.len() == 2 {
            let (p0, q0) = parts[0];
            let (p1, q1) = parts[1];
            let e0 = parse_trimmed(v, p0, q0);
            let e1 = parse_trimmed(v, p1, q1);
            match (e0, e1) {
                (Some(ea), Some(eb)) => {
                    return Some(
                        if ins {
                            Statement::KaraokeIns(ea, eb)
                        } else {
                            Statement::KaraokeSet(ea, eb)
                        },
                    );
                },
                _ => {},
            }
        }
        let reason = if ins {
            reason_text("无效的 KARAOKE INS 参数: '", v, x, y)
        } else {
            reason_text("无效的 KARAOKE SET 参数: '", v, x, y)
        };
        return Some(Statement::Unknown { raw: string_from_range(v, a, b), reason });
    }
    None
}

fn for_range(v: &Vec<char>, a: usize, b: usize) -> (r: Option<Statement>)
    requires
        a <= b <= v@.len(),
        up_starts(v@.subrange(a as int, b as int), "FOR"@),
        up_has(v@.subrange(a as int, b as int), "TO"@),
        find_char(upper_seq(v@.subrange(a as int, b as int)), '=') is Some,
    ensures
        match r {
            Some(x) => for_stmt(v@.subrange(a as int, b as int)) == Some(x@),
            None => for_stmt(v@.subrange(a as int, b as int)) is None,
        },
{
    let ghost t = v@.subrange(a as int, b as int);
    let ghost u = upper_seq(t);
    let eq = match range_find_char_upper(v, a, b, '=') {
        Some(i) => i,
        None => 0,
    };
    let to = match range_find_upper(v, a, b, "TO") {
        Some(i) => i,
        None => 0,
    };
    proof {
        crate::text::lemma_find_char_at(u, '=');
        crate::text::lemma_find_from_occurs(u, "TO"@, 0);
        reveal_strlit("FOR");
        reveal_strlit("TO");
        assert(u.subrange(0, 3) == "FOR"@);
        assert(u.subrange(0, 3)[0] == u[0] && u.subrange(0, 3)[1] == u[1] && u.subrange(0, 3)[2] == u[2]);
        assert(eq >= 3);
    }
    if to < eq + 1 {
        return None;
    }
    assert(t.subrange(3, eq as int) =~= v@.subrange(a + 3, a + eq));
    assert(t.subrange(eq + 1, to as int) =~= v@.subrange(a + eq + 1, a + to));
    assert(t.subrange(to + 2, t.len() as int) =~= v@.subrange(a + to + 2, b as int));
    let (vx, vy) = trim_range(v, a + 3, a + eq);
    let (sx, sy) = trim_range(v, a + eq + 1, a + to);
    let (ex, ey) = trim_range(v, a + to + 2, b);
    if let Some(var) = single_var_range(v, vx, vy) {
        let st = parse_expr_range(v, sx, sy);
        let en = parse_expr_range(v, ex, ey);
        match (st, en) {
            (Some(s1), Some(e1)) => {
                return Some(Statement::ForTo { var, start: s1, end: e1 });
            },
            _ => {},
        }
    }
    Some(Statement::Unknown { raw: string_from_range(v, a, b), reason: reason_text("无法解析 FOR 循环语句: '", v, a, b) })
}

/// `find_char(upper_seq(v[a..b]), c)`, for a character `upper` leaves unchanged.
fn range_find_char_upper(v: &Vec<char>, a: usize, b: usize, c: char) -> (r: Option<usize>)
    requires
        a <= b <= v@.len(),
        upper(c) == c,
        !('a' <= c <= 'z'),
    ensures
        match r {
            Some(i) => find_char(upper_seq(v@.subrange(a as int, b as int)), c) == Some(i as int),
            None => find_char(upper_seq(v@.subrange(a as int, b as int)), c) is None,
        },
{
    let mut s = String::new();
    crate::text::push_char(&mut s, c);
    let r = range_find_upper(v, a, b, s.as_str());
    assert(s@ =~= seq![c]);
    r
}

fn next_range(v: &Vec<char>, a: usize, b: usize) -> (r: Statement)
    requires
        a <= b <= v@.len(),
        4 <= b - a,
    ensures
        r@ == next_stmt(v@.subrange(a as int, b as int)),
{
    let ghost t = v@.subrange(a as int, b as int);
    assert(t.subrange(4, t.len() as int) =~= v@.subrange(a + 4, b as int));
    let (x, y) = trim_range(v, a + 4, b);
    match single_var_range(v, x, y) {
        Some(var) => Statement::Next(var),
        None => Statement::Next(73),
    }
}

fn assign_range(v: &Vec<char>, a: usize, b: usize) -> (r: Option<Statement>)
    requires
        a <= b <= v@.len(),
    ensures
        match r {
            Some(x) => assign_stmt(v@.subrange(a as int, b as int)) == Some(x@),
            None => assign_stmt(v@.subrange(a as int, b as int)) is None,
        },
{
    let ghost t = v@.subrange(a as int, b as int);
    let eq = match range_find_char(v, a, b, '=') {
        Some(i) => i,
        None => {
            return None;
        },
    };
    assert(t.subrange(0, eq as int) =~= v@.subrange(a as int, a + eq));
    assert(t.subrange(eq + 1, t.len() as int) =~= v@.subrange(a + eq + 1, b as int));
    let (vx, vy) = trim_range(v, a, a + eq);
    let (ex, ey) = trim_range(v, a + eq + 1, b);
    match single_var_range(v, vx, vy) {
        Some(var) => match parse_expr_range(v, ex, ey) {
            Some(e) => Some(Statement::Assign(var, e)),
            None => Some(
                Statement::Unknown {
                    raw: string_from_range(v, a, b),
                    reason: reason_text("无效的赋值表达式: '", v, ex, ey),
                },
            ),
        },
        None => None,
    }
}

proof fn lemma_else_scan_found(s: Seq<char>, j: int, b: int, q: bool, total: int)
    ensures
        else_scan(s, j, b, q, total) matches Some(Some(k)) ==> 0 <= k && k + 4 <= s.len(),
    decreases s.len() - j,
{
    reveal_strlit("ELSE");
    if !(j < 0 || j >= s.len() || b + 4 > total) {
        if s[j] == '"' {
            lemma_else_scan_found(s, j + 1, b + 1, !q, total);
        } else if q {
            lemma_else_scan_found(s, j + 1, b + cw(s[j]), q, total);
        } else {
            lemma_else_scan_found(s, j + 1, b + cw(s[j]), q, total);
        }
    }
}

/// An `IF` branch in `v[x..y]`.
fn branch_range(v: &Vec<char>, x: usize, y: usize) -> (r: Option<Statement>)
    requires
        x <= y <= v@.len(),
    ensures
        match r {
            Some(st) => branch_spec(v@.subrange(x as int, y as int)) == Some(st@),
            None => branch_spec(v@.subrange(x as int, y as int)) is None,
        },
    decreases y - x, 5int,
{
    let (bx, by) = trim_range(v, x, y);
    match range_parse_u32(v, bx, by) {
        Some(n) => Some(Statement::Goto(Expr::Const(n as i32))),
        None => parse_stmt_range(v, bx, by),
    }
}

/// An `IF` statement in the trimmed range `v[a..b]`.
#[verifier::rlimit(100)]
#[verifier::spinoff_prover]
fn if_range(v: &Vec<char>, a: usize, b: usize) -> (r: Option<Statement>)
    requires
        a <= b <= v@.len(),
        up_starts(v@.subrange(a as int, b as int), "IF"@),
        up_has(v@.subrange(a as int, b as int), "THEN"@),
    ensures
        match r {
            Some(x) => if_stmt(v@.subrange(a as int, b as int)) == Some(x@),
            None => if_stmt(v@.subrange(a as int, b as int)) is None,
        },
    decreases b - a, 0int,
{
    let ghost t = v@.subrange(a as int, b as int);
    let ghost u = upper_seq(t);
    let tp = match range_find_upper(v, a, b, "THEN") {
        Some(i) => i,
        None => 0,
    };
    proof {
        crate::text::lemma_find_from_occurs(u, "THEN"@, 0);
        reveal_strlit("THEN");
        reveal_strlit("IF");
        assert(u.subrange(0, 2) == "IF"@);
        assert(u.subrange(0, 2)[0] == u[0] && u.subrange(0, 2)[1] == u[1]);
        assert(u.subrange(tp as int, tp + 4)[0] == u[tp as int]);
        assert(u.subrange(tp as int, tp + 4)[1] == u[tp + 1]);
        assert(tp >= 2);
    }
    assert(t.subrange(2, tp as int) =~= v@.subrange(a + 2, a + tp));
    assert(t.subrange(tp + 4, t.len() as int) =~= v@.subrange(a + tp + 4, b as int));
    let (cx, cy) = trim_range(v, a + 2, a + tp);
    let (x, y) = trim_range(v, a + tp + 4, b);
    let ghost after = v@.subrange(x as int, y as int);
    let e = match find_else_range(v, x, y) {
        Some(e) => e,
        None => {
            return None;
        },
    };
    proof {
        lemma_else_scan_found(after, 0, 0, false, utf8_len(after));
    }
    let (tx, ty, else_part) = match e {
        Some(j) => {
            assert(after.subrange(0, j as int) =~= v@.subrange(x as int, x + j));
            assert(after.subrange(j + 4, after.len() as int) =~= v@.subrange(x + j + 4, y as int));
            let (p, q) = trim_range(v, x, x + j);
            let (p2, q2) = trim_range(v, x + j + 4, y);
            (p, q, Some((p2, q2)))
        },
        None => (x, y, None),
    };
    match condition_range(v, cx, cy) {
        None => Some(
            Statement::Unknown {
                raw: string_from_range(v, a, b),
                reason: reason_text("无法解析 IF 条件表达式: '", v, cx, cy),
            },
        ),
        Some((l, op, r)) => {
            let ts = match branch_range(v, tx, ty) {
                Some(x) => x,
                None => {
                    return None;
                },
            };
            match else_part {
                None => Some(Statement::IfThen { lhs: l, op, rhs: r, then_stmt: Box::new(ts), else_stmt: None }),
                Some((p2, q2)) => {
                    let es = match branch_range(v, p2, q2) {
                        Some(x) => x,
                        None => {
                            return None;
                        },
                    };
                    Some(
                        Statement::IfThen {
                            lhs: l,
                            op,
                            rhs: r,
                            then_stmt: Box::new(ts),
                            else_stmt: Some(Box::new(es)),
                        },
                    )
                },
            }
        },
    }
}

/// `upper_seq(t) == p` for a text of `p`'s length that holds `p` upper-cased.
proof fn lemma_upper_is(t: Seq<char>, p: Seq<char>)
    requires
        t.len() == p.len(),
        occurs_at_upper(t, p, 0),
    ensures
        upper_seq(t) == p,
{
    assert(upper_seq(t).subrange(0, p.len() as int) =~= upper_seq(t));
}

/// The statement in `v[lo..hi]` (`parse_stmt_spec`).
fn parse_stmt_range(v: &Vec<char>, lo: usize, hi: usize) -> (r: Option<Statement>)
    requires
        lo <= hi <= v@.len(),
    ensures
        match r {
            Some(x) => parse_stmt_spec(v@.subrange(lo as int, hi as int)) == Some(x@),
            None => parse_stmt_spec(v@.subrange(lo as int, hi as int)) is None,
        },
    decreases hi - lo, 4int,
{
    let (a, b) = trim_range(v, lo, hi);
    if a == b {
        return Some(Statement::Rem(String::new()));
    }
    stmt_of_range(v, a, b)
}

fn stmt_of_range(v: &Vec<char>, a: usize, b: usize) -> (r: Option<Statement>)
    requires
        a <= b <= v@.len(),
    ensures
        match r {
            Some(x) => stmt_of(v@.subrange(a as int, b as int)) == Some(x@),
            None => stmt_of(v@.subrange(a as int, b as int)) is None,
        },
    decreases b - a, 3int,
{
    let ghost t = v@.subrange(a as int, b as int);
    let n = b - a;
    proof {
        reveal_strlit("REM");
        reveal_strlit("END");
        reveal_strlit("RETURN");
        reveal_strlit("GOTO");
        reveal_strlit("GOSUB");
    }
    if n > 0 && v[a] == '\'' {
        assert(t.subrange(1, t.len() as int) =~= v@.subrange(a + 1, b as int));
        let (x, y) = trim_range(v, a + 1, b);
        return Some(Statement::Rem(string_from_range(v, x, y)));
    }
    if range_occurs_at_upper(v, a, b, "REM", 0) && (n == 3 || crate::text::char_is_ws(v[a + 3])
        || v[a + 3] == ':') {
        assert(t.subrange(3, t.len() as int) =~= v@.subrange(a + 3, b as int));
        let (x, y) = trim_range(v, a + 3, b);
        return Some(Statement::Rem(string_from_range(v, x, y)));
    }
    if n == 3 && range_occurs_at_upper(v, a, b, "END", 0) {
        proof {
            lemma_upper_is(t, "END"@);
        }
        return Some(Statement::End);
    }
    proof {
        if upper_seq(t) == "END"@ {
            assert(upper_seq(t).subrange(0, 3) =~= upper_seq(t));
        }
    }
    if n == 6 && range_occurs_at_upper(v, a, b, "RETURN", 0) {
        proof {
            lemma_upper_is(t, "RETURN"@);
        }
        return Some(Statement::Return);
    }
    proof {
        if upper_seq(t) == "RETURN"@ {
            assert(upper_seq(t).subrange(0, 6) =~= upper_seq(t));
        }
    }
    if range_occurs_at_upper(v, a, b, "GOTO", 0) && (n == 4 || crate::text::char_is_ws(v[a + 4])) {
        return Some(jump_range(v, a, b, 4, false));
    }
    if range_occurs_at_upper(v, a, b, "GOSUB", 0) && (n == 5 || crate::text::char_is_ws(v[a + 5])) {
        return Some(jump_range(v, a, b, 5, true));
    }
    stmt_cmd_range(v, a, b)
}

fn stmt_cmd_range(v: &Vec<char>, a: usize, b: usize) -> (r: Option<Statement>)
    requires
        a <= b <= v@.len(),
    ensures
        match r {
            Some(x) => stmt_cmd(v@.subrange(a as int, b as int)) == Some(x@),
            None => stmt_cmd(v@.subrange(a as int, b as int)) is None,
        },
    decreases b - a, 2int,
{
    proof {
        reveal_strlit("DRAWCURSOR");
        reveal_strlit("DRAWIMAGE");
        reveal_strlit("DRAWIMGAE");
        reveal_strlit("PLAYSOUND");
        reveal_strlit("PLAYVIDEO");
    }
    let call = range_occurs_at_upper(v, a, b, "CALL", 0);
    if call && range_find_upper(v, a, b, "IRKEY").is_some() {
        return Some(call_range(v, a, b, 0));
    }
    if call && range_find_upper(v, a, b, "TIME").is_some() {
        return Some(call_range(v, a, b, 1));
    }
    if call && range_find_upper(v, a, b, "RAND").is_some() {
        return Some(call_range(v, a, b, 2));
    }
    if range_occurs_at_upper(v, a, b, "DRAWCURSOR", 0) {
        return Some(cursor_range(v, a, b));
    }
    if range_occurs_at_upper(v, a, b, "DRAWIMAGE", 0) || range_occurs_at_upper(v, a, b, "DRAWIMGAE", 0) {
        return Some(image_range(v, a, b));
    }
    if range_occurs_at_upper(v, a, b, "PLAYSOUND", 0) {
        return Some(sound_range(v, a, b));
    }
    if range_occurs_at_upper(v, a, b, "PLAYVIDEO", 0) {
        return Some(video_range(v, a, b));
    }
    stmt_flow_range(v, a, b)
}

fn stmt_flow_range(v: &Vec<char>, a: usize, b: usize) -> (r: Option<Statement>)
    requires
        a <= b <= v@.len(),
    ensures
        match r {
            Some(x) => stmt_flow(v@.subrange(a as int, b as int)) == Some(x@),
            None => stmt_flow(v@.subrange(a as int, b as int)) is None,
        },
    decreases b - a, 1int,
{
    proof {
        reveal_strlit("NEXT");
    }
    if range_occurs_at_upper(v, a, b, "KARAOKE", 0) || range_occurs_at_upper(v, a, b, "KRAROKE", 0)
        || range_occurs_at_upper(v, a, b, "KRARAOKE", 0) {
        if let Some(st) = karaoke_range(v, a, b) {
            return Some(st);
        }
    }
    if range_occurs_at_upper(v, a, b, "IF", 0) && range_find_upper(v, a, b, "THEN").is_some() {
        return if_range(v, a, b);
    }
    if range_occurs_at_upper(v, a, b, "FOR", 0) && range_find_upper(v, a, b, "TO").is_some()
        && range_find_char_upper(v, a, b, '=').is_some() {
        return for_range(v, a, b);
    }
    if range_occurs_at_upper(v, a, b, "NEXT", 0) {
        return Some(next_range(v, a, b));
    }
    if let Some(st) = assign_range(v, a, b) {
        return Some(st);
    }
    Some(Statement::Unknown { raw: string_from_range(v, a, b), reason: reason_text("未识别的 VCDSCRIPT 指令: '", v, a, b) })
}

/// Parses one statement.
pub fn parse_single_statement(s: &str) -> (r: Statement)
    requires
        parse_stmt_spec(s@) is Some,
    ensures
        Some(r@) == parse_stmt_spec(s@),
{
    let v = chars_of(s);
    assert(v@.subrange(0, v@.len() as int) =~= v@);
    match parse_stmt_range(&v, 0, v.len()) {
        Some(st) => st,
        None => Statement::End,
    }
}

// ---------------------------------------------------------------------------
// Lines and programs
// ---------------------------------------------------------------------------

/// A trimmed piece of a line, kept when not empty.
pub open spec fn piece(s: Seq<char>) -> Seq<Seq<char>> {
    let t = trim(s);
    if t.len() > 0 {
        seq![t]
    } else {
        seq![]
    }
}

/// Prepends `p` to the pieces of a split that does not fail.
pub open spec fn join(p: Seq<Seq<char>>, r: Option<Seq<Seq<char>>>) -> Option<Seq<Seq<char>>> {
    match r {
        Some(x) => Some(p + x),
        None => None,
    }
}

/// An ASCII whitespace or `:` character.
pub open spec fn ascii_sep(c: char) -> bool {
    (c as u32) < 0x80 && (is_ws(c) || c == ':')
}

/// The statement begun at `start` is a comment, judged at character `i`.
pub open spec fn rem_at(l: Seq<char>, start: int, i: int) -> bool {
    let cur = trim_start(l.subrange(start, i + 1));
    ||| cur.len() > 0 && cur[0] == '\''
    ||| up_starts(cur, "REM"@) && (if cur.len() == 3 {
        i + 1 >= l.len() || ascii_sep(l[i + 1])
    } else {
        is_ws(cur[3]) || cur[3] == ':'
    })
}

/// The statements of a line, split at `:` outside quotes up to a comment,
/// scanning from character `i` with the current statement begun at `start`
/// and `q` telling whether the scan is inside quotes. `None` where the
/// split would cut through a non-ASCII character outside quotes.
pub open spec fn split_scan(l: Seq<char>, i: int, start: int, q: bool) -> Option<Seq<Seq<char>>>
    decreases l.len() - i,
{
    if i < 0 || start < 0 || start > i || i >= l.len() {
        if 0 <= start <= l.len() {
            Some(piece(l.subrange(start, l.len() as int)))
        } else {
            Some(seq![])
        }
    } else if l[i] == '"' {
        split_scan(l, i + 1, start, !q)
    } else if q {
        split_scan(l, i + 1, start, q)
    } else if (l[i] as u32) >= 0x80 {
        None
    } else if rem_at(l, start, i) {
        Some(piece(l.subrange(start, l.len() as int)))
    } else if l[i] == ':' {
        join(piece(l.subrange(start, i)), split_scan(l, i + 1, i + 1, q))
    } else {
        split_scan(l, i + 1, start, q)
    }
}

/// The statements of a line.
pub open spec fn split_statements(l: Seq<char>) -> Option<Seq<Seq<char>>> {
    split_scan(l, 0, 0, false)
}

/// The end of the run of ASCII digits that starts at `k`.
pub open spec fn digits_end(t: Seq<char>, k: int) -> int
    decreases t.len() - k,
{
    if 0 <= k < t.len() && is_digit(t[k]) {
        digits_end(t, k + 1)
    } else {
        k
    }
}

/// The line number and statement text of a line: its leading number, else
/// the previous number plus one (saturating) and the whole line.
pub open spec fn line_header(t: Seq<char>, last: u32) -> (u32, Seq<char>) {
    let d = digits_end(t, 0);
    if d > 0 && d <= t.len() && parse_u32(t.subrange(0, d)) is Some {
        (parse_u32(t.subrange(0, d))->Some_0, trim(t.subrange(d, t.len() as int)))
    } else {
        (if last < u32::MAX { (last + 1) as u32 } else { u32::MAX }, t)
    }
}

/// The statements of the texts `raws`; `None` where one of them has none.
pub open spec fn stmts_of(raws: Seq<Seq<char>>) -> Option<Seq<StmtView>>
    decreases raws.len(),
{
    if raws.len() == 0 {
        Some(seq![])
    } else {
        match (stmts_of(raws.drop_last()), parse_stmt_spec(raws.last())) {
            (Some(a), Some(x)) => Some(a.push(x)),
            _ => None,
        }
    }
}

/// Reading one line into the statements `m` of each line number, after line
/// number `cur`: blank lines change nothing; the statements of a number that
/// recurs are appended to the earlier ones.
pub open spec fn line_step(m: Map<u32, Seq<StmtView>>, cur: u32, line: Seq<char>) -> Option<
    (Map<u32, Seq<StmtView>>, u32),
> {
    let t = trim(line);
    if t.len() == 0 {
        Some((m, cur))
    } else {
        let (no, rest) = line_header(t, cur);
        match split_statements(rest) {
            None => None,
            Some(raws) => match stmts_of(raws) {
                None => None,
                Some(st) => if st.len() > 0 {
                    Some(
                        (
                            m.insert(
                                no,
                                if m.contains_key(no) {
                                    m[no] + st
                                } else {
                                    st
                                },
                            ),
                            no,
                        ),
                    )
                } else {
                    Some((m, no))
                },
            },
        }
    }
}

/// Reading the lines `ls` in order: the statements of each line number, and
/// the last line number read.
pub open spec fn program_fold(ls: Seq<Seq<char>>) -> Option<(Map<u32, Seq<StmtView>>, u32)>
    decreases ls.len(),
{
    if ls.len() == 0 {
        Some((Map::empty(), 0))
    } else {
        match program_fold(ls.drop_last()) {
            None => None,
            Some((m, cur)) => line_step(m, cur, ls.last()),
        }
    }
}

/// A script whose lines can all be read without slicing out of range.
pub open spec fn script_ok(src: Seq<char>) -> bool {
    program_fold(split_on(src, '\n')) is Some
}

/// The statements of each line number of a script.
pub open spec fn script_lines(src: Seq<char>) -> Map<u32, Seq<StmtView>> {
    program_fold(split_on(src, '\n'))->Some_0.0
}

/// A parsed script: the statements of each line number.
#[derive(Debug, Default, PartialEq, Eq)]
pub struct ScriptProgram {
    pub lines: BTreeMap<u32, Vec<Statement>>,
}

impl ScriptProgram {
    /// The statements of each line number, as views.
    pub open spec fn line_map(&self) -> Map<u32, Seq<StmtView>> {
        Map::new(
            |k: u32| self.lines@.contains_key(k),
            |k: u32| self.lines@[k]@.map_values(|s: Statement| s@),
        )
    }
}

/// The statement ranges of the line `v[lo..hi]` (`split_statements`).
fn split_line(v: &Vec<char>, lo: usize, hi: usize) -> (r: Option<Vec<(usize, usize)>>)
    requires
        lo <= hi <= v@.len(),
    ensures
        match r {
            Some(ps) => (forall|k: int| 0 <= k < ps@.len() ==> lo <= (#[trigger] ps@[k]).0 <= ps@[k].1 <= hi)
                && split_statements(v@.subrange(lo as int, hi as int)) == Some(
                ps@.map_values(|p: (usize, usize)| v@.subrange(p.0 as int, p.1 as int)),
            ),
            None => split_statements(v@.subrange(lo as int, hi as int)) is None,
        },
{
    let ghost l = v@.subrange(lo as int, hi as int);
    let n = hi - lo;
    let mut acc: Vec<(usize, usize)> = Vec::new();
    let mut i: usize = 0;
    let mut start: usize = 0;
    let mut q = false;
    proof {
        reveal_strlit("REM");
        assert(acc@.map_values(|p: (usize, usize)| v@.subrange(p.0 as int, p.1 as int)) =~= Seq::<
            Seq<char>,
        >::empty());
        assert(join(Seq::<Seq<char>>::empty(), split_scan(l, 0, 0, false)) == split_scan(l, 0, 0, false)) by {
            if let Some(x) = split_scan(l, 0, 0, false) {
                assert(Seq::<Seq<char>>::empty() + x =~= x);
            }
        }
    }
    while i < n
        invariant
            lo <= hi <= v@.len(),
            n == hi - lo,
            l == v@.subrange(lo as int, hi as int),
            start <= i <= n,
            forall|k: int| 0 <= k < acc@.len() ==> lo <= (#[trigger] acc@[k]).0 <= acc@[k].1 <= hi,
            split_statements(l) == join(
                acc@.map_values(|p: (usize, usize)| v@.subrange(p.0 as int, p.1 as int)),
                split_scan(l, i as int, start as int, q),
            ),
        decreases n - i,
    {
        let ghost before = acc@.map_values(|p: (usize, usize)| v@.subrange(p.0 as int, p.1 as int));
        proof {
            reveal_strlit("REM");
        }
        let c = v[lo + i];
        assert(l[i as int] == c);
        if c == '"' {
            q = !q;
        } else if !q {
            if (c as u32) >= 0x80 {
                return None;
            }
            let cs = trim_start_range(v, lo + start, lo + i + 1, &TrimKind::Whitespace);
            let ghost cur = v@.subrange(cs as int, lo + i + 1);
            assert(l.subrange(start as int, i + 1) =~= v@.subrange(lo + start, lo + i + 1));
            assert(cur == trim_start(l.subrange(start as int, i + 1)));
            let m = lo + i + 1 - cs;
            let is_rem = if m > 0 && v[cs] == '\'' {
                true
            } else if range_occurs_at_upper(v, cs, lo + i + 1, "REM", 0) {
                if m == 3 {
                    if i + 1 < n {
                        let d = v[lo + i + 1];
                        assert(l[i + 1] == d);
                        (d as u32) < 0x80 && (crate::text::char_is_ws(d) || d == ':')
                    } else {
                        true
                    }
                } else {
                    assert(cur[3] == v@[cs + 3]);
                    let d = v[cs + 3];
                    crate::text::char_is_ws(d) || d == ':'
                }
            } else {
                false
            };
            assert(is_rem == rem_at(l, start as int, i as int));
            if is_rem {
                let (a, b) = trim_range(v, lo + start, hi);
                assert(l.subrange(start as int, l.len() as int) =~= v@.subrange(lo + start, hi as int));
                if a < b {
                    acc.push((a, b));
                    assert(acc@.map_values(|p: (usize, usize)| v@.subrange(p.0 as int, p.1 as int))
                        =~= before + piece(l.subrange(start as int, l.len() as int)));
                } else {
                    assert(before + piece(l.subrange(start as int, l.len() as int)) =~= before);
                }
                return Some(acc);
            }
            if c == ':' {
                let (a, b) = trim_range(v, lo + start, lo + i);
                assert(l.subrange(start as int, i as int) =~= v@.subrange(lo + start, lo + i));
                if a < b {
                    acc.push((a, b));
                    assert(acc@.map_values(|p: (usize, usize)| v@.subrange(p.0 as int, p.1 as int))
                        =~= before + piece(l.subrange(start as int, i as int)));
                } else {
                    assert(before + piece(l.subrange(start as int, i as int)) =~= before);
                }
                proof {
                    if let Some(x) = split_scan(l, i + 1, i + 1, q) {
                        assert(before + (piece(l.subrange(start as int, i as int)) + x) =~= (before + piece(
                            l.subrange(start as int, i as int),
                        )) + x);
                    }
                }
                start = i + 1;
            }
        }
        i += 1;
    }
    let ghost before = acc@.map_values(|p: (usize, usize)| v@.subrange(p.0 as int, p.1 as int));
    let (a, b) = trim_range(v, lo + start, hi);
    assert(l.subrange(start as int, l.len() as int) =~= v@.subrange(lo + start, hi as int));
    if a < b {
        acc.push((a, b));
        assert(acc@.map_values(|p: (usize, usize)| v@.subrange(p.0 as int, p.1 as int)) =~= before
            + piece(l.subrange(start as int, l.len() as int)));
    } else {
        assert(before + piece(l.subrange(start as int, l.len() as int)) =~= before);
    }
    Some(acc)
}

/// The line number and statement range of the trimmed line `v[a..b]` (`line_header`).
fn header_range(v: &Vec<char>, a: usize, b: usize, last: u32) -> (r: (u32, usize, usize))
    requires
        a <= b <= v@.len(),
    ensures
        a <= r.1 <= r.2 <= b,
        line_header(v@.subrange(a as int, b as int), last) == (r.0, v@.subrange(r.1 as int, r.2 as int)),
{
    let ghost t = v@.subrange(a as int, b as int);
    let mut k: usize = 0;
    while k < b - a && '0' <= v[a + k] && v[a + k] <= '9'
        invariant
            a <= b <= v@.len(),
            t == v@.subrange(a as int, b as int),
            k <= b - a,
            digits_end(t, 0) == digits_end(t, k as int),
        decreases b - a - k,
    {
        assert(t[k as int] == v@[a + k]);
        k += 1;
    }
    proof {
        if k < b - a {
            assert(t[k as int] == v@[a + k]);
        }
    }
    if k > 0 {
        if let Some(num) = range_parse_u32(v, a, a + k) {
            assert(t.subrange(0, k as int) =~= v@.subrange(a as int, a + k));
            assert(t.subrange(k as int, t.len() as int) =~= v@.subrange(a + k, b as int));
            let (x, y) = trim_range(v, a + k, b);
            return (num, x, y);
        }
        assert(t.subrange(0, k as int) =~= v@.subrange(a as int, a + k));
    }
    let no = if last < u32::MAX {
        last + 1
    } else {
        u32::MAX
    };
    (no, a, b)
}

proof fn lemma_fold_prefix(ls: Seq<Seq<char>>, k: int)
    requires
        0 <= k <= ls.len(),
        program_fold(ls) is Some,
    ensures
        program_fold(ls.take(k)) is Some,
    decreases ls.len() - k,
{
    if k < ls.len() {
        lemma_fold_prefix(ls, k + 1);
        assert(ls.take(k + 1).drop_last() =~= ls.take(k));
    } else {
        assert(ls.take(k) =~= ls);
    }
}

/// The statements in the ranges `parts` of `v` (`stmts_of`).
fn parse_parts(v: &Vec<char>, parts: &Vec<(usize, usize)>) -> (r: Option<Vec<Statement>>)
    requires
        forall|i: int| 0 <= i < parts@.len() ==> (#[trigger] parts@[i]).0 <= parts@[i].1 <= v@.len(),
    ensures
        match r {
            Some(st) => stmts_of(parts@.map_values(|p: (usize, usize)| v@.subrange(p.0 as int, p.1 as int)))
                == Some(st@.map_values(|s: Statement| s@)),
            None => stmts_of(parts@.map_values(|p: (usize, usize)| v@.subrange(p.0 as int, p.1 as int))) is None,
        },
{
    let ghost raws = parts@.map_values(|p: (usize, usize)| v@.subrange(p.0 as int, p.1 as int));
    let mut stmts: Vec<Statement> = Vec::new();
    let mut j: usize = 0;
    assert(raws.take(0) =~= Seq::<Seq<char>>::empty());
    assert(stmts@.map_values(|s: Statement| s@) =~= Seq::<StmtView>::empty());
    while j < parts.len()
        invariant
            raws == parts@.map_values(|p: (usize, usize)| v@.subrange(p.0 as int, p.1 as int)),
            forall|i: int| 0 <= i < parts@.len() ==> (#[trigger] parts@[i]).0 <= parts@[i].1 <= v@.len(),
            j <= parts@.len(),
            stmts_of(raws.take(j as int)) == Some(stmts@.map_values(|s: Statement| s@)),
        decreases parts@.len() - j,
    {
        let (x, y) = parts[j];
        proof {
            assert(raws.take(j + 1).drop_last() =~= raws.take(j as int));
            assert(raws.take(j + 1).last() == raws[j as int]);
        }
        let st = match parse_stmt_range(v, x, y) {
            Some(st) => st,
            None => {
                proof {
                    lemma_stmts_none(raws, j + 1);
                }
                return None;
            },
        };
        let ghost before = stmts@.map_values(|s: Statement| s@);
        stmts.push(st);
        assert(stmts@.map_values(|s: Statement| s@) =~= before.push(st@));
        j += 1;
    }
    assert(raws.take(parts@.len() as int) =~= raws);
    Some(stmts)
}

/// Reads the line `v[p..q]` into `lines` (`line_step`), giving the new current line number.
fn add_line(v: &Vec<char>, p: usize, q: usize, cur: u32, lines: &mut BTreeMap<u32, Vec<Statement>>) -> (r: Option<u32>)
    requires
        p <= q <= v@.len(),
    ensures
        match r {
            Some(no) => line_step((ScriptProgram { lines: *old(lines) }).line_map(), cur, v@.subrange(p as int, q as int))
                == Some(((ScriptProgram { lines: *final(lines) }).line_map(), no)),
            None => line_step((ScriptProgram { lines: *old(lines) }).line_map(), cur, v@.subrange(p as int, q as int)) is None,
        },
{
    let ghost m = (ScriptProgram { lines: *lines }).line_map();
    let (a, b) = trim_range(v, p, q);
    if a == b {
        return Some(cur);
    }
    let (no, ra, rb) = header_range(v, a, b, cur);
    let parts = match split_line(v, ra, rb) {
        Some(ps) => ps,
        None => {
            return None;
        },
    };
    let ghost raws = parts@.map_values(|p: (usize, usize)| v@.subrange(p.0 as int, p.1 as int));
    let mut stmts = match parse_parts(v, &parts) {
        Some(st) => st,
        None => {
            return None;
        },
    };
    if stmts.len() > 0 {
        let ghost sv = stmts@.map_values(|s: Statement| s@);
        let mut existing = match lines.remove(&no) {
            Some(e) => e,
            None => Vec::new(),
        };
        let ghost ev = existing@.map_values(|s: Statement| s@);
        assert(m.contains_key(no) ==> ev == m[no]);
        assert(!m.contains_key(no) ==> ev =~= Seq::<StmtView>::empty());
        existing.append(&mut stmts);
        assert(existing@.map_values(|s: Statement| s@) =~= ev + sv);
        lines.insert(no, existing);
        proof {
            let newm = (ScriptProgram { lines: *lines }).line_map();
            assert(newm =~= m.insert(no, if m.contains_key(no) { m[no] + sv } else { sv }));
        }
    }
    Some(no)
}

/// A failing prefix makes the whole list fail.
proof fn lemma_stmts_none(raws: Seq<Seq<char>>, k: int)
    requires
        0 <= k <= raws.len(),
        stmts_of(raws.take(k)) is None,
    ensures
        stmts_of(raws) is None,
    decreases raws.len() - k,
{
    if k < raws.len() {
        assert(raws.take(k + 1).drop_last() =~= raws.take(k));
        lemma_stmts_none(raws, k + 1);
    } else {
        assert(raws.take(k) =~= raws);
    }
}

/// A failing prefix makes the whole fold fail.
proof fn lemma_fold_none(ls: Seq<Seq<char>>, k: int)
    requires
        0 <= k <= ls.len(),
        program_fold(ls.take(k)) is None,
    ensures
        program_fold(ls) is None,
    decreases ls.len() - k,
{
    if k < ls.len() {
        assert(ls.take(k + 1).drop_last() =~= ls.take(k));
        lemma_fold_none(ls, k + 1);
    } else {
        assert(ls.take(k) =~= ls);
    }
}

impl ScriptProgram {
    /// Parses a script; `None` exactly where `parse` is outside its domain.
    pub fn try_parse(source: &str) -> (r: Option<Self>)
        ensures
            match r {
                Some(p) => script_ok(source@) && p.line_map() == script_lines(source@),
                None => !script_ok(source@),
            },
    {
        let v = chars_of(source);
        let n = v.len();
        assert(v@.subrange(0, n as int) =~= v@);
        let ranges = split_on_ranges(&v, 0, n, '\n');
        let ghost ls = split_on(source@, '\n');
        assert(ranges@.len() == ls.len());
        let mut lines: BTreeMap<u32, Vec<Statement>> = BTreeMap::new();
        let mut cur: u32 = 0;
        let mut k: usize = 0;
        proof {
            assert(ls.take(0) =~= Seq::<Seq<char>>::empty());
            assert((ScriptProgram { lines }).line_map() =~= Map::<u32, Seq<StmtView>>::empty());
        }
        while k < ranges.len()
            invariant
                v@ == source@,
                ls == split_on(source@, '\n'),
                ranges@.len() == ls.len(),
                forall|i: int|
                    0 <= i < ranges@.len() ==> (#[trigger] ranges@[i]).0 <= ranges@[i].1 <= v@.len()
                        && v@.subrange(ranges@[i].0 as int, ranges@[i].1 as int) == ls[i],
                k <= ranges@.len(),
                program_fold(ls.take(k as int)) == Some(((ScriptProgram { lines }).line_map(), cur)),
            decreases ranges@.len() - k,
        {
            proof {
                assert(ls.take(k + 1).drop_last() =~= ls.take(k as int));
                assert(ls.take(k + 1).last() == ls[k as int]);
            }
            let (p, q) = ranges[k];
            match add_line(&v, p, q, cur, &mut lines) {
                Some(no) => {
                    cur = no;
                },
                None => {
                    proof {
                        lemma_fold_none(ls, k + 1);
                    }
                    return None;
                },
            }
            k += 1;
        }
        assert(ls.take(ls.len() as int) =~= ls);
        Some(ScriptProgram { lines })
    }

    /// Parses a script.
    pub fn parse(source: &str) -> (r: Self)
        requires
            script_ok(source@),
        ensures
            r.line_map() == script_lines(source@),
    {
        match Self::try_parse(source) {
            Some(p) => p,
            None => ScriptProgram { lines: BTreeMap::new() },
        }
    }
}

proof fn lemma_stmts_prefix(raws: Seq<Seq<char>>, k: int)
    requires
        0 <= k <= raws.len(),
        stmts_of(raws) is Some,
    ensures
        stmts_of(raws.take(k)) is Some,
        k > 0 ==> parse_stmt_spec(raws[k - 1]) is Some,
    decreases raws.len() - k,
{
    if k < raws.len() {
        lemma_stmts_prefix(raws, k + 1);
        assert(raws.take(k + 1).drop_last() =~= raws.take(k));
        assert(raws.take(k + 1).last() == raws[k]);
    } else {
        assert(raws.take(k) =~= raws);
    }
}

/// `tdiv` is division rounded toward zero, as `i32` division computes it:
/// the remainder `x - tdiv(x, d) * d` is smaller than the divisor in size
/// and, when not zero, has the sign of the dividend.
pub proof fn lemma_tdiv_truncates(x: int, d: int)
    requires
        d != 0,
    ensures
        ({
            let r = x - tdiv(x, d) * d;
            &&& (if d > 0 { -d < r < d } else { d < r < -d })
            &&& (r == 0 || (r > 0) == (x > 0))
        }),
{
    if x == 0 {
    } else if x > 0 && d > 0 {
        assert(0 <= x - (x / d) * d < d) by (nonlinear_arith)
            requires
                x > 0,
                d > 0,
        ;
    } else if x < 0 && d < 0 {
        let a = x * -1;
        let b = d * -1;
        assert(0 <= a - (a / b) * b < b) by (nonlinear_arith)
            requires
                a > 0,
                b > 0,
        ;
        assert(x - (a / b) * d == (a - (a / b) * b) * -1) by (nonlinear_arith)
            requires
                a == x * -1,
                b == d * -1,
        ;
    } else if x < 0 {
        let a = x * -1;
        assert(0 <= a - (a / d) * d < d) by (nonlinear_arith)
            requires
                a > 0,
                d > 0,
        ;
        assert(x - ((a / d) * -1) * d == (a - (a / d) * d) * -1) by (nonlinear_arith)
            requires
                a == x * -1,
        ;
    } else {
        let b = d * -1;
        assert(0 <= x - (x / b) * b < b) by (nonlinear_arith)
            requires
                x > 0,
                b > 0,
        ;
        assert(x - ((x / b) * -1) * d == x - (x / b) * b) by (nonlinear_arith)
            requires
                b == d * -1,
        ;
    }
}

/// A comparison sign: `<`, `>` or `=`.
pub open spec fn relation_sign(c: char) -> bool {
    c == '<' || c == '>' || c == '='
}

proof fn lemma_find_at_first(s: Seq<char>, p: Seq<char>, i: int, k: int)
    requires
        0 <= i <= k,
        occurs_at(s, p, k),
        forall|j: int| i <= j < k ==> !occurs_at(s, p, j),
    ensures
        crate::text::find_from(s, p, i) == Some(k),
    decreases k - i,
{
    if i < k {
        lemma_find_at_first(s, p, i + 1, k);
    }
}

proof fn lemma_find_nowhere(s: Seq<char>, p: Seq<char>, i: int)
    requires
        0 <= i,
        forall|j: int| i <= j ==> !occurs_at(s, p, j),
    ensures
        crate::text::find_from(s, p, i) is None,
    decreases s.len() - i,
{
    if i + p.len() <= s.len() && i < s.len() {
        lemma_find_nowhere(s, p, i + 1);
    }
}

/// Where a run of signs `p` occurs in `s`, whose only signs are the text `t`
/// at `n`, it lies inside `t`.
proof fn lemma_signs_inside(s: Seq<char>, p: Seq<char>, n: int, t: Seq<char>, j: int)
    requires
        p.len() >= 1,
        forall|k: int| 0 <= k < p.len() ==> relation_sign(#[trigger] p[k]),
        0 <= n,
        n + t.len() <= s.len(),
        forall|k: int| 0 <= k < t.len() ==> s[n + k] == #[trigger] t[k],
        forall|k: int| 0 <= k < s.len() && relation_sign(#[trigger] s[k]) ==> n <= k < n + t.len(),
        occurs_at(s, p, j),
    ensures
        n <= j,
        j + p.len() <= n + t.len(),
        forall|k: int| 0 <= k < p.len() ==> t[j - n + k] == #[trigger] p[k],
{
    assert(s.subrange(j, j + p.len())[0] == s[j]);
    assert(relation_sign(p[0]));
    let e = p.len() - 1;
    assert(s.subrange(j, j + p.len())[e] == s[j + e]);
    assert(relation_sign(p[e]));
    assert forall|k: int| 0 <= k < p.len() implies t[j - n + k] == #[trigger] p[k] by {
        assert(s.subrange(j, j + p.len())[k] == s[j + k]);
    }
}

proof fn lemma_occurs_chars(t: Seq<char>, p: Seq<char>, o: int)
    requires
        occurs_at(t, p, o),
    ensures
        forall|k: int| 0 <= k < p.len() ==> t[o + k] == #[trigger] p[k],
{
    assert forall|k: int| 0 <= k < p.len() implies t[o + k] == #[trigger] p[k] by {
        assert(t.subrange(o, o + p.len())[k] == t[o + k]);
    }
}

/// A run of signs `p` that is not part of `t` does not occur in `s`, whose
/// only signs are `t` at `n`.
proof fn lemma_signs_absent(s: Seq<char>, p: Seq<char>, n: int, t: Seq<char>)
    requires
        p.len() >= 1,
        forall|k: int| 0 <= k < p.len() ==> relation_sign(#[trigger] p[k]),
        0 <= n,
        n + t.len() <= s.len(),
        forall|k: int| 0 <= k < t.len() ==> s[n + k] == #[trigger] t[k],
        forall|k: int| 0 <= k < s.len() && relation_sign(#[trigger] s[k]) ==> n <= k < n + t.len(),
        forall|o: int| !#[trigger] occurs_at(t, p, o),
    ensures
        find(s, p) is None,
{
    assert forall|j: int| 0 <= j implies !occurs_at(s, p, j) by {
        if occurs_at(s, p, j) {
            lemma_signs_inside(s, p, n, t, j);
            assert(t.subrange(j - n, j - n + p.len()) =~= p);
            assert(occurs_at(t, p, j - n));
        }
    }
    lemma_find_nowhere(s, p, 0);
}

/// A comparison `L op R`, with no comparison sign in `L` or `R` and both
/// sides expressions, reads as that comparison: `<=` is at most, `>=` at
/// least, `<>` different, `=` equal, `<` less, `>` greater.
#[verifier::rlimit(60)]
#[verifier::spinoff_prover]
pub proof fn lemma_condition_operator(l: Seq<char>, tok: Seq<char>, r: Seq<char>, op: CondOp, a: Expr, b: Expr)
    requires
        (tok == "<="@ && op == CondOp::Le) || (tok == ">="@ && op == CondOp::Ge) || (tok == "<>"@ && op
            == CondOp::Ne) || (tok == "="@ && op == CondOp::Eq) || (tok == "<"@ && op == CondOp::Lt) || (tok
            == ">"@ && op == CondOp::Gt),
        forall|k: int| 0 <= k < l.len() ==> !relation_sign(#[trigger] l[k]),
        forall|k: int| 0 <= k < r.len() ==> !relation_sign(#[trigger] r[k]),
        parse_expr_spec(trim(l)) == Some(a),
        parse_expr_spec(trim(r)) == Some(b),
    ensures
        condition(l + tok + r) == Some((a, op, b)),
{
    reveal_strlit("<=");
    reveal_strlit(">=");
    reveal_strlit("<>");
    reveal_strlit("=");
    reveal_strlit("<");
    reveal_strlit(">");
    let s = l + tok + r;
    let n = l.len() as int;
    let m = tok.len() as int;
    assert forall|k: int| 0 <= k < m implies s[n + k] == #[trigger] tok[k] by {}
    assert forall|k: int| 0 <= k < m implies relation_sign(#[trigger] tok[k]) by {}
    assert forall|k: int| 0 <= k < s.len() && relation_sign(#[trigger] s[k]) implies n <= k < n + m by {
        if k < n {
            assert(s[k] == l[k]);
        } else if k >= n + m {
            assert(s[k] == r[k - n - m]);
        }
    }
    assert(s.subrange(0, n) =~= l);
    assert(s.subrange(n + m, s.len() as int) =~= r);
    assert(s.subrange(n, n + m) =~= tok);
    assert(occurs_at(s, tok, n));
    assert forall|j: int| 0 <= j < n implies !occurs_at(s, tok, j) by {
        if occurs_at(s, tok, j) {
            lemma_signs_inside(s, tok, n, tok, j);
        }
    }
    lemma_find_at_first(s, tok, 0, n);
    if tok != "<="@ {
        assert forall|o: int| !#[trigger] occurs_at(tok, "<="@, o) by {
            if occurs_at(tok, "<="@, o) {
                lemma_occurs_chars(tok, "<="@, o);
                assert(tok[o] == "<="@[0]);
                assert(tok[o + 1] == "<="@[1]);
            }
        }
        lemma_signs_absent(s, "<="@, n, tok);
    }
    if tok != ">="@ {
        assert forall|o: int| !#[trigger] occurs_at(tok, ">="@, o) by {
            if occurs_at(tok, ">="@, o) {
                lemma_occurs_chars(tok, ">="@, o);
                assert(tok[o] == ">="@[0]);
                assert(tok[o + 1] == ">="@[1]);
            }
        }
        lemma_signs_absent(s, ">="@, n, tok);
    }
    if tok != "<>"@ {
        assert forall|o: int| !#[trigger] occurs_at(tok, "<>"@, o) by {
            if occurs_at(tok, "<>"@, o) {
                lemma_occurs_chars(tok, "<>"@, o);
                assert(tok[o] == "<>"@[0]);
                assert(tok[o + 1] == "<>"@[1]);
            }
        }
        lemma_signs_absent(s, "<>"@, n, tok);
    }
    if tok == "<"@ || tok == ">"@ {
        assert forall|o: int| !#[trigger] occurs_at(tok, "="@, o) by {
            if occurs_at(tok, "="@, o) {
                lemma_occurs_chars(tok, "="@, o);
                assert(tok[o] == "="@[0]);
            }
        }
        lemma_signs_absent(s, "="@, n, tok);
    }
    if tok == ">"@ {
        assert forall|o: int| !#[trigger] occurs_at(tok, "<"@, o) by {
            if occurs_at(tok, "<"@, o) {
                lemma_occurs_chars(tok, "<"@, o);
                assert(tok[o] == "<"@[0]);
            }
        }
        lemma_signs_absent(s, "<"@, n, tok);
    }
    assert(s.subrange(n, n + m) == tok);
    assert(find(s, tok) == Some(n));
    assert(cond_try(s, tok, op) == Some((a, op, b)));
    if tok == "<="@ {
        assert(tok[0] == '<' && tok[1] == '=' && tok.len() == 2);
        assert(op == CondOp::Le);
    } else if tok == ">="@ {
        assert(tok[0] == '>' && tok[1] == '=' && tok.len() == 2);
        assert(op == CondOp::Ge);
        assert(cond_try(s, "<="@, CondOp::Le) is None);
    } else if tok == "<>"@ {
        assert(tok[0] == '<' && tok[1] == '>' && tok.len() == 2);
        assert(op == CondOp::Ne);
        assert(cond_try(s, "<="@, CondOp::Le) is None);
        assert(cond_try(s, ">="@, CondOp::Ge) is None);
    } else if tok == "="@ {
        assert(tok[0] == '=' && tok.len() == 1);
        assert(op == CondOp::Eq);
        assert(cond_try(s, "<="@, CondOp::Le) is None);
        assert(cond_try(s, ">="@, CondOp::Ge) is None);
        assert(cond_try(s, "<>"@, CondOp::Ne) is None);
    } else if tok == "<"@ {
        assert(tok[0] == '<' && tok.len() == 1);
        assert(op == CondOp::Lt);
        assert(cond_try(s, "<="@, CondOp::Le) is None);
        assert(cond_try(s, ">="@, CondOp::Ge) is None);
        assert(cond_try(s, "<>"@, CondOp::Ne) is None);
        assert(cond_try(s, "="@, CondOp::Eq) is None);
    } else {
        assert(cond_try(s, "<="@, CondOp::Le) is None);
        assert(cond_try(s, ">="@, CondOp::Ge) is None);
        assert(cond_try(s, "<>"@, CondOp::Ne) is None);
        assert(cond_try(s, "="@, CondOp::Eq) is None);
        assert(cond_try(s, "<"@, CondOp::Lt) is None);
        assert(tok == ">"@);
        assert(op == CondOp::Gt);
    }
}

} // verus!
