//! Character-level text helpers with exact specifications.
//!
//! Text is handled as sequences of `char`. Ranges into a character vector are
//! half-open `[lo, hi)` pairs of character indices.

use vstd::prelude::*;
use vstd::utf8::*;

verus! {

broadcast use vstd::string::group_string_axioms;

// ---------------------------------------------------------------------------
// Character classes
// ---------------------------------------------------------------------------

/// Unicode `White_Space`, the set that `char::is_whitespace` tests.
pub open spec fn is_ws(c: char) -> bool {
    ||| ('\u{9}' <= c && c <= '\u{d}')
    ||| c == ' '
    ||| c == '\u{85}'
    ||| c == '\u{a0}'
    ||| c == '\u{1680}'
    ||| ('\u{2000}' <= c && c <= '\u{200a}')
    ||| c == '\u{2028}'
    ||| c == '\u{2029}'
    ||| c == '\u{202f}'
    ||| c == '\u{205f}'
    ||| c == '\u{3000}'
}

/// General category `Cc`, the set that `char::is_control` tests.
pub open spec fn is_ctrl(c: char) -> bool {
    c <= '\u{1f}' || ('\u{7f}' <= c && c <= '\u{9f}')
}

/// An ASCII decimal digit.
pub open spec fn is_digit(c: char) -> bool {
    '0' <= c && c <= '9'
}

/// An ASCII letter.
pub open spec fn is_alpha(c: char) -> bool {
    ('a' <= c && c <= 'z') || ('A' <= c && c <= 'Z')
}

/// ASCII whitespace as `u8::is_ascii_whitespace` defines it.
pub open spec fn is_ascii_ws(c: char) -> bool {
    c == ' ' || c == '\t' || c == '\n' || c == '\u{c}' || c == '\r'
}

/// ASCII upper-casing of one character; other characters are unchanged.
pub open spec fn upper(c: char) -> char {
    if 'a' <= c <= 'z' {
        ((c as int) - 32) as char
    } else {
        c
    }
}

/// ASCII lower-casing of one character; other characters are unchanged.
pub open spec fn lower(c: char) -> char {
    if 'A' <= c <= 'Z' {
        ((c as int) + 32) as char
    } else {
        c
    }
}

/// ASCII upper-casing of a whole sequence.
pub open spec fn upper_seq(s: Seq<char>) -> Seq<char> {
    Seq::new(s.len(), |i: int| upper(s[i]))
}

/// Tests `char::is_whitespace`.
pub fn char_is_ws(c: char) -> (b: bool)
    ensures
        b == is_ws(c),
{
    (c >= '\u{9}' && c <= '\u{d}') || c == ' ' || c == '\u{85}' || c == '\u{a0}'
        || c == '\u{1680}' || (c >= '\u{2000}' && c <= '\u{200a}') || c == '\u{2028}'
        || c == '\u{2029}' || c == '\u{202f}' || c == '\u{205f}' || c == '\u{3000}'
}

/// Tests `char::is_control`.
pub fn char_is_ctrl(c: char) -> (b: bool)
    ensures
        b == is_ctrl(c),
{
    c <= '\u{1f}' || (c >= '\u{7f}' && c <= '\u{9f}')
}

/// Tests for an ASCII digit.
pub fn char_is_digit(c: char) -> (b: bool)
    ensures
        b == is_digit(c),
{
    c >= '0' && c <= '9'
}


/// Tests for ASCII whitespace.
pub fn char_is_ascii_ws(c: char) -> (b: bool)
    ensures
        b == is_ascii_ws(c),
{
    c == ' ' || c == '\t' || c == '\n' || c == '\u{c}' || c == '\r'
}

/// Upper-cases an ASCII letter.
pub fn char_upper(c: char) -> (r: char)
    ensures
        r == upper(c),
{
    if c >= 'a' && c <= 'z' {
        let b: u8 = c as u8;
        (b - 32) as char
    } else {
        c
    }
}

/// Lower-cases an ASCII letter.
pub fn char_lower(c: char) -> (r: char)
    ensures
        r == lower(c),
{
    if c >= 'A' && c <= 'Z' {
        let b: u8 = c as u8;
        (b + 32) as char
    } else {
        c
    }
}

// ---------------------------------------------------------------------------
// Trimming
// ---------------------------------------------------------------------------

/// Drops leading characters that satisfy `p`.
pub open spec fn trim_start_by(s: Seq<char>, p: spec_fn(char) -> bool) -> Seq<char>
    decreases s.len(),
{
    if s.len() > 0 && p(s[0]) {
        trim_start_by(s.drop_first(), p)
    } else {
        s
    }
}

/// Drops trailing characters that satisfy `p`.
pub open spec fn trim_end_by(s: Seq<char>, p: spec_fn(char) -> bool) -> Seq<char>
    decreases s.len(),
{
    if s.len() > 0 && p(s.last()) {
        trim_end_by(s.drop_last(), p)
    } else {
        s
    }
}

proof fn lemma_trim_start_by_len(s: Seq<char>, p: spec_fn(char) -> bool)
    ensures
        trim_start_by(s, p).len() <= s.len(),
    decreases s.len(),
{
    if s.len() > 0 && p(s[0]) {
        lemma_trim_start_by_len(s.drop_first(), p);
    }
}

proof fn lemma_trim_end_by_len(s: Seq<char>, p: spec_fn(char) -> bool)
    ensures
        trim_end_by(s, p).len() <= s.len(),
    decreases s.len(),
{
    if s.len() > 0 && p(s.last()) {
        lemma_trim_end_by_len(s.drop_last(), p);
    }
}

/// Trimming never lengthens a text.
pub proof fn lemma_trim_bounds(s: Seq<char>)
    ensures
        trim(s).len() <= s.len(),
        trim_start(s).len() <= s.len(),
{
    lemma_trim_start_by_len(s, |c: char| is_ws(c));
    lemma_trim_end_by_len(trim_start_by(s, |c: char| is_ws(c)), |c: char| is_ws(c));
}

proof fn lemma_trim_start_by_head(s: Seq<char>, p: spec_fn(char) -> bool)
    ensures
        trim_start_by(s, p).len() == 0 || !p(trim_start_by(s, p)[0]),
    decreases s.len(),
{
    if s.len() > 0 && p(s[0]) {
        lemma_trim_start_by_head(s.drop_first(), p);
    }
}

proof fn lemma_trim_end_by_prefix(s: Seq<char>, p: spec_fn(char) -> bool)
    ensures
        trim_end_by(s, p).len() <= s.len(),
        trim_end_by(s, p) == s.subrange(0, trim_end_by(s, p).len() as int),
        trim_end_by(s, p).len() == 0 || !p(trim_end_by(s, p).last()),
    decreases s.len(),
{
    if s.len() > 0 && p(s.last()) {
        lemma_trim_end_by_prefix(s.drop_last(), p);
        assert(s.drop_last().subrange(0, trim_end_by(s, p).len() as int) =~= s.subrange(
            0,
            trim_end_by(s, p).len() as int,
        ));
    } else {
        assert(s.subrange(0, s.len() as int) =~= s);
    }
}

/// Trimming a trimmed text changes nothing.
pub proof fn lemma_trim_idem(s: Seq<char>)
    ensures
        trim(trim(s)) == trim(s),
{
    let p = |c: char| is_ws(c);
    let x = trim_start_by(s, p);
    lemma_trim_start_by_head(s, p);
    let y = trim_end_by(x, p);
    lemma_trim_end_by_prefix(x, p);
    if y.len() > 0 {
        assert(y[0] == x[0]);
    }
    assert(trim_start_by(y, p) == y);
    lemma_trim_end_by_prefix(y, p);
    assert(trim_end_by(y, p) == y);
}

/// `str::trim`: drops leading and trailing whitespace.
pub open spec fn trim(s: Seq<char>) -> Seq<char> {
    trim_end_by(trim_start_by(s, |c: char| is_ws(c)), |c: char| is_ws(c))
}

/// `str::trim_start`.
pub open spec fn trim_start(s: Seq<char>) -> Seq<char> {
    trim_start_by(s, |c: char| is_ws(c))
}

/// Trimming control characters from both ends.
pub open spec fn trim_ctrl(s: Seq<char>) -> Seq<char> {
    trim_end_by(trim_start_by(s, |c: char| is_ctrl(c)), |c: char| is_ctrl(c))
}

/// Whitespace trim followed by control-character trim, as names on disc are cleaned.
pub open spec fn clean_name(s: Seq<char>) -> Seq<char> {
    trim_ctrl(trim(s))
}

/// Selects the character class a trim removes.
pub enum TrimKind {
    Whitespace,
    Control,
}

/// The predicate that a `TrimKind` stands for.
pub open spec fn trim_pred(k: TrimKind) -> spec_fn(char) -> bool {
    match k {
        TrimKind::Whitespace => |c: char| is_ws(c),
        TrimKind::Control => |c: char| is_ctrl(c),
    }
}

fn class_test(k: &TrimKind, c: char) -> (b: bool)
    ensures
        b == (trim_pred(*k))(c),
{
    match k {
        TrimKind::Whitespace => char_is_ws(c),
        TrimKind::Control => char_is_ctrl(c),
    }
}

/// Trims the range `[lo, hi)` of `v` at its start.
pub fn trim_start_range(v: &Vec<char>, lo: usize, hi: usize, k: &TrimKind) -> (r: usize)
    requires
        lo <= hi <= v@.len(),
    ensures
        lo <= r <= hi,
        v@.subrange(r as int, hi as int) == trim_start_by(v@.subrange(lo as int, hi as int), trim_pred(*k)),
{
    let mut i = lo;
    while i < hi && class_test(k, v[i])
        invariant
            lo <= i <= hi <= v@.len(),
            trim_start_by(v@.subrange(i as int, hi as int), trim_pred(*k)) == trim_start_by(
                v@.subrange(lo as int, hi as int),
                trim_pred(*k),
            ),
        decreases hi - i,
    {
        assert(v@.subrange(i as int, hi as int).drop_first() =~= v@.subrange(i + 1, hi as int));
        i += 1;
    }
    i
}

/// Trims the range `[lo, hi)` of `v` at its end.
pub fn trim_end_range(v: &Vec<char>, lo: usize, hi: usize, k: &TrimKind) -> (r: usize)
    requires
        lo <= hi <= v@.len(),
    ensures
        lo <= r <= hi,
        v@.subrange(lo as int, r as int) == trim_end_by(v@.subrange(lo as int, hi as int), trim_pred(*k)),
{
    let mut j = hi;
    while j > lo && class_test(k, v[j - 1])
        invariant
            lo <= j <= hi <= v@.len(),
            trim_end_by(v@.subrange(lo as int, j as int), trim_pred(*k)) == trim_end_by(
                v@.subrange(lo as int, hi as int),
                trim_pred(*k),
            ),
        decreases j - lo,
    {
        assert(v@.subrange(lo as int, j as int).drop_last() =~= v@.subrange(lo as int, j - 1));
        j -= 1;
    }
    j
}

/// `str::trim` on the range `[lo, hi)`.
pub fn trim_range(v: &Vec<char>, lo: usize, hi: usize) -> (r: (usize, usize))
    requires
        lo <= hi <= v@.len(),
    ensures
        lo <= r.0 <= r.1 <= hi,
        v@.subrange(r.0 as int, r.1 as int) == trim(v@.subrange(lo as int, hi as int)),
{
    let a = trim_start_range(v, lo, hi, &TrimKind::Whitespace);
    let b = trim_end_range(v, a, hi, &TrimKind::Whitespace);
    (a, b)
}

/// Whitespace trim then control trim on the range `[lo, hi)`.
pub fn clean_range(v: &Vec<char>, lo: usize, hi: usize) -> (r: (usize, usize))
    requires
        lo <= hi <= v@.len(),
    ensures
        lo <= r.0 <= r.1 <= hi,
        v@.subrange(r.0 as int, r.1 as int) == clean_name(v@.subrange(lo as int, hi as int)),
{
    let (a, b) = trim_range(v, lo, hi);
    let c = trim_start_range(v, a, b, &TrimKind::Control);
    let d = trim_end_range(v, c, b, &TrimKind::Control);
    (c, d)
}

// ---------------------------------------------------------------------------
// Matching
// ---------------------------------------------------------------------------

/// `p` occurs in `s` at index `i`.
pub open spec fn occurs_at(s: Seq<char>, p: Seq<char>, i: int) -> bool {
    0 <= i && i + p.len() <= s.len() && s.subrange(i, i + p.len()) == p
}

/// The first index at or after `i` where `p` occurs in `s`.
pub open spec fn find_from(s: Seq<char>, p: Seq<char>, i: int) -> Option<int>
    decreases s.len() - i,
{
    if i < 0 || i + p.len() > s.len() {
        None
    } else if occurs_at(s, p, i) {
        Some(i)
    } else if i >= s.len() {
        None
    } else {
        find_from(s, p, i + 1)
    }
}

/// A match that `find_from` reports lies in `s` at or after `i`.
pub proof fn lemma_find_from_occurs(s: Seq<char>, p: Seq<char>, i: int)
    ensures
        find_from(s, p, i) matches Some(k) ==> i <= k && occurs_at(s, p, k) && k + p.len() <= s.len(),
    decreases s.len() - i,
{
    if !(i < 0 || i + p.len() > s.len()) && !occurs_at(s, p, i) && i < s.len() {
        lemma_find_from_occurs(s, p, i + 1);
    }
}

/// A character that `find_char` reports is at that index.
pub proof fn lemma_find_char_at(s: Seq<char>, c: char)
    ensures
        find_char(s, c) matches Some(k) ==> 0 <= k < s.len() && s[k] == c,
{
    lemma_find_from_occurs(s, seq![c], 0);
    if let Some(k) = find_char(s, c) {
        assert(s.subrange(k, k + 1)[0] == s[k]);
    }
}

/// `str::find` with a string pattern, in characters.
pub open spec fn find(s: Seq<char>, p: Seq<char>) -> Option<int> {
    find_from(s, p, 0)
}

/// `str::find` with a single-character pattern, in characters.
pub open spec fn find_char(s: Seq<char>, c: char) -> Option<int> {
    find(s, seq![c])
}

/// `str::starts_with`.
pub open spec fn starts_with(s: Seq<char>, p: Seq<char>) -> bool {
    occurs_at(s, p, 0)
}

/// `str::ends_with`.
pub open spec fn ends_with(s: Seq<char>, p: Seq<char>) -> bool {
    p.len() <= s.len() && occurs_at(s, p, s.len() - p.len())
}

/// Whether `s` holds `p` at index `i`, compared after ASCII upper-casing `s`.
pub open spec fn occurs_at_upper(s: Seq<char>, p: Seq<char>, i: int) -> bool {
    occurs_at(upper_seq(s), p, i)
}

/// Whether `v[lo..hi]` holds `p` at offset `i` (relative to `lo`).
pub fn range_occurs_at(v: &Vec<char>, lo: usize, hi: usize, p: &str, i: usize) -> (b: bool)
    requires
        lo <= hi <= v@.len(),
    ensures
        b == occurs_at(v@.subrange(lo as int, hi as int), p@, i as int),
{
    let n = p.unicode_len();
    if i > hi - lo || n > hi - lo - i {
        return false;
    }
    let mut j: usize = 0;
    while j < n
        invariant
            lo <= hi <= v@.len(),
            n == p@.len(),
            i + n <= hi - lo,
            j <= n,
            forall|k: int| 0 <= k < j ==> v@[lo + i + k] == p@[k],
        decreases n - j,
    {
        if v[lo + i + j] != p.get_char(j) {
            assert(v@.subrange(lo as int, hi as int).subrange(i as int, i + n)[j as int] != p@[j as int]);
            return false;
        }
        j += 1;
    }
    assert(v@.subrange(lo as int, hi as int).subrange(i as int, i + n) =~= p@);
    true
}

/// Like `range_occurs_at`, comparing the ASCII upper-cased text of `v`.
pub fn range_occurs_at_upper(v: &Vec<char>, lo: usize, hi: usize, p: &str, i: usize) -> (b: bool)
    requires
        lo <= hi <= v@.len(),
    ensures
        b == occurs_at_upper(v@.subrange(lo as int, hi as int), p@, i as int),
{
    let ghost s = v@.subrange(lo as int, hi as int);
    let n = p.unicode_len();
    if i > hi - lo || n > hi - lo - i {
        return false;
    }
    let mut j: usize = 0;
    while j < n
        invariant
            lo <= hi <= v@.len(),
            s == v@.subrange(lo as int, hi as int),
            n == p@.len(),
            i + n <= hi - lo,
            j <= n,
            forall|k: int| 0 <= k < j ==> upper(v@[lo + i + k]) == p@[k],
        decreases n - j,
    {
        if char_upper(v[lo + i + j]) != p.get_char(j) {
            assert(upper_seq(s).subrange(i as int, i + n)[j as int] != p@[j as int]);
            return false;
        }
        j += 1;
    }
    assert(upper_seq(s).subrange(i as int, i + n) =~= p@);
    true
}

/// `str::find` on `v[lo..hi]`, giving an offset relative to `lo`.
pub fn range_find(v: &Vec<char>, lo: usize, hi: usize, p: &str) -> (r: Option<usize>)
    requires
        lo <= hi <= v@.len(),
    ensures
        match r {
            Some(i) => find(v@.subrange(lo as int, hi as int), p@) == Some(i as int),
            None => find(v@.subrange(lo as int, hi as int), p@) is None,
        },
{
    let ghost s = v@.subrange(lo as int, hi as int);
    let mut i: usize = 0;
    while i < hi - lo
        invariant
            lo <= hi <= v@.len(),
            s == v@.subrange(lo as int, hi as int),
            i <= hi - lo,
            find(s, p@) == find_from(s, p@, i as int),
        decreases hi - lo - i,
    {
        if range_occurs_at(v, lo, hi, p, i) {
            return Some(i);
        }
        proof {
            if i + p@.len() > s.len() {
                assert(find_from(s, p@, i as int) is None);
            }
        }
        i += 1;
    }
    if range_occurs_at(v, lo, hi, p, i) {
        return Some(i);
    }
    assert(find_from(s, p@, i as int + 1) is None);
    None
}

/// `str::find` on the ASCII upper-cased text of `v[lo..hi]`.
pub fn range_find_upper(v: &Vec<char>, lo: usize, hi: usize, p: &str) -> (r: Option<usize>)
    requires
        lo <= hi <= v@.len(),
    ensures
        match r {
            Some(i) => find(upper_seq(v@.subrange(lo as int, hi as int)), p@) == Some(i as int),
            None => find(upper_seq(v@.subrange(lo as int, hi as int)), p@) is None,
        },
{
    let ghost s = upper_seq(v@.subrange(lo as int, hi as int));
    let mut i: usize = 0;
    while i < hi - lo
        invariant
            lo <= hi <= v@.len(),
            s == upper_seq(v@.subrange(lo as int, hi as int)),
            i <= hi - lo,
            find(s, p@) == find_from(s, p@, i as int),
        decreases hi - lo - i,
    {
        if range_occurs_at_upper(v, lo, hi, p, i) {
            return Some(i);
        }
        proof {
            if i + p@.len() > s.len() {
                assert(find_from(s, p@, i as int) is None);
            }
        }
        i += 1;
    }
    if range_occurs_at_upper(v, lo, hi, p, i) {
        return Some(i);
    }
    assert(find_from(s, p@, i as int + 1) is None);
    None
}

/// `str::find` of one character on `v[lo..hi]`.
pub fn range_find_char(v: &Vec<char>, lo: usize, hi: usize, c: char) -> (r: Option<usize>)
    requires
        lo <= hi <= v@.len(),
    ensures
        match r {
            Some(i) => find_char(v@.subrange(lo as int, hi as int), c) == Some(i as int) && lo + i
                < hi && v@[lo + i] == c,
            None => find_char(v@.subrange(lo as int, hi as int), c) is None,
        },
{
    let ghost s = v@.subrange(lo as int, hi as int);
    let ghost p = seq![c];
    let mut i: usize = 0;
    while i < hi - lo
        invariant
            lo <= hi <= v@.len(),
            s == v@.subrange(lo as int, hi as int),
            p == seq![c],
            i <= hi - lo,
            find(s, p) == find_from(s, p, i as int),
        decreases hi - lo - i,
    {
        if v[lo + i] == c {
            assert(s.subrange(i as int, i + 1) =~= p);
            return Some(i);
        }
        assert(s.subrange(i as int, i + 1)[0] != p[0]);
        i += 1;
    }
    assert(find_from(s, p, i as int) is None);
    None
}

// ---------------------------------------------------------------------------
// Strings
// ---------------------------------------------------------------------------

/// Copies the characters of `s` into a vector.
pub fn chars_of(s: &str) -> (v: Vec<char>)
    ensures
        v@ == s@,
{
    let mut v: Vec<char> = Vec::new();
    for c in it: s.chars()
        invariant
            it.seq() == s@,
            v@ == s@.take(it.index() as int),
    {
        v.push(c);
    }
    assert(s@.take(s@.len() as int) =~= s@);
    v
}

/// Appends one character to a `String` by calling `String::push`; the
/// contract claims the text afterwards is the text before followed by `c`.
#[verifier::external_body]
pub(crate) fn push_char(s: &mut String, c: char)
    ensures
        final(s)@ == old(s)@.push(c),
{
    s.push(c);
}

/// Builds a `String` from `v[lo..hi]`.
pub fn string_from_range(v: &Vec<char>, lo: usize, hi: usize) -> (r: String)
    requires
        lo <= hi <= v@.len(),
    ensures
        r@ == v@.subrange(lo as int, hi as int),
{
    let mut s = String::new();
    let mut i = lo;
    while i < hi
        invariant
            lo <= i <= hi <= v@.len(),
            s@ == v@.subrange(lo as int, i as int),
        decreases hi - i,
    {
        push_char(&mut s, v[i]);
        assert(v@.subrange(lo as int, i + 1) =~= v@.subrange(lo as int, i as int).push(v@[i as int]));
        i += 1;
    }
    s
}

/// The characters a `String::from_utf8_lossy` call yields for `bytes`.
pub uninterp spec fn utf8_lossy(bytes: Seq<u8>) -> Seq<char>;

/// `String::from_utf8_lossy`, owned. The result is `utf8_lossy` of the input;
/// valid UTF-8 input is decoded unchanged, as the standard library documents.
/// How invalid sequences are replaced is left to the name.
#[verifier::external_body]
pub(crate) fn lossy_string(bytes: &[u8]) -> (r: String)
    ensures
        r@ == utf8_lossy(bytes@),
        valid_utf8(bytes@) ==> r@ == decode_utf8(bytes@),
{
    String::from_utf8_lossy(bytes).into_owned()
}


// ---------------------------------------------------------------------------
// Decimal numbers
// ---------------------------------------------------------------------------

/// All characters are ASCII digits.
pub open spec fn all_digits(s: Seq<char>) -> bool {
    forall|i: int| 0 <= i < s.len() ==> is_digit(#[trigger] s[i])
}

/// The value of a digit character.
pub open spec fn digit_val(c: char) -> int {
    (c as int) - ('0' as int)
}

/// The decimal value of a digit sequence.
pub open spec fn dec_value(s: Seq<char>) -> int
    decreases s.len(),
{
    if s.len() == 0 {
        0
    } else {
        dec_value(s.drop_last()) * 10 + digit_val(s.last())
    }
}

/// The unsigned number a string denotes, as `str::parse::<u32>` reads it.
pub open spec fn parse_u32(s: Seq<char>) -> Option<u32> {
    let body = if s.len() > 0 && s[0] == '+' { s.drop_first() } else { s };
    if body.len() > 0 && all_digits(body) && dec_value(body) <= u32::MAX {
        Some(dec_value(body) as u32)
    } else {
        None
    }
}

/// The unsigned number a string denotes, as `str::parse::<u64>` reads it.
pub open spec fn parse_u64(s: Seq<char>) -> Option<u64> {
    let body = if s.len() > 0 && s[0] == '+' { s.drop_first() } else { s };
    if body.len() > 0 && all_digits(body) && dec_value(body) <= u64::MAX {
        Some(dec_value(body) as u64)
    } else {
        None
    }
}

/// The signed number a string denotes, as `str::parse::<i32>` reads it.
pub open spec fn parse_i32(s: Seq<char>) -> Option<i32> {
    let neg = s.len() > 0 && s[0] == '-';
    let body = if s.len() > 0 && (s[0] == '+' || s[0] == '-') { s.drop_first() } else { s };
    if body.len() > 0 && all_digits(body) {
        if neg && dec_value(body) <= 2147483648 {
            Some((0 - dec_value(body)) as i32)
        } else if !neg && dec_value(body) <= 2147483647 {
            Some(dec_value(body) as i32)
        } else {
            None
        }
    } else {
        None
    }
}

proof fn lemma_dec_value_nonneg(s: Seq<char>)
    requires
        all_digits(s),
    ensures
        dec_value(s) >= 0,
    decreases s.len(),
{
    if s.len() > 0 {
        assert(is_digit(s[s.len() - 1]));
        lemma_dec_value_nonneg(s.drop_last());
    }
}


/// Reads the digits of `v[lo..hi]` as a value capped just above `cap`:
/// `Some(v)` when all are digits and the value is at most `cap`.
fn range_digits_value(v: &Vec<char>, lo: usize, hi: usize, cap: u64) -> (r: Option<u64>)
    requires
        lo <= hi <= v@.len(),
        9 <= cap,
    ensures
        match r {
            Some(x) => all_digits(v@.subrange(lo as int, hi as int)) && x == dec_value(
                v@.subrange(lo as int, hi as int),
            ) && x <= cap,
            None => !all_digits(v@.subrange(lo as int, hi as int)) || dec_value(
                v@.subrange(lo as int, hi as int),
            ) > cap,
        },
{
    let mut acc: u64 = 0;
    let mut i = lo;
    while i < hi
        invariant
            lo <= i <= hi <= v@.len(),
            9 <= cap,
            all_digits(v@.subrange(lo as int, i as int)),
            acc == dec_value(v@.subrange(lo as int, i as int)),
            acc <= cap,
        decreases hi - i,
    {
        let c = v[i];
        let ghost pre = v@.subrange(lo as int, i as int);
        let ghost nxt = v@.subrange(lo as int, i + 1);
        assert(nxt.drop_last() =~= pre);
        if !char_is_digit(c) {
            assert(nxt.subrange(0, i - lo + 1) =~= nxt);
            proof {
                if all_digits(v@.subrange(lo as int, hi as int)) {
                    assert(v@.subrange(lo as int, hi as int)[i - lo] == c);
                }
            }
            return None;
        }
        let d: u64 = (c as u32 - '0' as u32) as u64;
        assert(d == digit_val(c));
        if acc > (cap - d) / 10 {
            // The value already exceeds the cap; it only grows with more digits.
            proof {
                assert(dec_value(nxt) == acc * 10 + d);
                assert(dec_value(nxt) > cap) by (nonlinear_arith)
                    requires
                        acc > (cap - d) / 10,
                        d <= 9,
                        d <= cap,
                        dec_value(nxt) == acc * 10 + d,
                {
                }
                if all_digits(v@.subrange(lo as int, hi as int)) {
                    lemma_dec_prefix_bound(v@.subrange(lo as int, hi as int), i - lo + 1);
                    assert(v@.subrange(lo as int, hi as int).subrange(0, i - lo + 1) =~= nxt);
                }
            }
            return None;
        }
        acc = acc * 10 + d;
        assert(all_digits(nxt)) by {
            assert forall|k: int| 0 <= k < nxt.len() implies is_digit(#[trigger] nxt[k]) by {
                if k < pre.len() {
                    assert(nxt[k] == pre[k]);
                }
            }
        }
        i += 1;
    }
    Some(acc)
}

/// A digit string's value is at least that of any of its prefixes.
proof fn lemma_dec_prefix_bound(s: Seq<char>, n: int)
    requires
        all_digits(s),
        0 <= n <= s.len(),
    ensures
        dec_value(s) >= dec_value(s.subrange(0, n)),
    decreases s.len() - n,
{
    if n < s.len() {
        lemma_dec_prefix_bound(s, n + 1);
        let t = s.subrange(0, n + 1);
        assert(t.drop_last() =~= s.subrange(0, n));
        assert(all_digits(t));
        lemma_dec_value_nonneg(t.drop_last());
        assert(is_digit(t[n]));
    } else {
        assert(s.subrange(0, n) =~= s);
    }
}

/// `str::parse::<u32>` on `v[lo..hi]`.
pub fn range_parse_u32(v: &Vec<char>, lo: usize, hi: usize) -> (r: Option<u32>)
    requires
        lo <= hi <= v@.len(),
    ensures
        r == parse_u32(v@.subrange(lo as int, hi as int)),
{
    let ghost s = v@.subrange(lo as int, hi as int);
    let start = if lo < hi && v[lo] == '+' {
        lo + 1
    } else {
        lo
    };
    assert(v@.subrange(start as int, hi as int) =~= (if s.len() > 0 && s[0] == '+' {
        s.drop_first()
    } else {
        s
    }));
    if start == hi {
        return None;
    }
    match range_digits_value(v, start, hi, 4294967295) {
        Some(x) => Some(x as u32),
        None => None,
    }
}

/// `str::parse::<u64>` on `v[lo..hi]`.
pub fn range_parse_u64(v: &Vec<char>, lo: usize, hi: usize) -> (r: Option<u64>)
    requires
        lo <= hi <= v@.len(),
    ensures
        r == parse_u64(v@.subrange(lo as int, hi as int)),
{
    let ghost s = v@.subrange(lo as int, hi as int);
    let start = if lo < hi && v[lo] == '+' {
        lo + 1
    } else {
        lo
    };
    assert(v@.subrange(start as int, hi as int) =~= (if s.len() > 0 && s[0] == '+' {
        s.drop_first()
    } else {
        s
    }));
    if start == hi {
        return None;
    }
    range_digits_value(v, start, hi, 18446744073709551615)
}

/// `str::parse::<i32>` on `v[lo..hi]`.
pub fn range_parse_i32(v: &Vec<char>, lo: usize, hi: usize) -> (r: Option<i32>)
    requires
        lo <= hi <= v@.len(),
    ensures
        r == parse_i32(v@.subrange(lo as int, hi as int)),
{
    let ghost s = v@.subrange(lo as int, hi as int);
    let neg = lo < hi && v[lo] == '-';
    let start = if lo < hi && (v[lo] == '+' || v[lo] == '-') {
        lo + 1
    } else {
        lo
    };
    assert(v@.subrange(start as int, hi as int) =~= (if s.len() > 0 && (s[0] == '+' || s[0]
        == '-') {
        s.drop_first()
    } else {
        s
    }));
    if start == hi {
        return None;
    }
    let cap: u64 = if neg {
        2147483648
    } else {
        2147483647
    };
    match range_digits_value(v, start, hi, cap) {
        Some(x) => {
            if neg {
                Some((0i64 - x as i64) as i32)
            } else {
                Some(x as i32)
            }
        },
        None => None,
    }
}

/// Decimal digits of a number, most significant first.
pub open spec fn dec_digits(n: nat) -> Seq<char>
    decreases n,
{
    if n < 10 {
        seq![(n + 48) as char]
    } else {
        dec_digits(n / 10).push(((n % 10) + 48) as char)
    }
}

/// The text of an `i64` as `format!("{}", n)` prints it.
pub open spec fn int_text(n: int) -> Seq<char> {
    if n < 0 {
        seq!['-'] + dec_digits((0 - n) as nat)
    } else {
        dec_digits(n as nat)
    }
}

/// The text of a non-negative number, zero-padded on the left to `width` digits.
pub open spec fn padded_text(n: nat, width: nat) -> Seq<char> {
    let d = dec_digits(n);
    if d.len() >= width {
        d
    } else {
        Seq::new((width - d.len()) as nat, |i: int| '0') + d
    }
}

fn digit_char(d: u64) -> (c: char)
    requires
        d < 10,
    ensures
        c == (d + 48) as char,
{
    let b: u8 = d as u8 + 48;
    b as char
}

/// Appends the decimal digits of `n` to `s`.
pub fn push_dec(s: &mut String, n: u64)
    ensures
        final(s)@ == old(s)@ + dec_digits(n as nat),
    decreases n,
{
    if n < 10 {
        push_char(s, digit_char(n));
        assert(old(s)@.push((n + 48) as char) =~= old(s)@ + seq![(n + 48) as char]);
    } else {
        push_dec(s, n / 10);
        push_char(s, digit_char(n % 10));
        assert(dec_digits(n as nat) == dec_digits((n / 10) as nat).push(((n % 10) + 48) as char));
        assert(old(s)@ + dec_digits((n / 10) as nat).push(((n % 10) + 48) as char) =~= (old(s)@
            + dec_digits((n / 10) as nat)).push(((n % 10) + 48) as char));
    }
}

/// Appends the decimal text of a signed number to `s`.
pub fn push_int(s: &mut String, n: i64)
    ensures
        final(s)@ == old(s)@ + int_text(n as int),
{
    if n < 0 {
        push_char(s, '-');
        let m: u64 = if n == i64::MIN {
            9223372036854775808u64
        } else {
            (0 - n) as u64
        };
        push_dec(s, m);
        assert(old(s)@.push('-') + dec_digits(m as nat) =~= old(s)@ + (seq!['-'] + dec_digits(
            m as nat,
        )));
    } else {
        push_dec(s, n as u64);
    }
}

/// Appends `n` zero-padded to `width` digits.
pub fn push_padded(s: &mut String, n: u64, width: u64)
    requires
        width <= 20,
    ensures
        final(s)@ == old(s)@ + padded_text(n as nat, width as nat),
{
    let nd = dec_len(n);
    let ghost start = s@;
    if nd < width {
        let mut k: u64 = 0;
        while k < width - nd
            invariant
                nd < width <= 20,
                k <= width - nd,
                s@ == start + Seq::new(k as nat, |i: int| '0'),
            decreases width - nd - k,
        {
            push_char(s, '0');
            assert(start + Seq::new((k + 1) as nat, |i: int| '0') =~= (start + Seq::new(
                k as nat,
                |i: int| '0',
            )).push('0'));
            k += 1;
        }
        let ghost mid = s@;
        push_dec(s, n);
        assert(mid + dec_digits(n as nat) =~= start + (Seq::new((width - nd) as nat, |i: int| '0')
            + dec_digits(n as nat)));
    } else {
        push_dec(s, n);
    }
}

/// The number of decimal digits of `n`.
pub fn dec_len(n: u64) -> (r: u64)
    ensures
        r == dec_digits(n as nat).len(),
        r <= 20,
    decreases n,
{
    proof {
        lemma_dec_len_pow(n as nat);
    }
    if n < 10 {
        1
    } else {
        let r = dec_len(n / 10);
        r + 1
    }
}

/// Bounds on the number of decimal digits of a number.
pub proof fn lemma_dec_len_pow(n: nat)
    ensures
        n < 10 ==> dec_digits(n).len() == 1,
        n < 100 ==> dec_digits(n).len() <= 2,
        n < 1000 ==> dec_digits(n).len() <= 3,
        n < 10000 ==> dec_digits(n).len() <= 4,
        n < 100000 ==> dec_digits(n).len() <= 5,
        n < 1000000 ==> dec_digits(n).len() <= 6,
        n < 10000000 ==> dec_digits(n).len() <= 7,
        n < 100000000 ==> dec_digits(n).len() <= 8,
        n < 1000000000 ==> dec_digits(n).len() <= 9,
        n < 10000000000 ==> dec_digits(n).len() <= 10,
        n < 100000000000 ==> dec_digits(n).len() <= 11,
        n < 1000000000000 ==> dec_digits(n).len() <= 12,
        n < 10000000000000 ==> dec_digits(n).len() <= 13,
        n < 100000000000000 ==> dec_digits(n).len() <= 14,
        n < 1000000000000000 ==> dec_digits(n).len() <= 15,
        n < 10000000000000000 ==> dec_digits(n).len() <= 16,
        n < 100000000000000000 ==> dec_digits(n).len() <= 17,
        n < 1000000000000000000 ==> dec_digits(n).len() <= 18,
        n < 10000000000000000000 ==> dec_digits(n).len() <= 19,
        n < 100000000000000000000 ==> dec_digits(n).len() <= 20,
    decreases n,
{
    if n >= 10 {
        lemma_dec_len_pow(n / 10);
    }
}

/// Appends the characters of `t` to `s`.
pub fn push_str(s: &mut String, t: &str)
    ensures
        final(s)@ == old(s)@ + t@,
{
    s.append(t);
}

/// Compares two strings character by character.
pub fn str_eq(a: &str, b: &str) -> (r: bool)
    ensures
        r == (a@ == b@),
{
    let va = chars_of(a);
    let vb = chars_of(b);
    if va.len() != vb.len() {
        return false;
    }
    let mut i: usize = 0;
    while i < va.len()
        invariant
            va@ == a@,
            vb@ == b@,
            va@.len() == vb@.len(),
            i <= va@.len(),
            forall|k: int| 0 <= k < i ==> va@[k] == vb@[k],
        decreases va@.len() - i,
    {
        if va[i] != vb[i] {
            return false;
        }
        i += 1;
    }
    assert(va@ =~= vb@);
    true
}

/// `String::from_utf8_lossy(bytes).trim().to_string()`.
pub fn lossy_trimmed(bytes: &[u8]) -> (r: String)
    ensures
        r@ == trim(utf8_lossy(bytes@)),
{
    let s = lossy_string(bytes);
    let v = chars_of(s.as_str());
    let (a, b) = trim_range(&v, 0, v.len());
    assert(v@.subrange(0, v@.len() as int) =~= v@);
    string_from_range(&v, a, b)
}

/// Copies `data[lo..hi]` into a vector.
pub fn copy_bytes(data: &[u8], lo: usize, hi: usize) -> (r: Vec<u8>)
    requires
        lo <= hi <= data@.len(),
    ensures
        r@ == data@.subrange(lo as int, hi as int),
{
    let mut r: Vec<u8> = Vec::new();
    let mut i = lo;
    while i < hi
        invariant
            lo <= i <= hi <= data@.len(),
            r@ == data@.subrange(lo as int, i as int),
        decreases hi - i,
    {
        r.push(data[i]);
        assert(data@.subrange(lo as int, i + 1) =~= data@.subrange(lo as int, i as int).push(
            data@[i as int],
        ));
        i += 1;
    }
    r
}

/// `s` ends with `p` when compared after ASCII upper-casing `s`.
pub open spec fn ends_ci(s: Seq<char>, p: Seq<char>) -> bool {
    p.len() <= s.len() && occurs_at_upper(s, p, s.len() - p.len())
}

/// Tests `ends_ci` on a string.
pub fn str_ends_ci(s: &str, p: &str) -> (r: bool)
    ensures
        r == ends_ci(s@, p@),
{
    let v = chars_of(s);
    let n = v.len();
    let m = p.unicode_len();
    if m > n {
        return false;
    }
    assert(v@.subrange(0, n as int) =~= v@);
    range_occurs_at_upper(&v, 0, n, p, n - m)
}

/// `.trim().trim_matches(|c| c.is_control() || c == '\0')` of a string.
pub fn clean_string(s: &str) -> (r: String)
    ensures
        r@ == clean_name(s@),
{
    let v = chars_of(s);
    let (a, b) = clean_range(&v, 0, v.len());
    assert(v@.subrange(0, v@.len() as int) =~= v@);
    string_from_range(&v, a, b)
}

/// The characters of `String::from_utf8_lossy` applied to the NUL-terminated prefix of `data[lo..hi]`.
pub fn lossy_nt(data: &[u8], lo: usize, hi: usize) -> (r: String)
    requires
        lo <= hi <= data@.len(),
    ensures
        r@ == utf8_lossy(crate::bytes::nt(data@.subrange(lo as int, hi as int))),
{
    let e = crate::bytes::nt_end(data, lo, hi);
    let b = copy_bytes(data, lo, e);
    assert(b@ =~= crate::bytes::nt(data@.subrange(lo as int, hi as int)));
    lossy_string(&b)
}

/// The number of characters of a string.
pub fn char_count(s: &str) -> (r: usize)
    ensures
        r == s@.len(),
{
    s.unicode_len()
}


/// `s.eq_ignore_ascii_case(p)` for a pattern `p` written in upper case.
pub open spec fn eq_ci(s: Seq<char>, p: Seq<char>) -> bool {
    s.len() == p.len() && occurs_at_upper(s, p, 0)
}

/// Tests `eq_ci` on a string.
pub fn str_eq_ci(s: &str, p: &str) -> (r: bool)
    ensures
        r == eq_ci(s@, p@),
{
    let v = chars_of(s);
    let n = v.len();
    if n != p.unicode_len() {
        return false;
    }
    assert(v@.subrange(0, n as int) =~= v@);
    range_occurs_at_upper(&v, 0, n, p, 0)
}


/// The upper-case hexadecimal digit of `d` (below 16).
pub open spec fn hex_upper_char(d: nat) -> char {
    if d < 10 {
        (d + 48) as char
    } else {
        (d + 55) as char
    }
}

/// The last `width` upper-case hexadecimal digits of `n`, zero-padded.
pub open spec fn hex_upper(n: nat, width: nat) -> Seq<char>
    decreases width,
{
    if width == 0 {
        seq![]
    } else {
        hex_upper(n / 16, (width - 1) as nat).push(hex_upper_char(n % 16))
    }
}

/// Appends the last `width` upper-case hexadecimal digits of `n`.
pub fn push_hex_upper(s: &mut String, n: u64, width: u64)
    ensures
        final(s)@ == old(s)@ + hex_upper(n as nat, width as nat),
    decreases width,
{
    if width > 0 {
        push_hex_upper(s, n / 16, width - 1);
        let d: u64 = n % 16;
        let c: char = if d < 10 {
            (d as u8 + 48) as char
        } else {
            (d as u8 + 55) as char
        };
        let ghost mid = s@;
        push_char(s, c);
        assert(mid.push(c) =~= old(s)@ + hex_upper(n as nat, width as nat));
    } else {
        assert(old(s)@ + hex_upper(n as nat, 0) =~= old(s)@);
    }
}

/// `a` comes before `b` or equals it, comparing characters in order (the
/// order of `String`).
pub open spec fn text_le(a: Seq<char>, b: Seq<char>) -> bool
    decreases a.len(),
{
    if a.len() == 0 {
        true
    } else if b.len() == 0 {
        false
    } else if a[0] != b[0] {
        (a[0] as int) < (b[0] as int)
    } else {
        text_le(a.drop_first(), b.drop_first())
    }
}

/// Any two texts are ordered one way or the other.
pub proof fn lemma_text_le_total(a: Seq<char>, b: Seq<char>)
    ensures
        text_le(a, b) || text_le(b, a),
    decreases a.len(),
{
    if a.len() > 0 && b.len() > 0 && a[0] == b[0] {
        lemma_text_le_total(a.drop_first(), b.drop_first());
    }
}

/// The order of texts is transitive.
pub proof fn lemma_text_le_trans(a: Seq<char>, b: Seq<char>, c: Seq<char>)
    requires
        text_le(a, b),
        text_le(b, c),
    ensures
        text_le(a, c),
    decreases a.len(),
{
    if a.len() > 0 && b.len() > 0 && c.len() > 0 && a[0] == b[0] && b[0] == c[0] {
        lemma_text_le_trans(a.drop_first(), b.drop_first(), c.drop_first());
    }
}

/// Tests `text_le`.
pub fn text_le_exec(a: &str, b: &str) -> (r: bool)
    ensures
        r == text_le(a@, b@),
{
    let va = chars_of(a);
    let vb = chars_of(b);
    let mut i: usize = 0;
    assert(a@.skip(0) =~= a@ && b@.skip(0) =~= b@);
    while i < va.len() && i < vb.len() && va[i] == vb[i]
        invariant
            va@ == a@,
            vb@ == b@,
            i <= va@.len(),
            i <= vb@.len(),
            text_le(a@, b@) == text_le(a@.skip(i as int), b@.skip(i as int)),
        decreases va@.len() - i,
    {
        assert(a@.skip(i as int).drop_first() =~= a@.skip(i + 1));
        assert(b@.skip(i as int).drop_first() =~= b@.skip(i + 1));
        i += 1;
    }
    if i == va.len() {
        assert(a@.skip(i as int).len() == 0);
        true
    } else if i == vb.len() {
        assert(b@.skip(i as int).len() == 0);
        false
    } else {
        assert(a@.skip(i as int)[0] == a@[i as int] && b@.skip(i as int)[0] == b@[i as int]);
        va[i] < vb[i]
    }
}


} // verus!
