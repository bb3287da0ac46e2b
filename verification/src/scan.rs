//! Scanning of line-oriented text: lines as `str::lines` yields them,
//! substring search, two-character replacement, Unicode white space and
//! decimal `u32` parsing, all over sequences of characters.

use vstd::prelude::*;
use crate::title_storage::haloonline::v1_106708_cert_ms23___release::title_storage_config::{is_digit, digits_value};

verus! {

broadcast use vstd::string::axiom_spec_iter;

/// `String::push`: appends `c` to the end of `s`.
#[verifier::external_body]
fn push_char(s: &mut String, c: char)
    ensures
        final(s)@ == old(s)@.push(c),
{
    s.push(c);
}

/// The characters of `s`, in order.
pub fn chars_of(s: &str) -> (v: Vec<char>)
    ensures
        v@ == s@,
{
    let mut v: Vec<char> = Vec::new();
    for c in it: s.chars()
        invariant
            it.seq() == s@,
            v@ == it.seq().take(it.index()),
    {
        v.push(c);
    }
    v
}

/// The string made of the characters of `v`.
pub fn string_of(v: &Vec<char>) -> (s: String)
    ensures
        s@ == v@,
{
    let mut s = String::new();
    let mut i: usize = 0;
    while i < v.len()
        invariant
            i <= v.len(),
            s@ == v@.take(i as int),
        decreases v.len() - i,
    {
        push_char(&mut s, v[i]);
        assert(v@.take(i as int).push(v@[i as int]) =~= v@.take(i + 1));
        i = i + 1;
    }
    assert(v@.take(v.len() as int) =~= v@);
    s
}

// ---------------------------------------------------------------------------
// Lines
// ---------------------------------------------------------------------------

/// The index of the first `'\n'` at or after `i`, or `s.len()` when none follows.
pub open spec fn newline_from(s: Seq<char>, i: nat) -> nat
    decreases s.len() - i,
{
    if i >= s.len() {
        s.len()
    } else if s[i as int] == '\n' {
        i
    } else {
        newline_from(s, i + 1)
    }
}

pub proof fn lemma_newline_from(s: Seq<char>, i: nat)
    requires
        i <= s.len(),
    ensures
        i <= newline_from(s, i) <= s.len(),
        newline_from(s, i) < s.len() ==> s[newline_from(s, i) as int] == '\n',
        forall|k: int| i <= k < newline_from(s, i) ==> s[k] != '\n',
    decreases s.len() - i,
{
    if i < s.len() && s[i as int] != '\n' {
        lemma_newline_from(s, i + 1);
    }
}

/// The line that starts at `i`: the characters up to the next `'\n'`, less a
/// `'\r'` just before that `'\n'`. A `'\r'` at the very end of `s` stays.
pub open spec fn line_at(s: Seq<char>, i: nat) -> Seq<char> {
    let e = newline_from(s, i);
    let raw = s.subrange(i as int, e as int);
    if e < s.len() && raw.len() > 0 && raw.last() == '\r' {
        raw.drop_last()
    } else {
        raw
    }
}

/// The lines of `s` from index `i` on, as `str::lines` yields them: split at
/// each `'\n'` (a `'\r'` before it is dropped); a final line ending adds no
/// empty line.
pub open spec fn lines_from(s: Seq<char>, i: nat) -> Seq<Seq<char>>
    decreases s.len() + 1 - i,
{
    if i >= s.len() {
        seq![]
    } else {
        proof {
            lemma_newline_from(s, i);
        }
        seq![line_at(s, i)] + lines_from(s, newline_from(s, i) + 1)
    }
}

/// The lines of `s`, as `str::lines` yields them.
pub open spec fn lines_of(s: Seq<char>) -> Seq<Seq<char>> {
    lines_from(s, 0)
}

/// The line of `s` that starts at `start`, and the index of the `'\n'` that
/// ends it (`s.len()` when it is the last line and has no line ending).
pub fn line_at_exec(s: &Vec<char>, start: usize) -> (r: (Vec<char>, usize))
    requires
        start < s.len(),
    ensures
        r.0@ == line_at(s@, start as nat),
        r.1 == newline_from(s@, start as nat),
{
    proof {
        lemma_newline_from(s@, start as nat);
    }
    let mut e: usize = start;
    while e < s.len() && s[e] != '\n'
        invariant
            start <= e <= s.len(),
            newline_from(s@, start as nat) == newline_from(s@, e as nat),
        decreases s.len() - e,
    {
        e = e + 1;
    }
    let stop: usize = if e < s.len() && e > start && s[e - 1] == '\r' { e - 1 } else { e };
    let mut line: Vec<char> = Vec::new();
    let mut k: usize = start;
    while k < stop
        invariant
            start <= k <= stop <= e <= s.len(),
            line@ == s@.subrange(start as int, k as int),
        decreases stop - k,
    {
        line.push(s[k]);
        assert(s@.subrange(start as int, k as int).push(s@[k as int]) =~= s@.subrange(start as int, k + 1));
        k = k + 1;
    }
    assert(line@ =~= line_at(s@, start as nat));
    (line, e)
}

// ---------------------------------------------------------------------------
// Substring search
// ---------------------------------------------------------------------------

/// Whether `p` occurs in `s` at index `j`.
pub open spec fn matches_at(s: Seq<char>, p: Seq<char>, j: int) -> bool {
    0 <= j && j + p.len() <= s.len() && s.subrange(j, j + p.len()) == p
}

/// The first index at or after `i` at which `p` occurs in `s`, as `str::find`
/// gives it for the rest of `s` from `i` (here counted from the start of `s`).
pub open spec fn find_from(s: Seq<char>, p: Seq<char>, i: nat) -> Option<nat>
    decreases s.len() + 1 - i,
{
    if i + p.len() > s.len() {
        None
    } else if matches_at(s, p, i as int) {
        Some(i)
    } else {
        find_from(s, p, i + 1)
    }
}

pub proof fn lemma_find_from(s: Seq<char>, p: Seq<char>, i: nat)
    ensures
        match find_from(s, p, i) {
            Some(j) => i <= j && j + p.len() <= s.len() && matches_at(s, p, j as int),
            None => true,
        },
    decreases s.len() + 1 - i,
{
    if i + p.len() <= s.len() && !matches_at(s, p, i as int) {
        lemma_find_from(s, p, i + 1);
    }
}

fn matches_at_exec(s: &Vec<char>, p: &Vec<char>, j: usize) -> (b: bool)
    ensures
        b == matches_at(s@, p@, j as int),
{
    if j > s.len() || p.len() > s.len() - j {
        return false;
    }
    let mut k: usize = 0;
    while k < p.len()
        invariant
            j + p.len() <= s.len(),
            k <= p.len(),
            s@.subrange(j as int, j + k) =~= p@.take(k as int),
        decreases p.len() - k,
    {
        if s[j + k] != p[k] {
            assert(s@.subrange(j as int, j + p.len())[k as int] != p@[k as int]);
            return false;
        }
        assert(s@.subrange(j as int, j + k + 1) =~= p@.take(k + 1));
        k = k + 1;
    }
    assert(p@.take(p.len() as int) =~= p@);
    true
}

/// The first index at or after `from` at which `p` occurs in `s`.
pub fn find_from_exec(s: &Vec<char>, p: &Vec<char>, from: usize) -> (r: Option<usize>)
    ensures
        match r {
            Some(j) => find_from(s@, p@, from as nat) == Some(j as nat),
            None => find_from(s@, p@, from as nat) is None,
        },
{
    let mut j: usize = from;
    loop
        invariant
            from <= j,
            find_from(s@, p@, from as nat) == find_from(s@, p@, j as nat),
        decreases s.len() + 1 - j,
    {
        if j > s.len() || p.len() > s.len() - j {
            return None;
        }
        if matches_at_exec(s, p, j) {
            return Some(j);
        }
        if j == s.len() {
            assert(find_from(s@, p@, (j + 1) as nat) is None);
            return None;
        }
        j = j + 1;
    }
}

/// The first index at or after `i` that does not hold an ASCII digit.
pub open spec fn non_digit_from(s: Seq<char>, i: nat) -> Option<nat>
    decreases s.len() - i,
{
    if i >= s.len() {
        None
    } else if !is_digit(s[i as int]) {
        Some(i)
    } else {
        non_digit_from(s, i + 1)
    }
}

pub proof fn lemma_non_digit_from(s: Seq<char>, i: nat)
    ensures
        match non_digit_from(s, i) {
            Some(j) => i <= j < s.len() && forall|k: int| i <= k < j ==> is_digit(s[k]),
            None => forall|k: int| i <= k < s.len() ==> is_digit(s[k]),
        },
    decreases s.len() - i,
{
    if i < s.len() && is_digit(s[i as int]) {
        lemma_non_digit_from(s, i + 1);
    }
}

pub fn non_digit_from_exec(s: &Vec<char>, from: usize) -> (r: Option<usize>)
    ensures
        match r {
            Some(j) => non_digit_from(s@, from as nat) == Some(j as nat),
            None => non_digit_from(s@, from as nat) is None,
        },
{
    let mut j: usize = from;
    while j < s.len()
        invariant
            from <= j,
            non_digit_from(s@, from as nat) == non_digit_from(s@, j as nat),
        decreases s.len() - j,
    {
        let c = s[j];
        if !('0' <= c && c <= '9') {
            return Some(j);
        }
        j = j + 1;
    }
    None
}

/// The characters of `s` from `start` up to, not including, `end`.
pub fn slice_chars(s: &Vec<char>, start: usize, end: usize) -> (v: Vec<char>)
    requires
        start <= end <= s.len(),
    ensures
        v@ == s@.subrange(start as int, end as int),
{
    let mut v: Vec<char> = Vec::new();
    let mut k: usize = start;
    while k < end
        invariant
            start <= k <= end <= s.len(),
            v@ == s@.subrange(start as int, k as int),
        decreases end - k,
    {
        v.push(s[k]);
        assert(s@.subrange(start as int, k as int).push(s@[k as int]) =~= s@.subrange(start as int, k + 1));
        k = k + 1;
    }
    v
}

// ---------------------------------------------------------------------------
// Replacement
// ---------------------------------------------------------------------------

/// `s` with each occurrence of the pair `a b`, taken left to right without
/// overlap, replaced by `r`: what `str::replace` does with a two-character
/// pattern and a one-character replacement.
pub open spec fn replace_pair(s: Seq<char>, a: char, b: char, r: char) -> Seq<char>
    decreases s.len(),
{
    if s.len() < 2 {
        s
    } else if s[0] == a && s[1] == b {
        seq![r] + replace_pair(s.skip(2), a, b, r)
    } else {
        seq![s[0]] + replace_pair(s.skip(1), a, b, r)
    }
}

pub fn replace_pair_exec(s: &Vec<char>, a: char, b: char, r: char) -> (out: Vec<char>)
    ensures
        out@ == replace_pair(s@, a, b, r),
{
    let mut out: Vec<char> = Vec::new();
    let mut i: usize = 0;
    assert(s@.skip(0) =~= s@);
    assert(out@ + replace_pair(s@, a, b, r) =~= replace_pair(s@, a, b, r));
    while i < s.len()
        invariant
            i <= s.len(),
            out@ + replace_pair(s@.skip(i as int), a, b, r) == replace_pair(s@, a, b, r),
        decreases s.len() - i,
    {
        let ghost rest = s@.skip(i as int);
        if i + 1 < s.len() && s[i] == a && s[i + 1] == b {
            assert(rest.skip(2) =~= s@.skip(i + 2));
            assert(out@.push(r) + replace_pair(s@.skip(i + 2), a, b, r) =~= out@ + replace_pair(rest, a, b, r));
            out.push(r);
            i = i + 2;
        } else {
            assert(rest.skip(1) =~= s@.skip(i + 1));
            proof {
                if rest.len() >= 2 {
                    assert(out@.push(s@[i as int]) + replace_pair(s@.skip(i + 1), a, b, r) =~= out@ + replace_pair(rest, a, b, r));
                } else {
                    assert(s@.skip(i + 1) =~= Seq::<char>::empty());
                    assert(out@.push(s@[i as int]) + replace_pair(s@.skip(i + 1), a, b, r) =~= out@ + replace_pair(rest, a, b, r));
                }
            }
            out.push(s[i]);
            i = i + 1;
        }
    }
    assert(s@.skip(s.len() as int) =~= Seq::<char>::empty());
    assert(out@ + Seq::<char>::empty() =~= out@);
    out
}

/// An escaped path or name made plain: `\\` becomes `\`, then `\"` becomes `"`.
pub open spec fn unescape(s: Seq<char>) -> Seq<char> {
    replace_pair(replace_pair(s, '\\', '\\', '\\'), '\\', '"', '"')
}

pub fn unescape_exec(s: &Vec<char>) -> (out: Vec<char>)
    ensures
        out@ == unescape(s@),
{
    let once = replace_pair_exec(s, '\\', '\\', '\\');
    replace_pair_exec(&once, '\\', '"', '"')
}

// ---------------------------------------------------------------------------
// White space
// ---------------------------------------------------------------------------

/// Whether `c` has the Unicode `White_Space` property, as `char::is_whitespace`
/// tests it.
pub open spec fn is_whitespace(c: char) -> bool {
    ||| ('\u{9}' <= c <= '\u{d}')
    ||| c == ' '
    ||| c == '\u{85}'
    ||| c == '\u{a0}'
    ||| c == '\u{1680}'
    ||| ('\u{2000}' <= c <= '\u{200a}')
    ||| c == '\u{2028}'
    ||| c == '\u{2029}'
    ||| c == '\u{202f}'
    ||| c == '\u{205f}'
    ||| c == '\u{3000}'
}

/// Whether `s` is empty once trimmed: it holds white space only.
pub open spec fn all_whitespace(s: Seq<char>) -> bool {
    forall|i: int| 0 <= i < s.len() ==> is_whitespace(#[trigger] s[i])
}

fn is_whitespace_exec(c: char) -> (b: bool)
    ensures
        b == is_whitespace(c),
{
    ('\u{9}' <= c && c <= '\u{d}') || c == ' ' || c == '\u{85}' || c == '\u{a0}' || c == '\u{1680}'
        || ('\u{2000}' <= c && c <= '\u{200a}') || c == '\u{2028}' || c == '\u{2029}'
        || c == '\u{202f}' || c == '\u{205f}' || c == '\u{3000}'
}

pub fn all_whitespace_exec(s: &Vec<char>) -> (b: bool)
    ensures
        b == all_whitespace(s@),
{
    let mut i: usize = 0;
    while i < s.len()
        invariant
            i <= s.len(),
            forall|k: int| 0 <= k < i ==> is_whitespace(#[trigger] s@[k]),
        decreases s.len() - i,
    {
        if !is_whitespace_exec(s[i]) {
            return false;
        }
        i = i + 1;
    }
    true
}

// ---------------------------------------------------------------------------
// Decimal u32
// ---------------------------------------------------------------------------

/// Whether every character of `d` is an ASCII digit.
pub open spec fn all_digits(d: Seq<char>) -> bool {
    forall|i: int| 0 <= i < d.len() ==> is_digit(#[trigger] d[i])
}

/// `s` less a leading `+`, if it has one.
pub open spec fn sign_stripped(s: Seq<char>) -> Seq<char> {
    if s.len() > 0 && s[0] == '+' { s.drop_first() } else { s }
}

/// What `str::parse::<u32>` gives, `None` for an error: an optional `+`, then
/// at least one ASCII digit and nothing else, of a value that fits in a `u32`.
pub open spec fn parse_u32_spec(s: Seq<char>) -> Option<u32> {
    let digits = sign_stripped(s);
    if digits.len() > 0 && all_digits(digits) && digits_value(digits) <= u32::MAX {
        Some(digits_value(digits) as u32)
    } else {
        None
    }
}

pub fn parse_u32(s: &Vec<char>) -> (r: Option<u32>)
    ensures
        r == parse_u32_spec(s@),
{
    let n = s.len();
    let start: usize = if n > 0 && s[0] == '+' { 1 } else { 0 };
    let ghost digits = sign_stripped(s@);
    assert(digits =~= s@.skip(start as int));
    if start >= n {
        assert(digits.len() == 0);
        return None;
    }
    let mut value: u64 = 0;
    let mut big: bool = false;
    let mut i: usize = start;
    while i < n
        invariant
            n == s@.len(),
            start <= i <= n,
            digits == s@.skip(start as int),
            digits == sign_stripped(s@),
            forall|j: int| 0 <= j < i - start ==> is_digit(#[trigger] digits[j]),
            !big ==> value == digits_value(digits.take(i - start)) && value <= u32::MAX,
            big ==> digits_value(digits.take(i - start)) > u32::MAX,
        decreases n - i,
    {
        let c = s[i];
        let ghost k: int = i - start;
        assert(c == digits[k]);
        assert(digits.take(k + 1).drop_last() =~= digits.take(k));
        if !('0' <= c && c <= '9') {
            assert(!is_digit(digits[k]));
            return None;
        }
        if !big {
            let next: u64 = value * 10 + ((c as u64) - 48);
            if next > 0xffff_ffff {
                big = true;
            } else {
                value = next;
            }
        }
        i = i + 1;
    }
    assert(digits.take(digits.len() as int) =~= digits);
    if big {
        None
    } else {
        Some(value as u32)
    }
}

} // verus!
