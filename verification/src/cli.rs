use vstd::prelude::*;

use crate::text::{lowercase, trimmed};
use crate::tui::app::SortMode;

verus! {

/// The sort order that a name asks for: `size`, `last-mod`, or else by path.
pub open spec fn sort_mode_named(s: Seq<char>) -> SortMode {
    if s == "size"@ {
        SortMode::Size
    } else if s == "last-mod"@ {
        SortMode::LastMod
    } else {
        SortMode::Path
    }
}

/// The sort order that a name asks for: `size`, `last-mod`, or else by path.
pub fn sort_mode_from_name(s: &str) -> (m: SortMode)
    ensures
        m == sort_mode_named(s@),
{
    if crate::text::str_equal(s, "size") {
        SortMode::Size
    } else if crate::text::str_equal(s, "last-mod") {
        SortMode::LastMod
    } else {
        SortMode::Path
    }
}

/// A minimum size as written on the command line: a number with a unit, whose
/// number is a decimal fraction to scale, or a plain count of bytes.
pub enum SizeSpec {
    Scaled { number: String, unit_bytes: u64 },
    Plain(Option<u64>),
}

pub open spec fn is_digit(c: char) -> bool {
    '0' <= c && c <= '9'
}

/// The value of a run of decimal digits.
pub open spec fn digits_value(d: Seq<char>) -> nat
    decreases d.len(),
{
    if d.len() == 0 {
        0
    } else {
        digits_value(d.drop_last()) * 10 + ((d.last() as u32) - ('0' as u32)) as nat
    }
}

/// `u64::from_str`: an optional `+`, then one or more decimal digits whose value
/// fits in a `u64`.
pub open spec fn digits_part(t: Seq<char>) -> Seq<char> {
    if t.len() > 0 && t[0] == '+' { t.drop_first() } else { t }
}

pub open spec fn all_digits(d: Seq<char>) -> bool {
    forall|i: int| 0 <= i < d.len() ==> is_digit(#[trigger] d[i])
}

pub open spec fn parse_u64(t: Seq<char>) -> Option<u64> {
    let d = digits_part(t);
    if d.len() == 0 || !all_digits(d) {
        None
    } else if digits_value(d) <= u64::MAX {
        Some(digits_value(d) as u64)
    } else {
        None
    }
}

pub open spec fn ends_with(t: Seq<char>, suffix: Seq<char>) -> bool {
    t.len() >= suffix.len() && t.subrange(t.len() - suffix.len(), t.len() as int) == suffix
}

/// How a minimum size reads: trimmed and in lower case, then as
/// `size_spec_of_lowered` says.
pub open spec fn size_spec_of(s: Seq<char>) -> (bool, Seq<char>, u64, Option<u64>) {
    size_spec_of_lowered(lowercase(trimmed(s)))
}

/// How a trimmed, lower-case minimum size reads: a `gb`, `mb` or `kb` unit scales
/// the (trimmed) number before it, anything else is a count of bytes.
pub open spec fn size_spec_of_lowered(t: Seq<char>) -> (bool, Seq<char>, u64, Option<u64>) {
    if ends_with(t, "gb"@) {
        (true, trimmed(t.subrange(0, t.len() - 2)), 1_073_741_824u64, None)
    } else if ends_with(t, "mb"@) {
        (true, trimmed(t.subrange(0, t.len() - 2)), 1_048_576u64, None)
    } else if ends_with(t, "kb"@) {
        (true, trimmed(t.subrange(0, t.len() - 2)), 1024u64, None)
    } else {
        (false, seq![], 0u64, parse_u64(t))
    }
}

pub open spec fn size_spec_view(s: SizeSpec) -> (bool, Seq<char>, u64, Option<u64>) {
    match s {
        SizeSpec::Scaled { number, unit_bytes } => (true, number@, unit_bytes, None),
        SizeSpec::Plain(v) => (false, seq![], 0u64, v),
    }
}

fn ends_with_exec(t: &Vec<char>, suffix: &str) -> (r: bool)
    ensures
        r == ends_with(t@, suffix@),
{
    let s = crate::text::chars_of(suffix);
    if t.len() < s.len() {
        return false;
    }
    let off = t.len() - s.len();
    let mut i: usize = 0;
    while i < s.len()
        invariant
            s@ == suffix@,
            off + s.len() == t.len(),
            i <= s@.len(),
            forall|j: int| 0 <= j < i ==> t@[off + j] == s@[j],
        decreases s.len() - i,
    {
        if t[off + i] != s[i] {
            assert(t@.subrange(off as int, t@.len() as int)[i as int] != s@[i as int]);
            return false;
        }
        i = i + 1;
    }
    assert(t@.subrange(off as int, t@.len() as int) =~= s@);
    true
}

proof fn lemma_digits_value_push(d: Seq<char>, c: char)
    ensures
        digits_value(d.push(c)) == digits_value(d) * 10 + ((c as u32) - ('0' as u32)) as nat,
{
    assert(d.push(c).drop_last() =~= d);
}

proof fn lemma_digits_value_grows(d: Seq<char>, c: char)
    requires
        is_digit(c),
    ensures
        digits_value(d.push(c)) >= digits_value(d) * 10,
{
    lemma_digits_value_push(d, c);
}

/// `u64::from_str` on characters (see `parse_u64`).
pub fn parse_u64_chars(t: &Vec<char>) -> (r: Option<u64>)
    ensures
        r == parse_u64(t@),
{
    let n = t.len();
    let start: usize = if n > 0 && t[0] == '+' { 1 } else { 0 };
    let ghost d = digits_part(t@);
    assert(d =~= t@.subrange(start as int, n as int));
    if start == n {
        return None;
    }
    let mut v: u64 = 0;
    let mut i: usize = start;
    let mut overflow = false;
    while i < n
        invariant
            start <= i <= n == t@.len(),
            d == t@.subrange(start as int, n as int),
            d == digits_part(t@),
            forall|j: int| start <= j < i ==> is_digit(#[trigger] t@[j]),
            !overflow ==> v == digits_value(t@.subrange(start as int, i as int)),
            overflow ==> digits_value(t@.subrange(start as int, i as int)) > u64::MAX,
        decreases n - i,
    {
        let c = t[i];
        if !('0' <= c && c <= '9') {
            assert(d.len() > 0);
            assert(d[i - start] == c);
            assert(!is_digit(d[i - start]));
            assert(!all_digits(d));
            return None;
        }
        let digit = (c as u32 - '0' as u32) as u64;
        proof {
            assert(t@.subrange(start as int, i + 1) =~= t@.subrange(start as int, i as int).push(c));
            lemma_digits_value_push(t@.subrange(start as int, i as int), c);
        }
        if !overflow {
            if v > (u64::MAX - digit) / 10 {
                overflow = true;
                assert(v * 10 + digit > u64::MAX) by (nonlinear_arith)
                    requires
                        v > (u64::MAX - digit) / 10,
                        digit <= 9,
                ;
            } else {
                assert(v * 10 + digit <= u64::MAX) by (nonlinear_arith)
                    requires
                        v <= (u64::MAX - digit) / 10,
                        digit <= 9,
                ;
                v = v * 10 + digit;
            }
        } else {
            proof {
                lemma_digits_value_grows(t@.subrange(start as int, i as int), c);
            }
        }
        i = i + 1;
    }
    assert(t@.subrange(start as int, n as int) =~= d);
    if overflow {
        None
    } else {
        Some(v)
    }
}

/// Reads a minimum size (see `size_spec_of`); the number of a scaled size is left
/// for the caller to read as a decimal fraction.
pub fn split_size(s: &str) -> (r: SizeSpec)
    ensures
        size_spec_view(r) == size_spec_of(s@),
{
    let trimmed_chars = crate::text::trim_chars(&crate::text::chars_of(s));
    let trimmed_str = crate::text::string_from_chars(&trimmed_chars, 0, trimmed_chars.len());
    assert(trimmed_chars@.subrange(0, trimmed_chars@.len() as int) =~= trimmed_chars@);
    let lower = crate::text::to_lowercase(trimmed_str.as_str());
    split_lowered(&crate::text::chars_of(lower.as_str()))
}

/// Reads a trimmed, lower-case minimum size (see `size_spec_of_lowered`).
pub fn split_lowered(t: &Vec<char>) -> (r: SizeSpec)
    ensures
        size_spec_view(r) == size_spec_of_lowered(t@),
{
    let unit: u64 = if ends_with_exec(t, "gb") {
        1_073_741_824
    } else if ends_with_exec(t, "mb") {
        1_048_576
    } else if ends_with_exec(t, "kb") {
        1024
    } else {
        0
    };
    if unit > 0 {
        proof {
            reveal_strlit("gb");
            reveal_strlit("mb");
            reveal_strlit("kb");
        }
        let head = crate::text::string_from_chars(t, 0, t.len() - 2);
        let number_chars = crate::text::trim_chars(&crate::text::chars_of(head.as_str()));
        let number = crate::text::string_from_chars(&number_chars, 0, number_chars.len());
        assert(number_chars@.subrange(0, number_chars@.len() as int) =~= number_chars@);
        SizeSpec::Scaled { number, unit_bytes: unit }
    } else {
        SizeSpec::Plain(parse_u64_chars(t))
    }
}

/// The size of the worker pool: the count given on the command line unless it is
/// zero; with none given, the configured count unless it is zero; otherwise none,
/// and the pool sizes itself to the machine.
pub fn pool_threads(arg: Option<usize>, configured: usize) -> (r: Option<usize>)
    ensures
        r == (match arg {
            Some(t) => if t > 0 { Some(t) } else { None },
            None => if configured > 0 { Some(configured) } else { None },
        }),
{
    match arg {
        Some(t) => if t > 0 { Some(t) } else { None },
        None => if configured > 0 { Some(configured) } else { None },
    }
}

/// Whether an answer to a confirmation prompt says yes: `y` or `Y`, with white
/// space around it.
pub open spec fn confirms(input: Seq<char>) -> bool {
    let t = trimmed(input);
    t.len() == 1 && (t[0] == 'y' || t[0] == 'Y')
}

/// Whether an answer to a confirmation prompt says yes (see `confirms`).
pub fn is_confirmation(input: &str) -> (r: bool)
    ensures
        r == confirms(input@),
{
    let t = crate::text::trim_chars(&crate::text::chars_of(input));
    t.len() == 1 && (t[0] == 'y' || t[0] == 'Y')
}

} // verus!
