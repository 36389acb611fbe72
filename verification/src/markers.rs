//! Numbered text markers of the shape `PREFIX digits CLOSE`, as used by the
//! batch prompts (`[SEG_N]`), the marked EPUB/Markdown documents
//! (`\0EPUB_N\0`, `\0MD_N\0`) and inline-code placeholders (`` `CN` ``).
//! A marker's digits are those of the regular-expression class `\d`;
//! markers are found left to right without overlap, as a regex search does.

use vstd::prelude::*;
use crate::text::{occurs_at, occurs_at_exec, decimal, digit_char};

verus! {

/// Whether the non-ASCII character `c` belongs to the class `\d` of the
/// `regex` crate (Unicode decimal digits, general category `Nd`).
pub uninterp spec fn regex_digit(c: char) -> bool;

/// Asks the `regex` crate whether `c` matches `\d` (`Regex::is_match` on the
/// one-character text). The answer is named [`regex_digit`]; nothing more is
/// stated of it.
#[verifier::external_body]
fn is_regex_digit(c: char) -> (r: bool)
    ensures
        r == regex_digit(c),
{
    let mut buf = [0u8; 4];
    regex::Regex::new(r"^\d$").map(|re| re.is_match(c.encode_utf8(&mut buf))).unwrap_or(false)
}

/// Whether `c` is a digit of a marker, that is, matches `\d`: among ASCII
/// characters exactly `'0'..='9'` do, others as the `regex` crate decides.
pub open spec fn marker_digit(c: char) -> bool {
    if (c as u32) < 128 {
        '0' <= c && c <= '9'
    } else {
        regex_digit(c)
    }
}

/// Whether `c` is a marker digit.
fn marker_digit_exec(c: char) -> (r: bool)
    ensures
        r == marker_digit(c),
{
    if (c as u32) < 128 {
        '0' <= c && c <= '9'
    } else {
        is_regex_digit(c)
    }
}

/// The number of consecutive marker digits of `s` from position `j`.
pub open spec fn digit_run(s: Seq<char>, j: int) -> nat
    decreases s.len() - j,
{
    if 0 <= j < s.len() && marker_digit(s[j]) {
        1 + digit_run(s, j + 1)
    } else {
        0
    }
}

/// The length of the marker that starts at `i`, if one does.
pub open spec fn marker_len_at(s: Seq<char>, i: int, prefix: Seq<char>, close: char) -> Option<
    nat,
> {
    if occurs_at(s, i, prefix) {
        let d = digit_run(s, i + prefix.len());
        let e = i + prefix.len() + d;
        if d > 0 && e < s.len() && s[e] == close {
            Some((prefix.len() + d + 1) as nat)
        } else {
            None
        }
    } else {
        None
    }
}

/// The spans `(start, end)` of the markers of `s` found from position `i`
/// on, leftmost first and without overlap.
pub open spec fn markers_from(s: Seq<char>, i: int, prefix: Seq<char>, close: char) -> Seq<
    (int, int),
>
    decreases s.len() - i,
{
    if i < 0 || i >= s.len() {
        Seq::empty()
    } else {
        match marker_len_at(s, i, prefix, close) {
            Some(l) => seq![(i, i + l)] + markers_from(s, i + l, prefix, close),
            None => markers_from(s, i + 1, prefix, close),
        }
    }
}

/// The markers of `s`.
pub open spec fn markers(s: Seq<char>, prefix: Seq<char>, close: char) -> Seq<(int, int)> {
    markers_from(s, 0, prefix, close)
}

/// The digits of the marker spanning `m`.
pub open spec fn marker_digits(s: Seq<char>, m: (int, int), prefix: Seq<char>) -> Seq<char> {
    s.subrange(m.0 + prefix.len(), m.1 - 1)
}

/// Markers found from `i` lie in `[i, s.len())`, are non-empty, ordered and
/// do not overlap.
pub proof fn lemma_markers_from_spans(s: Seq<char>, i: int, prefix: Seq<char>, close: char)
    requires
        0 <= i,
    ensures
        ({
            let m = markers_from(s, i, prefix, close);
            &&& forall|k: int| 0 <= k < m.len() ==> i <= #[trigger] m[k].0 && m[k].0 < m[k].1 <= s.len()
            &&& forall|k: int| 0 <= k < m.len() - 1 ==> #[trigger] m[k].1 <= m[k + 1].0
            &&& forall|k: int|
                0 <= k < m.len() ==> marker_len_at(s, #[trigger] m[k].0, prefix, close) == Some(
                    (m[k].1 - m[k].0) as nat,
                )
        }),
    decreases s.len() - i,
{
    if i < s.len() {
        match marker_len_at(s, i, prefix, close) {
            Some(l) => {
                lemma_markers_from_spans(s, i + l, prefix, close);
                let rest = markers_from(s, i + l, prefix, close);
                let m = markers_from(s, i, prefix, close);
                assert(m == seq![(i, i + l)] + rest);
                assert forall|k: int| 0 <= k < m.len() - 1 implies #[trigger] m[k].1 <= m[k
                    + 1].0 by {
                    if k > 0 {
                        assert(m[k] == rest[k - 1]);
                        assert(m[k + 1] == rest[k]);
                    } else {
                        assert(m[1] == rest[0]);
                    }
                }
                assert forall|k: int| 0 <= k < m.len() implies i <= #[trigger] m[k].0 && m[k].0
                    < m[k].1 <= s.len() by {
                    if k > 0 {
                        assert(m[k] == rest[k - 1]);
                    }
                }
                assert forall|k: int| 0 <= k < m.len() implies marker_len_at(
                    s,
                    #[trigger] m[k].0,
                    prefix,
                    close,
                ) == Some((m[k].1 - m[k].0) as nat) by {
                    if k > 0 {
                        assert(m[k] == rest[k - 1]);
                    }
                }
            },
            None => {
                lemma_markers_from_spans(s, i + 1, prefix, close);
                let m = markers_from(s, i, prefix, close);
                assert(m == markers_from(s, i + 1, prefix, close));
                assert forall|k: int| 0 <= k < m.len() implies i <= #[trigger] m[k].0 && m[k].0
                    < m[k].1 <= s.len() by {}
            },
        }
    }
}

fn digit_run_exec(s: &[char], j: usize) -> (r: usize)
    requires
        j <= s@.len(),
    ensures
        r == digit_run(s@, j as int),
        j + r <= s@.len(),
{
    let mut k = j;
    while k < s.len() && marker_digit_exec(s[k])
        invariant
            j <= k <= s@.len(),
            digit_run(s@, j as int) == (k - j) + digit_run(s@, k as int),
        decreases s@.len() - k,
    {
        k = k + 1;
    }
    k - j
}

/// The length of the marker that starts at `i`, if one does.
pub fn marker_len_at_exec(s: &[char], i: usize, prefix: &[char], close: char) -> (r: Option<
    usize,
>)
    requires
        i <= s@.len(),
    ensures
        match r {
            Some(l) => marker_len_at(s@, i as int, prefix@, close) == Some(l as nat) && i + l
                <= s@.len(),
            None => marker_len_at(s@, i as int, prefix@, close) is None,
        },
{
    if !occurs_at_exec(s, i, prefix) {
        return None;
    }
    let n = s.len();
    assert(n == s@.len());
    let d = digit_run_exec(s, i + prefix.len());
    let e = i + prefix.len() + d;
    if d > 0 && e < s.len() && s[e] == close {
        Some(prefix.len() + d + 1)
    } else {
        None
    }
}

/// The spans of the markers of `s`, left to right.
pub fn find_markers(s: &[char], prefix: &[char], close: char) -> (r: Vec<(usize, usize)>)
    ensures
        r@.len() == markers(s@, prefix@, close).len(),
        forall|k: int|
            0 <= k < r@.len() ==> (#[trigger] r@[k]).0 == markers(s@, prefix@, close)[k].0
                && r@[k].1 == markers(s@, prefix@, close)[k].1,
{
    let mut out: Vec<(usize, usize)> = Vec::new();
    let ghost mut acc: Seq<(int, int)> = Seq::empty();
    let mut i: usize = 0;
    while i < s.len()
        invariant
            i <= s@.len(),
            acc + markers_from(s@, i as int, prefix@, close) == markers(s@, prefix@, close),
            out@.len() == acc.len(),
            forall|k: int| 0 <= k < out@.len() ==> (#[trigger] out@[k]).0 == acc[k].0 && out@[k].1
                == acc[k].1,
        decreases s@.len() - i,
    {
        match marker_len_at_exec(s, i, prefix, close) {
            Some(l) => {
                proof {
                    assert(markers_from(s@, i as int, prefix@, close) == seq![(i as int, i + l)]
                        + markers_from(s@, i + l, prefix@, close));
                    assert(acc.push((i as int, i + l)) + markers_from(s@, i + l, prefix@, close)
                        =~= acc + markers_from(s@, i as int, prefix@, close));
                    acc = acc.push((i as int, (i + l) as int));
                }
                out.push((i, i + l));
                i = i + l;
            },
            None => {
                i = i + 1;
            },
        }
    }
    assert(markers_from(s@, i as int, prefix@, close) == Seq::<(int, int)>::empty());
    assert(acc =~= markers(s@, prefix@, close));
    out
}

/// Whether `c` is one of `'0'..='9'`.
pub open spec fn is_ascii_digit(c: char) -> bool {
    '0' <= c && c <= '9'
}

/// The value of a string of ASCII digits.
pub open spec fn digits_value(s: Seq<char>) -> nat
    decreases s.len(),
{
    if s.len() == 0 {
        0
    } else {
        digits_value(s.drop_last()) * 10 + ((s.last() as u32) - ('0' as u32)) as nat
    }
}

/// Whether `t` is one or more ASCII digits.
pub open spec fn all_ascii_digits(t: Seq<char>) -> bool {
    t.len() > 0 && forall|i: int| 0 <= i < t.len() ==> is_ascii_digit(#[trigger] t[i])
}

/// `s` without one leading `+`, if it has one.
pub open spec fn without_plus(s: Seq<char>) -> Seq<char> {
    if s.len() > 0 && s[0] == '+' {
        s.drop_first()
    } else {
        s
    }
}

/// What `str::parse::<usize>` gives: an optional `+`, then one or more
/// ASCII digits whose value fits in a `usize`.
pub open spec fn parse_usize(s: Seq<char>) -> Option<usize> {
    let t = without_plus(s);
    if all_ascii_digits(t) && digits_value(t) <= usize::MAX {
        Some(digits_value(t) as usize)
    } else {
        None
    }
}

proof fn lemma_digits_value_prefix(s: Seq<char>, k: int)
    requires
        0 <= k <= s.len(),
        forall|i: int| 0 <= i < s.len() ==> is_ascii_digit(#[trigger] s[i]),
    ensures
        digits_value(s.subrange(0, k)) <= digits_value(s),
    decreases s.len() - k,
{
    if k < s.len() {
        lemma_digits_value_prefix(s, k + 1);
        assert(s.subrange(0, k + 1).drop_last() =~= s.subrange(0, k));
    } else {
        assert(s.subrange(0, k) =~= s);
    }
}

/// `str::parse::<usize>` on a string of characters.
pub fn parse_usize_exec(s: &[char]) -> (r: Option<usize>)
    ensures
        r == parse_usize(s@),
{
    let start: usize = if s.len() > 0 && s[0] == '+' {
        1
    } else {
        0
    };
    let ghost t = without_plus(s@);
    assert(t =~= s@.subrange(start as int, s@.len() as int));
    if start >= s.len() {
        return None;
    }
    let mut i = start;
    while i < s.len()
        invariant
            start <= i <= s@.len(),
            t =~= s@.subrange(start as int, s@.len() as int),
            t == without_plus(s@),
            forall|j: int| start <= j < i ==> is_ascii_digit(#[trigger] s@[j]),
        decreases s@.len() - i,
    {
        if !('0' <= s[i] && s[i] <= '9') {
            assert(t[i - start] == s@[i as int]);
            assert(!is_ascii_digit(t[i - start]));
            return None;
        }
        i = i + 1;
    }
    assert(forall|j: int| 0 <= j < t.len() ==> is_ascii_digit(#[trigger] t[j])) by {
        assert forall|j: int| 0 <= j < t.len() implies is_ascii_digit(#[trigger] t[j]) by {
            assert(t[j] == s@[start + j]);
        }
    }
    let mut v: usize = 0;
    let mut k = start;
    while k < s.len()
        invariant
            start <= k <= s@.len(),
            t =~= s@.subrange(start as int, s@.len() as int),
            t == without_plus(s@),
            forall|j: int| 0 <= j < t.len() ==> is_ascii_digit(#[trigger] t[j]),
            v as nat == digits_value(t.subrange(0, k - start)),
        decreases s@.len() - k,
    {
        assert(t[k - start] == s@[k as int]);
        assert(is_ascii_digit(t[k - start]));
        let d = (s[k] as u32 - '0' as u32) as usize;
        assert(t.subrange(0, k + 1 - start).drop_last() =~= t.subrange(0, k - start));
        assert(t.subrange(0, k + 1 - start).last() == s@[k as int]);
        match v.checked_mul(10) {
            Some(v10) => match v10.checked_add(d) {
                Some(nv) => {
                    v = nv;
                },
                None => {
                    proof {
                        lemma_digits_value_prefix(t, k + 1 - start);
                    }
                    return None;
                },
            },
            None => {
                proof {
                    lemma_digits_value_prefix(t, k + 1 - start);
                }
                return None;
            },
        }
        k = k + 1;
    }
    assert(t.subrange(0, t.len() as int) =~= t);
    Some(v)
}

proof fn lemma_digit_char_value(k: int)
    requires
        0 <= k < 10,
    ensures
        (digit_char(k) as u32) - ('0' as u32) == k,
        is_ascii_digit(digit_char(k)),
{
}

/// The decimal text of `n` is one or more ASCII digits (so marker digits)
/// whose value is `n`; it parses back to `n` where `n` fits in a `usize`.
pub proof fn lemma_decimal_parses(n: nat)
    ensures
        all_ascii_digits(decimal(n)),
        forall|i: int| 0 <= i < decimal(n).len() ==> marker_digit(#[trigger] decimal(n)[i]),
        digits_value(decimal(n)) == n,
        n <= usize::MAX ==> parse_usize(decimal(n)) == Some(n as usize),
    decreases n,
{
    let d = decimal(n);
    lemma_digit_char_value((n % 10) as int);
    if n < 10 {
        assert(d.drop_last() =~= Seq::<char>::empty());
        assert(d.last() == digit_char(n as int));
        assert(digits_value(d) == digits_value(d.drop_last()) * 10 + ((d.last() as u32) - ('0' as u32)) as nat);
    } else {
        lemma_decimal_parses(n / 10);
        assert(d.drop_last() =~= decimal(n / 10));
        assert(d.last() == digit_char((n % 10) as int));
        assert(digits_value(d) == digits_value(d.drop_last()) * 10 + ((d.last() as u32) - ('0' as u32)) as nat);
        assert(digits_value(d) == (n / 10) * 10 + n % 10);
        assert forall|i: int| 0 <= i < d.len() implies is_ascii_digit(#[trigger] d[i]) by {
            if i < d.len() - 1 {
                assert(d[i] == decimal(n / 10)[i]);
            }
        }
    }
    assert(forall|i: int| 0 <= i < d.len() ==> is_ascii_digit(#[trigger] d[i]));
    assert(d[0] != '+');
    assert(without_plus(d) == d);
}

} // verus!
