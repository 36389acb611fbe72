//! Probes of code blocks in XHTML text: how many `<code`/`<pre` openings it
//! has and the text of the first non-empty block.

use vstd::prelude::*;
use crate::text::{chars_of, string_from, occurs_at, occurs_at_exec, trim, trim_range};

verus! {

/// The number of non-overlapping occurrences of `p` in `s` from position
/// `i` on, taken left to right (`str::matches(p).count()`).
pub open spec fn occurrences_from(s: Seq<char>, i: int, p: Seq<char>) -> nat
    decreases s.len() - i,
{
    if i < 0 || p.len() == 0 || i + p.len() > s.len() {
        0
    } else if occurs_at(s, i, p) {
        1 + occurrences_from(s, i + p.len(), p)
    } else {
        occurrences_from(s, i + 1, p)
    }
}

/// The first position at or after `i` where the non-empty `p` occurs in `s`
/// (`str::find`).
pub open spec fn find_from(s: Seq<char>, i: int, p: Seq<char>) -> Option<int>
    decreases s.len() - i,
{
    if i < 0 || i >= s.len() || i + p.len() > s.len() {
        None
    } else if occurs_at(s, i, p) {
        Some(i)
    } else {
        find_from(s, i + 1, p)
    }
}

fn occurrences_exec(s: &[char], p: &[char]) -> (r: usize)
    requires
        p@.len() > 0,
    ensures
        r == occurrences_from(s@, 0, p@),
{
    let mut count: usize = 0;
    let mut i: usize = 0;
    while i < s.len() && p.len() <= s.len() - i
        invariant
            i <= s@.len(),
            p@.len() > 0,
            count + occurrences_from(s@, i as int, p@) == occurrences_from(s@, 0, p@),
            count <= i,
        decreases s@.len() - i,
    {
        if occurs_at_exec(s, i, p) {
            count = count + 1;
            i = i + p.len();
        } else {
            i = i + 1;
        }
    }
    count
}

fn find_from_exec(s: &[char], i: usize, p: &[char]) -> (r: Option<usize>)
    requires
        i <= s@.len(),
    ensures
        match r {
            Some(j) => find_from(s@, i as int, p@) == Some(j as int),
            None => find_from(s@, i as int, p@) is None,
        },
{
    let mut j = i;
    while j < s.len() && p.len() <= s.len() - j
        invariant
            i <= j <= s@.len(),
            find_from(s@, i as int, p@) == find_from(s@, j as int, p@),
        decreases s@.len() - j,
    {
        if occurs_at_exec(s, j, p) {
            return Some(j);
        }
        j = j + 1;
    }
    None
}

/// The number of `<code` and `<pre` openings in `html`.
pub open spec fn code_block_count(html: Seq<char>) -> nat {
    occurrences_from(html, 0, "<code"@) + occurrences_from(html, 0, "<pre"@)
}

/// Count the code blocks in an XHTML text: its `<code` and `<pre`
/// openings.
pub fn count_code_blocks(html: &str) -> (r: usize)
    ensures
        r == code_block_count(html@),
{
    let s = chars_of(html);
    let n = s.len();
    let code = chars_of("<code");
    let pre = chars_of("<pre");
    proof {
        reveal_strlit("<code");
        reveal_strlit("<pre");
    }
    let a = occurrences_exec(s.as_slice(), code.as_slice());
    let b = occurrences_exec(s.as_slice(), pre.as_slice());
    proof {
        lemma_occurrences_bound(s@, 0, code@);
        lemma_occurrences_bound(s@, 0, pre@);
        assert(code@.len() == 5);
        assert(pre@.len() == 4);
        assert(a * 5 <= s@.len());
        assert(b * 4 <= s@.len());
        assert(s@.len() == n);
        assert(a + b <= n);
    }
    a + b
}

proof fn lemma_occurrences_bound(s: Seq<char>, i: int, p: Seq<char>)
    requires
        0 <= i <= s.len(),
    ensures
        occurrences_from(s, i, p) * p.len() <= s.len() - i,
    decreases s.len() - i,
{
    let l = p.len() as int;
    let n = occurrences_from(s, i, p) as int;
    if p.len() == 0 || i + p.len() > s.len() {
        assert(n == 0);
        assert(n * l == 0) by (nonlinear_arith)
            requires
                n == 0,
        ;
    } else if occurs_at(s, i, p) {
        lemma_occurrences_bound(s, i + l, p);
        let k = occurrences_from(s, i + l, p) as int;
        assert(n == 1 + k);
        assert(n * l == l + k * l) by (nonlinear_arith)
            requires
                n == 1 + k,
        ;
    } else {
        lemma_occurrences_bound(s, i + 1, p);
        let k = occurrences_from(s, i + 1, p) as int;
        assert(n == k);
    }
}

/// What a look for one kind of block finds.
pub enum CodeProbe {
    /// A block with this non-empty trimmed text
    Found(Seq<char>),
    /// No such block with text; the next kind is to be tried
    Missing,
    /// An opening without a `>` after it: the search ends
    Broken,
}

/// The first block opened by `open` and closed by `close` in `s`: from the
/// first `open`, its content runs from after the next `>` to the next
/// `close`.
pub open spec fn probe_block(s: Seq<char>, open: Seq<char>, close: Seq<char>) -> CodeProbe {
    match find_from(s, 0, open) {
        None => CodeProbe::Missing,
        Some(start) => match find_from(s, start, seq!['>']) {
            None => CodeProbe::Broken,
            Some(gt) => match find_from(s, gt + 1, close) {
                None => CodeProbe::Missing,
                Some(end) => {
                    let t = trim(s.subrange(gt + 1, end));
                    if t.len() > 0 {
                        CodeProbe::Found(t)
                    } else {
                        CodeProbe::Missing
                    }
                },
            },
        },
    }
}

/// The text of the first non-empty `<code>` block of `html`, else of the
/// first non-empty `<pre>` block.
pub open spec fn first_code_text(html: Seq<char>) -> Option<Seq<char>> {
    match probe_block(html, "<code"@, "</code>"@) {
        CodeProbe::Found(t) => Some(t),
        CodeProbe::Broken => None,
        CodeProbe::Missing => match probe_block(html, "<pre"@, "</pre>"@) {
            CodeProbe::Found(t) => Some(t),
            _ => None,
        },
    }
}

fn probe_block_exec(s: &[char], open: &[char], close: &[char]) -> (r: (bool, Option<Vec<char>>))
    ensures
        match probe_block(s@, open@, close@) {
            CodeProbe::Found(t) => !r.0 && r.1 is Some && r.1->Some_0@ == t,
            CodeProbe::Missing => !r.0 && r.1 is None,
            CodeProbe::Broken => r.0 && r.1 is None,
        },
{
    let n = s.len();
    let mut gt_char: Vec<char> = Vec::new();
    gt_char.push('>');
    assert(gt_char@ =~= seq!['>']);
    match find_from_exec(s, 0, open) {
        None => (false, None),
        Some(start) => {
            proof { lemma_find_from_bound(s@, 0, open@); }
            match find_from_exec(s, start, gt_char.as_slice()) {
                None => (true, None),
                Some(gt) => {
                    proof {
                        lemma_find_from_bound(s@, start as int, seq!['>']);
                        assert(gt + 1 <= n);
                    }
                    match find_from_exec(s, gt + 1, close) {
                        None => (false, None),
                        Some(end) => {
                            proof { lemma_find_from_bound(s@, gt + 1, close@); }
                            let t = trim_range(s, gt + 1, end);
                            if t.len() > 0 {
                                (false, Some(t))
                            } else {
                                (false, None)
                            }
                        },
                    }
                },
            }
        },
    }
}

proof fn lemma_find_from_bound(s: Seq<char>, i: int, p: Seq<char>)
    ensures
        find_from(s, i, p) matches Some(j) ==> i <= j && j + p.len() <= s.len() && occurs_at(s, j, p),
    decreases s.len() - i,
{
    if !(i < 0 || i >= s.len() || i + p.len() > s.len()) && !occurs_at(s, i, p) {
        lemma_find_from_bound(s, i + 1, p);
    }
}

/// Extract text from the first `<code>` or `<pre>` block found in HTML.
pub fn extract_first_code_text(html: &str) -> (r: Option<String>)
    ensures
        match first_code_text(html@) {
            Some(t) => r is Some && r->Some_0@ == t,
            None => r is None,
        },
{
    let s = chars_of(html);
    let code_open = chars_of("<code");
    let code_close = chars_of("</code>");
    let (broken, found) = probe_block_exec(s.as_slice(), code_open.as_slice(), code_close.as_slice());
    if let Some(t) = found {
        return Some(string_from(t.as_slice()));
    }
    if broken {
        return None;
    }
    let pre_open = chars_of("<pre");
    let pre_close = chars_of("</pre>");
    let (_, found) = probe_block_exec(s.as_slice(), pre_open.as_slice(), pre_close.as_slice());
    match found {
        Some(t) => Some(string_from(t.as_slice())),
        None => None,
    }
}

} // verus!
