//! Batch prompts for the LLM: segments are sent wrapped in `[SEG_N]`
//! markers, and the reply is split back into one translation per marker.

use vstd::prelude::*;
use crate::language::{Language, ietf_tag};
use crate::markers::{
    markers, marker_digits, parse_usize, lemma_markers_from_spans, find_markers, parse_usize_exec,
    markers_from, marker_len_at, lemma_decimal_parses, digit_run, marker_digit,
};
use crate::export::{lacks_char, lemma_marker_len_shift, lemma_marker_at_front};
use crate::text::{
    chars_of, decimal, decimal_chars, push_all, push_str, string_from, sub_chars, trim, trim_range,
    occurs_at, trim_start, trim_end, is_white_space,
};

verus! {

broadcast use vstd::seq_lib::group_to_multiset_ensures;

/// The marker prefix of batch segments.
pub open spec fn seg_prefix() -> Seq<char> {
    "[SEG_"@
}

/// The fixed instructions that open a batch prompt for `n` segments.
pub open spec fn batch_prompt_header(n: nat, source: Language, target: Language) -> Seq<char> {
    "Translate the following "@ + decimal(n) + " segments from "@ + ietf_tag(source) + " to "@
        + ietf_tag(target)
        + ".\nEach segment is wrapped in [SEG_N] markers.\nIn your response, preserve the [SEG_N] markers exactly.\nPlace each translation immediately after its marker.\nDO NOT translate code, variable names, or technical identifiers.\n"@
}

/// One segment of a batch prompt: `\n[SEG_idx]\ntext\n`.
pub open spec fn batch_prompt_item(idx: usize, text: Seq<char>) -> Seq<char> {
    "\n[SEG_"@ + decimal(idx as nat) + "]\n"@ + text + "\n"@
}

/// The segments of a batch prompt, in order.
pub open spec fn batch_prompt_items(segs: Seq<(usize, Seq<char>)>) -> Seq<char>
    decreases segs.len(),
{
    if segs.len() == 0 {
        Seq::empty()
    } else {
        batch_prompt_items(segs.drop_last()) + batch_prompt_item(segs.last().0, segs.last().1)
    }
}

/// The views of `(index, text)` pairs.
pub open spec fn pairs_view(segs: Seq<(usize, &str)>) -> Seq<(usize, Seq<char>)> {
    segs.map_values(|p: (usize, &str)| (p.0, p.1@))
}

/// The prompt that asks for the translation of `segs`.
pub open spec fn batch_prompt(segs: Seq<(usize, Seq<char>)>, source: Language, target: Language) -> Seq<char> {
    batch_prompt_header(segs.len(), source, target) + batch_prompt_items(segs)
}

/// Build a batch translation prompt for multiple segments.
///
/// Generates a prompt that asks the LLM to translate N segments from source
/// to target language, wrapping each segment in `[SEG_N]` markers so the
/// response can be parsed programmatically.
pub fn build_batch_prompt(segments: &[(usize, &str)], source: &Language, target: &Language) -> (r: String)
    ensures
        r@ == batch_prompt(pairs_view(segments@), *source, *target),
{
    let mut out: Vec<char> = Vec::new();
    push_str(&mut out, "Translate the following ");
    let n = decimal_chars(segments.len() as u64);
    push_all(&mut out, n.as_slice());
    push_str(&mut out, " segments from ");
    push_str(&mut out, source.to_ietf_tag());
    push_str(&mut out, " to ");
    push_str(&mut out, target.to_ietf_tag());
    push_str(
        &mut out,
        ".\nEach segment is wrapped in [SEG_N] markers.\nIn your response, preserve the [SEG_N] markers exactly.\nPlace each translation immediately after its marker.\nDO NOT translate code, variable names, or technical identifiers.\n",
    );
    let ghost header = out@;
    assert(header =~= batch_prompt_header(segments@.len(), *source, *target));
    let ghost segs = pairs_view(segments@);
    let mut i: usize = 0;
    while i < segments.len()
        invariant
            i <= segments@.len(),
            segs == pairs_view(segments@),
            out@ == header + batch_prompt_items(segs.subrange(0, i as int)),
        decreases segments@.len() - i,
    {
        let (idx, text) = segments[i];
        let ghost before = out@;
        push_str(&mut out, "\n[SEG_");
        let d = decimal_chars(idx as u64);
        push_all(&mut out, d.as_slice());
        push_str(&mut out, "]\n");
        push_str(&mut out, text);
        push_str(&mut out, "\n");
        assert(segs.subrange(0, i + 1).drop_last() =~= segs.subrange(0, i as int));
        assert(segs.subrange(0, i + 1).last() == (idx, text@));
        assert(out@ =~= before + batch_prompt_item(idx, text@));
        i = i + 1;
    }
    assert(segs.subrange(0, segments@.len() as int) =~= segs);
    string_from(out.as_slice())
}

/// The instruction put in front of a prompt that is sent again.
pub open spec fn retry_prompt(original: Seq<char>) -> Seq<char> {
    "CRITICAL: You must preserve ALL [SEG_N] markers exactly as shown in your response. Do not skip, merge, or modify any markers.\n\n"@
        + original
}

/// Build a retry prompt for a failed batch translation.
///
/// Prepends a critical instruction reminding the LLM to preserve all
/// `[SEG_N]` markers exactly.
pub fn build_retry_prompt(original_prompt: &str) -> (r: String)
    ensures
        r@ == retry_prompt(original_prompt@),
{
    let mut out: Vec<char> = Vec::new();
    push_str(
        &mut out,
        "CRITICAL: You must preserve ALL [SEG_N] markers exactly as shown in your response. Do not skip, merge, or modify any markers.\n\n",
    );
    push_str(&mut out, original_prompt);
    string_from(out.as_slice())
}

/// Inserts `e` after the last element whose index is not above `e`'s,
/// scanning from the back.
pub open spec fn insert_by_index<T>(s: Seq<(usize, T)>, e: (usize, T)) -> Seq<(usize, T)>
    decreases s.len(),
{
    if s.len() == 0 {
        seq![e]
    } else if s.last().0 <= e.0 {
        s.push(e)
    } else {
        insert_by_index(s.drop_last(), e).push(s.last())
    }
}

/// `s` sorted by index, keeping the order of equal indices (a stable
/// insertion sort, as `sort_by_key` sorts).
pub open spec fn sort_by_index<T>(s: Seq<(usize, T)>) -> Seq<(usize, T)>
    decreases s.len(),
{
    if s.len() == 0 {
        s
    } else {
        insert_by_index(sort_by_index(s.drop_last()), s.last())
    }
}

/// Whether the indices of `s` never decrease.
pub open spec fn sorted_by_index<T>(s: Seq<(usize, T)>) -> bool {
    forall|i: int, j: int| 0 <= i < j < s.len() ==> s[i].0 <= s[j].0
}

proof fn lemma_insert_bound<T>(s: Seq<(usize, T)>, e: (usize, T), b: usize)
    requires
        forall|i: int| 0 <= i < s.len() ==> s[i].0 <= b,
        e.0 <= b,
    ensures
        forall|i: int| 0 <= i < insert_by_index(s, e).len() ==> insert_by_index(s, e)[i].0 <= b,
    decreases s.len(),
{
    if s.len() == 0 {
        assert(insert_by_index(s, e) =~= seq![e]);
    } else if s.last().0 <= e.0 {
        assert(insert_by_index(s, e) =~= s.push(e));
        assert forall|i: int| 0 <= i < insert_by_index(s, e).len() implies insert_by_index(s, e)[i].0 <= b by {
            if i < s.len() {
                assert(insert_by_index(s, e)[i] == s[i]);
            }
        }
    } else {
        let t = s.drop_last();
        lemma_insert_bound(t, e, b);
        let r = insert_by_index(t, e);
        assert(insert_by_index(s, e) == r.push(s.last()));
        assert forall|i: int| 0 <= i < insert_by_index(s, e).len() implies insert_by_index(s, e)[i].0 <= b by {
            if i < r.len() {
                assert(insert_by_index(s, e)[i] == r[i]);
            } else {
                assert(insert_by_index(s, e)[i] == s.last());
            }
        }
    }
}

proof fn lemma_insert_sorted<T>(s: Seq<(usize, T)>, e: (usize, T))
    requires
        sorted_by_index(s),
    ensures
        sorted_by_index(insert_by_index(s, e)),
        insert_by_index(s, e).to_multiset() =~= s.to_multiset().insert(e),
        insert_by_index(s, e).len() == s.len() + 1,
    decreases s.len(),
{
    if s.len() == 0 {
        assert(seq![e] =~= Seq::<(usize, T)>::empty().push(e));
    } else if s.last().0 <= e.0 {
    } else {
        let t = s.drop_last();
        lemma_insert_sorted(t, e);
        lemma_insert_bound(t, e, s.last().0);
        assert(t.push(s.last()) =~= s);
    }
}

/// Sorting by index gives a sequence sorted by index with the same elements.
pub proof fn lemma_sort_by_index<T>(s: Seq<(usize, T)>)
    ensures
        sorted_by_index(sort_by_index(s)),
        sort_by_index(s).to_multiset() =~= s.to_multiset(),
        sort_by_index(s).len() == s.len(),
    decreases s.len(),
{
    if s.len() > 0 {
        lemma_sort_by_index(s.drop_last());
        lemma_insert_sorted(sort_by_index(s.drop_last()), s.last());
        assert(s.drop_last().push(s.last()) =~= s);
    }
}

/// The position at which `insert_by_index` puts `e`.
fn insert_position(v: &Vec<(usize, Vec<char>)>, key: usize) -> (j: usize)
    ensures
        j <= v@.len(),
        forall|k: int| j <= k < v@.len() ==> v@[k].0 > key,
        j == 0 || v@[j - 1].0 <= key,
{
    let mut j = v.len();
    while j > 0 && v[j - 1].0 > key
        invariant
            j <= v@.len(),
            forall|k: int| j <= k < v@.len() ==> v@[k].0 > key,
        decreases j,
    {
        j = j - 1;
    }
    j
}

proof fn lemma_insert_at<T>(s: Seq<(usize, T)>, e: (usize, T), j: int)
    requires
        0 <= j <= s.len(),
        forall|k: int| j <= k < s.len() ==> s[k].0 > e.0,
        j == 0 || s[j - 1].0 <= e.0,
    ensures
        insert_by_index(s, e) == s.insert(j, e),
    decreases s.len(),
{
    if s.len() == 0 {
        assert(s.insert(j, e) =~= seq![e]);
    } else if s.last().0 <= e.0 {
        assert(s.insert(j, e) =~= s.push(e));
    } else {
        lemma_insert_at(s.drop_last(), e, j);
        assert(s.drop_last().insert(j, e).push(s.last()) =~= s.insert(j, e));
    }
}

/// The view of an exec `(index, text)` list.
pub open spec fn entries_view(v: Seq<(usize, Vec<char>)>) -> Seq<(usize, Seq<char>)> {
    v.map_values(|e: (usize, Vec<char>)| (e.0, e.1@))
}

/// The text that follows the `k`-th marker up to the next marker (or the end).
pub open spec fn text_after_marker(s: Seq<char>, m: Seq<(int, int)>, k: int) -> Seq<char> {
    s.subrange(m[k].1, if k + 1 < m.len() { m[k + 1].0 } else { s.len() as int })
}

/// The `(index, trimmed text)` entries of the markers of a batch reply.
pub open spec fn batch_entries(s: Seq<char>) -> Seq<(usize, Seq<char>)> {
    let m = markers(s, seg_prefix(), ']');
    Seq::new(
        m.len(),
        |k: int|
            (
                parse_usize(marker_digits(s, m[k], seg_prefix())).unwrap(),
                trim(text_after_marker(s, m, k)),
            ),
    )
}

/// The position of the first marker, from the `k`-th on, whose digits do not
/// parse as a `usize`.
pub open spec fn first_bad_marker(s: Seq<char>, m: Seq<(int, int)>, k: int) -> Option<int>
    decreases m.len() - k,
{
    if k < 0 || k >= m.len() {
        None
    } else if parse_usize(marker_digits(s, m[k], seg_prefix())) is None {
        Some(k)
    } else {
        first_bad_marker(s, m, k + 1)
    }
}

/// The error for a reply with `found` markers where `expected` were asked.
pub open spec fn count_error(expected: nat, found: nat) -> Seq<char> {
    "Expected "@ + decimal(expected) + " translations in batch response, but found "@ + decimal(
        found,
    )
}

/// What a batch reply parses to: the translations ordered by segment
/// index, or the error.
pub open spec fn batch_response(s: Seq<char>, expected: nat) -> Result<Seq<Seq<char>>, Seq<char>> {
    let m = markers(s, seg_prefix(), ']');
    match first_bad_marker(s, m, 0) {
        Some(k) => Err("Invalid segment index in response: "@ + s.subrange(m[k].0, m[k].1)),
        None => if m.len() == 0 || m.len() != expected {
            Err(count_error(expected, m.len()))
        } else {
            Ok(sort_by_index(batch_entries(s)).map_values(|e: (usize, Seq<char>)| e.1))
        },
    }
}

proof fn lemma_first_bad_step(s: Seq<char>, m: Seq<(int, int)>, k: int)
    requires
        0 <= k < m.len(),
        forall|j: int| 0 <= j < k ==> parse_usize(marker_digits(s, #[trigger] m[j], seg_prefix())) is Some,
    ensures
        first_bad_marker(s, m, 0) == first_bad_marker(s, m, k),
    decreases k,
{
    if k > 0 {
        lemma_first_bad_step(s, m, k - 1);
    }
}

proof fn lemma_first_bad_none_all(s: Seq<char>, m: Seq<(int, int)>)
    requires
        forall|j: int| 0 <= j < m.len() ==> parse_usize(marker_digits(s, #[trigger] m[j], seg_prefix())) is Some,
    ensures
        first_bad_marker(s, m, 0) is None,
{
    lemma_first_bad_tail(s, m, m.len() as int);
    assert(m.len() - m.len() == 0);
}

proof fn lemma_first_bad_tail(s: Seq<char>, m: Seq<(int, int)>, k: int)
    requires
        0 <= k <= m.len(),
        forall|j: int| 0 <= j < m.len() ==> parse_usize(marker_digits(s, #[trigger] m[j], seg_prefix())) is Some,
    ensures
        first_bad_marker(s, m, m.len() - k) is None,
    decreases k,
{
    if k > 0 {
        lemma_first_bad_tail(s, m, k - 1);
        let j = m.len() - k;
        assert(parse_usize(marker_digits(s, m[j], seg_prefix())) is Some);
    }
}

fn insert_entry(sorted: &mut Vec<(usize, Vec<char>)>, idx: usize, text: Vec<char>)
    ensures
        entries_view(final(sorted)@) == insert_by_index(entries_view(old(sorted)@), (idx, text@)),
{
    let ghost e = (idx, text@);
    let j = insert_position(sorted, idx);
    let ghost before = sorted@;
    proof {
        lemma_insert_at(entries_view(before), e, j as int);
    }
    sorted.insert(j, (idx, text));
    assert(entries_view(sorted@) =~= entries_view(before).insert(j as int, e));
}

fn invalid_index_error(s: &[char], a: usize, b: usize) -> (r: String)
    requires
        a <= b <= s@.len(),
    ensures
        r@ == "Invalid segment index in response: "@ + s@.subrange(a as int, b as int),
{
    let mut msg: Vec<char> = Vec::new();
    push_str(&mut msg, "Invalid segment index in response: ");
    let whole = sub_chars(s, a, b);
    push_all(&mut msg, whole.as_slice());
    string_from(msg.as_slice())
}

fn count_error_string(expected: usize, found: usize) -> (r: String)
    ensures
        r@ == count_error(expected as nat, found as nat),
{
    let mut msg: Vec<char> = Vec::new();
    push_str(&mut msg, "Expected ");
    let e = decimal_chars(expected as u64);
    push_all(&mut msg, e.as_slice());
    push_str(&mut msg, " translations in batch response, but found ");
    let f = decimal_chars(found as u64);
    push_all(&mut msg, f.as_slice());
    string_from(msg.as_slice())
}

/// Parse a batch LLM response into individual translations.
///
/// Finds the `[SEG_N]` markers and the text that follows each.
/// Returns translations sorted by the original segment index.
/// Fails with an error message if the number of translations found
/// does not match `expected_count`.
#[verifier::rlimit(40)]
pub fn parse_batch_response(response: &str, expected_count: usize) -> (r: Result<Vec<String>, String>)
    ensures
        match r {
            Ok(v) => batch_response(response@, expected_count as nat) == Ok::<Seq<Seq<char>>, Seq<char>>(
                v@.map_values(|x: String| x@),
            ),
            Err(e) => batch_response(response@, expected_count as nat) == Err::<Seq<Seq<char>>, Seq<char>>(e@),
        },
{
    let s = chars_of(response);
    let prefix = chars_of("[SEG_");
    let ms = find_markers(s.as_slice(), prefix.as_slice(), ']');
    let ghost sv = s@;
    let ghost m = markers(sv, seg_prefix(), ']');
    let ghost entries = batch_entries(sv);
    proof {
        lemma_markers_from_spans(sv, 0, seg_prefix(), ']');
    }
    let mut sorted: Vec<(usize, Vec<char>)> = Vec::new();
    let mut k: usize = 0;
    while k < ms.len()
        invariant
            sv == s@,
            sv == response@,
            prefix@ == seg_prefix(),
            m == markers(sv, seg_prefix(), ']'),
            entries == batch_entries(sv),
            ms@.len() == m.len(),
            forall|j: int| 0 <= j < ms@.len() ==> (#[trigger] ms@[j]).0 == m[j].0 && ms@[j].1 == m[j].1,
            forall|j: int| 0 <= j < m.len() ==> 0 <= #[trigger] m[j].0 && m[j].0 < m[j].1 <= sv.len(),
            forall|j: int| 0 <= j < m.len() - 1 ==> #[trigger] m[j].1 <= m[j + 1].0,
            forall|j: int| 0 <= j < m.len() ==> crate::markers::marker_len_at(sv, #[trigger] m[j].0, seg_prefix(), ']') == Some(
                (m[j].1 - m[j].0) as nat,
            ),
            k <= ms@.len(),
            forall|j: int| 0 <= j < k ==> parse_usize(marker_digits(sv, #[trigger] m[j], seg_prefix())) is Some,
            entries_view(sorted@) == sort_by_index(entries.subrange(0, k as int)),
        decreases ms@.len() - k,
    {
        let (a, b) = ms[k];
        proof {
            assert(m[k as int].0 == a && m[k as int].1 == b);
            assert(a + seg_prefix().len() < b);
        }
        let digits = sub_chars(s.as_slice(), a + prefix.len(), b - 1);
        match parse_usize_exec(digits.as_slice()) {
            None => {
                proof {
                    lemma_first_bad_step(sv, m, k as int);
                }
                return Err(invalid_index_error(s.as_slice(), a, b));
            },
            Some(idx) => {
                let end = if k + 1 < ms.len() {
                    ms[k + 1].0
                } else {
                    s.len()
                };
                let text = trim_range(s.as_slice(), b, end);
                let ghost e = (idx, text@);
                proof {
                    assert(entries[k as int] == e);
                    assert(entries.subrange(0, k + 1) =~= entries.subrange(0, k as int).push(e));
                    assert(entries.subrange(0, k + 1).drop_last() =~= entries.subrange(0, k as int));
                }
                insert_entry(&mut sorted, idx, text);
            },
        }
        k = k + 1;
    }
    proof {
        assert(entries.subrange(0, m.len() as int) =~= entries);
        lemma_first_bad_none_all(sv, m);
    }
    if ms.len() == 0 || ms.len() != expected_count {
        return Err(count_error_string(expected_count, ms.len()));
    }
    let ghost target = sort_by_index(entries).map_values(|e: (usize, Seq<char>)| e.1);
    let mut out: Vec<String> = Vec::new();
    let mut i: usize = 0;
    while i < sorted.len()
        invariant
            i <= sorted@.len(),
            entries_view(sorted@) == sort_by_index(entries),
            target == sort_by_index(entries).map_values(|e: (usize, Seq<char>)| e.1),
            out@.len() == i,
            forall|j: int| 0 <= j < i ==> (#[trigger] out@[j])@ == target[j],
        decreases sorted@.len() - i,
    {
        out.push(string_from(sorted[i].1.as_slice()));
        i = i + 1;
    }
    assert(out@.map_values(|x: String| x@) =~= target);
    Ok(out)
}

} // verus!

verus! {

/// A successful parse yields exactly `expected` translations.
pub proof fn lemma_batch_response_len(s: Seq<char>, expected: nat)
    ensures
        batch_response(s, expected) matches Ok(v) ==> v.len() == expected,
{
    lemma_sort_by_index(batch_entries(s));
}

/// The marker of segment `n` in a batch: `[SEG_n]`.
pub open spec fn seg_marker(n: nat) -> Seq<char> {
    seg_prefix() + decimal(n) + seq![']']
}

/// A reply that gives, for each `(n, text)`, the marker of `n` directly
/// followed by the text, as the batch prompt asks.
pub open spec fn reply_text(entries: Seq<(usize, Seq<char>)>) -> Seq<char>
    decreases entries.len(),
{
    if entries.len() == 0 {
        Seq::empty()
    } else {
        seg_marker(entries[0].0 as nat) + entries[0].1 + reply_text(entries.drop_first())
    }
}

/// The spans of the markers of such a reply when it starts at `off`.
pub open spec fn reply_markers(entries: Seq<(usize, Seq<char>)>, off: int) -> Seq<(int, int)>
    decreases entries.len(),
{
    if entries.len() == 0 {
        Seq::empty()
    } else {
        let l = seg_marker(entries[0].0 as nat).len() as int;
        seq![(off, off + l)] + reply_markers(entries.drop_first(), off + l + entries[0].1.len())
    }
}

/// `t` holds no segment marker.
pub open spec fn no_seg_marker(t: Seq<char>) -> bool {
    forall|i: int| 0 <= i < t.len() ==> #[trigger] marker_len_at(t, i, seg_prefix(), ']') is None
}

proof fn lemma_digit_run_digits(s: Seq<char>, j: int, k: int)
    requires
        0 <= j,
        0 <= k < digit_run(s, j),
    ensures
        j + k < s.len(),
        marker_digit(s[j + k]),
    decreases k,
{
    if k > 0 {
        lemma_digit_run_digits(s, j + 1, k - 1);
    }
}

proof fn lemma_digit_run_prefix(t: Seq<char>, r: Seq<char>, j: int)
    requires
        0 <= j,
        j + digit_run(t + r, j) < t.len(),
    ensures
        digit_run(t, j) == digit_run(t + r, j),
    decreases t.len() - j,
{
    if j < t.len() {
        assert((t + r)[j] == t[j]);
        if marker_digit(t[j]) {
            lemma_digit_run_prefix(t, r, j + 1);
        }
    }
}

/// A character that cannot stand inside a segment marker after its `[`.
pub open spec fn breaks_marker(c: char) -> bool {
    !(c == 'S' || c == 'E' || c == 'G' || c == '_' || c == ']' || marker_digit(c))
}

/// A text with no segment marker, followed by nothing or by something that
/// starts with a character that cannot continue a marker (such as `[`),
/// gains no marker that starts inside it.
proof fn lemma_no_marker_before(t: Seq<char>, r: Seq<char>, i: int)
    requires
        no_seg_marker(t),
        0 <= i < t.len(),
        r.len() == 0 || breaks_marker(r[0]),
    ensures
        marker_len_at(t + r, i, seg_prefix(), ']') is None,
{
    reveal_strlit("[SEG_");
    let s = t + r;
    let p = seg_prefix();
    let l = t.len() as int;
    if marker_len_at(s, i, p, ']') is Some {
        assert(marker_len_at(t, i, p, ']') is None);
        assert(occurs_at(s, i, p));
        assert(s.subrange(i, i + 5)[0] == '[');
        if i + 5 > l {
            assert(s[l] == s.subrange(i, i + 5)[l - i]);
            assert(s[l] == r[0]);
            assert(false);
        }
        assert(s.subrange(i, i + 5) =~= t.subrange(i, i + 5));
        assert(occurs_at(t, i, p));
        let d = digit_run(s, i + 5);
        let e = i + 5 + d;
        if e >= l {
            if e > l {
                lemma_digit_run_digits(s, i + 5, l - i - 5);
            }
            assert(s[l] == r[0]);
            assert(false);
        }
        lemma_digit_run_prefix(t, r, i + 5);
        assert(s[e] == t[e]);
        assert(false);
    }
}

proof fn lemma_skip_no_marker(s: Seq<char>, i: int, e: int)
    requires
        0 <= i <= e <= s.len(),
        forall|x: int| i <= x < e ==> #[trigger] marker_len_at(s, x, seg_prefix(), ']') is None,
    ensures
        markers_from(s, i, seg_prefix(), ']') == markers_from(s, e, seg_prefix(), ']'),
    decreases e - i,
{
    if i < e {
        assert(marker_len_at(s, i, seg_prefix(), ']') is None);
        lemma_skip_no_marker(s, i + 1, e);
    }
}

proof fn lemma_reply_layout(x: Seq<char>, e: Seq<(usize, Seq<char>)>)
    requires
        forall|k: int| 0 <= k < e.len() ==> no_seg_marker(#[trigger] e[k].1),
    ensures
        ({
            let s = x + reply_text(e);
            let m = reply_markers(e, x.len() as int);
            &&& markers_from(s, x.len() as int, seg_prefix(), ']') == m
            &&& m.len() == e.len()
            &&& forall|k: int| 0 <= k < e.len() ==> marker_digits(s, #[trigger] m[k], seg_prefix()) == decimal(e[k].0 as nat)
            &&& forall|k: int| 0 <= k < e.len() ==> #[trigger] text_after_marker(s, m, k) == e[k].1
        }),
    decreases e.len(),
{
    reveal_strlit("[SEG_");
    let s = x + reply_text(e);
    let m = reply_markers(e, x.len() as int);
    if e.len() == 0 {
        assert(s =~= x);
    } else {
        let m0 = seg_marker(e[0].0 as nat);
        let t0 = e[0].1;
        let rest = e.drop_first();
        let r = reply_text(rest);
        let x2 = x + m0 + t0;
        let l0 = m0.len() as int;
        assert(s =~= x2 + r);
        assert(s =~= x + (m0 + (t0 + r)));
        assert forall|k: int| 0 <= k < rest.len() implies no_seg_marker(#[trigger] rest[k].1) by {
            assert(rest[k] == e[k + 1]);
        }
        lemma_reply_layout(x2, rest);
        let m2 = reply_markers(rest, x2.len() as int);
        lemma_marker_len_shift(x, m0 + (t0 + r), 0, seg_prefix(), ']');
        lemma_marker_at_front(e[0].0 as nat, t0 + r, seg_prefix(), ']');
        assert(markers_from(s, x.len() as int, seg_prefix(), ']') == seq![(x.len() as int, x.len() + l0)]
            + markers_from(s, x.len() + l0, seg_prefix(), ']'));
        if rest.len() > 0 {
            assert(r[0] == '[');
        }
        assert(r.len() == 0 || breaks_marker(r[0]));
        assert(s =~= (x + m0) + (t0 + r));
        assert forall|j: int| x.len() + l0 <= j < x2.len() implies #[trigger] marker_len_at(s, j, seg_prefix(), ']') is None by {
            lemma_marker_len_shift(x + m0, t0 + r, j - x.len() - l0, seg_prefix(), ']');
            lemma_no_marker_before(t0, r, j - x.len() - l0);
        }
        lemma_skip_no_marker(s, x.len() + l0, x2.len() as int);
        assert(m == seq![(x.len() as int, x.len() + l0)] + m2);
        assert(s.subrange(x.len() + 5int, x.len() + l0 - 1) =~= (m0 + (t0 + r)).subrange(5, l0 - 1));
        assert(marker_digits(s, m[0], seg_prefix()) == decimal(e[0].0 as nat));
        assert(text_after_marker(s, m, 0) =~= t0) by {
            if rest.len() > 0 {
                assert(m[1] == m2[0]);
            }
        }
        assert forall|k: int| 0 <= k < e.len() implies marker_digits(s, #[trigger] m[k], seg_prefix()) == decimal(e[k].0 as nat) by {
            if k > 0 {
                assert(m[k] == m2[k - 1]);
                assert(e[k] == rest[k - 1]);
            }
        }
        assert forall|k: int| 0 <= k < e.len() implies #[trigger] text_after_marker(s, m, k) == e[k].1 by {
            if k > 0 {
                assert(m[k] == m2[k - 1]);
                assert(e[k] == rest[k - 1]);
                if k + 1 < m.len() {
                    assert(m[k + 1] == m2[k]);
                }
                assert(text_after_marker(s, m2, k - 1) == rest[k - 1].1);
            }
        }
    }
}

/// A batch reply that gives each translation right after the marker of its
/// segment (after any opening text) parses back to the trimmed
/// translations, ordered by segment index. This holds for replies whose
/// opening text and translations hold no segment marker of their own.
pub proof fn lemma_reply_parses(preamble: Seq<char>, entries: Seq<(usize, Seq<char>)>)
    requires
        entries.len() > 0,
        no_seg_marker(preamble),
        forall|k: int| 0 <= k < entries.len() ==> no_seg_marker(#[trigger] entries[k].1),
    ensures
        batch_response(preamble + reply_text(entries), entries.len()) == Ok::<Seq<Seq<char>>, Seq<char>>(
            sort_by_index(entries.map_values(|e: (usize, Seq<char>)| (e.0, trim(e.1)))).map_values(
                |e: (usize, Seq<char>)| e.1,
            ),
        ),
{
    reveal_strlit("[SEG_");
    let s = preamble + reply_text(entries);
    let m = reply_markers(entries, preamble.len() as int);
    lemma_reply_layout(preamble, entries);
    let rt = reply_text(entries);
    assert(rt[0] == '[');
    assert forall|j: int| 0 <= j < preamble.len() implies #[trigger] marker_len_at(s, j, seg_prefix(), ']') is None by {
        lemma_no_marker_before(preamble, rt, j);
    }
    lemma_skip_no_marker(s, 0, preamble.len() as int);
    assert(markers(s, seg_prefix(), ']') == m);
    assert forall|k: int| 0 <= k < m.len() implies parse_usize(marker_digits(s, #[trigger] m[k], seg_prefix())) == Some(entries[k].0) by {
        lemma_decimal_parses(entries[k].0 as nat);
    }
    lemma_first_bad_none_all(s, m);
    assert(batch_entries(s) =~= entries.map_values(|e: (usize, Seq<char>)| (e.0, trim(e.1)))) by {
        assert forall|k: int| 0 <= k < m.len() implies #[trigger] batch_entries(s)[k] == entries.map_values(
            |e: (usize, Seq<char>)| (e.0, trim(e.1)),
        )[k] by {
            assert(parse_usize(marker_digits(s, m[k], seg_prefix())) == Some(entries[k].0));
            assert(text_after_marker(s, m, k) == entries[k].1);
        }
    }
}

/// The entries that a batch prompt for `segs` amounts to when read as a
/// reply: each segment's index, and its text with the line breaks around
/// it.
pub open spec fn prompt_entries(segs: Seq<(usize, Seq<char>)>) -> Seq<(usize, Seq<char>)> {
    Seq::new(
        segs.len(),
        |k: int|
            (
                segs[k].0,
                seq!['\n'] + segs[k].1 + (if k + 1 < segs.len() {
                    seq!['\n', '\n']
                } else {
                    seq!['\n']
                }),
            ),
    )
}

proof fn lemma_reply_text_extend(e: Seq<(usize, Seq<char>)>, c: Seq<char>, x: (usize, Seq<char>))
    requires
        e.len() > 0,
    ensures
        reply_text(e.update(e.len() - 1, (e.last().0, e.last().1 + c)).push(x)) == reply_text(e) + c
            + seg_marker(x.0 as nat) + x.1,
    decreases e.len(),
{
    let u = e.update(e.len() - 1, (e.last().0, e.last().1 + c)).push(x);
    let tail = u.drop_first();
    if e.len() == 1 {
        let y = seq![x];
        let none = Seq::<(usize, Seq<char>)>::empty();
        assert(tail =~= y);
        assert(y.drop_first() =~= none);
        assert(reply_text(none) == Seq::<char>::empty());
        assert(y[0] == x);
        assert(reply_text(y) =~= seg_marker(x.0 as nat) + x.1);
        assert(e.drop_first() =~= Seq::<(usize, Seq<char>)>::empty());
        assert(reply_text(e) =~= seg_marker(e[0].0 as nat) + e[0].1);
        assert(reply_text(u) =~= reply_text(e) + c + seg_marker(x.0 as nat) + x.1);
    } else {
        let e1 = e.drop_first();
        assert(tail =~= e1.update(e1.len() - 1, (e1.last().0, e1.last().1 + c)).push(x));
        lemma_reply_text_extend(e1, c, x);
        assert(reply_text(u) =~= reply_text(e) + c + seg_marker(x.0 as nat) + x.1);
    }
}

/// The items of a batch prompt are a line break followed by the reply that
/// [`prompt_entries`] describe.
proof fn lemma_items_layout(segs: Seq<(usize, Seq<char>)>)
    requires
        segs.len() > 0,
    ensures
        batch_prompt_items(segs) == seq!['\n'] + reply_text(prompt_entries(segs)),
    decreases segs.len(),
{
    reveal_strlit("\n[SEG_");
    reveal_strlit("]\n");
    reveal_strlit("\n");
    reveal_strlit("[SEG_");
    let n = segs.len() as int;
    let e = prompt_entries(segs);
    let last = segs.last();
    if n == 1 {
        let none = Seq::<(usize, Seq<char>)>::empty();
        assert(segs.drop_last() =~= none);
        assert(batch_prompt_items(none) == Seq::<char>::empty());
        assert(batch_prompt_items(segs) =~= batch_prompt_item(last.0, last.1));
        assert(e.drop_first() =~= none);
        assert(reply_text(none) == Seq::<char>::empty());
        assert(e[0] == (last.0, seq!['\n'] + last.1 + seq!['\n']));
        assert(reply_text(e) =~= seg_marker(last.0 as nat) + (seq!['\n'] + last.1 + seq!['\n']));
        assert(batch_prompt_items(segs) =~= seq!['\n'] + reply_text(e));
    } else {
        let s1 = segs.drop_last();
        let e1 = prompt_entries(s1);
        lemma_items_layout(s1);
        let x = e[n - 1];
        assert(e =~= e1.update(e1.len() - 1, (e1.last().0, e1.last().1 + seq!['\n'])).push(x)) by {
            assert forall|k: int| 0 <= k < n - 2 implies #[trigger] e[k] == e1[k] by {
                assert(s1[k] == segs[k]);
            }
            assert(s1[n - 2] == segs[n - 2]);
            assert(e[n - 2].1 =~= e1[n - 2].1 + seq!['\n']);
        }
        lemma_reply_text_extend(e1, seq!['\n'], x);
        assert(batch_prompt_items(segs) =~= seq!['\n'] + reply_text(e));
    }
}

proof fn lemma_lacks_concat(a: Seq<char>, b: Seq<char>, c: char)
    requires
        lacks_char(a, c),
        lacks_char(b, c),
    ensures
        lacks_char(a + b, c),
{
    assert forall|i: int| 0 <= i < (a + b).len() implies (a + b)[i] != c by {
        if i >= a.len() {
            assert((a + b)[i] == b[i - a.len()]);
        }
    }
}

/// The instructions that open a batch prompt, and the line break after
/// them, hold no segment marker: they name the marker only as `[SEG_N]`.
proof fn lemma_header_no_marker(n: nat, source: Language, target: Language)
    ensures
        no_seg_marker(batch_prompt_header(n, source, target) + seq!['\n']),
{
    reveal_strlit("Translate the following ");
    reveal_strlit(" segments from ");
    reveal_strlit(" to ");
    reveal_strlit(".\nEach segment is wrapped in [SEG_N] markers.\nIn your response, preserve the [SEG_N] markers exactly.\nPlace each translation immediately after its marker.\nDO NOT translate code, variable names, or technical identifiers.\n");
    reveal_strlit("[SEG_");
    reveal_strlit("zh-Hans");
    reveal_strlit("zh-Hant");
    reveal_strlit("ja");
    reveal_strlit("ko");
    reveal_strlit("en");
    reveal_strlit("de");
    reveal_strlit("fr");
    reveal_strlit("es");
    reveal_strlit("ru");
    reveal_strlit("pt");
    reveal_strlit("it");
    reveal_strlit("nl");
    reveal_strlit("pl");
    reveal_strlit("cs");
    reveal_strlit("hu");
    reveal_strlit("und");
    let l0 = ".\nEach segment is wrapped in [SEG_N] markers.\nIn your response, preserve the [SEG_N] markers exactly.\nPlace each translation immediately after its marker.\nDO NOT translate code, variable names, or technical identifiers.\n"@;
    assert(forall|i: int| 0 <= i < l0.len() && #[trigger] l0[i] == '[' ==> i + 5 < l0.len() && l0[i + 5] == 'N');
    lemma_decimal_parses(n);
    assert(lacks_char(decimal(n), '[')) by {
        assert forall|i: int| 0 <= i < decimal(n).len() implies decimal(n)[i] != '[' by {
            assert(crate::markers::is_ascii_digit(decimal(n)[i]));
        }
    }
    assert(lacks_char(ietf_tag(source), '['));
    assert(lacks_char(ietf_tag(target), '['));
    let a1 = "Translate the following "@ + decimal(n);
    lemma_lacks_concat("Translate the following "@, decimal(n), '[');
    let a2 = a1 + " segments from "@;
    lemma_lacks_concat(a1, " segments from "@, '[');
    let a3 = a2 + ietf_tag(source);
    lemma_lacks_concat(a2, ietf_tag(source), '[');
    let a4 = a3 + " to "@;
    lemma_lacks_concat(a3, " to "@, '[');
    let a = a4 + ietf_tag(target);
    lemma_lacks_concat(a4, ietf_tag(target), '[');
    let h = batch_prompt_header(n, source, target);
    assert(h == a + l0);
    let p = h + seq!['\n'];
    assert forall|i: int| 0 <= i < p.len() implies #[trigger] marker_len_at(p, i, seg_prefix(), ']') is None by {
        if occurs_at(p, i, seg_prefix()) {
            assert(p[i] == p.subrange(i, i + 5)[0]);
            assert(p[i] == '[');
            if i < a.len() {
                assert(p[i] == a[i]);
            } else if i < a.len() + l0.len() {
                assert(p[i] == l0[i - a.len()]);
                assert(p[i + 5] == l0[i - a.len() + 5]);
                assert(digit_run(p, i + 5) == 0);
            } else {
                assert(p[i] == '\n');
            }
        }
    }
}

/// A segment's text with the line breaks of the prompt around it holds no
/// segment marker when the text holds none.
proof fn lemma_wrapped_no_marker(t: Seq<char>, w: Seq<char>)
    requires
        no_seg_marker(t),
        w.len() > 0,
        forall|j: int| 0 <= j < w.len() ==> #[trigger] w[j] == '\n',
    ensures
        no_seg_marker(seq!['\n'] + t + w),
{
    reveal_strlit("[SEG_");
    let x = seq!['\n'] + t + w;
    assert(x =~= seq!['\n'] + (t + w));
    assert forall|i: int| 0 <= i < x.len() implies #[trigger] marker_len_at(x, i, seg_prefix(), ']') is None by {
        if 1 <= i <= t.len() {
            lemma_marker_len_shift(seq!['\n'], t + w, i - 1, seg_prefix(), ']');
            assert(w[0] == '\n');
            lemma_no_marker_before(t, w, i - 1);
        } else if occurs_at(x, i, seg_prefix()) {
            assert(x[i] == x.subrange(i, i + 5)[0]);
            if i > t.len() {
                assert(x[i] == w[i - 1 - t.len()]);
            }
        }
    }
}

pub(crate) proof fn lemma_trim_start_concat(a: Seq<char>, b: Seq<char>)
    ensures
        (exists|i: int| 0 <= i < a.len() && !is_white_space(#[trigger] a[i])) ==> trim_start(a + b)
            == trim_start(a) + b,
        (forall|i: int| 0 <= i < a.len() ==> is_white_space(#[trigger] a[i])) ==> trim_start(a + b)
            == trim_start(b),
    decreases a.len(),
{
    if a.len() == 0 {
        assert(a + b =~= b);
    } else {
        assert((a + b)[0] == a[0]);
        if is_white_space(a[0]) {
            let a1 = a.drop_first();
            lemma_trim_start_concat(a1, b);
            assert((a + b).drop_first() =~= a1 + b);
            if exists|i: int| 0 <= i < a.len() && !is_white_space(#[trigger] a[i]) {
                let i = choose|i: int| 0 <= i < a.len() && !is_white_space(#[trigger] a[i]);
                assert(a1[i - 1] == a[i]);
            }
            if forall|i: int| 0 <= i < a.len() ==> is_white_space(#[trigger] a[i]) {
                assert forall|i: int| 0 <= i < a1.len() implies is_white_space(#[trigger] a1[i]) by {
                    assert(a1[i] == a[i + 1]);
                }
            }
        }
    }
}

pub(crate) proof fn lemma_trim_end_ws(x: Seq<char>, w: Seq<char>)
    requires
        forall|j: int| 0 <= j < w.len() ==> is_white_space(#[trigger] w[j]),
    ensures
        trim_end(x + w) == trim_end(x),
    decreases w.len(),
{
    if w.len() == 0 {
        assert(x + w =~= x);
    } else {
        assert((x + w).last() == w.last());
        assert((x + w).drop_last() =~= x + w.drop_last());
        assert forall|j: int| 0 <= j < w.drop_last().len() implies is_white_space(#[trigger] w.drop_last()[j]) by {
            assert(w.drop_last()[j] == w[j]);
        }
        lemma_trim_end_ws(x, w.drop_last());
    }
}

/// Trimming a text with line breaks around it gives the text trimmed.
proof fn lemma_trim_wrapped(t: Seq<char>, w: Seq<char>)
    requires
        forall|j: int| 0 <= j < w.len() ==> #[trigger] w[j] == '\n',
    ensures
        trim(seq!['\n'] + t + w) == trim(t),
{
    let x = seq!['\n'] + t + w;
    assert forall|j: int| 0 <= j < w.len() implies is_white_space(#[trigger] w[j]) by {
        assert(w[j] == '\n');
    }
    assert(x[0] == '\n');
    assert(x.drop_first() =~= t + w);
    lemma_trim_start_concat(t, w);
    if exists|i: int| 0 <= i < t.len() && !is_white_space(#[trigger] t[i]) {
        lemma_trim_end_ws(trim_start(t), w);
    } else {
        lemma_trim_start_concat(w, Seq::<char>::empty());
        assert(w + Seq::<char>::empty() =~= w);
        lemma_trim_start_concat(t, Seq::<char>::empty());
        assert(t + Seq::<char>::empty() =~= t);
    }
}

proof fn lemma_sort_sorted<T>(s: Seq<(usize, T)>)
    requires
        sorted_by_index(s),
    ensures
        sort_by_index(s) == s,
    decreases s.len(),
{
    if s.len() > 0 {
        let s1 = s.drop_last();
        lemma_sort_sorted(s1);
        if s1.len() == 0 {
            assert(insert_by_index(s1, s.last()) =~= s);
        } else {
            assert(s1.last().0 <= s.last().0);
            assert(s1.push(s.last()) =~= s);
        }
    }
}

/// A batch prompt read back as a reply gives each segment's text, trimmed,
/// in order, when the segments come ordered by index and no text holds a
/// segment marker: the prompt's own instructions name the marker only as
/// `[SEG_N]`, which is no marker.
pub proof fn lemma_prompt_parses(segs: Seq<(usize, Seq<char>)>, source: Language, target: Language)
    requires
        segs.len() > 0,
        sorted_by_index(segs),
        forall|k: int| 0 <= k < segs.len() ==> no_seg_marker(#[trigger] segs[k].1),
    ensures
        batch_response(batch_prompt(segs, source, target), segs.len()) == Ok::<Seq<Seq<char>>, Seq<char>>(
            segs.map_values(|e: (usize, Seq<char>)| trim(e.1)),
        ),
{
    let n = segs.len();
    let p = batch_prompt_header(n, source, target) + seq!['\n'];
    let e = prompt_entries(segs);
    lemma_items_layout(segs);
    assert(batch_prompt(segs, source, target) =~= p + reply_text(e));
    lemma_header_no_marker(n, source, target);
    assert forall|k: int| 0 <= k < e.len() implies no_seg_marker(#[trigger] e[k].1) by {
        if k + 1 < n {
            lemma_wrapped_no_marker(segs[k].1, seq!['\n', '\n']);
        } else {
            lemma_wrapped_no_marker(segs[k].1, seq!['\n']);
        }
    }
    lemma_reply_parses(p, e);
    let trimmed = segs.map_values(|x: (usize, Seq<char>)| (x.0, trim(x.1)));
    let et = e.map_values(|x: (usize, Seq<char>)| (x.0, trim(x.1)));
    assert(et =~= trimmed) by {
        assert forall|k: int| 0 <= k < n implies #[trigger] et[k] == trimmed[k] by {
            if k + 1 < n {
                lemma_trim_wrapped(segs[k].1, seq!['\n', '\n']);
            } else {
                lemma_trim_wrapped(segs[k].1, seq!['\n']);
            }
        }
    }
    assert(sorted_by_index(trimmed)) by {
        assert forall|i: int, j: int| 0 <= i < j < trimmed.len() implies trimmed[i].0 <= trimmed[j].0 by {
            assert(trimmed[i].0 == segs[i].0);
            assert(trimmed[j].0 == segs[j].0);
        }
    }
    lemma_sort_sorted(trimmed);
    assert(trimmed.map_values(|x: (usize, Seq<char>)| x.1) =~= segs.map_values(|x: (usize, Seq<char>)| trim(x.1)));
}

} // verus!

