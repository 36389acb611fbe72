//! Text helpers of the PDF pipeline: byte offsets of character positions,
//! figure-caption detection and the refusal of an incomplete export. The
//! layout itself works on floating-point coordinates and stays outside.

use vstd::prelude::*;
use crate::text::{
    chars_of, string_from, push_str, push_all, push_decimal, decimal, occurs_at, occurs_at_exec,
    starts_with, trim, trim_chars, trim_start, trim_end, is_white_space,
};
use crate::document::strings_view;
use crate::batch::{lemma_trim_start_concat, lemma_trim_end_ws};

verus! {

/// The number of bytes of `c` in UTF-8 (`char::len_utf8`).
pub open spec fn utf8_len(c: char) -> nat {
    if (c as u32) < 0x80 {
        1
    } else if (c as u32) < 0x800 {
        2
    } else if (c as u32) < 0x10000 {
        3
    } else {
        4
    }
}

/// The number of bytes of `s` in UTF-8.
pub open spec fn utf8_len_sum(s: Seq<char>) -> nat
    decreases s.len(),
{
    if s.len() == 0 {
        0
    } else {
        utf8_len_sum(s.drop_last()) + utf8_len(s.last())
    }
}

/// The number of bytes of `c` in UTF-8.
pub fn char_utf8_len(c: char) -> (r: usize)
    ensures
        r == utf8_len(c),
{
    let v = c as u32;
    if v < 0x80 {
        1
    } else if v < 0x800 {
        2
    } else if v < 0x10000 {
        3
    } else {
        4
    }
}

proof fn lemma_utf8_len_sum_bound(s: Seq<char>)
    ensures
        utf8_len_sum(s) <= 4 * s.len(),
    decreases s.len(),
{
    if s.len() > 0 {
        lemma_utf8_len_sum_bound(s.drop_last());
    }
}

/// Convert a char index to a byte index in the original UTF-8 string: the
/// number of bytes of the first `char_idx` characters, or of all of them
/// where `char_idx` is past the end.
pub fn char_to_byte_idx(chars: &[char], char_idx: usize) -> (r: usize)
    requires
        chars@.len() <= usize::MAX / 4,
    ensures
        char_idx >= chars@.len() ==> r == utf8_len_sum(chars@),
        char_idx < chars@.len() ==> r == utf8_len_sum(chars@.subrange(0, char_idx as int)),
{
    let end = if char_idx >= chars.len() {
        chars.len()
    } else {
        char_idx
    };
    let mut sum: usize = 0;
    let mut i: usize = 0;
    while i < end
        invariant
            end <= chars@.len() <= usize::MAX / 4,
            i <= end,
            sum == utf8_len_sum(chars@.subrange(0, i as int)),
        decreases end - i,
    {
        proof {
            lemma_utf8_len_sum_bound(chars@.subrange(0, i as int));
            assert(chars@.subrange(0, i + 1).drop_last() =~= chars@.subrange(0, i as int));
        }
        sum = sum + char_utf8_len(chars[i]);
        i = i + 1;
    }
    assert(chars@.subrange(0, chars@.len() as int) =~= chars@);
    sum
}

/// Whether `p` occurs somewhere in `s` (`str::contains`).
pub open spec fn contains_text(s: Seq<char>, p: Seq<char>) -> bool {
    exists|i: int| occurs_at(s, i, p)
}

/// Whether `p` occurs somewhere in `s`.
pub fn contains_exec(s: &[char], p: &[char]) -> (r: bool)
    ensures
        r == contains_text(s@, p@),
{
    if p.len() > s.len() {
        return false;
    }
    let last = s.len() - p.len();
    let mut i: usize = 0;
    while i < last
        invariant
            last == s@.len() - p@.len(),
            i <= last,
            forall|j: int| 0 <= j < i ==> !occurs_at(s@, j, p@),
        decreases last - i,
    {
        if occurs_at_exec(s, i, p) {
            return true;
        }
        i = i + 1;
    }
    if occurs_at_exec(s, last, p) {
        return true;
    }
    assert forall|j: int| !occurs_at(s@, j, p@) by {
        if 0 <= j < i {
        }
    }
    false
}

/// Whether a text segment is a figure caption: its trimmed text starts with
/// `图` or it mentions `Figure`.
pub open spec fn is_figure_caption_text(t: Seq<char>) -> bool {
    starts_with(trim(t), seq!['图']) || contains_text(t, seq!['F', 'i', 'g', 'u', 'r', 'e'])
}

/// Whether the text segment `text` is a figure caption, to be placed after
/// the image nearest to it.
pub fn is_figure_caption(text: &str) -> (r: bool)
    ensures
        r == is_figure_caption_text(text@),
{
    let t = chars_of(text);
    let tt = trim_chars(t.as_slice());
    let mut fig: Vec<char> = Vec::new();
    fig.push('图');
    assert(fig@ =~= seq!['图']);
    let mut word: Vec<char> = Vec::new();
    word.push('F');
    word.push('i');
    word.push('g');
    word.push('u');
    word.push('r');
    word.push('e');
    assert(word@ =~= seq!['F', 'i', 'g', 'u', 'r', 'e']);
    occurs_at_exec(tt.as_slice(), 0, fig.as_slice()) || contains_exec(t.as_slice(), word.as_slice())
}

/// The message that refuses a PDF export while segment `i` is untranslated.
pub open spec fn pdf_incomplete_message(i: nat) -> Seq<char> {
    "Translation incomplete: segment "@ + decimal(i) + "."@
}

/// The refusal of a PDF export while segment `i` is untranslated.
pub fn pdf_incomplete_error(i: usize) -> (r: String)
    ensures
        r@ == pdf_incomplete_message(i as nat),
{
    let mut v: Vec<char> = Vec::new();
    push_str(&mut v, "Translation incomplete: segment ");
    push_decimal(&mut v, i as u64);
    push_str(&mut v, ".");
    string_from(v.as_slice())
}

/// A text span of a page, in reading order, with whether it lies on the
/// line of the previous non-blank span (its baseline within 4 points of
/// that span's, a test on coordinates made by the caller).
#[derive(Debug)]
pub struct LineSpan {
    pub text: String,
    pub near_previous: bool,
}

/// The state of the grouping of spans into paragraphs: the text gathered
/// for the current paragraph, whether a span was taken yet, and the
/// paragraphs so far.
#[verifier::ext_equal]
pub struct ParaState {
    pub current: Seq<char>,
    pub started: bool,
    pub paragraphs: Seq<Seq<char>>,
}

/// The paragraphs with `t`, trimmed, added unless it is blank.
pub open spec fn push_trimmed(ps: Seq<Seq<char>>, t: Seq<char>) -> Seq<Seq<char>> {
    if trim(t).len() > 0 {
        ps.push(trim(t))
    } else {
        ps
    }
}

/// One span taken into the grouping: blank spans are skipped; a span on
/// the line of the previous one is appended to the paragraph; any other
/// ends the paragraph and starts the next.
pub open spec fn para_step(st: ParaState, text: Seq<char>, near: bool) -> ParaState {
    if trim(text).len() == 0 {
        st
    } else if !st.started {
        ParaState { current: text, started: true, paragraphs: st.paragraphs }
    } else if near {
        ParaState { current: st.current + text, started: true, paragraphs: st.paragraphs }
    } else {
        ParaState { current: text, started: true, paragraphs: push_trimmed(st.paragraphs, st.current) }
    }
}

/// The grouping state after the spans `spans`.
pub open spec fn para_run(spans: Seq<LineSpan>) -> ParaState
    decreases spans.len(),
{
    if spans.len() == 0 {
        ParaState { current: Seq::empty(), started: false, paragraphs: Seq::empty() }
    } else {
        para_step(para_run(spans.drop_last()), spans.last().text@, spans.last().near_previous)
    }
}

/// The paragraphs of a page's spans.
pub open spec fn paragraphs_of(spans: Seq<LineSpan>) -> Seq<Seq<char>> {
    push_trimmed(para_run(spans).paragraphs, para_run(spans).current)
}

/// Groups the text spans of a page into paragraphs: spans on one line are
/// joined, a new line starts a new paragraph, and each paragraph is
/// trimmed; blank ones are dropped.
pub fn group_spans_to_paragraphs(spans: &Vec<LineSpan>) -> (r: Vec<String>)
    ensures
        strings_view(r@) == paragraphs_of(spans@),
{
    let mut paragraphs: Vec<String> = Vec::new();
    let mut current: Vec<char> = Vec::new();
    let mut started = false;
    let mut i: usize = 0;
    assert(strings_view(paragraphs@) =~= Seq::<Seq<char>>::empty());
    assert(spans@.subrange(0, 0) =~= Seq::<LineSpan>::empty());
    while i < spans.len()
        invariant
            i <= spans@.len(),
            para_run(spans@.subrange(0, i as int)) == (ParaState {
                current: current@,
                started,
                paragraphs: strings_view(paragraphs@),
            }),
        decreases spans@.len() - i,
    {
        assert(spans@.subrange(0, i + 1).drop_last() =~= spans@.subrange(0, i as int));
        let t = chars_of(spans[i].text.as_str());
        let tt = trim_chars(t.as_slice());
        if tt.len() > 0 {
            if !started {
                current = t;
                started = true;
            } else if spans[i].near_previous {
                push_all(&mut current, t.as_slice());
            } else {
                let trimmed = trim_chars(current.as_slice());
                if trimmed.len() > 0 {
                    let ghost before = strings_view(paragraphs@);
                    let p = string_from(trimmed.as_slice());
                    paragraphs.push(p);
                    assert(strings_view(paragraphs@) =~= before.push(trimmed@));
                }
                current = t;
            }
        }
        i = i + 1;
    }
    assert(spans@.subrange(0, spans@.len() as int) =~= spans@);
    let trimmed = trim_chars(current.as_slice());
    if trimmed.len() > 0 {
        let ghost before = strings_view(paragraphs@);
        let p = string_from(trimmed.as_slice());
        paragraphs.push(p);
        assert(strings_view(paragraphs@) =~= before.push(trimmed@));
    }
    paragraphs
}

/// Whether a character ends a sentence: `.`, `!`, `?` or their full-width
/// forms `。`, `！`, `？`.
pub open spec fn is_sentence_end(c: char) -> bool {
    c == '.' || c == '!' || c == '?' || c == '。' || c == '！' || c == '？'
}

/// Whether the trimmed text ends a sentence, so that a paragraph running
/// over a page break ends there.
pub fn ends_sentence(text: &str) -> (r: bool)
    ensures
        r == (trim(text@).len() > 0 && is_sentence_end(trim(text@).last())),
{
    let t = chars_of(text);
    let tt = trim_chars(t.as_slice());
    if tt.len() == 0 {
        return false;
    }
    let c = tt[tt.len() - 1];
    c == '.' || c == '!' || c == '?' || c == '。' || c == '！' || c == '？'
}

/// A text that ends in a full stop, `!` or `?`, ASCII or full-width,
/// followed by nothing but white space, ends a sentence, whatever comes
/// before; one that ends in a letter, a digit or a comma does not.
pub proof fn lemma_sentence_end_marks(t: Seq<char>, c: char, w: Seq<char>)
    requires
        forall|j: int| 0 <= j < w.len() ==> is_white_space(#[trigger] w[j]),
    ensures
        (c == '.' || c == '!' || c == '?' || c == '。' || c == '！' || c == '？') ==> (trim(t + seq![c] + w).len() > 0
            && is_sentence_end(trim(t + seq![c] + w).last())),
        (('a' <= c <= 'z') || ('A' <= c <= 'Z') || ('0' <= c <= '9') || c == ',') ==> !(trim(t + seq![c] + w).len() > 0
            && is_sentence_end(trim(t + seq![c] + w).last())),
{
    let x = t + seq![c];
    if !is_white_space(c) {
        assert(x[x.len() - 1] == c);
        lemma_trim_start_concat(x, w);
        assert(t + seq![c] + w == x + w);
        lemma_trim_start_concat(t, seq![c]);
        let y = trim_start(x);
        assert(y.len() > 0 && y.last() == c) by {
            if exists|i: int| 0 <= i < t.len() && !is_white_space(#[trigger] t[i]) {
                assert(y == trim_start(t) + seq![c]);
            } else {
                assert(seq![c][0] == c);
            }
        }
        lemma_trim_end_ws(y, w);
        assert(trim_end(y) == y);
    }
}

/// A text span of a page in reading order, with whether its font is
/// monospaced.
#[derive(Debug)]
pub struct PageSpan {
    pub text: String,
    pub monospace: bool,
}

/// A run of consecutive non-blank spans of one kind: text to be grouped
/// into segments, or code lines kept as a block. Each run lists the
/// positions of its spans.
#[derive(Debug)]
pub enum PageRun {
    Text(Vec<usize>),
    Code(Vec<usize>),
}

/// The view of a run: `(is code, positions)`.
pub open spec fn run_view(r: PageRun) -> (bool, Seq<usize>) {
    match r {
        PageRun::Text(v) => (false, v@),
        PageRun::Code(v) => (true, v@),
    }
}

/// The state of the run splitting: the text spans and code lines gathered,
/// whether the last span was code, and the runs so far.
#[verifier::ext_equal]
pub struct RunState {
    pub text: Seq<usize>,
    pub code: Seq<usize>,
    pub in_code: bool,
    pub runs: Seq<(bool, Seq<usize>)>,
}

/// One span taken into the splitting: blank spans are skipped; a code span
/// ends a pending text run and joins the code lines; a text span ends a
/// pending code block and joins the text.
pub open spec fn run_step(st: RunState, i: usize, text: Seq<char>, mono: bool) -> RunState {
    if trim(text).len() == 0 {
        st
    } else if mono {
        let ended = !st.in_code && st.text.len() > 0;
        RunState {
            text: if ended { Seq::empty() } else { st.text },
            code: st.code.push(i),
            in_code: true,
            runs: if ended { st.runs.push((false, st.text)) } else { st.runs },
        }
    } else {
        let ended = st.in_code && st.code.len() > 0;
        RunState {
            text: st.text.push(i),
            code: if ended { Seq::empty() } else { st.code },
            in_code: false,
            runs: if ended { st.runs.push((true, st.code)) } else { st.runs },
        }
    }
}

/// The splitting state after the first `n` spans.
pub open spec fn run_prefix(spans: Seq<PageSpan>, n: int) -> RunState
    decreases n,
{
    if n <= 0 {
        RunState { text: Seq::empty(), code: Seq::empty(), in_code: false, runs: Seq::empty() }
    } else {
        run_step(run_prefix(spans, n - 1), (n - 1) as usize, spans[n - 1].text@, spans[n - 1].monospace)
    }
}

/// The runs of a page: after the last span, the pending code block or, if
/// none, the pending text run ends too.
pub open spec fn page_runs_of(spans: Seq<PageSpan>) -> Seq<(bool, Seq<usize>)> {
    let st = run_prefix(spans, spans.len() as int);
    if st.in_code && st.code.len() > 0 {
        st.runs.push((true, st.code))
    } else if st.text.len() > 0 {
        st.runs.push((false, st.text))
    } else {
        st.runs
    }
}

/// Splits the spans of a page, in reading order, into runs of text and
/// runs of code.
pub fn page_runs(spans: &Vec<PageSpan>) -> (r: Vec<PageRun>)
    ensures
        r@.map_values(|x: PageRun| run_view(x)) == page_runs_of(spans@),
{
    let mut runs: Vec<PageRun> = Vec::new();
    let mut text: Vec<usize> = Vec::new();
    let mut code: Vec<usize> = Vec::new();
    let mut in_code = false;
    let mut i: usize = 0;
    while i < spans.len()
        invariant
            i <= spans@.len(),
            run_prefix(spans@, i as int) == (RunState {
                text: text@,
                code: code@,
                in_code,
                runs: runs@.map_values(|x: PageRun| run_view(x)),
            }),
        decreases spans@.len() - i,
    {
        let t = chars_of(spans[i].text.as_str());
        let tt = trim_chars(t.as_slice());
        if tt.len() > 0 {
            let ghost before = runs@.map_values(|x: PageRun| run_view(x));
            if spans[i].monospace {
                if !in_code && text.len() > 0 {
                    let mut done: Vec<usize> = Vec::new();
                    std::mem::swap(&mut done, &mut text);
                    let ghost dv = done@;
                    runs.push(PageRun::Text(done));
                    assert(runs@.map_values(|x: PageRun| run_view(x)) =~= before.push((false, dv)));
                }
                code.push(i);
                in_code = true;
            } else {
                if in_code && code.len() > 0 {
                    let mut done: Vec<usize> = Vec::new();
                    std::mem::swap(&mut done, &mut code);
                    let ghost dv = done@;
                    runs.push(PageRun::Code(done));
                    assert(runs@.map_values(|x: PageRun| run_view(x)) =~= before.push((true, dv)));
                }
                text.push(i);
                in_code = false;
            }
        }
        i = i + 1;
    }
    let ghost before = runs@.map_values(|x: PageRun| run_view(x));
    if in_code && code.len() > 0 {
        let ghost cv = code@;
        runs.push(PageRun::Code(code));
        assert(runs@.map_values(|x: PageRun| run_view(x)) =~= before.push((true, cv)));
    } else if text.len() > 0 {
        let ghost tv = text@;
        runs.push(PageRun::Text(text));
        assert(runs@.map_values(|x: PageRun| run_view(x)) =~= before.push((false, tv)));
    }
    runs
}

/// `lines` joined with line breaks (`join("\n")`).
pub open spec fn joined_lines(lines: Seq<Seq<char>>) -> Seq<char>
    decreases lines.len(),
{
    if lines.len() == 0 {
        Seq::empty()
    } else if lines.len() == 1 {
        lines[0]
    } else {
        joined_lines(lines.drop_last()) + seq!['\n'] + lines.last()
    }
}

/// The text of a code block: the texts of its spans, one per line.
pub fn code_block_text(spans: &Vec<PageSpan>, lines: &Vec<usize>) -> (r: String)
    requires
        forall|k: int| 0 <= k < lines@.len() ==> #[trigger] lines@[k] < spans@.len(),
    ensures
        r@ == joined_lines(lines@.map_values(|i: usize| spans@[i as int].text@)),
{
    let ghost texts = lines@.map_values(|i: usize| spans@[i as int].text@);
    let mut out: Vec<char> = Vec::new();
    let mut k: usize = 0;
    while k < lines.len()
        invariant
            k <= lines@.len(),
            forall|j: int| 0 <= j < lines@.len() ==> #[trigger] lines@[j] < spans@.len(),
            texts == lines@.map_values(|i: usize| spans@[i as int].text@),
            out@ == joined_lines(texts.subrange(0, k as int)),
        decreases lines@.len() - k,
    {
        assert(texts.subrange(0, k + 1).drop_last() =~= texts.subrange(0, k as int));
        if k > 0 {
            out.push('\n');
        }
        push_str(&mut out, spans[lines[k]].text.as_str());
        proof {
            if k == 0 {
                assert(out@ =~= texts.subrange(0, 1)[0]);
            }
        }
        k = k + 1;
    }
    assert(texts.subrange(0, lines@.len() as int) =~= texts);
    string_from(out.as_slice())
}

} // verus!
