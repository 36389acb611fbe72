//! Putting translations back into marked text: every marker of a marked
//! section is replaced by the text of the segment that it names.

use vstd::prelude::*;
use crate::text::{
    chars_of, string_from, sub_chars, push_all, push_str, push_decimal, decimal, occurs_at_exec,
    starts_with, ends_with, ends_with_exec, trim, trim_start, trim_range, trim_start_from, occurs_at,
};
use crate::markers::{
    marker_len_at, marker_len_at_exec, parse_usize, parse_usize_exec, digit_run, marker_digit,
    lemma_decimal_parses,
};
use crate::document::{EpubDocument, MarkedSection, opt_strings_view, strings_view, find_incomplete};
use crate::markdown::{
    MdState, MdItem, MdEvent, MdTag, MdTagEnd, md_run, md_step, md_flush, md_segmentation, md_marker,
    md_start, md_end, start_text, end_text, repeat_seq, lemma_start_appends, lemma_end_appends,
};

verus! {

/// `s` from position `i` on, with each marker replaced by `f` of its digits.
/// Markers are taken leftmost first and without overlap, as
/// `Regex::replace_all` takes its matches.
pub open spec fn replaced_from(
    s: Seq<char>,
    i: int,
    prefix: Seq<char>,
    close: char,
    f: spec_fn(Seq<char>) -> Seq<char>,
) -> Seq<char>
    decreases s.len() - i,
{
    if i < 0 || i >= s.len() {
        Seq::empty()
    } else {
        match marker_len_at(s, i, prefix, close) {
            Some(l) => f(s.subrange(i + prefix.len(), i + l - 1)) + replaced_from(
                s,
                i + l,
                prefix,
                close,
                f,
            ),
            None => seq![s[i]] + replaced_from(s, i + 1, prefix, close, f),
        }
    }
}

/// `s` with each marker replaced by `f` of its digits.
pub open spec fn replace_markers(
    s: Seq<char>,
    prefix: Seq<char>,
    close: char,
    f: spec_fn(Seq<char>) -> Seq<char>,
) -> Seq<char> {
    replaced_from(s, 0, prefix, close, f)
}

/// The segment index that marker digits `d` name: their value, or 0 where
/// they do not parse as a `usize`.
pub open spec fn marker_index(d: Seq<char>) -> int {
    match parse_usize(d) {
        Some(v) => v as int,
        None => 0,
    }
}

/// The translation at `i`, or the empty text where there is none.
pub open spec fn translation_or_empty(t: Seq<Option<Seq<char>>>, i: int) -> Seq<char> {
    if 0 <= i < t.len() {
        match t[i] {
            Some(x) => x,
            None => Seq::empty(),
        }
    } else {
        Seq::empty()
    }
}

/// The text at `i`, or the empty text where there is none.
pub open spec fn text_or_empty(v: Seq<Seq<char>>, i: int) -> Seq<char> {
    if 0 <= i < v.len() {
        v[i]
    } else {
        Seq::empty()
    }
}

/// The characters that `trim_start_matches` drops before a translation:
/// space, `-` and `>`.
pub open spec fn is_arrow_char(c: char) -> bool {
    c == ' ' || c == '-' || c == '>'
}

/// `s` without its leading arrow characters.
pub open spec fn trim_arrows(s: Seq<char>) -> Seq<char>
    decreases s.len(),
{
    if s.len() > 0 && is_arrow_char(s[0]) {
        trim_arrows(s.drop_first())
    } else {
        s
    }
}

/// `" -> "`, the separator of an echoed original.
pub open spec fn arrow_spaced() -> Seq<char> {
    seq![' ', '-', '>', ' ']
}

/// `" ->"`, the separator of an echoed original without a space after it.
pub open spec fn arrow_tight() -> Seq<char> {
    seq![' ', '-', '>']
}

/// A translation `t` of the original `o` with an echoed original taken off
/// its front: `"o -> x"` gives `x`, `"o ->x"` gives `x` without leading
/// white space, and `"o x"` (any run of spaces, `-` and `>` between) gives
/// `x` trimmed; anything else is kept as it is.
pub open spec fn clean_translation(t: Seq<char>, o: Seq<char>) -> Seq<char> {
    let p1 = o + arrow_spaced();
    let p2 = o + arrow_tight();
    let rest = trim_arrows(t.subrange(o.len() as int, t.len() as int));
    if o.len() == 0 || t.len() == 0 {
        t
    } else if starts_with(t, p1) {
        t.subrange(p1.len() as int, t.len() as int)
    } else if starts_with(t, p2) {
        trim_start(t.subrange(p2.len() as int, t.len() as int))
    } else if starts_with(t, o) && t.len() > o.len() && rest.len() > 0 {
        trim(rest)
    } else {
        t
    }
}

proof fn lemma_trim_arrows_run(run: Seq<char>, x: Seq<char>)
    requires
        forall|j: int| 0 <= j < run.len() ==> is_arrow_char(#[trigger] run[j]),
        x.len() > 0,
        !is_arrow_char(x[0]),
    ensures
        trim_arrows(run + x) == x,
    decreases run.len(),
{
    if run.len() == 0 {
        assert(run + x =~= x);
    } else {
        assert((run + x)[0] == run[0]);
        assert((run + x).drop_first() =~= run.drop_first() + x);
        assert forall|j: int| 0 <= j < run.drop_first().len() implies is_arrow_char(#[trigger] run.drop_first()[j]) by {
            assert(run.drop_first()[j] == run[j + 1]);
        }
        lemma_trim_arrows_run(run.drop_first(), x);
    }
}

/// A translation that is the original, then any run of spaces, `-` and `>`
/// that does not open with `" ->"`, then a rest that starts with none of
/// them, is cleaned to that rest trimmed, however short the run (even
/// empty).
pub proof fn lemma_echo_stripped(o: Seq<char>, run: Seq<char>, x: Seq<char>)
    requires
        o.len() > 0,
        forall|j: int| 0 <= j < run.len() ==> is_arrow_char(#[trigger] run[j]),
        !(run.len() >= 3 && run[0] == ' ' && run[1] == '-' && run[2] == '>'),
        x.len() > 0,
        !(x[0] == ' ' || x[0] == '-' || x[0] == '>'),
    ensures
        clean_translation(o + run + x, o) == trim(x),
{
    let t = o + run + x;
    let y = run + x;
    assert(t =~= o + y);
    assert(t.subrange(o.len() as int, t.len() as int) =~= y);
    lemma_trim_arrows_run(run, x);
    assert(t.subrange(0, o.len() as int) =~= o);
    let p2 = o + arrow_tight();
    if starts_with(t, p2) {
        assert forall|j: int| 0 <= j < 3 implies #[trigger] y[j] == arrow_tight()[j] by {
            assert(t.subrange(0, p2.len() as int)[o.len() + j] == p2[o.len() + j]);
            assert(t[o.len() + j] == y[j]);
        }
        if run.len() >= 3 {
            assert(y[0] == run[0] && y[1] == run[1] && y[2] == run[2]);
        } else {
            assert(y[run.len() as int] == x[0]);
        }
        assert(false);
    }
    let p1 = o + arrow_spaced();
    if starts_with(t, p1) {
        assert(t.subrange(0, p2.len() as int) =~= t.subrange(0, p1.len() as int).subrange(0, p2.len() as int));
        assert(p1.subrange(0, p2.len() as int) =~= p2);
        assert(starts_with(t, p2));
    }
}

fn copy_chars(s: &[char]) -> (r: Vec<char>)
    ensures
        r@ == s@,
{
    let r = sub_chars(s, 0, s.len());
    assert(s@.subrange(0, s@.len() as int) =~= s@);
    r
}

/// The position after the arrow characters that start `s[lo..]`.
fn skip_arrows(s: &[char], lo: usize) -> (r: usize)
    requires
        lo <= s@.len(),
    ensures
        lo <= r <= s@.len(),
        trim_arrows(s@.subrange(lo as int, s@.len() as int)) == s@.subrange(
            r as int,
            s@.len() as int,
        ),
{
    let mut i = lo;
    while i < s.len() && (s[i] == ' ' || s[i] == '-' || s[i] == '>')
        invariant
            lo <= i <= s@.len(),
            trim_arrows(s@.subrange(lo as int, s@.len() as int)) == trim_arrows(
                s@.subrange(i as int, s@.len() as int),
            ),
        decreases s@.len() - i,
    {
        assert(s@.subrange(i as int, s@.len() as int).drop_first() =~= s@.subrange(
            i + 1,
            s@.len() as int,
        ));
        i = i + 1;
    }
    i
}

/// [`clean_translation`] on characters.
pub fn clean_chars(t: &[char], o: &[char]) -> (r: Vec<char>)
    ensures
        r@ == clean_translation(t@, o@),
{
    if o.len() == 0 || t.len() == 0 {
        return copy_chars(t);
    }
    let mut p1 = copy_chars(o);
    p1.push(' ');
    p1.push('-');
    p1.push('>');
    let mut p2 = copy_chars(p1.as_slice());
    p1.push(' ');
    assert(p1@ =~= o@ + arrow_spaced());
    assert(p2@ =~= o@ + arrow_tight());
    if occurs_at_exec(t, 0, p1.as_slice()) {
        return sub_chars(t, p1.len(), t.len());
    }
    if occurs_at_exec(t, 0, p2.as_slice()) {
        return trim_start_from(t, p2.len());
    }
    if occurs_at_exec(t, 0, o) && t.len() > o.len() {
        let k = skip_arrows(t, o.len());
        if k < t.len() {
            return trim_range(t, k, t.len());
        }
    }
    copy_chars(t)
}

/// Cleans translation text by removing an echoed original prefix.
///
/// When the LLM receives very short text fragments (e.g., "Ensure ", "The "),
/// it sometimes echoes back "Ensure -> 确保" instead of just "确保".
/// This strips the "original -> " prefix when detected.
pub fn clean_segment_translation(translation: &str, original: &str) -> (r: String)
    ensures
        r@ == clean_translation(translation@, original@),
{
    let t = chars_of(translation);
    let o = chars_of(original);
    let c = clean_chars(t.as_slice(), o.as_slice());
    string_from(c.as_slice())
}

/// Replaces each marker of `s` by what `rep` gives for its digits.
fn replace_markers_exec<F: Fn(Vec<char>) -> Vec<char>>(
    s: &[char],
    prefix: &[char],
    close: char,
    rep: F,
    Ghost(f): Ghost<spec_fn(Seq<char>) -> Seq<char>>,
) -> (r: Vec<char>)
    requires
        forall|d: Vec<char>| #[trigger] rep.requires((d,)),
        forall|d: Vec<char>, x: Vec<char>| rep.ensures((d,), x) ==> x@ == f(d@),
    ensures
        r@ == replace_markers(s@, prefix@, close, f),
{
    let mut out: Vec<char> = Vec::new();
    let mut i: usize = 0;
    while i < s.len()
        invariant
            i <= s@.len(),
            out@ + replaced_from(s@, i as int, prefix@, close, f) == replace_markers(
                s@,
                prefix@,
                close,
                f,
            ),
            forall|d: Vec<char>| #[trigger] rep.requires((d,)),
            forall|d: Vec<char>, x: Vec<char>| rep.ensures((d,), x) ==> x@ == f(d@),
        decreases s@.len() - i,
    {
        let ghost before = out@;
        match marker_len_at_exec(s, i, prefix, close) {
            Some(l) => {
                let d = sub_chars(s, i + prefix.len(), i + l - 1);
                let x = rep(d);
                push_all(&mut out, x.as_slice());
                assert(out@ + replaced_from(s@, (i + l) as int, prefix@, close, f) =~= before
                    + replaced_from(s@, i as int, prefix@, close, f));
                i = i + l;
            },
            None => {
                out.push(s[i]);
                assert(out@ + replaced_from(s@, (i + 1) as int, prefix@, close, f) =~= before
                    + replaced_from(s@, i as int, prefix@, close, f));
                i = i + 1;
            },
        }
    }
    assert(out@ =~= out@ + replaced_from(s@, i as int, prefix@, close, f));
    out
}

/// `"\0MD_"`, the front of a Markdown segment marker.
pub open spec fn md_marker_prefix() -> Seq<char> {
    seq!['\0', 'M', 'D', '_']
}

/// `"\0EPUB_"`, the front of an EPUB segment marker.
pub open spec fn epub_marker_prefix() -> Seq<char> {
    seq!['\0', 'E', 'P', 'U', 'B', '_']
}

/// `` "`C" ``, the front of an inline-code placeholder.
pub open spec fn code_marker_prefix() -> Seq<char> {
    seq!['`', 'C']
}

fn md_prefix_chars() -> (r: Vec<char>)
    ensures
        r@ == md_marker_prefix(),
{
    let mut v: Vec<char> = Vec::new();
    v.push('\0');
    v.push('M');
    v.push('D');
    v.push('_');
    assert(v@ =~= md_marker_prefix());
    v
}

fn epub_prefix_chars() -> (r: Vec<char>)
    ensures
        r@ == epub_marker_prefix(),
{
    let mut v: Vec<char> = Vec::new();
    v.push('\0');
    v.push('E');
    v.push('P');
    v.push('U');
    v.push('B');
    v.push('_');
    assert(v@ =~= epub_marker_prefix());
    v
}

fn code_prefix_chars() -> (r: Vec<char>)
    ensures
        r@ == code_marker_prefix(),
{
    let mut v: Vec<char> = Vec::new();
    v.push('`');
    v.push('C');
    assert(v@ =~= code_marker_prefix());
    v
}

/// What replaces the Markdown marker with digits `d`: the cleaned
/// translation of the segment it names (empty where there is none).
pub open spec fn md_segment_text(
    d: Seq<char>,
    t: Seq<Option<Seq<char>>>,
    segs: Seq<Seq<char>>,
) -> Seq<char> {
    let i = marker_index(d);
    clean_translation(translation_or_empty(t, i), text_or_empty(segs, i))
}

/// What replaces the code placeholder with digits `d`: the code span it
/// names in backticks, or, where there is none, the placeholder itself in
/// backticks.
pub open spec fn code_span_text(d: Seq<char>, code: Seq<Seq<char>>) -> Seq<char> {
    let i = marker_index(d);
    if 0 <= i < code.len() {
        seq!['`'] + code[i] + seq!['`']
    } else {
        seq!['`', '`', 'C'] + d + seq!['`', '`']
    }
}

/// The exported Markdown text: segment markers replaced by their cleaned
/// translations, then code placeholders by their code.
pub open spec fn markdown_export_text(
    marked: Seq<char>,
    t: Seq<Option<Seq<char>>>,
    segs: Seq<Seq<char>>,
    code: Seq<Seq<char>>,
) -> Seq<char> {
    replace_markers(
        replace_markers(
            marked,
            md_marker_prefix(),
            '\0',
            |d: Seq<char>| md_segment_text(d, t, segs),
        ),
        code_marker_prefix(),
        '`',
        |d: Seq<char>| code_span_text(d, code),
    )
}

/// The exported text of an EPUB section: each marker replaced by the
/// translation of the segment it names (empty where there is none).
pub open spec fn epub_section_text(marked: Seq<char>, t: Seq<Option<Seq<char>>>) -> Seq<char> {
    replace_markers(
        marked,
        epub_marker_prefix(),
        '\0',
        |d: Seq<char>| translation_or_empty(t, marker_index(d)),
    )
}

fn marker_index_exec(d: &[char]) -> (r: usize)
    ensures
        r as int == marker_index(d@),
{
    match parse_usize_exec(d) {
        Some(v) => v,
        None => 0,
    }
}

fn translation_chars(t: &Vec<Option<String>>, i: usize) -> (r: Vec<char>)
    ensures
        r@ == translation_or_empty(opt_strings_view(t@), i as int),
{
    if i < t.len() {
        match &t[i] {
            Some(x) => chars_of(x.as_str()),
            None => Vec::new(),
        }
    } else {
        Vec::new()
    }
}

fn text_chars(v: &Vec<String>, i: usize) -> (r: Vec<char>)
    ensures
        r@ == text_or_empty(strings_view(v@), i as int),
{
    if i < v.len() {
        chars_of(v[i].as_str())
    } else {
        Vec::new()
    }
}

/// The exported text of a marked Markdown section.
pub fn render_markdown(
    marked: &str,
    translations: &Vec<Option<String>>,
    segments: &Vec<String>,
    code_spans: &Vec<String>,
) -> (r: String)
    ensures
        r@ == markdown_export_text(
            marked@,
            opt_strings_view(translations@),
            strings_view(segments@),
            strings_view(code_spans@),
        ),
{
    let ghost tv = opt_strings_view(translations@);
    let ghost sv = strings_view(segments@);
    let ghost cv = strings_view(code_spans@);
    let s = chars_of(marked);
    let md_prefix = md_prefix_chars();
    let seg_text = |d: Vec<char>| -> (x: Vec<char>)
        ensures
            x@ == md_segment_text(d@, opt_strings_view(translations@), strings_view(segments@)),
        {
            let i = marker_index_exec(d.as_slice());
            let tr = translation_chars(translations, i);
            let orig = text_chars(segments, i);
            clean_chars(tr.as_slice(), orig.as_slice())
        };
    let with_text = replace_markers_exec(
        s.as_slice(),
        md_prefix.as_slice(),
        '\0',
        seg_text,
        Ghost(|d: Seq<char>| md_segment_text(d, tv, sv)),
    );
    let code_prefix = code_prefix_chars();
    let code_text = |d: Vec<char>| -> (x: Vec<char>)
        ensures
            x@ == code_span_text(d@, strings_view(code_spans@)),
        {
            let i = marker_index_exec(d.as_slice());
            let mut x: Vec<char> = Vec::new();
            if i < code_spans.len() {
                x.push('`');
                push_str(&mut x, code_spans[i].as_str());
                x.push('`');
            } else {
                x.push('`');
                x.push('`');
                x.push('C');
                push_all(&mut x, d.as_slice());
                x.push('`');
                x.push('`');
            }
            assert(x@ =~= code_span_text(d@, strings_view(code_spans@)));
            x
        };
    let out = replace_markers_exec(
        with_text.as_slice(),
        code_prefix.as_slice(),
        '`',
        code_text,
        Ghost(|d: Seq<char>| code_span_text(d, cv)),
    );
    string_from(out.as_slice())
}

/// The exported text of a marked EPUB section.
pub fn render_epub_section(marked: &str, translations: &Vec<Option<String>>) -> (r: String)
    ensures
        r@ == epub_section_text(marked@, opt_strings_view(translations@)),
{
    let ghost tv = opt_strings_view(translations@);
    let s = chars_of(marked);
    let prefix = epub_prefix_chars();
    let seg_text = |d: Vec<char>| -> (x: Vec<char>)
        ensures
            x@ == translation_or_empty(opt_strings_view(translations@), marker_index(d@)),
        {
            let i = marker_index_exec(d.as_slice());
            translation_chars(translations, i)
        };
    let out = replace_markers_exec(
        s.as_slice(),
        prefix.as_slice(),
        '\0',
        seg_text,
        Ghost(|d: Seq<char>| translation_or_empty(tv, marker_index(d))),
    );
    string_from(out.as_slice())
}

/// Whether `i` is the first position of `t` that holds no translation.
pub open spec fn first_untranslated(t: Seq<Option<String>>, i: int) -> bool {
    &&& 0 <= i < t.len()
    &&& t[i] is None
    &&& forall|j: int| 0 <= j < i ==> #[trigger] t[j] is Some
}

/// The message that refuses an export while segment `i` is untranslated.
pub open spec fn incomplete_message(i: nat) -> Seq<char> {
    "Translation incomplete: segment "@ + decimal(i)
        + " is not translated. Click 'Translate File' to retry remaining segments."@
}

/// Refuses an export while a segment is untranslated, naming the first one.
pub fn check_translations_complete(translations: &Vec<Option<String>>) -> (r: Result<(), String>)
    ensures
        r is Ok <==> forall|j: int| 0 <= j < translations@.len() ==> #[trigger] translations@[j] is Some,
        r is Err ==> exists|i: int|
            first_untranslated(translations@, i) && r->Err_0@ == incomplete_message(i as nat),
{
    match find_incomplete(translations.as_slice()) {
        Some(i) => {
            let mut v: Vec<char> = Vec::new();
            push_str(&mut v, "Translation incomplete: segment ");
            push_decimal(&mut v, i as u64);
            push_str(&mut v, " is not translated. Click 'Translate File' to retry remaining segments.");
            let e = string_from(v.as_slice());
            assert(first_untranslated(translations@, i as int));
            assert(e@ =~= incomplete_message(i as nat));
            Err(e)
        },
        None => Ok(()),
    }
}

/// The refusal of a Markdown export from a document without sections.
pub open spec fn no_marked_content() -> Seq<char> {
    "No marked content found in document"@
}

/// The exported Markdown text of `doc`: its first section with markers and
/// placeholders replaced.
pub fn markdown_export_content(doc: &EpubDocument) -> (r: Result<String, String>)
    ensures
        doc.marked_sections@.len() == 0 ==> r is Err && r->Err_0@ == no_marked_content(),
        doc.marked_sections@.len() > 0 ==> r is Ok && r->Ok_0@ == markdown_export_text(
            doc.marked_sections@[0].marked_xhtml@,
            opt_strings_view(doc.translations@),
            strings_view(doc.segments@),
            strings_view(doc.code_spans@),
        ),
{
    if doc.marked_sections.len() == 0 {
        return Err(String::from_str("No marked content found in document"));
    }
    let section = &doc.marked_sections[0];
    Ok(
        render_markdown(
            section.marked_xhtml.as_str(),
            &doc.translations,
            &doc.segments,
            &doc.code_spans,
        ),
    )
}

/// Whether the archive entry named `entry` holds the section stored under
/// `spine`: the two names are equal or one ends with the other.
pub open spec fn section_matches(entry: Seq<char>, spine: Seq<char>) -> bool {
    entry == spine || ends_with(entry, spine) || ends_with(spine, entry)
}

/// The first section that the archive entry `entry_name` holds, if any.
pub fn find_matching_section(sections: &Vec<MarkedSection>, entry_name: &str) -> (r: Option<
    usize,
>)
    ensures
        match r {
            Some(i) => i < sections@.len() && section_matches(
                entry_name@,
                sections@[i as int].spine_path@,
            ) && forall|j: int|
                0 <= j < i ==> !section_matches(entry_name@, #[trigger] sections@[j].spine_path@),
            None => forall|j: int|
                0 <= j < sections@.len() ==> !section_matches(
                    entry_name@,
                    #[trigger] sections@[j].spine_path@,
                ),
        },
{
    let e = chars_of(entry_name);
    let mut i: usize = 0;
    while i < sections.len()
        invariant
            i <= sections@.len(),
            e@ == entry_name@,
            forall|j: int|
                0 <= j < i ==> !section_matches(entry_name@, #[trigger] sections@[j].spine_path@),
        decreases sections@.len() - i,
    {
        let p = chars_of(sections[i].spine_path.as_str());
        proof {
            if e@ == p@ {
                assert(e@.subrange(0, e@.len() as int) =~= e@);
            }
        }
        if ends_with_exec(e.as_slice(), p.as_slice()) || ends_with_exec(p.as_slice(), e.as_slice()) {
            return Some(i);
        }
        i = i + 1;
    }
    None
}

/// Whether `c` does not occur in `s`.
pub open spec fn lacks_char(s: Seq<char>, c: char) -> bool {
    forall|i: int| 0 <= i < s.len() ==> s[i] != c
}

/// A marked text: `first`, then, for each `(n, piece)` of `rest`, the
/// marker of `n` (`prefix`, the decimal `n`, `close`) and the piece.
pub open spec fn marked_text(
    first: Seq<char>,
    rest: Seq<(nat, Seq<char>)>,
    prefix: Seq<char>,
    close: char,
) -> Seq<char>
    decreases rest.len(),
{
    if rest.len() == 0 {
        first
    } else {
        first + (prefix + decimal(rest[0].0) + seq![close]) + marked_text(
            rest[0].1,
            rest.drop_first(),
            prefix,
            close,
        )
    }
}

/// The same text with `fill(n)` in place of the marker of `n`.
pub open spec fn filled_text(
    first: Seq<char>,
    rest: Seq<(nat, Seq<char>)>,
    fill: spec_fn(nat) -> Seq<char>,
) -> Seq<char>
    decreases rest.len(),
{
    if rest.len() == 0 {
        first
    } else {
        first + fill(rest[0].0) + filled_text(rest[0].1, rest.drop_first(), fill)
    }
}

proof fn lemma_digit_run_shift(a: Seq<char>, b: Seq<char>, k: int)
    requires
        0 <= k,
    ensures
        digit_run(a + b, a.len() + k) == digit_run(b, k),
    decreases b.len() - k,
{
    if k < b.len() {
        assert((a + b)[a.len() + k] == b[k]);
        lemma_digit_run_shift(a, b, k + 1);
    }
}

pub(crate) proof fn lemma_marker_len_shift(a: Seq<char>, b: Seq<char>, j: int, prefix: Seq<char>, close: char)
    requires
        0 <= j,
    ensures
        marker_len_at(a + b, a.len() + j, prefix, close) == marker_len_at(b, j, prefix, close),
{
    let s = a + b;
    let i = a.len() + j;
    if j + prefix.len() <= b.len() {
        assert(s.subrange(i, i + prefix.len()) =~= b.subrange(j, j + prefix.len()));
    }
    lemma_digit_run_shift(a, b, j + prefix.len());
    let e = j + prefix.len() + digit_run(b, j + prefix.len());
    if 0 <= e < b.len() {
        assert(s[a.len() + e] == b[e]);
    }
}

proof fn lemma_replaced_shift(
    a: Seq<char>,
    b: Seq<char>,
    j: int,
    prefix: Seq<char>,
    close: char,
    f: spec_fn(Seq<char>) -> Seq<char>,
)
    requires
        0 <= j,
    ensures
        replaced_from(a + b, a.len() + j, prefix, close, f) == replaced_from(b, j, prefix, close, f),
    decreases b.len() - j,
{
    let s = a + b;
    let i = a.len() + j;
    if j < b.len() {
        lemma_marker_len_shift(a, b, j, prefix, close);
        assert(s[i] == b[j]);
        match marker_len_at(b, j, prefix, close) {
            Some(l) => {
                assert(s.subrange(i + prefix.len(), i + l - 1) =~= b.subrange(
                    j + prefix.len(),
                    j + l - 1,
                ));
                lemma_replaced_shift(a, b, j + l, prefix, close, f);
            },
            None => {
                lemma_replaced_shift(a, b, j + 1, prefix, close, f);
            },
        }
    }
}

proof fn lemma_replaced_plain(
    a: Seq<char>,
    b: Seq<char>,
    i: int,
    prefix: Seq<char>,
    close: char,
    f: spec_fn(Seq<char>) -> Seq<char>,
)
    requires
        prefix.len() > 0,
        lacks_char(a, prefix[0]),
        0 <= i <= a.len(),
    ensures
        replaced_from(a + b, i, prefix, close, f) == a.subrange(i, a.len() as int) + replaced_from(
            a + b,
            a.len() as int,
            prefix,
            close,
            f,
        ),
    decreases a.len() - i,
{
    let s = a + b;
    if i < a.len() {
        assert(s[i] == a[i]);
        assert(!occurs_at(s, i, prefix)) by {
            if occurs_at(s, i, prefix) {
                assert(s.subrange(i, i + prefix.len())[0] == prefix[0]);
            }
        }
        lemma_replaced_plain(a, b, i + 1, prefix, close, f);
        assert(a.subrange(i, a.len() as int) =~= seq![a[i]] + a.subrange(i + 1, a.len() as int));
    } else {
        assert(a.subrange(i, a.len() as int) =~= Seq::<char>::empty());
    }
}

proof fn lemma_digit_run_decimal(prefix: Seq<char>, tail: Seq<char>, n: nat, close: char, k: int)
    requires
        0 <= k <= decimal(n).len(),
        !marker_digit(close),
    ensures
        digit_run((prefix + decimal(n) + seq![close]) + tail, prefix.len() + k) == decimal(n).len() - k,
    decreases decimal(n).len() - k,
{
    lemma_decimal_parses(n);
    let m = prefix + decimal(n) + seq![close];
    let s = m + tail;
    let d = decimal(n);
    let p = prefix.len() as int;
    if k < d.len() {
        assert(s[p + k] == d[k]);
        lemma_digit_run_decimal(prefix, tail, n, close, k + 1);
    } else {
        assert(s[p + k] == close);
    }
}

/// The marker of `n` at the front of a text is found there, whole.
pub(crate) proof fn lemma_marker_at_front(n: nat, tail: Seq<char>, prefix: Seq<char>, close: char)
    requires
        !marker_digit(close),
    ensures
        marker_len_at((prefix + decimal(n) + seq![close]) + tail, 0, prefix, close) == Some(
            (prefix + decimal(n) + seq![close]).len(),
        ),
        ((prefix + decimal(n) + seq![close]) + tail).subrange(prefix.len() as int, (prefix + decimal(n) + seq![close]).len() - 1)
            == decimal(n),
{
    let m = prefix + decimal(n) + seq![close];
    let s = m + tail;
    let p = prefix.len() as int;
    assert(m.subrange(0, p) =~= prefix);
    lemma_digit_run_decimal(prefix, tail, n, close, 0);
    assert(s.subrange(0, p) =~= prefix);
    assert(s[p + decimal(n).len()] == close);
    assert(s.subrange(p, m.len() - 1) =~= decimal(n));
}

proof fn lemma_replaced_marker(
    n: nat,
    tail: Seq<char>,
    prefix: Seq<char>,
    close: char,
    f: spec_fn(Seq<char>) -> Seq<char>,
)
    requires
        !marker_digit(close),
    ensures
        replaced_from((prefix + decimal(n) + seq![close]) + tail, 0, prefix, close, f) == f(decimal(n))
            + replaced_from(tail, 0, prefix, close, f),
{
    let m = prefix + decimal(n) + seq![close];
    lemma_marker_at_front(n, tail, prefix, close);
    lemma_replaced_shift(m, tail, 0, prefix, close, f);
}

/// Replacing the markers of a marked text gives the filled text: each
/// marker of `n` is replaced by `f` of its digits, which is `fill(n)`.
/// The text between markers must not hold the first character of the
/// marker's front, or a marker could start there.
pub proof fn lemma_replace_marked(
    first: Seq<char>,
    rest: Seq<(nat, Seq<char>)>,
    prefix: Seq<char>,
    close: char,
    f: spec_fn(Seq<char>) -> Seq<char>,
    fill: spec_fn(nat) -> Seq<char>,
)
    requires
        prefix.len() > 0,
        !marker_digit(close),
        lacks_char(first, prefix[0]),
        forall|k: int| 0 <= k < rest.len() ==> lacks_char(#[trigger] rest[k].1, prefix[0]),
        forall|k: int| 0 <= k < rest.len() ==> f(decimal(#[trigger] rest[k].0)) == fill(rest[k].0),
    ensures
        replace_markers(marked_text(first, rest, prefix, close), prefix, close, f) == filled_text(
            first,
            rest,
            fill,
        ),
    decreases rest.len(),
{
    if rest.len() == 0 {
        lemma_replaced_plain(first, Seq::empty(), 0, prefix, close, f);
        assert(first + Seq::<char>::empty() =~= first);
        assert(first.subrange(0, first.len() as int) =~= first);
    } else {
        let m = prefix + decimal(rest[0].0) + seq![close];
        let tail = marked_text(rest[0].1, rest.drop_first(), prefix, close);
        let s = first + (m + tail);
        assert(marked_text(first, rest, prefix, close) == first + m + tail);
        assert(first + m + tail =~= s);
        lemma_replaced_plain(first, m + tail, 0, prefix, close, f);
        assert(first.subrange(0, first.len() as int) =~= first);
        lemma_replaced_shift(first, m + tail, 0, prefix, close, f);
        lemma_replaced_marker(rest[0].0, tail, prefix, close, f);
        assert forall|k: int| 0 <= k < rest.drop_first().len() implies lacks_char(
            #[trigger] rest.drop_first()[k].1,
            prefix[0],
        ) by {
            assert(rest.drop_first()[k] == rest[k + 1]);
        }
        assert forall|k: int| 0 <= k < rest.drop_first().len() implies f(
            decimal(#[trigger] rest.drop_first()[k].0),
        ) == fill(rest.drop_first()[k].0) by {
            assert(rest.drop_first()[k] == rest[k + 1]);
        }
        lemma_replace_marked(rest[0].1, rest.drop_first(), prefix, close, f, fill);
        assert(f(decimal(rest[0].0)) == fill(rest[0].0));
    }
}

/// Exporting an EPUB section puts each segment's translation where its
/// marker stood: a section made of text without NUL characters and the
/// markers of segments `n` (each fitting in a `usize`) becomes that text
/// with the translation of segment `n` (empty where there is none) in
/// place of each marker.
pub proof fn lemma_epub_export_fills_markers(
    first: Seq<char>,
    rest: Seq<(nat, Seq<char>)>,
    t: Seq<Option<Seq<char>>>,
)
    requires
        lacks_char(first, '\0'),
        forall|k: int| 0 <= k < rest.len() ==> lacks_char(#[trigger] rest[k].1, '\0'),
        forall|k: int| 0 <= k < rest.len() ==> #[trigger] rest[k].0 <= usize::MAX,
    ensures
        epub_section_text(marked_text(first, rest, epub_marker_prefix(), '\0'), t) == filled_text(
            first,
            rest,
            |n: nat| translation_or_empty(t, n as int),
        ),
{
    let f = |d: Seq<char>| translation_or_empty(t, marker_index(d));
    let fill = |n: nat| translation_or_empty(t, n as int);
    assert forall|k: int| 0 <= k < rest.len() implies f(decimal(#[trigger] rest[k].0)) == fill(
        rest[k].0,
    ) by {
        lemma_decimal_parses(rest[k].0);
    }
    lemma_replace_marked(first, rest, epub_marker_prefix(), '\0', f, fill);
}

/// Exporting a Markdown text puts each segment's cleaned translation where
/// its marker stood (before inline-code placeholders are restored): a text
/// without NUL characters and the markers of segments `n` becomes that text
/// with the cleaned translation of segment `n` in place of each marker.
pub proof fn lemma_markdown_export_fills_markers(
    first: Seq<char>,
    rest: Seq<(nat, Seq<char>)>,
    t: Seq<Option<Seq<char>>>,
    segs: Seq<Seq<char>>,
)
    requires
        lacks_char(first, '\0'),
        forall|k: int| 0 <= k < rest.len() ==> lacks_char(#[trigger] rest[k].1, '\0'),
        forall|k: int| 0 <= k < rest.len() ==> #[trigger] rest[k].0 <= usize::MAX,
    ensures
        replace_markers(
            marked_text(first, rest, md_marker_prefix(), '\0'),
            md_marker_prefix(),
            '\0',
            |d: Seq<char>| md_segment_text(d, t, segs),
        ) == filled_text(
            first,
            rest,
            |n: nat| clean_translation(translation_or_empty(t, n as int), text_or_empty(segs, n as int)),
        ),
{
    let f = |d: Seq<char>| md_segment_text(d, t, segs);
    let fill = |n: nat| clean_translation(translation_or_empty(t, n as int), text_or_empty(segs, n as int));
    assert forall|k: int| 0 <= k < rest.len() implies f(decimal(#[trigger] rest[k].0)) == fill(
        rest[k].0,
    ) by {
        lemma_decimal_parses(rest[k].0);
    }
    lemma_replace_marked(first, rest, md_marker_prefix(), '\0', f, fill);
}

/// The layout of a marked text: the text before the first marker and, for
/// each marker, its number and the text after it.
pub type Layout = (Seq<char>, Seq<(nat, Seq<char>)>);

/// The layout once `t` is appended to the marked text.
pub open spec fn append_text(l: Layout, t: Seq<char>) -> Layout {
    if l.1.len() == 0 {
        (l.0 + t, l.1)
    } else {
        (l.0, l.1.update(l.1.len() - 1, (l.1.last().0, l.1.last().1 + t)))
    }
}

/// The layout once the marker of `n` is appended to the marked text.
pub open spec fn append_marker(l: Layout, n: nat) -> Layout {
    (l.0, l.1.push((n, Seq::empty())))
}

proof fn lemma_append_text(first: Seq<char>, rest: Seq<(nat, Seq<char>)>, t: Seq<char>, prefix: Seq<char>, close: char)
    ensures
        marked_text(append_text((first, rest), t).0, append_text((first, rest), t).1, prefix, close)
            == marked_text(first, rest, prefix, close) + t,
    decreases rest.len(),
{
    if rest.len() == 0 {
        assert(marked_text(first + t, rest, prefix, close) == first + t);
    } else {
        let r2 = append_text((first, rest), t).1;
        let m = prefix + decimal(rest[0].0) + seq![close];
        lemma_append_text(rest[0].1, rest.drop_first(), t, prefix, close);
        let inner = append_text((rest[0].1, rest.drop_first()), t);
        if rest.len() == 1 {
            assert(r2[0] == (rest[0].0, rest[0].1 + t));
            assert(r2.drop_first() =~= rest.drop_first());
            assert(inner.0 == r2[0].1);
            assert(inner.1 == r2.drop_first());
        } else {
            assert(r2[0] == rest[0]);
            assert(r2.drop_first() =~= inner.1);
        }
        assert(marked_text(first, r2, prefix, close) == first + m + marked_text(r2[0].1, r2.drop_first(), prefix, close));
        assert(marked_text(first, rest, prefix, close) == first + m + marked_text(rest[0].1, rest.drop_first(), prefix, close));
        assert(first + m + (marked_text(rest[0].1, rest.drop_first(), prefix, close) + t)
            =~= first + m + marked_text(rest[0].1, rest.drop_first(), prefix, close) + t);
    }
}

proof fn lemma_append_marker(first: Seq<char>, rest: Seq<(nat, Seq<char>)>, n: nat, prefix: Seq<char>, close: char)
    ensures
        marked_text(first, rest.push((n, Seq::empty())), prefix, close) == marked_text(first, rest, prefix, close)
            + (prefix + decimal(n) + seq![close]),
    decreases rest.len(),
{
    let m = prefix + decimal(n) + seq![close];
    let r2 = rest.push((n, Seq::<char>::empty()));
    if rest.len() == 0 {
        assert(r2.drop_first() =~= Seq::<(nat, Seq<char>)>::empty());
        assert(marked_text(first, r2, prefix, close) == first + m + marked_text(Seq::empty(), r2.drop_first(), prefix, close));
        assert(first + m + Seq::<char>::empty() =~= first + m);
    } else {
        lemma_append_marker(rest[0].1, rest.drop_first(), n, prefix, close);
        assert(r2[0] == rest[0]);
        assert(r2.drop_first() =~= rest.drop_first().push((n, Seq::<char>::empty())));
        let m0 = prefix + decimal(rest[0].0) + seq![close];
        assert(first + m0 + (marked_text(rest[0].1, rest.drop_first(), prefix, close) + m)
            =~= first + m0 + marked_text(rest[0].1, rest.drop_first(), prefix, close) + m);
    }
}

/// Whether no text of a layout holds a NUL character.
pub open spec fn layout_nul_free(l: Layout) -> bool {
    &&& lacks_char(l.0, '\0')
    &&& forall|k: int| 0 <= k < l.1.len() ==> lacks_char(#[trigger] l.1[k].1, '\0')
}

/// Whether the markers of a layout are numbered 0, 1, 2, ... in order.
pub open spec fn layout_numbered(l: Layout) -> bool {
    forall|k: int| 0 <= k < l.1.len() ==> #[trigger] l.1[k].0 == k
}

/// Whether an event's texts that reach the marked copy hold no NUL
/// character.
pub open spec fn item_nul_free(it: MdItem) -> bool {
    &&& lacks_char(it.raw@, '\0')
    &&& match it.event {
        MdEvent::Start(MdTag::Link(u)) => lacks_char(u@, '\0'),
        MdEvent::Start(MdTag::Image(u)) => lacks_char(u@, '\0'),
        MdEvent::Start(MdTag::FencedCode(l)) => lacks_char(l@, '\0'),
        _ => true,
    }
}

/// The layout after a flush of the state `st`.
pub open spec fn flush_layout(l: Layout, st: MdState) -> Layout {
    if st.text_buf.len() > 0 && trim(st.text_buf).len() > 0 {
        append_marker(l, st.segments.len())
    } else {
        l
    }
}

/// The layout after one event.
pub open spec fn layout_step(l: Layout, st: MdState, item: MdItem) -> Layout {
    match item.event {
        MdEvent::Start(tag) => append_text(flush_layout(l, st), start_text(md_flush(st), tag, item.raw@)),
        MdEvent::End(tag) => append_text(flush_layout(l, st), end_text(md_flush(st), tag, item.raw@)),
        MdEvent::Text(_) => if st.in_code_block || st.skip_image_depth > 0 || st.skip_metadata {
            append_text(l, item.raw@)
        } else {
            l
        },
        MdEvent::Code(_) => l,
        MdEvent::Html(_) => l,
        MdEvent::Break => append_text(flush_layout(l, st), item.raw@),
        MdEvent::Other => append_text(l, item.raw@),
    }
}

/// The layout of the marked copy after the events `items`.
pub open spec fn md_layout(items: Seq<MdItem>) -> Layout
    decreases items.len(),
{
    if items.len() == 0 {
        (Seq::empty(), Seq::empty())
    } else {
        layout_step(md_layout(items.drop_last()), md_run(items.drop_last()), items.last())
    }
}

/// The layout of the marked copy of a whole event stream.
pub open spec fn md_final_layout(items: Seq<MdItem>) -> Layout {
    flush_layout(md_layout(items), md_run(items))
}

proof fn lemma_lacks_concat(a: Seq<char>, b: Seq<char>)
    requires
        lacks_char(a, '\0'),
        lacks_char(b, '\0'),
    ensures
        lacks_char(a + b, '\0'),
{
    assert forall|i: int| 0 <= i < (a + b).len() implies (a + b)[i] != '\0' by {
        if i < a.len() {
            assert((a + b)[i] == a[i]);
        } else {
            assert((a + b)[i] == b[i - a.len()]);
        }
    }
}

proof fn lemma_repeat_lacks(c: Seq<char>, n: nat)
    requires
        lacks_char(c, '\0'),
    ensures
        lacks_char(repeat_seq(c, n), '\0'),
    decreases n,
{
    if n > 0 {
        lemma_repeat_lacks(c, (n - 1) as nat);
        lemma_lacks_concat(repeat_seq(c, (n - 1) as nat), c);
    }
}

proof fn lemma_decimal_lacks(n: nat)
    ensures
        lacks_char(decimal(n), '\0'),
{
    lemma_decimal_parses(n);
}

proof fn lemma_literals_lack_nul()
    ensures
        lacks_char("#"@, '\0'),
        lacks_char(" "@, '\0'),
        lacks_char("> "@, '\0'),
        lacks_char("  "@, '\0'),
        lacks_char(". "@, '\0'),
        lacks_char("- "@, '\0'),
        lacks_char("| "@, '\0'),
        lacks_char("**"@, '\0'),
        lacks_char("*"@, '\0'),
        lacks_char("~~"@, '\0'),
        lacks_char("["@, '\0'),
        lacks_char("!["@, '\0'),
        lacks_char("```"@, '\0'),
        lacks_char("\n"@, '\0'),
        lacks_char("|\n"@, '\0'),
        lacks_char("|"@, '\0'),
        lacks_char(" --- |"@, '\0'),
        lacks_char("\n\n"@, '\0'),
        lacks_char("]("@, '\0'),
        lacks_char(")"@, '\0'),
        lacks_char("```\n"@, '\0'),
        lacks_char(Seq::<char>::empty(), '\0'),
{
    reveal_strlit("#");
    reveal_strlit(" ");
    reveal_strlit("> ");
    reveal_strlit("  ");
    reveal_strlit(". ");
    reveal_strlit("- ");
    reveal_strlit("| ");
    reveal_strlit("**");
    reveal_strlit("*");
    reveal_strlit("~~");
    reveal_strlit("[");
    reveal_strlit("![");
    reveal_strlit("```");
    reveal_strlit("\n");
    reveal_strlit("|\n");
    reveal_strlit("|");
    reveal_strlit(" --- |");
    reveal_strlit("\n\n");
    reveal_strlit("](");
    reveal_strlit(")");
    reveal_strlit("```\n");
}

/// Whether the link and image targets held by a state hold no NUL.
pub open spec fn urls_nul_free(st: MdState) -> bool {
    &&& (st.link_url matches Some(u) ==> lacks_char(u, '\0'))
    &&& (st.image_url matches Some(u) ==> lacks_char(u, '\0'))
}

proof fn lemma_start_text_lacks(st: MdState, tag: MdTag, raw: Seq<char>)
    requires
        lacks_char(raw, '\0'),
        tag matches MdTag::FencedCode(l) ==> lacks_char(l@, '\0'),
    ensures
        lacks_char(start_text(st, tag, raw), '\0'),
{
    lemma_literals_lack_nul();
    match tag {
        MdTag::Heading(n) => {
            lemma_repeat_lacks("#"@, n as nat);
            lemma_lacks_concat(repeat_seq("#"@, n as nat), " "@);
        },
        MdTag::Item => {
            lemma_decimal_lacks(st.list_counter as nat);
            lemma_lacks_concat(decimal(st.list_counter as nat), ". "@);
        },
        MdTag::FencedCode(lang) => {
            lemma_lacks_concat("```"@, lang@);
            lemma_lacks_concat("```"@ + lang@, "\n"@);
        },
        MdTag::TableRow => {
            lemma_repeat_lacks(" --- |"@, st.table_cells);
            lemma_lacks_concat("|"@, repeat_seq(" --- |"@, st.table_cells));
            lemma_lacks_concat("|"@ + repeat_seq(" --- |"@, st.table_cells), "\n"@);
            lemma_lacks_concat("|\n"@, "|"@ + repeat_seq(" --- |"@, st.table_cells) + "\n"@);
            lemma_lacks_concat("|\n"@, Seq::empty());
        },
        _ => {},
    }
}

proof fn lemma_end_text_lacks(st: MdState, tag: MdTagEnd, raw: Seq<char>)
    requires
        lacks_char(raw, '\0'),
        urls_nul_free(st),
    ensures
        lacks_char(end_text(st, tag, raw), '\0'),
{
    lemma_literals_lack_nul();
    match tag {
        MdTagEnd::Table => {
            lemma_lacks_concat("|\n"@, "\n"@);
            lemma_lacks_concat(Seq::empty(), "\n"@);
        },
        MdTagEnd::Link => {
            if let Some(u) = st.link_url {
                lemma_lacks_concat("]("@, u);
                lemma_lacks_concat("]("@ + u, ")"@);
            }
        },
        MdTagEnd::Image => {
            if let Some(u) = st.image_url {
                lemma_lacks_concat("]("@, u);
                lemma_lacks_concat("]("@ + u, ")"@);
            }
        },
        _ => {},
    }
}

proof fn lemma_append_text_keeps(l: Layout, t: Seq<char>)
    requires
        layout_nul_free(l),
        layout_numbered(l),
        lacks_char(t, '\0'),
    ensures
        layout_nul_free(append_text(l, t)),
        layout_numbered(append_text(l, t)),
        append_text(l, t).1.len() == l.1.len(),
{
    if l.1.len() == 0 {
        lemma_lacks_concat(l.0, t);
    } else {
        let k = l.1.len() - 1;
        assert(lacks_char(l.1[k].1, '\0'));
        lemma_lacks_concat(l.1[k].1, t);
        let r = append_text(l, t).1;
        assert forall|j: int| 0 <= j < r.len() implies lacks_char(#[trigger] r[j].1, '\0') by {
            if j != k {
                assert(r[j] == l.1[j]);
            }
        }
        assert forall|j: int| 0 <= j < r.len() implies #[trigger] r[j].0 == j by {
            if j != k {
                assert(r[j] == l.1[j]);
            }
        }
    }
}

proof fn lemma_flush_layout(l: Layout, st: MdState)
    requires
        marked_text(l.0, l.1, md_marker_prefix(), '\0') == st.output,
        l.1.len() == st.segments.len(),
        layout_nul_free(l),
        layout_numbered(l),
    ensures
        marked_text(flush_layout(l, st).0, flush_layout(l, st).1, md_marker_prefix(), '\0') == md_flush(st).output,
        flush_layout(l, st).1.len() == md_flush(st).segments.len(),
        layout_nul_free(flush_layout(l, st)),
        layout_numbered(flush_layout(l, st)),
        md_flush(st).segments.len() <= st.segments.len() + 1,
        md_flush(st).link_url == st.link_url,
        md_flush(st).image_url == st.image_url,
{
    if st.text_buf.len() > 0 && trim(st.text_buf).len() > 0 {
        let n = st.segments.len();
        lemma_append_marker(l.0, l.1, n, md_marker_prefix(), '\0');
        reveal_strlit("MD_");
        assert(md_marker(n) =~= md_marker_prefix() + decimal(n) + seq!['\0']);
        let r = flush_layout(l, st).1;
        assert forall|j: int| 0 <= j < r.len() implies lacks_char(#[trigger] r[j].1, '\0') by {
            if j < l.1.len() {
                assert(r[j] == l.1[j]);
            }
        }
        assert forall|j: int| 0 <= j < r.len() implies #[trigger] r[j].0 == j by {
            if j < l.1.len() {
                assert(r[j] == l.1[j]);
            }
        }
    }
}

#[verifier::rlimit(50)]
proof fn lemma_md_layout(items: Seq<MdItem>)
    requires
        forall|i: int| 0 <= i < items.len() ==> item_nul_free(#[trigger] items[i]),
    ensures
        marked_text(md_layout(items).0, md_layout(items).1, md_marker_prefix(), '\0') == md_run(items).output,
        md_layout(items).1.len() == md_run(items).segments.len(),
        layout_nul_free(md_layout(items)),
        layout_numbered(md_layout(items)),
        urls_nul_free(md_run(items)),
        md_run(items).segments.len() <= items.len(),
    decreases items.len(),
{
    if items.len() > 0 {
        let prev = items.drop_last();
        assert forall|i: int| 0 <= i < prev.len() implies item_nul_free(#[trigger] prev[i]) by {
            assert(prev[i] == items[i]);
        }
        lemma_md_layout(prev);
        let l = md_layout(prev);
        let st = md_run(prev);
        let item = items.last();
        assert(item_nul_free(items[items.len() - 1]));
        lemma_flush_layout(l, st);
        let fl = flush_layout(l, st);
        let f = md_flush(st);
        match item.event {
            MdEvent::Start(tag) => {
                lemma_start_appends(f, tag, item.raw@);
                lemma_start_text_lacks(f, tag, item.raw@);
                lemma_append_text(fl.0, fl.1, start_text(f, tag, item.raw@), md_marker_prefix(), '\0');
                lemma_append_text_keeps(fl, start_text(f, tag, item.raw@));
            },
            MdEvent::End(tag) => {
                lemma_end_appends(f, tag, item.raw@);
                lemma_end_text_lacks(f, tag, item.raw@);
                lemma_append_text(fl.0, fl.1, end_text(f, tag, item.raw@), md_marker_prefix(), '\0');
                lemma_append_text_keeps(fl, end_text(f, tag, item.raw@));
            },
            MdEvent::Text(_) => {
                if st.in_code_block || st.skip_image_depth > 0 || st.skip_metadata {
                    lemma_append_text(l.0, l.1, item.raw@, md_marker_prefix(), '\0');
                    lemma_append_text_keeps(l, item.raw@);
                }
            },
            MdEvent::Code(_) => {},
            MdEvent::Html(_) => {},
            MdEvent::Break => {
                lemma_append_text(fl.0, fl.1, item.raw@, md_marker_prefix(), '\0');
                lemma_append_text_keeps(fl, item.raw@);
            },
            MdEvent::Other => {
                lemma_append_text(l.0, l.1, item.raw@, md_marker_prefix(), '\0');
                lemma_append_text_keeps(l, item.raw@);
            },
        }
    }
}

/// A Markdown document, parsed and exported, reads as the segmenter laid it
/// out with each segment's translation in place: the marked copy is text
/// (without NUL characters) between markers numbered 0, 1, 2, ... in order,
/// one per segment, and the export puts the cleaned translation of segment
/// `k` where marker `k` stood. This holds for event streams whose texts
/// that reach the marked copy hold no NUL character.
pub proof fn lemma_markdown_round_trip(items: Seq<MdItem>, t: Seq<Option<Seq<char>>>, segs: Seq<Seq<char>>)
    requires
        items.len() <= usize::MAX,
        forall|i: int| 0 <= i < items.len() ==> item_nul_free(#[trigger] items[i]),
    ensures
        ({
            let lay = md_final_layout(items);
            &&& md_segmentation(items).output == marked_text(lay.0, lay.1, md_marker_prefix(), '\0')
            &&& lay.1.len() == md_segmentation(items).segments.len()
            &&& layout_numbered(lay)
            &&& layout_nul_free(lay)
            &&& replace_markers(
                md_segmentation(items).output,
                md_marker_prefix(),
                '\0',
                |d: Seq<char>| md_segment_text(d, t, segs),
            ) == filled_text(
                lay.0,
                lay.1,
                |n: nat| clean_translation(translation_or_empty(t, n as int), text_or_empty(segs, n as int)),
            )
        }),
{
    lemma_md_layout(items);
    lemma_flush_layout(md_layout(items), md_run(items));
    let lay = md_final_layout(items);
    assert forall|k: int| 0 <= k < lay.1.len() implies #[trigger] lay.1[k].0 <= usize::MAX by {
        assert(lay.1[k].0 == k);
    }
    lemma_markdown_export_fills_markers(lay.0, lay.1, t, segs);
}

} // verus!
