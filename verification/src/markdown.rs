//! Markdown documents: the CommonMark event stream of `pulldown-cmark` is
//! turned into translatable segments and a marked copy of the source in
//! which a `\0MD_N\0` marker stands for the N-th segment; inline code and
//! inline HTML inside a segment become `` `CN` `` placeholders.

use vstd::prelude::*;
use crate::document::{no_translations, paragraph_metas, plain_paragraph, EpubDocument, EpubLoadInfo, MarkedSection};
use crate::text::{chars_of, decimal, decimal_chars, push_all, push_str, string_from, trim, trim_chars};

verus! {

/// A start tag, as far as the segmentation tells tags apart.
pub enum MdTag {
    Paragraph,
    Heading(usize),
    BlockQuote,
    Item,
    TableCell,
    Strong,
    Emphasis,
    Strikethrough,
    Link(String),
    Image(String),
    List(Option<u64>),
    FencedCode(String),
    IndentedCode,
    TableHead,
    TableRow,
    Table,
    Metadata,
    Other,
}

/// An end tag, as far as the segmentation tells them apart.
pub enum MdTagEnd {
    Paragraph,
    Heading,
    BlockQuote,
    Item,
    TableCell,
    TableRow,
    Table,
    List,
    Strong,
    Emphasis,
    Strikethrough,
    Link,
    Image,
    CodeBlock,
    Metadata,
    TableHead,
    Other,
}

/// A parser event.
pub enum MdEvent {
    Start(MdTag),
    End(MdTagEnd),
    Text(String),
    Code(String),
    /// Block or inline HTML.
    Html(String),
    /// A soft or hard line break.
    Break,
    Other,
}

/// A parser event with the source text that it spans.
pub struct MdItem {
    pub event: MdEvent,
    pub raw: String,
}

/// Tables, footnotes, strikethrough and task lists.
pub const MARKDOWN_OPTIONS: u32 = 30;

/// `pulldown_cmark::Event`, carried through as an opaque value.
#[verifier::external_type_specification]
#[verifier::external_body]
pub struct ExMdEvent<'a>(pulldown_cmark::Event<'a>);

/// `pulldown_cmark::Tag`, carried through as an opaque value.
#[verifier::external_type_specification]
#[verifier::external_body]
pub struct ExMdTag<'a>(pulldown_cmark::Tag<'a>);

/// `pulldown_cmark::TagEnd`, carried through as an opaque value.
#[verifier::external_type_specification]
#[verifier::external_body]
pub struct ExMdTagEnd(pulldown_cmark::TagEnd);

/// The events, with their source text, that `pulldown-cmark` produces for
/// `content` under the option bits `options`.
pub uninterp spec fn markdown_items(content: Seq<char>, options: u32) -> Seq<MdItem>;

/// Runs `pulldown_cmark::Parser::new_ext(content, options).into_offset_iter()`
/// and converts each event, with the text of its byte range, into an
/// [`MdItem`]. The result is named [`markdown_items`]; the CommonMark
/// grammar is not restated.
#[verifier::external_body]
fn parse_markdown_events(content: &str, options: u32) -> (r: Vec<MdItem>)
    ensures
        r@ == markdown_items(content@, options),
{
    pulldown_cmark::Parser::new_ext(content, pulldown_cmark::Options::from_bits_truncate(options))
        .into_offset_iter().map(|(e, range)| md_item(e, &content[range])).collect()
}

/// Converts a `pulldown_cmark::Event`, one variant to one variant.
#[verifier::external_body]
fn md_item(e: pulldown_cmark::Event, raw: &str) -> MdItem {
    let event = match e {
        pulldown_cmark::Event::Start(t) => MdEvent::Start(md_tag(t)),
        pulldown_cmark::Event::End(t) => MdEvent::End(md_tag_end(t)),
        pulldown_cmark::Event::Text(s) => MdEvent::Text(s.to_string()),
        pulldown_cmark::Event::Code(s) => MdEvent::Code(s.to_string()),
        pulldown_cmark::Event::Html(s) | pulldown_cmark::Event::InlineHtml(s) => MdEvent::Html(s.to_string()),
        pulldown_cmark::Event::SoftBreak | pulldown_cmark::Event::HardBreak => MdEvent::Break,
        _ => MdEvent::Other,
    };
    MdItem { event, raw: raw.to_string() }
}

/// Converts the block-level `pulldown_cmark::Tag`s, one variant to one
/// variant; the rest go to [`md_inline_tag`].
#[verifier::external_body]
fn md_tag(t: pulldown_cmark::Tag) -> MdTag {
    match t {
        pulldown_cmark::Tag::Paragraph => MdTag::Paragraph,
        pulldown_cmark::Tag::Heading { level, .. } => MdTag::Heading(level as usize),
        pulldown_cmark::Tag::BlockQuote(_) => MdTag::BlockQuote,
        pulldown_cmark::Tag::CodeBlock(pulldown_cmark::CodeBlockKind::Fenced(l)) => MdTag::FencedCode(l.to_string()),
        pulldown_cmark::Tag::CodeBlock(pulldown_cmark::CodeBlockKind::Indented) => MdTag::IndentedCode,
        pulldown_cmark::Tag::List(n) => MdTag::List(n),
        pulldown_cmark::Tag::Item => MdTag::Item,
        pulldown_cmark::Tag::MetadataBlock(_) => MdTag::Metadata,
        t => md_inline_tag(t),
    }
}

/// Converts the table and inline `pulldown_cmark::Tag`s, one variant to one
/// variant.
#[verifier::external_body]
fn md_inline_tag(t: pulldown_cmark::Tag) -> MdTag {
    match t {
        pulldown_cmark::Tag::Table(_) => MdTag::Table,
        pulldown_cmark::Tag::TableHead => MdTag::TableHead,
        pulldown_cmark::Tag::TableRow => MdTag::TableRow,
        pulldown_cmark::Tag::TableCell => MdTag::TableCell,
        pulldown_cmark::Tag::Emphasis => MdTag::Emphasis,
        pulldown_cmark::Tag::Strong => MdTag::Strong,
        pulldown_cmark::Tag::Strikethrough => MdTag::Strikethrough,
        pulldown_cmark::Tag::Link { dest_url, .. } => MdTag::Link(dest_url.to_string()),
        pulldown_cmark::Tag::Image { dest_url, .. } => MdTag::Image(dest_url.to_string()),
        _ => MdTag::Other,
    }
}

/// Converts the block-level `pulldown_cmark::TagEnd`s, one variant to one
/// variant; the rest go to [`md_inline_tag_end`].
#[verifier::external_body]
fn md_tag_end(t: pulldown_cmark::TagEnd) -> MdTagEnd {
    match t {
        pulldown_cmark::TagEnd::Paragraph => MdTagEnd::Paragraph,
        pulldown_cmark::TagEnd::Heading(_) => MdTagEnd::Heading,
        pulldown_cmark::TagEnd::BlockQuote(_) => MdTagEnd::BlockQuote,
        pulldown_cmark::TagEnd::CodeBlock => MdTagEnd::CodeBlock,
        pulldown_cmark::TagEnd::List(_) => MdTagEnd::List,
        pulldown_cmark::TagEnd::Item => MdTagEnd::Item,
        pulldown_cmark::TagEnd::MetadataBlock(_) => MdTagEnd::Metadata,
        t => md_inline_tag_end(t),
    }
}

/// Converts the table and inline `pulldown_cmark::TagEnd`s, one variant to
/// one variant.
#[verifier::external_body]
fn md_inline_tag_end(t: pulldown_cmark::TagEnd) -> MdTagEnd {
    match t {
        pulldown_cmark::TagEnd::Table => MdTagEnd::Table,
        pulldown_cmark::TagEnd::TableHead => MdTagEnd::TableHead,
        pulldown_cmark::TagEnd::TableRow => MdTagEnd::TableRow,
        pulldown_cmark::TagEnd::TableCell => MdTagEnd::TableCell,
        pulldown_cmark::TagEnd::Emphasis => MdTagEnd::Emphasis,
        pulldown_cmark::TagEnd::Strong => MdTagEnd::Strong,
        pulldown_cmark::TagEnd::Strikethrough => MdTagEnd::Strikethrough,
        pulldown_cmark::TagEnd::Link => MdTagEnd::Link,
        pulldown_cmark::TagEnd::Image => MdTagEnd::Image,
        _ => MdTagEnd::Other,
    }
}


/// The state of the segmentation after a prefix of the events.
#[verifier::ext_equal]
pub struct MdState {
    /// The marked copy built so far.
    pub output: Seq<char>,
    pub segments: Seq<Seq<char>>,
    pub code_spans: Seq<Seq<char>>,
    /// Translatable text of the current block not yet made a segment.
    pub text_buf: Seq<char>,
    pub in_code_block: bool,
    pub skip_image_depth: nat,
    pub skip_metadata: bool,
    /// The open lists, innermost last; `true` for a numbered list.
    pub lists: Seq<bool>,
    pub list_counter: u64,
    pub link_url: Option<Seq<char>>,
    pub image_url: Option<Seq<char>>,
    pub table_cells: nat,
    pub first_row_done: bool,
}

/// The state before the first event.
pub open spec fn md_initial() -> MdState {
    MdState {
        output: Seq::empty(),
        segments: Seq::empty(),
        code_spans: Seq::empty(),
        text_buf: Seq::empty(),
        in_code_block: false,
        skip_image_depth: 0,
        skip_metadata: false,
        lists: Seq::empty(),
        list_counter: 0,
        link_url: None,
        image_url: None,
        table_cells: 0,
        first_row_done: false,
    }
}

/// The marker that stands for segment `n`: `\0MD_n\0`.
pub open spec fn md_marker(n: nat) -> Seq<char> {
    seq!['\0'] + "MD_"@ + decimal(n) + seq!['\0']
}

/// The placeholder that stands for inline code `n`: `` `Cn` ``.
pub open spec fn code_placeholder(n: nat) -> Seq<char> {
    "`C"@ + decimal(n) + "`"@
}

/// `c` repeated `n` times.
pub open spec fn repeat_seq(c: Seq<char>, n: nat) -> Seq<char>
    decreases n,
{
    if n == 0 {
        Seq::empty()
    } else {
        repeat_seq(c, (n - 1) as nat) + c
    }
}

/// Ends the current text: a non-blank buffer becomes the next segment and
/// its marker is written.
pub open spec fn md_flush(st: MdState) -> MdState {
    if st.text_buf.len() == 0 {
        st
    } else if trim(st.text_buf).len() == 0 {
        MdState { text_buf: Seq::empty(), ..st }
    } else {
        MdState {
            output: st.output + md_marker(st.segments.len()),
            segments: st.segments.push(trim(st.text_buf)),
            text_buf: Seq::empty(),
            ..st
        }
    }
}

/// `n` plus one, wrapping around.
pub open spec fn wrapping_inc(n: u64) -> u64 {
    if n == u64::MAX {
        0
    } else {
        (n + 1) as u64
    }
}

/// The effect of a start tag (after the flush).
pub open spec fn md_start(st: MdState, tag: MdTag, raw: Seq<char>) -> MdState {
    let st = MdState {
        in_code_block: st.in_code_block || tag is FencedCode || tag is IndentedCode,
        skip_image_depth: st.skip_image_depth + if tag is Image {
            1nat
        } else {
            0nat
        },
        skip_metadata: st.skip_metadata || tag is Metadata,
        ..st
    };
    match tag {
        MdTag::Paragraph => st,
        MdTag::Heading(n) => MdState { output: st.output + repeat_seq("#"@, n as nat) + " "@, ..st },
        MdTag::BlockQuote => MdState { output: st.output + "> "@, ..st },
        MdTag::Item => if st.lists.len() == 0 {
            MdState { output: st.output + "  "@, ..st }
        } else if st.lists.last() {
            MdState {
                output: st.output + decimal(st.list_counter as nat) + ". "@,
                list_counter: wrapping_inc(st.list_counter),
                ..st
            }
        } else {
            MdState { output: st.output + "- "@, ..st }
        },
        MdTag::TableCell => MdState {
            output: st.output + "| "@,
            table_cells: st.table_cells + 1,
            ..st
        },
        MdTag::Strong => MdState { output: st.output + "**"@, ..st },
        MdTag::Emphasis => MdState { output: st.output + "*"@, ..st },
        MdTag::Strikethrough => MdState { output: st.output + "~~"@, ..st },
        MdTag::Link(url) => MdState { output: st.output + "["@, link_url: Some(url@), ..st },
        MdTag::Image(url) => MdState { output: st.output + "!["@, image_url: Some(url@), ..st },
        MdTag::List(Some(n)) => MdState { lists: st.lists.push(true), list_counter: n, ..st },
        MdTag::List(None) => MdState { lists: st.lists.push(false), ..st },
        MdTag::FencedCode(lang) => MdState { output: st.output + "```"@ + lang@ + "\n"@, ..st },
        MdTag::IndentedCode => st,
        MdTag::TableHead => st,
        MdTag::TableRow => {
            let out = if st.table_cells > 0 {
                st.output + "|\n"@ + if !st.first_row_done {
                    "|"@ + repeat_seq(" --- |"@, st.table_cells) + "\n"@
                } else {
                    Seq::empty()
                }
            } else {
                st.output
            };
            MdState {
                output: out,
                first_row_done: st.first_row_done || st.table_cells > 0,
                table_cells: 0,
                ..st
            }
        },
        MdTag::Table => MdState { first_row_done: false, ..st },
        MdTag::Metadata => MdState { output: st.output + raw, ..st },
        MdTag::Other => MdState { output: st.output + raw, ..st },
    }
}

/// The effect of an end tag (after the flush).
pub open spec fn md_end(st: MdState, tag: MdTagEnd, raw: Seq<char>) -> MdState {
    let st = MdState {
        in_code_block: st.in_code_block && !(tag is CodeBlock),
        skip_image_depth: if tag is Image && st.skip_image_depth > 0 {
            (st.skip_image_depth - 1) as nat
        } else {
            st.skip_image_depth
        },
        skip_metadata: st.skip_metadata && !(tag is Metadata),
        ..st
    };
    match tag {
        MdTagEnd::Paragraph => MdState { output: st.output + "\n\n"@, ..st },
        MdTagEnd::Heading => MdState { output: st.output + "\n\n"@, ..st },
        MdTagEnd::BlockQuote => MdState { output: st.output + "\n"@, ..st },
        MdTagEnd::Item => MdState { output: st.output + "\n"@, ..st },
        MdTagEnd::TableCell => st,
        MdTagEnd::TableRow => st,
        MdTagEnd::Table => MdState {
            output: st.output + (if st.table_cells > 0 {
                "|\n"@
            } else {
                Seq::empty()
            }) + "\n"@,
            ..st
        },
        MdTagEnd::List => MdState {
            lists: if st.lists.len() > 0 {
                st.lists.drop_last()
            } else {
                st.lists
            },
            output: st.output + "\n"@,
            ..st
        },
        MdTagEnd::Strong => MdState { output: st.output + "**"@, ..st },
        MdTagEnd::Emphasis => MdState { output: st.output + "*"@, ..st },
        MdTagEnd::Strikethrough => MdState { output: st.output + "~~"@, ..st },
        MdTagEnd::Link => match st.link_url {
            Some(u) => MdState { output: st.output + "]("@ + u + ")"@, link_url: None, ..st },
            None => st,
        },
        MdTagEnd::Image => match st.image_url {
            Some(u) => MdState { output: st.output + "]("@ + u + ")"@, image_url: None, ..st },
            None => st,
        },
        MdTagEnd::CodeBlock => MdState { output: st.output + "```\n"@, ..st },
        MdTagEnd::Metadata => st,
        MdTagEnd::TableHead => st,
        MdTagEnd::Other => MdState { output: st.output + raw, ..st },
    }
}

/// The effect of one event.
pub open spec fn md_step(st: MdState, item: MdItem) -> MdState {
    match item.event {
        MdEvent::Start(tag) => md_start(md_flush(st), tag, item.raw@),
        MdEvent::End(tag) => md_end(md_flush(st), tag, item.raw@),
        MdEvent::Text(t) => if st.in_code_block || st.skip_image_depth > 0 || st.skip_metadata {
            MdState { output: st.output + item.raw@, ..st }
        } else {
            MdState { text_buf: st.text_buf + t@, ..st }
        },
        MdEvent::Code(c) => MdState {
            text_buf: st.text_buf + code_placeholder(st.code_spans.len()),
            code_spans: st.code_spans.push(c@),
            ..st
        },
        MdEvent::Html(h) => MdState {
            text_buf: st.text_buf + code_placeholder(st.code_spans.len()),
            code_spans: st.code_spans.push(h@),
            ..st
        },
        MdEvent::Break => {
            let f = md_flush(st);
            MdState { output: f.output + item.raw@, ..f }
        },
        MdEvent::Other => MdState { output: st.output + item.raw@, ..st },
    }
}

/// The state after the events `items`.
pub open spec fn md_run(items: Seq<MdItem>) -> MdState
    decreases items.len(),
{
    if items.len() == 0 {
        md_initial()
    } else {
        md_step(md_run(items.drop_last()), items.last())
    }
}

/// The segmentation of a whole event stream.
pub open spec fn md_segmentation(items: Seq<MdItem>) -> MdState {
    md_flush(md_run(items))
}


/// The text that a start tag appends to the marked copy (after the flush).
pub open spec fn start_text(st: MdState, tag: MdTag, raw: Seq<char>) -> Seq<char> {
    match tag {
        MdTag::Heading(n) => repeat_seq("#"@, n as nat) + " "@,
        MdTag::BlockQuote => "> "@,
        MdTag::Item => if st.lists.len() == 0 {
            "  "@
        } else if st.lists.last() {
            decimal(st.list_counter as nat) + ". "@
        } else {
            "- "@
        },
        MdTag::TableCell => "| "@,
        MdTag::Strong => "**"@,
        MdTag::Emphasis => "*"@,
        MdTag::Strikethrough => "~~"@,
        MdTag::Link(_) => "["@,
        MdTag::Image(_) => "!["@,
        MdTag::FencedCode(lang) => "```"@ + lang@ + "\n"@,
        MdTag::TableRow => if st.table_cells > 0 {
            "|\n"@ + if !st.first_row_done {
                "|"@ + repeat_seq(" --- |"@, st.table_cells) + "\n"@
            } else {
                Seq::empty()
            }
        } else {
            Seq::empty()
        },
        MdTag::Metadata => raw,
        MdTag::Other => raw,
        _ => Seq::empty(),
    }
}

/// The text that an end tag appends to the marked copy (after the flush).
pub open spec fn end_text(st: MdState, tag: MdTagEnd, raw: Seq<char>) -> Seq<char> {
    match tag {
        MdTagEnd::Paragraph => "\n\n"@,
        MdTagEnd::Heading => "\n\n"@,
        MdTagEnd::BlockQuote => "\n"@,
        MdTagEnd::Item => "\n"@,
        MdTagEnd::Table => (if st.table_cells > 0 {
            "|\n"@
        } else {
            Seq::empty()
        }) + "\n"@,
        MdTagEnd::List => "\n"@,
        MdTagEnd::Strong => "**"@,
        MdTagEnd::Emphasis => "*"@,
        MdTagEnd::Strikethrough => "~~"@,
        MdTagEnd::Link => match st.link_url {
            Some(u) => "]("@ + u + ")"@,
            None => Seq::empty(),
        },
        MdTagEnd::Image => match st.image_url {
            Some(u) => "]("@ + u + ")"@,
            None => Seq::empty(),
        },
        MdTagEnd::CodeBlock => "```\n"@,
        MdTagEnd::Other => raw,
        _ => Seq::empty(),
    }
}

/// Bold, italic and struck-through text keep their markup in the marked
/// copy, whatever the state: a Strong tag opens and closes with `**`, an
/// Emphasis tag with `*` and a Strikethrough tag with `~~`.
pub proof fn lemma_inline_markup_kept(st: MdState, raw: Seq<char>)
    ensures
        md_start(st, MdTag::Strong, raw).output == st.output + seq!['*', '*'],
        md_end(st, MdTagEnd::Strong, raw).output == st.output + seq!['*', '*'],
        md_start(st, MdTag::Emphasis, raw).output == st.output + seq!['*'],
        md_end(st, MdTagEnd::Emphasis, raw).output == st.output + seq!['*'],
        md_start(st, MdTag::Strikethrough, raw).output == st.output + seq!['~', '~'],
        md_end(st, MdTagEnd::Strikethrough, raw).output == st.output + seq!['~', '~'],
{
    reveal_strlit("**");
    reveal_strlit("*");
    reveal_strlit("~~");
    assert(st.output + "**"@ =~= st.output + seq!['*', '*']);
    assert(st.output + "*"@ =~= st.output + seq!['*']);
    assert(st.output + "~~"@ =~= st.output + seq!['~', '~']);
}

/// A start tag only appends [`start_text`] to the marked copy.
pub proof fn lemma_start_appends(st: MdState, tag: MdTag, raw: Seq<char>)
    ensures
        md_start(st, tag, raw).output == st.output + start_text(st, tag, raw),
{
    match tag {
        MdTag::Paragraph | MdTag::List(_) | MdTag::IndentedCode | MdTag::TableHead | MdTag::Table => {
            assert(st.output + start_text(st, tag, raw) =~= st.output);
        },
        MdTag::Heading(n) => {
            assert(st.output + repeat_seq("#"@, n as nat) + " "@ =~= st.output + start_text(st, tag, raw));
        },
        MdTag::Item => {
            if st.lists.len() > 0 && st.lists.last() {
                assert(st.output + decimal(st.list_counter as nat) + ". "@ =~= st.output + start_text(st, tag, raw));
            }
        },
        MdTag::FencedCode(lang) => {
            assert(st.output + "```"@ + lang@ + "\n"@ =~= st.output + start_text(st, tag, raw));
        },
        MdTag::TableRow => {
            if st.table_cells > 0 && !st.first_row_done {
                assert(st.output + "|\n"@ + ("|"@ + repeat_seq(" --- |"@, st.table_cells) + "\n"@)
                    =~= st.output + start_text(st, tag, raw));
            } else if st.table_cells > 0 {
                assert(st.output + "|\n"@ + Seq::<char>::empty() =~= st.output + start_text(st, tag, raw));
            } else {
                assert(st.output + start_text(st, tag, raw) =~= st.output);
            }
        },
        _ => {},
    }
}

/// An end tag only appends [`end_text`] to the marked copy.
pub proof fn lemma_end_appends(st: MdState, tag: MdTagEnd, raw: Seq<char>)
    ensures
        md_end(st, tag, raw).output == st.output + end_text(st, tag, raw),
{
    match tag {
        MdTagEnd::TableCell | MdTagEnd::TableRow | MdTagEnd::Metadata | MdTagEnd::TableHead => {
            assert(st.output + end_text(st, tag, raw) =~= st.output);
        },
        MdTagEnd::Table => {
            if st.table_cells > 0 {
                assert(st.output + ("|\n"@ + "\n"@) =~= st.output + "|\n"@ + "\n"@);
            } else {
                assert(st.output + (Seq::<char>::empty() + "\n"@) =~= st.output + "\n"@);
            }
        },
        MdTagEnd::Link => {
            match st.link_url {
                Some(u) => {
                    assert(st.output + "]("@ + u + ")"@ =~= st.output + end_text(st, tag, raw));
                },
                None => {
                    assert(st.output + end_text(st, tag, raw) =~= st.output);
                },
            }
        },
        MdTagEnd::Image => {
            match st.image_url {
                Some(u) => {
                    assert(st.output + "]("@ + u + ")"@ =~= st.output + end_text(st, tag, raw));
                },
                None => {
                    assert(st.output + end_text(st, tag, raw) =~= st.output);
                },
            }
        },
        _ => {},
    }
}

/// The view of an optional text.
pub open spec fn opt_chars_view(o: Option<Vec<char>>) -> Option<Seq<char>> {
    match o {
        Some(v) => Some(v@),
        None => None,
    }
}

/// The views of a list of texts.
pub open spec fn chars_list_view(v: Seq<Vec<char>>) -> Seq<Seq<char>> {
    v.map_values(|x: Vec<char>| x@)
}

/// The executable state of the segmentation.
pub struct MdBuilder {
    output: Vec<char>,
    segments: Vec<Vec<char>>,
    code_spans: Vec<Vec<char>>,
    text_buf: Vec<char>,
    in_code_block: bool,
    skip_image_depth: usize,
    skip_metadata: bool,
    lists: Vec<bool>,
    list_counter: u64,
    link_url: Option<Vec<char>>,
    image_url: Option<Vec<char>>,
    table_cells: usize,
    first_row_done: bool,
}

impl View for MdBuilder {
    type V = MdState;

    closed spec fn view(&self) -> MdState {
        MdState {
            output: self.output@,
            segments: chars_list_view(self.segments@),
            code_spans: chars_list_view(self.code_spans@),
            text_buf: self.text_buf@,
            in_code_block: self.in_code_block,
            skip_image_depth: self.skip_image_depth as nat,
            skip_metadata: self.skip_metadata,
            lists: self.lists@,
            list_counter: self.list_counter,
            link_url: opt_chars_view(self.link_url),
            image_url: opt_chars_view(self.image_url),
            table_cells: self.table_cells as nat,
            first_row_done: self.first_row_done,
        }
    }
}

fn push_repeat(out: &mut Vec<char>, piece: &str, n: usize)
    ensures
        final(out)@ == old(out)@ + repeat_seq(piece@, n as nat),
{
    let ghost start = out@;
    let mut i: usize = 0;
    while i < n
        invariant
            i <= n,
            out@ == start + repeat_seq(piece@, i as nat),
        decreases n - i,
    {
        push_str(out, piece);
        i = i + 1;
        assert(out@ =~= start + repeat_seq(piece@, i as nat));
    }
}

fn opt_chars(o: &Option<Vec<char>>) -> (r: Option<Vec<char>>)
    ensures
        opt_chars_view(r) == opt_chars_view(*o),
{
    match o {
        Some(v) => {
            let mut c: Vec<char> = Vec::new();
            push_all(&mut c, v.as_slice());
            Some(c)
        },
        None => None,
    }
}

impl MdBuilder {
    fn new() -> (r: MdBuilder)
        ensures
            r@ == md_initial(),
    {
        let r = MdBuilder {
            output: Vec::new(),
            segments: Vec::new(),
            code_spans: Vec::new(),
            text_buf: Vec::new(),
            in_code_block: false,
            skip_image_depth: 0,
            skip_metadata: false,
            lists: Vec::new(),
            list_counter: 0,
            link_url: None,
            image_url: None,
            table_cells: 0,
            first_row_done: false,
        };
        assert(r@.segments =~= Seq::<Seq<char>>::empty());
        assert(r@.code_spans =~= Seq::<Seq<char>>::empty());
        r
    }

    fn flush(&mut self)
        ensures
            final(self)@ == md_flush(old(self)@),
            final(self)@.segments.len() <= old(self)@.segments.len() + 1,
    {
        if self.text_buf.len() == 0 {
            return;
        }
        let t = trim_chars(self.text_buf.as_slice());
        if t.len() == 0 {
            self.text_buf = Vec::new();
            return;
        }
        let ghost old_segs = chars_list_view(self.segments@);
        let n = self.segments.len();
        self.output.push('\0');
        push_str(&mut self.output, "MD_");
        let d = decimal_chars(n as u64);
        push_all(&mut self.output, d.as_slice());
        self.output.push('\0');
        self.segments.push(t);
        self.text_buf = Vec::new();
        proof {
            assert(chars_list_view(self.segments@) =~= old_segs.push(trim(old(self)@.text_buf)));
            assert(self.output@ =~= old(self).output@ + md_marker(n as nat));
            assert(self@ =~= md_flush(old(self)@));
        }
    }

    fn start(&mut self, tag: &MdTag, raw: &str)
        requires
            old(self).skip_image_depth < usize::MAX,
            old(self).table_cells < usize::MAX,
        ensures
            final(self)@ == md_start(old(self)@, *tag, raw@),
    {
        let ghost st0 = self@;
        match tag {
            MdTag::FencedCode(_) | MdTag::IndentedCode => {
                self.in_code_block = true;
            },
            MdTag::Image(_) => {
                self.skip_image_depth = self.skip_image_depth + 1;
            },
            MdTag::Metadata => {
                self.skip_metadata = true;
            },
            _ => {},
        }
        let ghost st1 = self@;
        assert(st1 == MdState {
            in_code_block: st0.in_code_block || tag is FencedCode || tag is IndentedCode,
            skip_image_depth: st0.skip_image_depth + if tag is Image { 1nat } else { 0nat },
            skip_metadata: st0.skip_metadata || tag is Metadata,
            ..st0
        });
        match tag {
            MdTag::Paragraph => {},
            MdTag::Heading(n) => {
                push_repeat(&mut self.output, "#", *n);
                push_str(&mut self.output, " ");
            },
            MdTag::BlockQuote => {
                push_str(&mut self.output, "> ");
            },
            MdTag::Item => {
                if self.lists.len() == 0 {
                    push_str(&mut self.output, "  ");
                } else if self.lists[self.lists.len() - 1] {
                    let d = decimal_chars(self.list_counter);
                    push_all(&mut self.output, d.as_slice());
                    push_str(&mut self.output, ". ");
                    self.list_counter = self.list_counter.wrapping_add(1);
                } else {
                    push_str(&mut self.output, "- ");
                }
            },
            MdTag::TableCell => {
                push_str(&mut self.output, "| ");
                self.table_cells = self.table_cells + 1;
            },
            MdTag::Strong => {
                push_str(&mut self.output, "**");
            },
            MdTag::Emphasis => {
                push_str(&mut self.output, "*");
            },
            MdTag::Strikethrough => {
                push_str(&mut self.output, "~~");
            },
            MdTag::Link(url) => {
                push_str(&mut self.output, "[");
                self.link_url = Some(chars_of(url.as_str()));
            },
            MdTag::Image(url) => {
                push_str(&mut self.output, "![");
                self.image_url = Some(chars_of(url.as_str()));
            },
            MdTag::List(Some(n)) => {
                self.lists.push(true);
                self.list_counter = *n;
            },
            MdTag::List(None) => {
                self.lists.push(false);
            },
            MdTag::FencedCode(lang) => {
                push_str(&mut self.output, "```");
                push_str(&mut self.output, lang.as_str());
                push_str(&mut self.output, "\n");
            },
            MdTag::IndentedCode => {},
            MdTag::TableHead => {},
            MdTag::TableRow => {
                if self.table_cells > 0 {
                    push_str(&mut self.output, "|\n");
                    if !self.first_row_done {
                        self.first_row_done = true;
                        push_str(&mut self.output, "|");
                        push_repeat(&mut self.output, " --- |", self.table_cells);
                        push_str(&mut self.output, "\n");
                    }
                }
                self.table_cells = 0;
            },
            MdTag::Table => {
                self.first_row_done = false;
            },
            MdTag::Metadata | MdTag::Other => {
                push_str(&mut self.output, raw);
            },
        }
        assert(self@ =~= md_start(st0, *tag, raw@));
    }
}

impl MdBuilder {
    fn end(&mut self, tag: &MdTagEnd, raw: &str)
        ensures
            final(self)@ == md_end(old(self)@, *tag, raw@),
    {
        let ghost st0 = self@;
        match tag {
            MdTagEnd::CodeBlock => {
                self.in_code_block = false;
            },
            MdTagEnd::Image => {
                self.skip_image_depth = self.skip_image_depth.saturating_sub(1);
            },
            MdTagEnd::Metadata => {
                self.skip_metadata = false;
            },
            _ => {},
        }
        match tag {
            MdTagEnd::Paragraph | MdTagEnd::Heading => {
                push_str(&mut self.output, "\n\n");
            },
            MdTagEnd::BlockQuote | MdTagEnd::Item => {
                push_str(&mut self.output, "\n");
            },
            MdTagEnd::TableCell | MdTagEnd::TableRow | MdTagEnd::Metadata | MdTagEnd::TableHead => {},
            MdTagEnd::Table => {
                if self.table_cells > 0 {
                    push_str(&mut self.output, "|\n");
                }
                push_str(&mut self.output, "\n");
            },
            MdTagEnd::List => {
                self.lists.pop();
                push_str(&mut self.output, "\n");
            },
            MdTagEnd::Strong => {
                push_str(&mut self.output, "**");
            },
            MdTagEnd::Emphasis => {
                push_str(&mut self.output, "*");
            },
            MdTagEnd::Strikethrough => {
                push_str(&mut self.output, "~~");
            },
            MdTagEnd::Link => {
                if let Some(url) = self.link_url.take() {
                    push_str(&mut self.output, "](");
                    push_all(&mut self.output, url.as_slice());
                    push_str(&mut self.output, ")");
                }
            },
            MdTagEnd::Image => {
                if let Some(url) = self.image_url.take() {
                    push_str(&mut self.output, "](");
                    push_all(&mut self.output, url.as_slice());
                    push_str(&mut self.output, ")");
                }
            },
            MdTagEnd::CodeBlock => {
                push_str(&mut self.output, "```\n");
            },
            MdTagEnd::Other => {
                push_str(&mut self.output, raw);
            },
        }
        assert(self@ =~= md_end(st0, *tag, raw@));
    }

    fn step(&mut self, item: &MdItem)
        requires
            old(self).skip_image_depth < usize::MAX,
            old(self).table_cells < usize::MAX,
        ensures
            final(self)@ == md_step(old(self)@, *item),
            final(self).skip_image_depth <= old(self).skip_image_depth + 1,
            final(self).table_cells <= old(self).table_cells + 1,
            final(self)@.segments.len() <= old(self)@.segments.len() + 1,
            final(self)@.code_spans.len() <= old(self)@.code_spans.len() + 1,
    {
        let ghost st0 = self@;
        match &item.event {
            MdEvent::Start(tag) => {
                self.flush();
                self.start(tag, item.raw.as_str());
            },
            MdEvent::End(tag) => {
                self.flush();
                self.end(tag, item.raw.as_str());
            },
            MdEvent::Text(t) => {
                if self.in_code_block || self.skip_image_depth > 0 || self.skip_metadata {
                    push_str(&mut self.output, item.raw.as_str());
                } else {
                    push_str(&mut self.text_buf, t.as_str());
                }
                assert(self@ =~= md_step(st0, *item));
            },
            MdEvent::Code(c) | MdEvent::Html(c) => {
                let n = self.code_spans.len();
                push_str(&mut self.text_buf, "`C");
                let d = decimal_chars(n as u64);
                push_all(&mut self.text_buf, d.as_slice());
                push_str(&mut self.text_buf, "`");
                self.code_spans.push(chars_of(c.as_str()));
                proof {
                    assert(chars_list_view(self.code_spans@) =~= st0.code_spans.push(c@));
                    assert(self@ =~= md_step(st0, *item));
                }
            },
            MdEvent::Break => {
                self.flush();
                push_str(&mut self.output, item.raw.as_str());
                assert(self@ =~= md_step(st0, *item));
            },
            MdEvent::Other => {
                push_str(&mut self.output, item.raw.as_str());
                assert(self@ =~= md_step(st0, *item));
            },
        }
    }
}

/// The segmentation of the event stream `items`.
fn run_markdown(items: &Vec<MdItem>) -> (r: MdBuilder)
    ensures
        r@ == md_segmentation(items@),
{
    let mut b = MdBuilder::new();
    let mut i: usize = 0;
    while i < items.len()
        invariant
            i <= items@.len(),
            b@ == md_run(items@.subrange(0, i as int)),
            b.skip_image_depth <= i,
            b.table_cells <= i,
        decreases items@.len() - i,
    {
        assert(items@.subrange(0, i + 1).drop_last() =~= items@.subrange(0, i as int));
        b.step(&items[i]);
        i = i + 1;
    }
    assert(items@.subrange(0, items@.len() as int) =~= items@);
    b.flush();
    b
}

fn strings_of(v: &Vec<Vec<char>>) -> (r: Vec<String>)
    ensures
        r@.map_values(|s: String| s@) == chars_list_view(v@),
{
    let mut out: Vec<String> = Vec::new();
    let mut i: usize = 0;
    while i < v.len()
        invariant
            i <= v@.len(),
            out@.map_values(|s: String| s@) =~= chars_list_view(v@).subrange(0, i as int),
        decreases v@.len() - i,
    {
        let ghost before = out@;
        let s = string_from(v[i].as_slice());
        out.push(s);
        assert(out@ =~= before.push(s));
        assert(out@.map_values(|s: String| s@) =~= before.map_values(|s: String| s@).push(s@));
        assert(chars_list_view(v@).subrange(0, i + 1) =~= chars_list_view(v@).subrange(0, i as int).push(v@[i as int]@));
        i = i + 1;
    }
    assert(chars_list_view(v@).subrange(0, v@.len() as int) =~= chars_list_view(v@));
    out
}

/// Whether `doc` and `info` are the document that the segmentation `st`
/// of a file named `filename` gives.
pub open spec fn is_markdown_document(doc: EpubDocument, info: EpubLoadInfo, st: MdState, filename: Seq<char>) -> bool {
    let n = st.segments.len();
    &&& doc.original_path@ == Seq::<char>::empty()
    &&& doc.filename@ == filename
    &&& doc.segments@.map_values(|s: String| s@) == st.segments
    &&& doc.translations@.len() == n
    &&& forall|i: int| 0 <= i < n ==> #[trigger] doc.translations@[i] is None
    &&& doc.segment_meta@.len() == n
    &&& forall|i: int| 0 <= i < n ==> #[trigger] doc.segment_meta@[i] == plain_paragraph()
    &&& doc.marked_sections@.len() == 1
    &&& doc.marked_sections@[0].spine_path@ == "root"@
    &&& doc.marked_sections@[0].marked_xhtml@ == st.output
    &&& doc.marked_sections@[0].segment_start == 0
    &&& doc.marked_sections@[0].segment_count == n
    &&& doc.code_spans@.map_values(|s: String| s@) == st.code_spans
    &&& info.filename@ == filename
    &&& info.segment_count == n
}

/// Builds the document of a Markdown file from its parser events.
pub fn markdown_document_from_events(items: &Vec<MdItem>, filename: &str) -> (r: (EpubDocument, EpubLoadInfo))
    ensures
        is_markdown_document(r.0, r.1, md_segmentation(items@), filename@),
{
    let b = run_markdown(items);
    let segments = strings_of(&b.segments);
    let code_spans = strings_of(&b.code_spans);
    let n = segments.len();
    let mut sections: Vec<MarkedSection> = Vec::new();
    sections.push(MarkedSection {
        spine_path: String::from_str("root"),
        marked_xhtml: string_from(b.output.as_slice()),
        segment_start: 0,
        segment_count: n,
    });
    let doc = EpubDocument {
        original_path: String::new(),
        filename: String::from_str(filename),
        segments,
        translations: no_translations(n),
        segment_meta: paragraph_metas(n),
        marked_sections: sections,
        code_spans,
    };
    let info = EpubLoadInfo { filename: String::from_str(filename), segment_count: n };
    (doc, info)
}

/// Parse markdown content into an EpubDocument.
///
/// Walks pulldown-cmark events with their source text, collects
/// translatable text from non-code, non-frontmatter, non-image, non-HTML
/// content into segments, and inserts `\x00MD_N\x00` markers in place of
/// the original text.
pub fn parse_markdown_to_document(content: &str, filename: &str) -> (r: Result<(EpubDocument, EpubLoadInfo), String>)
    ensures
        r matches Ok((doc, info)) && is_markdown_document(
            doc,
            info,
            md_segmentation(markdown_items(content@, MARKDOWN_OPTIONS)),
            filename@,
        ),
{
    let items = parse_markdown_events(content, MARKDOWN_OPTIONS);
    Ok(markdown_document_from_events(&items, filename))
}
} // verus!
