//! Documents loaded for translation: text segments, their translations,
//! per-segment metadata and the marked sections that the translated text is
//! put back into.

use vstd::prelude::*;

verus! {

/// The kind of a segment.
#[derive(Clone, Debug, PartialEq, Eq, Structural)]
pub enum SegmentType {
    Paragraph,
    Heading { level: u8 },
    Code,
    ListItem,
}

/// Per-segment metadata. Sizes are the bit patterns of `f32` point values
/// (`f32::to_bits`), which the layout code reads.
#[derive(Clone, Debug, PartialEq, Eq, Structural)]
pub struct SegmentMeta {
    pub segment_type: SegmentType,
    pub keep_original: bool,
    pub font_size_bits: Option<u32>,
    pub is_monospace: bool,
    pub indent_bits: Option<u32>,
    pub is_italic: bool,
}

/// What a load reports: the file name and how many segments were found.
#[derive(Clone, Debug)]
pub struct EpubLoadInfo {
    pub filename: String,
    pub segment_count: usize,
}

/// One section (one spine entry, or the whole Markdown file) with markers in
/// place of its translatable text.
#[derive(Clone, Debug)]
pub struct MarkedSection {
    /// EPUB internal path, e.g. "OPS/ch1.xhtml"
    pub spine_path: String,
    /// The section's text with a numbered marker in place of each segment
    pub marked_xhtml: String,
    /// Starting index of this section's segments in the flat segments array
    pub segment_start: usize,
    /// Number of segments in this section
    pub segment_count: usize,
}

/// A document under translation.
#[derive(Clone, Debug)]
pub struct EpubDocument {
    /// Original file path
    pub original_path: String,
    /// Filename for display
    pub filename: String,
    /// Original text segments (in reading order)
    pub segments: Vec<String>,
    /// Translated text (None = not yet translated)
    pub translations: Vec<Option<String>>,
    /// Per-segment metadata (type, formatting flags)
    pub segment_meta: Vec<SegmentMeta>,
    /// Sections with marked text
    pub marked_sections: Vec<MarkedSection>,
    /// Inline code/HTML content referenced by `CN` placeholders in segments
    pub code_spans: Vec<String>,
}

/// The metadata of a plain paragraph that is to be translated.
pub open spec fn plain_paragraph() -> SegmentMeta {
    SegmentMeta {
        segment_type: SegmentType::Paragraph,
        keep_original: false,
        font_size_bits: None,
        is_monospace: false,
        indent_bits: None,
        is_italic: false,
    }
}

/// The view of an optional text.
pub open spec fn opt_view(o: Option<String>) -> Option<Seq<char>> {
    match o {
        Some(s) => Some(s@),
        None => None,
    }
}

/// The views of a list of texts.
pub open spec fn strings_view(v: Seq<String>) -> Seq<Seq<char>> {
    v.map_values(|s: String| s@)
}

/// The views of a list of optional texts.
pub open spec fn opt_strings_view(v: Seq<Option<String>>) -> Seq<Option<Seq<char>>> {
    v.map_values(|o: Option<String>| opt_view(o))
}

/// The metadata of a plain paragraph that is to be translated.
pub fn paragraph_meta() -> (r: SegmentMeta)
    ensures
        r == plain_paragraph(),
{
    SegmentMeta {
        segment_type: SegmentType::Paragraph,
        keep_original: false,
        font_size_bits: None,
        is_monospace: false,
        indent_bits: None,
        is_italic: false,
    }
}

/// `n` untranslated slots.
pub fn no_translations(n: usize) -> (r: Vec<Option<String>>)
    ensures
        r@.len() == n,
        forall|i: int| 0 <= i < n ==> #[trigger] r@[i] is None,
{
    let mut v: Vec<Option<String>> = Vec::new();
    let mut i: usize = 0;
    while i < n
        invariant
            i <= n,
            v@.len() == i,
            forall|j: int| 0 <= j < i ==> #[trigger] v@[j] is None,
        decreases n - i,
    {
        v.push(None);
        i = i + 1;
    }
    v
}

/// `n` plain-paragraph metadata entries.
pub fn paragraph_metas(n: usize) -> (r: Vec<SegmentMeta>)
    ensures
        r@.len() == n,
        forall|i: int| 0 <= i < n ==> #[trigger] r@[i] == plain_paragraph(),
{
    let mut v: Vec<SegmentMeta> = Vec::new();
    let mut i: usize = 0;
    while i < n
        invariant
            i <= n,
            v@.len() == i,
            forall|j: int| 0 <= j < i ==> #[trigger] v@[j] == plain_paragraph(),
        decreases n - i,
    {
        v.push(paragraph_meta());
        i = i + 1;
    }
    v
}

/// The index of the first translation that is still missing, if any.
pub fn find_incomplete(translations: &[Option<String>]) -> (r: Option<usize>)
    ensures
        match r {
            Some(i) => i < translations@.len() && translations@[i as int] is None && forall|j: int|
                0 <= j < i ==> #[trigger] translations@[j] is Some,
            None => forall|j: int| 0 <= j < translations@.len() ==> #[trigger] translations@[j] is Some,
        },
{
    let mut i: usize = 0;
    while i < translations.len()
        invariant
            i <= translations@.len(),
            forall|j: int| 0 <= j < i ==> #[trigger] translations@[j] is Some,
        decreases translations@.len() - i,
    {
        if translations[i].is_none() {
            return Some(i);
        }
        i = i + 1;
    }
    None
}

impl EpubDocument {
    /// A document that holds `segments` for translation, as the PDF
    /// pipeline hands them to the batch translator: no path or name, one
    /// empty root section, every segment a plain paragraph.
    pub fn for_segments(segments: Vec<String>) -> (r: EpubDocument)
        ensures
            r.original_path@ == Seq::<char>::empty(),
            r.filename@ == Seq::<char>::empty(),
            r.segments@ == segments@,
            r.translations@.len() == segments@.len(),
            forall|i: int| 0 <= i < segments@.len() ==> #[trigger] r.translations@[i] is None,
            r.segment_meta@.len() == segments@.len(),
            forall|i: int| 0 <= i < segments@.len() ==> #[trigger] r.segment_meta@[i] == plain_paragraph(),
            r.marked_sections@.len() == 1,
            r.marked_sections@[0].spine_path@ == "root"@,
            r.marked_sections@[0].marked_xhtml@ == Seq::<char>::empty(),
            r.marked_sections@[0].segment_start == 0,
            r.marked_sections@[0].segment_count == segments@.len(),
            r.code_spans@.len() == 0,
    {
        let n = segments.len();
        let section = MarkedSection {
            spine_path: String::from_str("root"),
            marked_xhtml: String::new(),
            segment_start: 0,
            segment_count: n,
        };
        let mut sections: Vec<MarkedSection> = Vec::new();
        sections.push(section);
        EpubDocument {
            original_path: String::new(),
            filename: String::new(),
            segments,
            translations: no_translations(n),
            segment_meta: paragraph_metas(n),
            marked_sections: sections,
            code_spans: Vec::new(),
        }
    }
}

} // verus!
