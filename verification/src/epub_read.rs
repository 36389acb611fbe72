//! Segmentation of EPUB sections. An HTML rewriter walks each section and
//! reports what it meets (a `<pre>`/`<code>` element opening or closing, a
//! translatable element opening or closing, a chunk of text); the state
//! here decides what becomes a segment and which marker takes its place,
//! so that extraction and marking come from one traversal.

use vstd::prelude::*;
use crate::text::{chars_of, string_from, push_decimal, decimal, trim, trim_chars};
use crate::document::{
    EpubDocument, EpubLoadInfo, MarkedSection, plain_paragraph, strings_view, no_translations,
    paragraph_metas,
};
use crate::export::epub_marker_prefix;

verus! {

/// The marker that stands for segment `n` in a marked section:
/// `"\0EPUB_n\0"`.
pub open spec fn epub_marker(n: nat) -> Seq<char> {
    epub_marker_prefix() + decimal(n) + seq!['\0']
}

/// The state of the segmentation of one section.
pub struct SectionState {
    /// How many `<pre>`/`<code>` elements are open
    pub code_block_depth: usize,
    /// Text gathered for the open translatable element
    pub pending_text: String,
    /// Whether a translatable element is open and gathering text
    pub has_pending_element: bool,
    /// The segments found so far in this section
    pub segments: Vec<String>,
    /// The number of the next marker
    pub marker_idx: usize,
}

impl SectionState {
    /// The state at the start of a section whose first segment gets the
    /// number `start`.
    pub fn new(start: usize) -> (r: SectionState)
        ensures
            r.code_block_depth == 0,
            r.pending_text@ == Seq::<char>::empty(),
            !r.has_pending_element,
            r.segments@.len() == 0,
            r.marker_idx == start,
    {
        SectionState {
            code_block_depth: 0,
            pending_text: String::new(),
            has_pending_element: false,
            segments: Vec::new(),
            marker_idx: start,
        }
    }

    /// A `<pre>` or `<code>` element opens.
    pub fn enter_code(&mut self)
        requires
            old(self).code_block_depth < usize::MAX,
        ensures
            final(self).code_block_depth == old(self).code_block_depth + 1,
            final(self).pending_text@ == old(self).pending_text@,
            final(self).has_pending_element == old(self).has_pending_element,
            final(self).segments@ == old(self).segments@,
            final(self).marker_idx == old(self).marker_idx,
    {
        self.code_block_depth = self.code_block_depth + 1;
    }

    /// A `<pre>` or `<code>` element closes.
    pub fn leave_code(&mut self)
        requires
            old(self).code_block_depth > 0,
        ensures
            final(self).code_block_depth == old(self).code_block_depth - 1,
            final(self).pending_text@ == old(self).pending_text@,
            final(self).has_pending_element == old(self).has_pending_element,
            final(self).segments@ == old(self).segments@,
            final(self).marker_idx == old(self).marker_idx,
    {
        self.code_block_depth = self.code_block_depth - 1;
    }

    /// A translatable element opens. Returns whether it is taken: outside
    /// code it is, and its content is then to be cleared and its end
    /// watched; inside code nothing changes.
    pub fn open_translatable(&mut self) -> (r: bool)
        ensures
            r == (old(self).code_block_depth == 0),
            final(self).has_pending_element == (r || old(self).has_pending_element),
            final(self).code_block_depth == old(self).code_block_depth,
            final(self).pending_text@ == old(self).pending_text@,
            final(self).segments@ == old(self).segments@,
            final(self).marker_idx == old(self).marker_idx,
    {
        if self.code_block_depth > 0 {
            return false;
        }
        self.has_pending_element = true;
        true
    }

    /// A chunk of text inside a translatable element: gathered while an
    /// element is taken.
    pub fn add_text(&mut self, chunk: &str)
        ensures
            final(self).pending_text@ == if old(self).has_pending_element {
                old(self).pending_text@ + chunk@
            } else {
                old(self).pending_text@
            },
            final(self).code_block_depth == old(self).code_block_depth,
            final(self).has_pending_element == old(self).has_pending_element,
            final(self).segments@ == old(self).segments@,
            final(self).marker_idx == old(self).marker_idx,
    {
        if self.has_pending_element {
            self.pending_text.append(chunk);
        }
    }

    /// A taken translatable element closes. Its gathered text, trimmed,
    /// becomes the next segment if it is not empty, and the marker that is
    /// to stand before the end tag is returned; the segment and its marker
    /// get the same number.
    pub fn close_translatable(&mut self) -> (r: Option<String>)
        requires
            old(self).marker_idx < usize::MAX,
        ensures
            final(self).pending_text@ == Seq::<char>::empty(),
            !final(self).has_pending_element,
            final(self).code_block_depth == old(self).code_block_depth,
            trim(old(self).pending_text@).len() > 0 ==> {
                &&& r is Some
                &&& r->Some_0@ == epub_marker(old(self).marker_idx as nat)
                &&& strings_view(final(self).segments@) == strings_view(old(self).segments@).push(
                    trim(old(self).pending_text@),
                )
                &&& final(self).marker_idx == old(self).marker_idx + 1
            },
            trim(old(self).pending_text@).len() == 0 ==> {
                &&& r is None
                &&& final(self).segments@ == old(self).segments@
                &&& final(self).marker_idx == old(self).marker_idx
            },
            final(self).marker_idx - final(self).segments@.len() == old(self).marker_idx - old(
                self,
            ).segments@.len(),
    {
        let text = chars_of(self.pending_text.as_str());
        self.pending_text = String::new();
        self.has_pending_element = false;
        let trimmed = trim_chars(text.as_slice());
        if trimmed.len() == 0 {
            return None;
        }
        let n = self.marker_idx;
        let mut m: Vec<char> = Vec::new();
        m.push('\0');
        m.push('E');
        m.push('P');
        m.push('U');
        m.push('B');
        m.push('_');
        push_decimal(&mut m, n as u64);
        m.push('\0');
        assert(m@ =~= epub_marker(n as nat));
        let ghost old_segs = strings_view(self.segments@);
        let seg = string_from(trimmed.as_slice());
        self.segments.push(seg);
        assert(strings_view(self.segments@) =~= old_segs.push(trimmed@));
        self.marker_idx = n + 1;
        Some(string_from(m.as_slice()))
    }
}

/// Whether `sections` lay out `n` segments: one after the other, in order,
/// from 0, with nothing left over.
pub open spec fn sections_tile(sections: Seq<MarkedSection>, n: nat) -> bool {
    &&& sections.len() == 0 ==> n == 0
    &&& sections.len() > 0 ==> sections[0].segment_start == 0
    &&& forall|k: int|
        0 <= k < sections.len() - 1 ==> #[trigger] sections[k + 1].segment_start
            == sections[k].segment_start + sections[k].segment_count
    &&& sections.len() > 0 ==> sections.last().segment_start + sections.last().segment_count == n
}

/// The document of an EPUB being read, section by section.
pub struct EpubAssembly {
    /// All segments so far, in reading order
    pub segments: Vec<String>,
    /// The sections read so far
    pub sections: Vec<MarkedSection>,
    /// The number of the next marker
    pub next_idx: usize,
}

impl EpubAssembly {
    /// Whether the sections lay out the segments and the next marker
    /// number is the next segment's position.
    pub open spec fn wf(&self) -> bool {
        &&& self.next_idx == self.segments@.len()
        &&& sections_tile(self.sections@, self.segments@.len())
    }

    /// Nothing read yet.
    pub fn new() -> (r: EpubAssembly)
        ensures
            r.wf(),
            r.segments@.len() == 0,
            r.sections@.len() == 0,
    {
        EpubAssembly { segments: Vec::new(), sections: Vec::new(), next_idx: 0 }
    }

    /// Adds a section whose segmentation `st` started at the next marker
    /// number; its segments follow those read before.
    pub fn add_section(&mut self, spine_path: String, marked_xhtml: String, st: SectionState)
        requires
            old(self).wf(),
            st.marker_idx == old(self).next_idx + st.segments@.len(),
        ensures
            final(self).wf(),
            final(self).segments@ == old(self).segments@ + st.segments@,
            final(self).sections@ == old(self).sections@.push(
                MarkedSection {
                    spine_path,
                    marked_xhtml,
                    segment_start: old(self).segments@.len() as usize,
                    segment_count: st.segments@.len() as usize,
                },
            ),
            final(self).next_idx == st.marker_idx,
    {
        let start = self.segments.len();
        let count = st.segments.len();
        let ghost old_segs = self.segments@;
        let ghost old_secs = self.sections@;
        let mut segs = st.segments;
        self.segments.append(&mut segs);
        let section = MarkedSection { spine_path, marked_xhtml, segment_start: start, segment_count: count };
        self.sections.push(section);
        self.next_idx = st.marker_idx;
        proof {
            let s = self.sections@;
            assert(s.last() == section);
            assert forall|k: int| 0 <= k < s.len() - 1 implies #[trigger] s[k + 1].segment_start
                == s[k].segment_start + s[k].segment_count by {
                if k + 1 < old_secs.len() {
                    assert(s[k] == old_secs[k]);
                    assert(s[k + 1] == old_secs[k + 1]);
                } else {
                    assert(s[k] == old_secs.last());
                }
            }
        }
    }

    /// The document read from the file at `path`, named `filename`, with no
    /// translation yet, and what the load reports.
    pub fn finish(self, path: String, filename: String) -> (r: (EpubDocument, EpubLoadInfo))
        requires
            self.wf(),
        ensures
            r.0.original_path@ == path@,
            r.0.filename@ == filename@,
            r.0.segments@ == self.segments@,
            r.0.translations@.len() == self.segments@.len(),
            forall|i: int| 0 <= i < self.segments@.len() ==> #[trigger] r.0.translations@[i] is None,
            r.0.segment_meta@.len() == self.segments@.len(),
            forall|i: int|
                0 <= i < self.segments@.len() ==> #[trigger] r.0.segment_meta@[i] == plain_paragraph(),
            r.0.marked_sections@ == self.sections@,
            sections_tile(r.0.marked_sections@, r.0.segments@.len()),
            r.0.code_spans@.len() == 0,
            r.1.filename@ == filename@,
            r.1.segment_count == self.segments@.len(),
    {
        let n = self.segments.len();
        let info = EpubLoadInfo { filename: filename.clone(), segment_count: n };
        let doc = EpubDocument {
            original_path: path,
            filename,
            segments: self.segments,
            translations: no_translations(n),
            segment_meta: paragraph_metas(n),
            marked_sections: self.sections,
            code_spans: Vec::new(),
        };
        (doc, info)
    }
}

} // verus!
