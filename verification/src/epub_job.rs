//! The batch translation of a loaded document, as a state machine.
//!
//! The segments that still need a translation are sent to the LLM in
//! batches. A batch of more than `MAX_BATCH` segments, or of more than
//! `MAX_CHARS_PER_BATCH` bytes of text, is split before any request. A batch
//! whose reply cannot be parsed is asked again once with a stricter prompt;
//! if that fails too it is split in half, and a single segment that still
//! fails is recorded as failed. The caller performs the requests and hands
//! the replies back; everything else is decided here.

use vstd::prelude::*;
use crate::batch::{batch_prompt, batch_response, build_batch_prompt, build_retry_prompt, lemma_batch_response_len, pairs_view, parse_batch_response, retry_prompt};
use crate::document::{find_incomplete, opt_view, opt_strings_view, EpubDocument, SegmentMeta};
use crate::language::Language;
use crate::text::{chars_of, decimal, decimal_chars, push_all, push_str, string_from, trim, trim_chars};

verus! {

/// Largest number of segments sent in one request.
pub const MAX_BATCH: usize = 100;

/// Largest number of bytes of segment text sent in one request of more
/// than one segment.
pub const MAX_CHARS_PER_BATCH: usize = 6000;

/// Progress figures reported to the user interface.
#[derive(Clone, Copy, Debug, PartialEq, Eq, Structural)]
pub struct JobProgress {
    pub current_segment: usize,
    pub total_segments: usize,
    pub llm_attempts: usize,
    pub llm_successes: usize,
}

/// What the caller is to do next.
pub enum JobStep {
    /// A batch was split without a request; pause briefly and step again.
    Resplit,
    /// Pause briefly, report `progress`, send `prompt` to the LLM and hand
    /// the reply to `on_reply`.
    Request { prompt: String, progress: JobProgress },
    /// Nothing is left: report `progress` and end with `outcome`.
    Finished { progress: JobProgress, outcome: Result<(), String> },
}

/// What the caller is to do after a reply.
pub enum ReplyStep {
    /// The batch's translations were stored: save the results.
    Stored,
    /// Send `prompt` to the LLM and hand the reply to `on_reply` again.
    Retry { prompt: String },
    /// The single segment `segment` failed twice; report it (`llm_error`
    /// tells whether the LLM call itself failed rather than the parse).
    SegmentFailed { segment: usize, llm_error: bool },
    /// The batch failed twice and was split in half.
    Resplit,
}

/// The batch whose request is in flight.
pub struct InFlight {
    pub start: usize,
    pub end: usize,
    pub prompt: String,
    pub retrying: bool,
}

/// The state of a batch translation.
pub struct EpubTranslationJob {
    /// All segments of the document.
    pub segments: Vec<String>,
    /// The translation of each segment so far.
    pub results: Vec<Option<String>>,
    /// The positions of the segments that are to be translated, ascending.
    pub untranslated: Vec<usize>,
    /// Ranges of `untranslated` still to be sent; the last one comes first.
    pub queue: Vec<(usize, usize)>,
    pub in_flight: Option<InFlight>,
    /// Segments that could not be translated.
    pub failed: Vec<usize>,
    pub llm_attempts: usize,
    pub llm_successes: usize,
    /// Segments dealt with so far (translated, kept or failed).
    pub processed: usize,
    pub source: Language,
    pub target: Language,
    /// The translations when the job started.
    pub initial: Ghost<Seq<Option<Seq<char>>>>,
}

/// The number of UTF-8 bytes of `s` (`str::len`).
pub open spec fn byte_len(s: Seq<char>) -> nat {
    (vstd::utf8::encode_utf8(s).len() as usize) as nat
}

/// Whether segment `i` is to be sent to the LLM: it has no translation and
/// is not marked to keep its original text.
pub open spec fn needs_translation(
    translations: Seq<Option<String>>,
    meta: Seq<SegmentMeta>,
    i: int,
) -> bool {
    translations[i] is None && !(i < meta.len() && meta[i].keep_original)
}

/// The number of `Some` entries.
pub open spec fn count_some(v: Seq<Option<Seq<char>>>) -> nat
    decreases v.len(),
{
    if v.len() == 0 {
        0
    } else {
        count_some(v.drop_last()) + if v.last() is Some {
            1nat
        } else {
            0nat
        }
    }
}

/// The items of a list as `{:?}` prints them, without the brackets.
pub open spec fn list_items(v: Seq<usize>) -> Seq<char>
    decreases v.len(),
{
    if v.len() == 0 {
        Seq::empty()
    } else if v.len() == 1 {
        decimal(v[0] as nat)
    } else {
        list_items(v.drop_last()) + ", "@ + decimal(v.last() as nat)
    }
}

/// A list of numbers as `{:?}` prints it.
pub open spec fn debug_list(v: Seq<usize>) -> Seq<char> {
    "["@ + list_items(v) + "]"@
}

/// The error that ends a job in which some segments failed.
pub open spec fn failure_message(translated: nat, total: nat, failed: Seq<usize>) -> Seq<char> {
    decimal(translated) + " of "@ + decimal(total) + " segments translated. Failed segments: "@
        + debug_list(failed)
        + ". Click 'Translate File' again to retry, or reduce BATCH_SIZE."@
}

impl EpubTranslationJob {
    /// The position in `untranslated` up to which everything was dealt with.
    pub open spec fn frontier(self) -> int {
        match self.in_flight {
            Some(f) => f.start as int,
            None => if self.queue@.len() > 0 {
                self.queue@.last().0 as int
            } else {
                self.untranslated@.len() as int
            },
        }
    }

    /// The views of the results.
    pub open spec fn results_view(self) -> Seq<Option<Seq<char>>> {
        opt_strings_view(self.results@)
    }

    /// The `(position, text)` pairs of the segments `untranslated[s..e]`.
    pub open spec fn batch_pairs(self, s: int, e: int) -> Seq<(usize, Seq<char>)> {
        Seq::new(
            (e - s) as nat,
            |k: int| (self.untranslated@[s + k], self.segments@[self.untranslated@[s + k] as int]@),
        )
    }

    /// The bytes of text of the segments `untranslated[s..e]`.
    pub open spec fn chunk_bytes(self, s: int, e: int) -> nat
        decreases e - s,
    {
        if e <= s {
            0
        } else {
            self.chunk_bytes(s, e - 1) + byte_len(self.segments@[self.untranslated@[e - 1] as int]@)
        }
    }

    /// Where the range `untranslated[s..e]` is split before any request, if
    /// it is.
    pub open spec fn presplit(self, s: int, e: int) -> Option<int> {
        if e - s > MAX_BATCH {
            Some(s + MAX_BATCH)
        } else if self.chunk_bytes(s, e) > MAX_CHARS_PER_BATCH && e - s > 1 {
            Some(s + (e - s) / 2)
        } else {
            None
        }
    }

    /// Whether the next step sends a request.
    pub open spec fn next_is_request(self) -> bool {
        self.queue@.len() > 0 && self.presplit(
            self.queue@.last().0 as int,
            self.queue@.last().1 as int,
        ) is None
    }

    /// The progress as last reported.
    pub open spec fn progress(self) -> JobProgress {
        JobProgress {
            current_segment: self.processed,
            total_segments: self.segments@.len() as usize,
            llm_attempts: self.llm_attempts,
            llm_successes: self.llm_successes,
        }
    }

    /// Whether `reply` parses into the translations of the batch in flight.
    pub open spec fn reply_ok(self, reply: Option<String>) -> bool {
        match (self.in_flight, reply) {
            (Some(f), Some(t)) => batch_response(t@, (f.end - f.start) as nat) is Ok,
            _ => false,
        }
    }

    /// The well-formedness of a job.
    pub open spec fn wf(self) -> bool {
        let n = self.segments@.len();
        let u = self.untranslated@;
        let q = self.queue@;
        let r = self.results_view();
        &&& n <= r.len()
        &&& self.initial@.len() == r.len()
        &&& u.len() <= n
        &&& forall|i: int, j: int| 0 <= i < j < u.len() ==> u[i] < u[j]
        &&& forall|k: int| 0 <= k < u.len() ==> #[trigger] u[k] < n
        &&& forall|j: int| 0 <= j < q.len() ==> (#[trigger] q[j]).0 < q[j].1 <= u.len()
        &&& q.len() > 0 ==> q[0].1 == u.len()
        &&& forall|j: int| 0 <= j < q.len() - 1 ==> q[j + 1].1 == (#[trigger] q[j]).0
        &&& match self.in_flight {
            Some(f) => {
                &&& f.start < f.end
                &&& f.end - f.start <= MAX_BATCH
                &&& q.len() > 0 ==> q.last().0 == f.end
                &&& q.len() == 0 ==> f.end == u.len()
            },
            None => true,
        }
        &&& self.processed == n - u.len() + self.frontier()
        &&& self.llm_successes + (if self.in_flight is Some {
            1int
        } else {
            0int
        }) <= self.llm_attempts
        &&& forall|g: int| 0 <= g < r.len() && (#[trigger] self.initial@[g]) is Some ==> r[g] == self.initial@[g]
        &&& forall|k: int| 0 <= k < u.len() ==> self.initial@[#[trigger] u[k] as int] is None
        &&& forall|g: int| 0 <= g < n && (#[trigger] r[g]) is None ==> exists|k: int| 0 <= k < u.len() && u[k] == g
        &&& forall|k: int| 0 <= k < self.frontier() ==> (r[#[trigger] u[k] as int] is Some || self.failed@.contains(u[k]))
        &&& forall|k: int| self.frontier() <= k < u.len() ==> r[#[trigger] u[k] as int] is None
    }

    /// The untranslated positions have no translation yet.
    proof fn lemma_frontier_bounds(self)
        requires
            self.wf(),
        ensures
            0 <= self.frontier() <= self.untranslated@.len(),
            self.processed <= self.segments@.len(),
    {
        let q = self.queue@;
        if q.len() > 0 {
            assert(q[q.len() - 1].0 < q[q.len() - 1].1);
        }
    }
}

} // verus!

verus! {

/// The translations of the views, with the views of those left to translate.
pub open spec fn kept_results(
    segments: Seq<String>,
    translations: Seq<Option<String>>,
    meta: Seq<SegmentMeta>,
) -> Seq<Option<Seq<char>>> {
    Seq::new(
        translations.len(),
        |g: int|
            if g < segments.len() && translations[g] is None && g < meta.len()
                && meta[g].keep_original {
                Some(segments[g]@)
            } else {
                opt_view(translations[g])
            },
    )
}

/// The bytes of text in a range of the pending segments exceed the batch
/// limit.
fn exceeds_char_limit(segments: &Vec<String>, untranslated: &Vec<usize>, s: usize, e: usize, job: Ghost<EpubTranslationJob>) -> (r: bool)
    requires
        s <= e <= untranslated@.len(),
        job@.segments@ == segments@,
        job@.untranslated@ == untranslated@,
        forall|k: int| 0 <= k < untranslated@.len() ==> #[trigger] untranslated@[k] < segments@.len(),
    ensures
        r == (job@.chunk_bytes(s as int, e as int) > MAX_CHARS_PER_BATCH),
{
    let mut total: usize = 0;
    let mut k = s;
    while k < e
        invariant
            s <= k <= e,
            e <= untranslated@.len(),
            job@.segments@ == segments@,
            job@.untranslated@ == untranslated@,
            forall|j: int| 0 <= j < untranslated@.len() ==> #[trigger] untranslated@[j] < segments@.len(),
            total == job@.chunk_bytes(s as int, k as int),
            total <= MAX_CHARS_PER_BATCH,
        decreases e - k,
    {
        let g = untranslated[k];
        let len = segments[g].as_str().len();
        assert(len == byte_len(segments@[g as int]@));
        match total.checked_add(len) {
            Some(t) => {
                total = t;
            },
            None => {
                proof {
                    lemma_chunk_bytes_mono(job@, s as int, k + 1, e as int);
                }
                return true;
            },
        }
        if total > MAX_CHARS_PER_BATCH {
            proof {
                lemma_chunk_bytes_mono(job@, s as int, k + 1, e as int);
            }
            return true;
        }
        k = k + 1;
    }
    false
}

proof fn lemma_chunk_bytes_mono(job: EpubTranslationJob, s: int, k: int, e: int)
    requires
        s <= k <= e,
    ensures
        job.chunk_bytes(s, k) <= job.chunk_bytes(s, e),
    decreases e - k,
{
    if k < e {
        lemma_chunk_bytes_mono(job, s, k, e - 1);
    }
}

/// The decimal text of the number of present translations.
fn count_present(v: &Vec<Option<String>>) -> (r: usize)
    ensures
        r == count_some(opt_strings_view(v@)),
{
    let ghost vv = opt_strings_view(v@);
    let mut c: usize = 0;
    let mut i: usize = 0;
    while i < v.len()
        invariant
            i <= v@.len(),
            vv == opt_strings_view(v@),
            c == count_some(vv.subrange(0, i as int)),
            c <= i,
        decreases v@.len() - i,
    {
        assert(vv.subrange(0, i + 1).drop_last() =~= vv.subrange(0, i as int));
        if v[i].is_some() {
            c = c + 1;
        }
        i = i + 1;
    }
    assert(vv.subrange(0, v@.len() as int) =~= vv);
    c
}

/// A list of numbers as `{:?}` prints it.
pub fn debug_list_chars(v: &Vec<usize>) -> (r: Vec<char>)
    ensures
        r@ == debug_list(v@),
{
    let mut out: Vec<char> = Vec::new();
    push_str(&mut out, "[");
    let ghost start = out@;
    let mut i: usize = 0;
    while i < v.len()
        invariant
            i <= v@.len(),
            out@ == start + list_items(v@.subrange(0, i as int)),
        decreases v@.len() - i,
    {
        let ghost before = out@;
        if i > 0 {
            push_str(&mut out, ", ");
        }
        let d = decimal_chars(v[i] as u64);
        push_all(&mut out, d.as_slice());
        proof {
            let t = v@.subrange(0, i + 1);
            assert(t.drop_last() =~= v@.subrange(0, i as int));
            if i == 0 {
                assert(out@ =~= start + list_items(t));
            } else {
                assert(out@ =~= start + list_items(t));
            }
        }
        i = i + 1;
    }
    assert(v@.subrange(0, v@.len() as int) =~= v@);
    push_str(&mut out, "]");
    out
}

impl EpubTranslationJob {
    /// Starts the translation of `segments`: segments marked to keep their
    /// original text get it as their translation, and those that still need
    /// one are queued as a single range. Returns `None` when nothing needs a
    /// translation.
    pub fn new(
        segments: Vec<String>,
        translations: Vec<Option<String>>,
        segment_meta: &[SegmentMeta],
        source: Language,
        target: Language,
    ) -> (r: Option<EpubTranslationJob>)
        requires
            segments@.len() <= translations@.len(),
        ensures
            r is None <==> forall|i: int| 0 <= i < segments@.len() ==> !needs_translation(translations@, segment_meta@, i),
            r matches Some(j) ==> {
                &&& j.wf()
                &&& j.segments@ == segments@
                &&& j.results_view() == kept_results(segments@, translations@, segment_meta@)
                &&& j.initial@ == opt_strings_view(translations@)
                &&& forall|a: int, b: int| 0 <= a < b < j.untranslated@.len() ==> j.untranslated@[a] < j.untranslated@[b]
                &&& forall|k: int| 0 <= k < j.untranslated@.len() ==> #[trigger] j.untranslated@[k] < segments@.len()
                    && needs_translation(translations@, segment_meta@, j.untranslated@[k] as int)
                &&& forall|i: int| 0 <= i < segments@.len() && needs_translation(translations@, segment_meta@, i)
                    ==> exists|k: int| 0 <= k < j.untranslated@.len() && j.untranslated@[k] == i
                &&& j.queue@ == seq![(0usize, j.untranslated@.len() as usize)]
                &&& j.in_flight is None
                &&& j.failed@.len() == 0
                &&& j.llm_attempts == 0
                &&& j.llm_successes == 0
                &&& j.processed == segments@.len() - j.untranslated@.len()
                &&& j.source == source
                &&& j.target == target
            },
    {
        let ghost tv = translations@;
        let mut results = translations;
        let mut untranslated: Vec<usize> = Vec::new();
        let n = segments.len();
        let mut i: usize = 0;
        while i < n
            invariant
                i <= n,
                n == segments@.len(),
                n <= tv.len(),
                results@.len() == tv.len(),
                forall|g: int| i <= g < tv.len() ==> #[trigger] results@[g] == tv[g],
                forall|g: int| 0 <= g < i ==> #[trigger] opt_view(results@[g]) == kept_results(segments@, tv, segment_meta@)[g],
                untranslated@.len() <= i,
                forall|a: int, b: int| 0 <= a < b < untranslated@.len() ==> untranslated@[a] < untranslated@[b],
                forall|k: int| 0 <= k < untranslated@.len() ==> #[trigger] untranslated@[k] < i
                    && needs_translation(tv, segment_meta@, untranslated@[k] as int),
                forall|g: int| 0 <= g < i && needs_translation(tv, segment_meta@, g)
                    ==> exists|k: int| 0 <= k < untranslated@.len() && untranslated@[k] == g,
            decreases n - i,
        {
            let ghost u0 = untranslated@;
            if results[i].is_none() {
                if i < segment_meta.len() && segment_meta[i].keep_original {
                    let kept = segments[i].clone();
                    results.set(i, Some(kept));
                } else {
                    untranslated.push(i);
                    assert(untranslated@[untranslated@.len() - 1] == i);
                }
            }
            proof {
                assert forall|g: int| 0 <= g < i + 1 && needs_translation(tv, segment_meta@, g)
                    implies exists|k: int| 0 <= k < untranslated@.len() && untranslated@[k] == g by {
                    if g == i {
                        assert(untranslated@[untranslated@.len() - 1] == g);
                    } else {
                        let k = choose|k: int| 0 <= k < u0.len() && u0[k] == g;
                        assert(untranslated@[k] == g);
                    }
                }
            }
            i = i + 1;
        }
        if untranslated.len() == 0 {
            assert forall|i: int| 0 <= i < segments@.len() implies !needs_translation(tv, segment_meta@, i) by {
                if needs_translation(tv, segment_meta@, i) {
                    let k = choose|k: int| 0 <= k < untranslated@.len() && untranslated@[k] == i;
                }
            }
            return None;
        }
        assert(needs_translation(tv, segment_meta@, untranslated@[0] as int));
        let count = untranslated.len();
        let mut queue: Vec<(usize, usize)> = Vec::new();
        queue.push((0, count));
        let job = EpubTranslationJob {
            segments,
            results,
            untranslated,
            queue,
            in_flight: None,
            failed: Vec::new(),
            llm_attempts: 0,
            llm_successes: 0,
            processed: n - count,
            source,
            target,
            initial: Ghost(opt_strings_view(tv)),
        };
        assert(job.results_view() =~= kept_results(job.segments@, tv, segment_meta@));
        assert(job.queue@ =~= seq![(0usize, count)]);
        proof {
            let r = job.results_view();
            let u = job.untranslated@;
            assert forall|g: int| 0 <= g < n && (#[trigger] r[g]) is None implies exists|k: int|
                0 <= k < u.len() && u[k] == g by {
                assert(needs_translation(tv, segment_meta@, g));
            }
            assert forall|k: int| 0 <= k < u.len() implies job.initial@[#[trigger] u[k] as int] is None by {
                assert(needs_translation(tv, segment_meta@, u[k] as int));
            }
            assert forall|k: int| job.frontier() <= k < u.len() implies r[#[trigger] u[k] as int] is None by {
                assert(needs_translation(tv, segment_meta@, u[k] as int));
            }
        }
        Some(job)
    }
}


/// The segments `untranslated[s..e]` with their positions.
fn batch_items<'a>(segments: &'a Vec<String>, untranslated: &Vec<usize>, s: usize, e: usize, job: Ghost<EpubTranslationJob>) -> (r: Vec<(usize, &'a str)>)
    requires
        s <= e <= untranslated@.len(),
        job@.segments@ == segments@,
        job@.untranslated@ == untranslated@,
        forall|k: int| 0 <= k < untranslated@.len() ==> #[trigger] untranslated@[k] < segments@.len(),
    ensures
        pairs_view(r@) == job@.batch_pairs(s as int, e as int),
{
    let mut out: Vec<(usize, &'a str)> = Vec::new();
    let mut k = s;
    while k < e
        invariant
            s <= k <= e,
            e <= untranslated@.len(),
            job@.segments@ == segments@,
            job@.untranslated@ == untranslated@,
            forall|j: int| 0 <= j < untranslated@.len() ==> #[trigger] untranslated@[j] < segments@.len(),
            pairs_view(out@) =~= job@.batch_pairs(s as int, k as int),
        decreases e - k,
    {
        let g = untranslated[k];
        let text = segments[g].as_str();
        assert(text@ == segments@[g as int]@);
        let ghost before = out@;
        out.push((g, text));
        assert(pairs_view(out@) =~= pairs_view(before).push((g, text@)));
        k = k + 1;
        assert(pairs_view(out@) =~= job@.batch_pairs(s as int, k as int));
    }
    out
}

impl EpubTranslationJob {
    /// The final error message of a job whose `failed` list is not empty.
    fn failure_text(&self) -> (r: String)
        ensures
            r@ == failure_message(
                count_some(self.results_view()),
                self.segments@.len(),
                self.failed@,
            ),
    {
        let mut out: Vec<char> = Vec::new();
        let c = decimal_chars(count_present(&self.results) as u64);
        push_all(&mut out, c.as_slice());
        push_str(&mut out, " of ");
        let t = decimal_chars(self.segments.len() as u64);
        push_all(&mut out, t.as_slice());
        push_str(&mut out, " segments translated. Failed segments: ");
        let l = debug_list_chars(&self.failed);
        push_all(&mut out, l.as_slice());
        push_str(&mut out, ". Click 'Translate File' again to retry, or reduce BATCH_SIZE.");
        string_from(out.as_slice())
    }

    /// Decides the next step: finish when no range is left; otherwise take
    /// the first range and either split it (too many segments or too many
    /// bytes) or send it as one batch request.
    pub fn next_step(&mut self) -> (r: JobStep)
        requires
            old(self).wf(),
            old(self).in_flight is None,
            old(self).next_is_request() ==> old(self).llm_attempts < usize::MAX,
        ensures
            final(self).wf(),
            final(self).segments@ == old(self).segments@,
            final(self).results@ == old(self).results@,
            final(self).untranslated@ == old(self).untranslated@,
            final(self).failed@ == old(self).failed@,
            final(self).llm_successes == old(self).llm_successes,
            final(self).processed == old(self).processed,
            final(self).source == old(self).source,
            final(self).target == old(self).target,
            final(self).initial == old(self).initial,
            match r {
                JobStep::Finished { progress, outcome } => {
                    &&& old(self).queue@.len() == 0
                    &&& final(self).queue@ == old(self).queue@
                    &&& final(self).in_flight is None
                    &&& final(self).llm_attempts == old(self).llm_attempts
                    &&& progress == JobProgress {
                        current_segment: old(self).segments@.len() as usize,
                        total_segments: old(self).segments@.len() as usize,
                        llm_attempts: old(self).llm_attempts,
                        llm_successes: old(self).llm_successes,
                    }
                    &&& outcome is Ok <==> old(self).failed@.len() == 0
                    &&& outcome matches Err(m) ==> m@ == failure_message(
                        count_some(old(self).results_view()),
                        old(self).segments@.len(),
                        old(self).failed@,
                    )
                    &&& forall|g: int| 0 <= g < old(self).segments@.len() ==> (#[trigger] old(self).results_view()[g]) is Some
                        || old(self).failed@.contains(g as usize)
                },
                JobStep::Resplit => {
                    &&& old(self).queue@.len() > 0
                    &&& old(self).presplit(old(self).queue@.last().0 as int, old(self).queue@.last().1 as int) matches Some(m)
                        && final(self).queue@ == old(self).queue@.drop_last().push(
                        (m as usize, old(self).queue@.last().1),
                    ).push((old(self).queue@.last().0, m as usize))
                    &&& final(self).in_flight is None
                    &&& final(self).llm_attempts == old(self).llm_attempts
                },
                JobStep::Request { prompt, progress } => {
                    &&& old(self).next_is_request()
                    &&& progress == old(self).progress()
                    &&& final(self).queue@ == old(self).queue@.drop_last()
                    &&& final(self).llm_attempts == old(self).llm_attempts + 1
                    &&& prompt@ == batch_prompt(
                        old(self).batch_pairs(old(self).queue@.last().0 as int, old(self).queue@.last().1 as int),
                        old(self).source,
                        old(self).target,
                    )
                    &&& final(self).in_flight matches Some(f) && f.start == old(self).queue@.last().0
                        && f.end == old(self).queue@.last().1 && !f.retrying && f.prompt@ == prompt@
                },
            },
    {
        proof {
            self.lemma_frontier_bounds();
        }
        if self.queue.len() == 0 {
            let progress = JobProgress {
                current_segment: self.segments.len(),
                total_segments: self.segments.len(),
                llm_attempts: self.llm_attempts,
                llm_successes: self.llm_successes,
            };
            let outcome = if self.failed.len() == 0 {
                Ok(())
            } else {
                Err(self.failure_text())
            };
            proof {
                let r = self.results_view();
                let u = self.untranslated@;
                assert forall|g: int| 0 <= g < self.segments@.len() implies (#[trigger] r[g]) is Some
                    || self.failed@.contains(g as usize) by {
                    if r[g] is None {
                        let k = choose|k: int| 0 <= k < u.len() && u[k] == g;
                        assert(r[u[k] as int] is Some || self.failed@.contains(u[k]));
                    }
                }
            }
            return JobStep::Finished { progress, outcome };
        }
        let ghost old_job = *self;
        let (s, e) = self.queue.pop().unwrap();
        proof {
            let q = old_job.queue@;
            assert(q[q.len() - 1] == (s, e));
            assert(s < e);
        }
        if e - s > MAX_BATCH {
            let m = s + MAX_BATCH;
            self.queue.push((m, e));
            self.queue.push((s, m));
            proof {
                self.lemma_split_wf(old_job, s, m, e);
            }
            return JobStep::Resplit;
        }
        if exceeds_char_limit(&self.segments, &self.untranslated, s, e, Ghost(old_job)) && e - s > 1 {
            let m = s + (e - s) / 2;
            self.queue.push((m, e));
            self.queue.push((s, m));
            proof {
                self.lemma_split_wf(old_job, s, m, e);
            }
            return JobStep::Resplit;
        }
        let progress = JobProgress {
            current_segment: self.processed,
            total_segments: self.segments.len(),
            llm_attempts: self.llm_attempts,
            llm_successes: self.llm_successes,
        };
        self.llm_attempts = self.llm_attempts + 1;
        let items = batch_items(&self.segments, &self.untranslated, s, e, Ghost(old_job));
        let prompt = build_batch_prompt(items.as_slice(), &self.source, &self.target);
        let request_prompt = prompt.clone();
        self.in_flight = Some(InFlight { start: s, end: e, prompt, retrying: false });
        proof {
            let q = self.queue@;
            let oq = old_job.queue@;
            assert(q =~= oq.drop_last());
            if q.len() > 0 {
                assert(oq[oq.len() - 1].1 == oq[oq.len() - 2].0);
                assert(q.last() == oq[oq.len() - 2]);
            }
            assert(self.frontier() == old_job.frontier());
        }
        JobStep::Request { prompt: request_prompt, progress }
    }

    /// After a range was popped from `old` and split at `m`, the job is
    /// well formed again.
    proof fn lemma_split_wf(self, old: EpubTranslationJob, s: usize, m: usize, e: usize)
        requires
            old.wf(),
            old.in_flight is None,
            old.queue@.len() > 0,
            old.queue@.last() == (s, e),
            s < m < e,
            self.queue@ == old.queue@.drop_last().push((m, e)).push((s, m)),
            self.in_flight is None,
            self.segments == old.segments,
            self.results == old.results,
            self.untranslated == old.untranslated,
            self.failed == old.failed,
            self.processed == old.processed,
            self.llm_attempts == old.llm_attempts,
            self.llm_successes == old.llm_successes,
            self.initial == old.initial,
        ensures
            self.wf(),
    {
        let q = self.queue@;
        let oq = old.queue@;
        assert(q[oq.len() - 1] == (m, e));
        assert(q[oq.len() as int] == (s, m));
        assert(oq[oq.len() - 1] == (s, e));
        assert(self.frontier() == old.frontier());
        assert forall|j: int| 0 <= j < q.len() implies (#[trigger] q[j]).0 < q[j].1 <= self.untranslated@.len() by {
            if j < oq.len() - 1 {
                assert(q[j] == oq[j]);
            }
        }
        assert forall|j: int| 0 <= j < q.len() - 1 implies q[j + 1].1 == (#[trigger] q[j]).0 by {
            if j + 1 < oq.len() - 1 {
                assert(q[j] == oq[j]);
                assert(q[j + 1] == oq[j + 1]);
            } else if j + 1 == oq.len() - 1 {
                assert(q[j] == oq[j]);
                assert(oq[j + 1].1 == oq[j].0);
            }
        }
        if oq.len() > 1 {
            assert(q[0] == oq[0]);
        }
    }
}

impl EpubTranslationJob {
    /// Stores `texts[k - s]` as the translation of segment `untranslated[k]`
    /// for each `k` in `s..e`.
    fn store_batch(&mut self, s: usize, e: usize, texts: &Vec<String>)
        requires
            old(self).segments@.len() <= old(self).results@.len(),
            forall|k: int| 0 <= k < old(self).untranslated@.len() ==> #[trigger] old(self).untranslated@[k] < old(self).segments@.len(),
            forall|a: int, b: int| 0 <= a < b < old(self).untranslated@.len() ==> old(self).untranslated@[a] < old(self).untranslated@[b],
            s < e <= old(self).untranslated@.len(),
            texts@.len() == e - s,
        ensures
            final(self).segments == old(self).segments,
            final(self).untranslated == old(self).untranslated,
            final(self).queue == old(self).queue,
            final(self).in_flight == old(self).in_flight,
            final(self).failed == old(self).failed,
            final(self).llm_attempts == old(self).llm_attempts,
            final(self).llm_successes == old(self).llm_successes,
            final(self).processed == old(self).processed,
            final(self).source == old(self).source,
            final(self).target == old(self).target,
            final(self).initial == old(self).initial,
            final(self).results@.len() == old(self).results@.len(),
            forall|k: int| s <= k < e ==> final(self).results_view()[#[trigger] old(self).untranslated@[k] as int] == Some(texts@[k - s]@),
            forall|g: int| 0 <= g < old(self).results@.len() && #[trigger] final(self).results_view()[g] != old(self).results_view()[g]
                ==> exists|k: int| s <= k < e && old(self).untranslated@[k] == g,
    {
        let ghost old_rv = self.results_view();
        let ghost u = self.untranslated@;
        let ghost start = *self;
        let mut i = s;
        while i < e
            invariant
                s <= i <= e,
                self.segments == start.segments,
                self.untranslated == start.untranslated,
                self.queue == start.queue,
                self.in_flight == start.in_flight,
                self.failed == start.failed,
                self.llm_attempts == start.llm_attempts,
                self.llm_successes == start.llm_successes,
                self.processed == start.processed,
                self.source == start.source,
                self.target == start.target,
                self.initial == start.initial,
                e <= u.len(),
                u == self.untranslated@,
                texts@.len() == e - s,
                self.results@.len() == old_rv.len(),
                self.segments@.len() <= old_rv.len(),
                forall|k: int| 0 <= k < u.len() ==> #[trigger] u[k] < self.segments@.len(),
                forall|a: int, b: int| 0 <= a < b < u.len() ==> u[a] < u[b],
                forall|k: int| s <= k < i ==> self.results_view()[#[trigger] u[k] as int] == Some(texts@[k - s]@),
                forall|g: int| 0 <= g < old_rv.len() && #[trigger] self.results_view()[g] != old_rv[g]
                    ==> exists|k: int| s <= k < i && u[k] == g,
            decreases e - i,
        {
            let g = self.untranslated[i];
            let text = texts[i - s].clone();
            let ghost before = self.results_view();
            self.results.set(g, Some(text));
            proof {
                let now = self.results_view();
                assert(now =~= before.update(g as int, Some(texts@[i - s]@)));
                assert forall|k: int| s <= k < i + 1 implies now[#[trigger] u[k] as int] == Some(texts@[k - s]@) by {
                    if k < i {
                        assert(u[k] < u[i as int]);
                    }
                }
                assert forall|h: int| 0 <= h < old_rv.len() && #[trigger] now[h] != old_rv[h]
                    implies exists|k: int| s <= k < i + 1 && u[k] == h by {
                    if h != g {
                        assert(now[h] == before[h]);
                    } else {
                        assert(u[i as int] == h);
                    }
                }
            }
            i = i + 1;
        }
    }

    /// Handles the reply to the request in flight (`None` when the LLM call
    /// failed). A reply that parses into the batch's translations stores
    /// them; otherwise the first failure asks again with the retry prompt,
    /// and a second failure records a single segment as failed or splits
    /// the batch in half.
    pub fn on_reply(&mut self, reply: Option<String>) -> (r: ReplyStep)
        requires
            old(self).wf(),
            old(self).in_flight is Some,
            !old(self).reply_ok(reply) && !old(self).in_flight.unwrap().retrying ==> old(self).llm_attempts < usize::MAX,
        ensures
            final(self).wf(),
            final(self).segments@ == old(self).segments@,
            final(self).untranslated@ == old(self).untranslated@,
            final(self).source == old(self).source,
            final(self).target == old(self).target,
            final(self).initial == old(self).initial,
            ({
                let f = old(self).in_flight.unwrap();
                let s = f.start as int;
                let e = f.end as int;
                let u = old(self).untranslated@;
                if old(self).reply_ok(reply) {
                    let v = batch_response(reply.unwrap()@, (e - s) as nat)->Ok_0;
                    &&& r is Stored
                    &&& final(self).in_flight is None
                    &&& final(self).queue@ == old(self).queue@
                    &&& final(self).failed@ == old(self).failed@
                    &&& final(self).llm_attempts == old(self).llm_attempts
                    &&& final(self).llm_successes == old(self).llm_successes + 1
                    &&& final(self).processed == old(self).processed + (e - s)
                    &&& final(self).results@.len() == old(self).results@.len()
                    &&& forall|k: int| s <= k < e ==> final(self).results_view()[#[trigger] u[k] as int] == Some(v[k - s])
                    &&& forall|g: int| 0 <= g < old(self).results@.len() && #[trigger] final(self).results_view()[g] != old(self).results_view()[g]
                        ==> exists|k: int| s <= k < e && u[k] == g
                } else if !f.retrying {
                    &&& r is Retry
                    &&& r->prompt@ == retry_prompt(f.prompt@)
                    &&& final(self).in_flight is Some
                    &&& final(self).in_flight->0.start == f.start
                    &&& final(self).in_flight->0.end == f.end
                    &&& final(self).in_flight->0.retrying
                    &&& final(self).in_flight->0.prompt@ == r->prompt@
                    &&& final(self).queue@ == old(self).queue@
                    &&& final(self).results@ == old(self).results@
                    &&& final(self).failed@ == old(self).failed@
                    &&& final(self).llm_attempts == old(self).llm_attempts + 1
                    &&& final(self).llm_successes == old(self).llm_successes
                    &&& final(self).processed == old(self).processed
                } else if e - s == 1 {
                    &&& r is SegmentFailed
                    &&& r->segment == u[s]
                    &&& r->llm_error == (reply is None)
                    &&& final(self).in_flight is None
                    &&& final(self).queue@ == old(self).queue@
                    &&& final(self).results@ == old(self).results@
                    &&& final(self).failed@ == old(self).failed@.push(u[s])
                    &&& final(self).llm_attempts == old(self).llm_attempts
                    &&& final(self).llm_successes == old(self).llm_successes
                    &&& final(self).processed == old(self).processed + 1
                } else {
                    let mid = s + (e - s) / 2;
                    &&& r is Resplit
                    &&& final(self).in_flight is None
                    &&& final(self).queue@ == old(self).queue@.push((mid as usize, e as usize)).push((s as usize, mid as usize))
                    &&& final(self).results@ == old(self).results@
                    &&& final(self).failed@ == old(self).failed@
                    &&& final(self).llm_attempts == old(self).llm_attempts
                    &&& final(self).llm_successes == old(self).llm_successes
                    &&& final(self).processed == old(self).processed
                }
            }),
    {
        let ghost old_job = *self;
        proof {
            self.lemma_frontier_bounds();
        }
        let n = self.segments.len();
        let f = self.in_flight.take().unwrap();
        let s = f.start;
        let e = f.end;
        proof {
            let q = old_job.queue@;
            if q.len() > 0 {
                assert(q[q.len() - 1].0 < q[q.len() - 1].1);
            }
            assert(e <= old_job.untranslated@.len());
            assert(old_job.processed + (e - s) <= old_job.segments@.len());
        }
        let parsed = match &reply {
            Some(t) => Some(parse_batch_response(t.as_str(), e - s)),
            None => None,
        };
        if let Some(Ok(v)) = parsed {
            proof {
                lemma_batch_response_len(reply.unwrap()@, (e - s) as nat);
                assert(v@.len() == e - s);
            }
            self.store_batch(s, e, &v);
            self.llm_successes = self.llm_successes + 1;
            self.processed = self.processed + (e - s);
            proof {
                self.lemma_after_store(old_job, v@);
            }
            return ReplyStep::Stored;
        }
        assert(!old_job.reply_ok(reply));
        if !f.retrying {
            let p = build_retry_prompt(f.prompt.as_str());
            let c = p.clone();
            self.llm_attempts = self.llm_attempts + 1;
            self.in_flight = Some(InFlight { start: s, end: e, prompt: p, retrying: true });
            return ReplyStep::Retry { prompt: c };
        }
        if e - s == 1 {
            let g = self.untranslated[s];
            self.failed.push(g);
            self.processed = self.processed + 1;
            proof {
                let q = self.queue@;
                let u = self.untranslated@;
                let r = self.results_view();
                assert forall|k: int| 0 <= k < self.frontier() implies (r[#[trigger] u[k] as int] is Some
                    || self.failed@.contains(u[k])) by {
                    if k == s {
                        assert(self.failed@[self.failed@.len() - 1] == u[k]);
                    } else {
                        assert(old_job.failed@.contains(u[k]) ==> self.failed@.contains(u[k])) by {
                            if old_job.failed@.contains(u[k]) {
                                let j = choose|j: int| 0 <= j < old_job.failed@.len() && old_job.failed@[j] == u[k];
                                assert(self.failed@[j] == u[k]);
                            }
                        }
                    }
                }
            }
            return ReplyStep::SegmentFailed { segment: g, llm_error: reply.is_none() };
        }
        let mid = s + (e - s) / 2;
        self.queue.push((mid, e));
        self.queue.push((s, mid));
        proof {
            let q = self.queue@;
            let oq = old_job.queue@;
            assert(q[oq.len() as int] == (mid, e));
            assert(q[oq.len() + 1int] == (s, mid));
            assert forall|j: int| 0 <= j < q.len() implies (#[trigger] q[j]).0 < q[j].1 <= self.untranslated@.len() by {
                if j < oq.len() {
                    assert(q[j] == oq[j]);
                }
            }
            assert forall|j: int| 0 <= j < q.len() - 1 implies q[j + 1].1 == (#[trigger] q[j]).0 by {
                if j + 1 < oq.len() {
                    assert(q[j] == oq[j]);
                    assert(q[j + 1] == oq[j + 1]);
                } else if j + 1 == oq.len() {
                    assert(q[j] == oq[j]);
                }
            }
            if oq.len() > 0 {
                assert(q[0] == oq[0]);
            }
            assert(self.frontier() == old_job.frontier());
        }
        ReplyStep::Resplit
    }

    /// After the batch in flight was stored, the job is well formed again.
    proof fn lemma_after_store(self, old: EpubTranslationJob, v: Seq<String>)
        requires
            old.wf(),
            old.in_flight is Some,
            self.in_flight is None,
            v.len() == old.in_flight.unwrap().end - old.in_flight.unwrap().start,
            self.segments == old.segments,
            self.untranslated == old.untranslated,
            self.queue == old.queue,
            self.failed == old.failed,
            self.llm_attempts == old.llm_attempts,
            self.llm_successes == old.llm_successes + 1,
            self.processed == old.processed + (old.in_flight.unwrap().end - old.in_flight.unwrap().start),
            self.initial == old.initial,
            self.results@.len() == old.results@.len(),
            forall|k: int| old.in_flight.unwrap().start <= k < old.in_flight.unwrap().end
                ==> self.results_view()[#[trigger] old.untranslated@[k] as int] == Some(v[k - old.in_flight.unwrap().start]@),
            forall|g: int| 0 <= g < old.results@.len() && #[trigger] self.results_view()[g] != old.results_view()[g]
                ==> exists|k: int| old.in_flight.unwrap().start <= k < old.in_flight.unwrap().end && old.untranslated@[k] == g,
        ensures
            self.wf(),
    {
        let f = old.in_flight.unwrap();
        let s = f.start as int;
        let e = f.end as int;
        let u = self.untranslated@;
        let r = self.results_view();
        let o = old.results_view();
        assert(self.frontier() == e);
        assert forall|g: int| 0 <= g < r.len() && (#[trigger] self.initial@[g]) is Some implies r[g] == self.initial@[g] by {
            if r[g] != o[g] {
                let k = choose|k: int| s <= k < e && u[k] == g;
                assert(self.initial@[u[k] as int] is None);
            }
        }
        assert forall|g: int| 0 <= g < self.segments@.len() && (#[trigger] r[g]) is None implies exists|k: int|
            0 <= k < u.len() && u[k] == g by {
            if r[g] != o[g] {
                let k = choose|k: int| s <= k < e && u[k] == g;
                assert(r[u[k] as int] == Some(v[k - s]@));
            }
        }
        assert forall|k: int| 0 <= k < e implies (r[#[trigger] u[k] as int] is Some || self.failed@.contains(u[k])) by {
            if k >= s {
                assert(r[u[k] as int] == Some(v[k - s]@));
            } else if r[u[k] as int] != o[u[k] as int] {
                let j = choose|j: int| s <= j < e && u[j] == u[k];
                assert(u[k] < u[j]);
            }
        }
        assert forall|k: int| e <= k < u.len() implies r[#[trigger] u[k] as int] is None by {
            if r[u[k] as int] != o[u[k] as int] {
                let j = choose|j: int| s <= j < e && u[j] == u[k];
                assert(u[j] < u[k]);
            }
        }
    }
}

/// The system prompt with the glossary appended, unless the glossary is
/// blank.
pub open spec fn effective_prompt(system: Seq<char>, glossary: Seq<char>) -> Seq<char> {
    if trim(glossary).len() == 0 {
        system
    } else {
        system + "\n\n[Terminology Glossary - follow these term mappings precisely]:\n"@ + glossary
    }
}

/// The system prompt sent with every request: the configured prompt, with
/// the terminology glossary appended when there is one.
pub fn effective_system_prompt(system_prompt: &str, glossary: &str) -> (r: String)
    ensures
        r@ == effective_prompt(system_prompt@, glossary@),
{
    let g = chars_of(glossary);
    let t = trim_chars(g.as_slice());
    let mut out: Vec<char> = Vec::new();
    push_str(&mut out, system_prompt);
    if t.len() > 0 {
        push_str(&mut out, "\n\n[Terminology Glossary - follow these term mappings precisely]:\n");
        push_all(&mut out, g.as_slice());
    }
    string_from(out.as_slice())
}

/// Whether the loaded document still has untranslated segments.
pub fn translation_needed(doc: &Option<EpubDocument>) -> (r: Result<bool, String>)
    ensures
        match doc {
            None => r matches Err(e) && e@ == "No EPUB loaded. Please load an EPUB first."@,
            Some(d) => r == Ok::<bool, String>(exists|i: int| 0 <= i < d.translations@.len() && #[trigger] d.translations@[i] is None),
        },
{
    match doc {
        None => Err(String::from_str("No EPUB loaded. Please load an EPUB first.")),
        Some(d) => match find_incomplete(d.translations.as_slice()) {
            Some(i) => Ok(true),
            None => Ok(false),
        },
    }
}

} // verus!
