//! Translation history, exported result texts and file names, and the
//! configuration file's contents.

use vstd::prelude::*;
use crate::text::{string_from, push_str, push_decimal, decimal};
use crate::llm::LLMConfigEntry;
use crate::registry::{entries_view, list_llm_configs};

verus! {

/// A translation kept in the history.
#[derive(Debug)]
pub struct HistoryItem {
    pub original: String,
    pub translated: String,
    pub source_lang: String,
    pub target_lang: String,
    pub tokens: u32,
    pub timestamp: String,
}

/// The contents of a [`HistoryItem`].
pub struct HistoryItemView {
    pub original: Seq<char>,
    pub translated: Seq<char>,
    pub source_lang: Seq<char>,
    pub target_lang: Seq<char>,
    pub tokens: u32,
    pub timestamp: Seq<char>,
}

impl View for HistoryItem {
    type V = HistoryItemView;

    open spec fn view(&self) -> HistoryItemView {
        HistoryItemView {
            original: self.original@,
            translated: self.translated@,
            source_lang: self.source_lang@,
            target_lang: self.target_lang@,
            tokens: self.tokens,
            timestamp: self.timestamp@,
        }
    }
}

impl HistoryItem {
    /// A copy of this item.
    pub fn duplicate(&self) -> (r: HistoryItem)
        ensures
            r@ == self@,
    {
        HistoryItem {
            original: self.original.clone(),
            translated: self.translated.clone(),
            source_lang: self.source_lang.clone(),
            target_lang: self.target_lang.clone(),
            tokens: self.tokens,
            timestamp: self.timestamp.clone(),
        }
    }
}

/// One result of a batch translation.
#[derive(Debug)]
pub struct BatchResultItem {
    pub original: String,
    pub translated: String,
    pub source_lang: String,
    pub target_lang: String,
    pub tokens: u32,
}

/// What the configuration file holds.
#[derive(Debug)]
pub struct ConfigFile {
    pub system_prompt: String,
    pub glossary: String,
    pub llm_configs: Vec<LLMConfigEntry>,
    pub active_llm_index: usize,
}

/// The most items the history keeps.
pub const HISTORY_LIMIT: usize = 1000usize;

/// How many of the oldest items go when the history grows past its limit.
pub const HISTORY_DROP: usize = 100usize;

/// The history once `item` is added: it goes last, and when that makes the
/// history longer than its limit the oldest items are dropped.
pub open spec fn history_after_add(h: Seq<HistoryItem>, item: HistoryItem) -> Seq<HistoryItem> {
    let g = h.push(item);
    if g.len() > HISTORY_LIMIT {
        g.subrange(HISTORY_DROP as int, g.len() as int)
    } else {
        g
    }
}

/// Adds `item` to the history.
pub fn record_history(history: &mut Vec<HistoryItem>, item: HistoryItem)
    ensures
        final(history)@ == history_after_add(old(history)@, item),
{
    history.push(item);
    if history.len() > HISTORY_LIMIT {
        let rest = history.split_off(HISTORY_DROP);
        *history = rest;
    }
}

/// The view of a whole history.
pub open spec fn history_view(h: Seq<HistoryItem>) -> Seq<HistoryItemView> {
    h.map_values(|x: HistoryItem| x@)
}

/// A copy of the whole history, oldest first.
pub fn get_history(history: &Vec<HistoryItem>) -> (r: Vec<HistoryItem>)
    ensures
        history_view(r@) == history_view(history@),
{
    let mut out: Vec<HistoryItem> = Vec::new();
    let mut i: usize = 0;
    while i < history.len()
        invariant
            i <= history@.len(),
            history_view(out@) == history_view(history@).subrange(0, i as int),
        decreases history@.len() - i,
    {
        let ghost before = out@;
        let x = history[i].duplicate();
        out.push(x);
        assert(history_view(out@) =~= history_view(before).push(x@));
        assert(history_view(history@).subrange(0, i + 1) =~= history_view(history@).subrange(
            0,
            i as int,
        ).push(history@[i as int]@));
        i = i + 1;
    }
    assert(history_view(history@).subrange(0, history@.len() as int) =~= history_view(history@));
    out
}

/// Clear all history.
pub fn clear_history(history: &mut Vec<HistoryItem>)
    ensures
        final(history)@.len() == 0,
{
    history.clear();
}

/// A history that held at most its limit still does after an addition,
/// and its newest item is the one added.
pub proof fn lemma_history_bounded(h: Seq<HistoryItem>, item: HistoryItem)
    requires
        h.len() <= HISTORY_LIMIT,
    ensures
        history_after_add(h, item).len() <= HISTORY_LIMIT,
        history_after_add(h, item).last() == item,
        h.len() < HISTORY_LIMIT ==> history_after_add(h, item) == h.push(item),
{
}

/// `n` (below 100) in two digits.
pub open spec fn two_digits(n: nat) -> Seq<char> {
    if n < 10 {
        seq!['0'] + decimal(n)
    } else {
        decimal(n)
    }
}

/// The time of day (UTC) `secs` seconds after the epoch, as `HH:MM:SS`.
pub open spec fn clock_text(secs: nat) -> Seq<char> {
    two_digits((secs / 3600) % 24) + seq![':'] + two_digits((secs / 60) % 60) + seq![':']
        + two_digits(secs % 60)
}

fn push_two_digits(out: &mut Vec<char>, n: u64)
    requires
        n < 100,
    ensures
        final(out)@ == old(out)@ + two_digits(n as nat),
{
    if n < 10 {
        out.push('0');
    }
    let ghost mid = out@;
    push_decimal(out, n);
    assert(out@ =~= old(out)@ + two_digits(n as nat));
}

/// The time of day (UTC) `secs` seconds after the epoch, as `HH:MM:SS`.
pub fn clock_time(secs: u64) -> (r: String)
    ensures
        r@ == clock_text(secs as nat),
{
    let mut v: Vec<char> = Vec::new();
    push_two_digits(&mut v, (secs / 3600) % 24);
    v.push(':');
    push_two_digits(&mut v, (secs / 60) % 60);
    v.push(':');
    push_two_digits(&mut v, secs % 60);
    assert(v@ =~= clock_text(secs as nat));
    string_from(v.as_slice())
}

/// Whole seconds since the Unix epoch, from the system clock
/// (`SystemTime::now().duration_since(UNIX_EPOCH)`, then `as_secs`). The
/// value depends on the clock, so nothing is stated of it. A clock that
/// reads before the epoch makes `duration_since` fail, and the call panics
/// there; that is a state of the machine, not an input a `requires` could
/// leave out.
#[verifier::external_body]
fn unix_seconds() -> (r: u64) {
    std::time::SystemTime::now().duration_since(std::time::UNIX_EPOCH).unwrap().as_secs()
}

/// The current time of day (UTC) as `HH:MM:SS`.
pub fn chrono_lite_timestamp() -> (r: String)
    ensures
        exists|secs: u64| r@ == clock_text(secs as nat),
{
    let secs = unix_seconds();
    clock_time(secs)
}

/// Add a translation to history, stamped with the current time of day.
pub fn add_history(
    history: &mut Vec<HistoryItem>,
    original: String,
    translated: String,
    source_lang: String,
    target_lang: String,
    tokens: u32,
)
    ensures
        exists|item: HistoryItem|
            {
                &&& final(history)@ == history_after_add(old(history)@, item)
                &&& item.original@ == original@
                &&& item.translated@ == translated@
                &&& item.source_lang@ == source_lang@
                &&& item.target_lang@ == target_lang@
                &&& item.tokens == tokens
                &&& exists|secs: u64| item.timestamp@ == clock_text(secs as nat)
            },
{
    let item = HistoryItem {
        original,
        translated,
        source_lang,
        target_lang,
        tokens,
        timestamp: chrono_lite_timestamp(),
    };
    let ghost kept = item;
    record_history(history, item);
    assert(final(history)@ == history_after_add(old(history)@, kept));
}

/// The text of one exported batch result.
pub open spec fn batch_result_text(original: Seq<char>, translated: Seq<char>) -> Seq<char> {
    "[Original]\n"@ + original + "\n[Translated]\n"@ + translated + "\n---"@
}

/// The exported text of batch results: each result's text, one after the
/// other.
pub open spec fn batch_results_text(results: Seq<BatchResultItem>) -> Seq<char>
    decreases results.len(),
{
    if results.len() == 0 {
        Seq::empty()
    } else {
        batch_results_text(results.drop_last()) + batch_result_text(
            results.last().original@,
            results.last().translated@,
        )
    }
}

/// The exported text of batch results.
pub fn export_batch_text(results: &Vec<BatchResultItem>) -> (r: String)
    ensures
        r@ == batch_results_text(results@),
{
    let mut v: Vec<char> = Vec::new();
    let mut i: usize = 0;
    while i < results.len()
        invariant
            i <= results@.len(),
            v@ == batch_results_text(results@.subrange(0, i as int)),
        decreases results@.len() - i,
    {
        let ghost before = v@;
        push_str(&mut v, "[Original]\n");
        push_str(&mut v, results[i].original.as_str());
        push_str(&mut v, "\n[Translated]\n");
        push_str(&mut v, results[i].translated.as_str());
        push_str(&mut v, "\n---");
        assert(results@.subrange(0, i + 1).drop_last() =~= results@.subrange(0, i as int));
        assert(v@ =~= before + batch_result_text(results@[i as int].original@, results@[i as int].translated@));
        i = i + 1;
    }
    assert(results@.subrange(0, results@.len() as int) =~= results@);
    string_from(v.as_slice())
}

/// `prefix`, the decimal `ts` and `suffix`.
pub open spec fn stamped_name(prefix: Seq<char>, ts: nat, suffix: Seq<char>) -> Seq<char> {
    prefix + decimal(ts) + suffix
}

fn stamped(prefix: &str, ts: u64, suffix: &str) -> (r: String)
    ensures
        r@ == stamped_name(prefix@, ts as nat, suffix@),
{
    let mut v: Vec<char> = Vec::new();
    push_str(&mut v, prefix);
    push_decimal(&mut v, ts);
    push_str(&mut v, suffix);
    string_from(v.as_slice())
}

/// The name of an exported file translation: `translated_` and the
/// original name, or, where that is empty, a name stamped with `ts`.
pub open spec fn file_results_name(original: Seq<char>, ts: nat) -> Seq<char> {
    if original.len() == 0 {
        stamped_name("mindrush_translated_"@, ts, ".txt"@)
    } else {
        "translated_"@ + original
    }
}

/// The name of an exported file translation at time `ts`.
pub fn file_results_name_at(original_filename: &str, ts: u64) -> (r: String)
    ensures
        r@ == file_results_name(original_filename@, ts as nat),
{
    if original_filename.is_empty() {
        stamped("mindrush_translated_", ts, ".txt")
    } else {
        let mut v: Vec<char> = Vec::new();
        push_str(&mut v, "translated_");
        push_str(&mut v, original_filename);
        string_from(v.as_slice())
    }
}

/// The name of an exported file translation; the clock is read only where
/// the original name is empty.
pub fn export_file_name(original_filename: &str) -> (r: String)
    ensures
        original_filename@.len() > 0 ==> r@ == "translated_"@ + original_filename@,
        exists|ts: u64| r@ == file_results_name(original_filename@, ts as nat),
{
    if original_filename.is_empty() {
        let ts = unix_seconds();
        file_results_name_at(original_filename, ts)
    } else {
        file_results_name_at(original_filename, 0)
    }
}

/// The name of an exported batch result file, stamped with the time.
pub fn batch_export_name() -> (r: String)
    ensures
        exists|ts: u64| r@ == stamped_name("mindrush_batch_"@, ts as nat, ".txt"@),
{
    stamped("mindrush_batch_", unix_seconds(), ".txt")
}

/// The name of an exported history file, stamped with the time.
pub fn history_export_name() -> (r: String)
    ensures
        exists|ts: u64| r@ == stamped_name("mindrush_history_"@, ts as nat, ".json"@),
{
    stamped("mindrush_history_", unix_seconds(), ".json")
}

/// The glossary in force after a configuration is loaded: the file's own,
/// unless that is empty and the separate glossary file could be read.
pub fn loaded_glossary(config_glossary: String, glossary_file: Option<String>) -> (r: String)
    ensures
        config_glossary@.len() == 0 && glossary_file is Some ==> r@ == glossary_file->Some_0@,
        !(config_glossary@.len() == 0 && glossary_file is Some) ==> r@ == config_glossary@,
{
    if config_glossary.as_str().is_empty() {
        match glossary_file {
            Some(g) => g,
            None => config_glossary,
        }
    } else {
        config_glossary
    }
}

/// What a save writes: the configurations, the active position, the
/// system prompt and the glossary.
pub fn config_snapshot(
    configs: &Vec<LLMConfigEntry>,
    active: usize,
    system_prompt: &str,
    glossary: &str,
) -> (r: ConfigFile)
    ensures
        r.system_prompt@ == system_prompt@,
        r.glossary@ == glossary@,
        entries_view(r.llm_configs@) == entries_view(configs@),
        r.active_llm_index == active,
{
    ConfigFile {
        system_prompt: String::from_str(system_prompt),
        glossary: String::from_str(glossary),
        llm_configs: list_llm_configs(configs),
        active_llm_index: active,
    }
}

} // verus!
