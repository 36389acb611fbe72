//! The list of named LLM configurations and the position of the active one:
//! reading, updating, adding, removing and choosing entries.

use vstd::prelude::*;
use crate::text::{string_from, push_str, push_decimal, decimal};
use crate::document::opt_view;
use crate::language::lowercase;
use crate::llm::{
    LLMConfig, LLMConfigView, LLMConfigEntry, LLMConfigEntryView, provider_of_name, config_from_input,
    CONFIG_TIMEOUT_SECS, default_config_view,
};

verus! {

/// The views of a list of entries.
pub open spec fn entries_view(v: Seq<LLMConfigEntry>) -> Seq<LLMConfigEntryView> {
    v.map_values(|e: LLMConfigEntry| e@)
}

/// Whether the list has an entry and the active position names one.
pub open spec fn registry_wf(configs: Seq<LLMConfigEntryView>, active: int) -> bool {
    configs.len() > 0 && 0 <= active < configs.len()
}

/// The active entry, if the active position names one.
pub open spec fn active_entry(configs: Seq<LLMConfigEntryView>, active: int) -> Option<
    LLMConfigEntryView,
> {
    if 0 <= active < configs.len() {
        Some(configs[active])
    } else {
        None
    }
}

/// The list once the active entry's configuration is `config`.
pub open spec fn after_update(
    configs: Seq<LLMConfigEntryView>,
    active: int,
    config: LLMConfigView,
) -> Seq<LLMConfigEntryView> {
    configs.update(active, LLMConfigEntryView { name: configs[active].name, config })
}

/// The active position once entry `index` is removed from a list of `len`
/// entries.
pub open spec fn active_after_remove(len: int, active: int, index: int) -> int {
    if active >= len - 1 && len - 1 > 0 {
        len - 2
    } else if index < active {
        active - 1
    } else {
        active
    }
}

/// The refusal of a position past the end of a list of `len` entries.
pub open spec fn index_error_text(index: nat, len: nat) -> Seq<char> {
    "Index out of bounds: "@ + decimal(index) + " (max "@ + decimal(
        if len > 0 {
            (len - 1) as nat
        } else {
            0
        },
    ) + ")"@
}

/// The refusal of a read or update without an active entry.
pub open spec fn no_active_text() -> Seq<char> {
    "No active LLM configuration found"@
}

/// The refusal to remove the only entry.
pub open spec fn last_entry_text() -> Seq<char> {
    "Cannot remove the last LLM configuration"@
}

fn index_error(index: usize, len: usize) -> (r: String)
    ensures
        r@ == index_error_text(index as nat, len as nat),
{
    let max = len.saturating_sub(1);
    let mut v: Vec<char> = Vec::new();
    push_str(&mut v, "Index out of bounds: ");
    push_decimal(&mut v, index as u64);
    push_str(&mut v, " (max ");
    push_decimal(&mut v, max as u64);
    push_str(&mut v, ")");
    string_from(v.as_slice())
}

/// Get the active LLM configuration.
pub fn get_llm_config(configs: &Vec<LLMConfigEntry>, active: usize) -> (r: Result<LLMConfig, String>)
    ensures
        match active_entry(entries_view(configs@), active as int) {
            Some(e) => r is Ok && r->Ok_0@ == e.config,
            None => r is Err && r->Err_0@ == no_active_text(),
        },
{
    if active < configs.len() {
        Ok(configs[active].config.duplicate())
    } else {
        Err(String::from_str("No active LLM configuration found"))
    }
}

/// Update the active LLM configuration from user input. An unknown
/// provider is refused first; then a missing active entry.
pub fn update_llm_config(
    configs: &mut Vec<LLMConfigEntry>,
    active: usize,
    provider: &str,
    model: String,
    api_key: String,
    base_url: Option<String>,
    temperature_bits: u32,
    max_tokens: Option<u32>,
) -> (r: Result<(), String>)
    ensures
        match provider_of_name(lowercase(provider@)) {
            None => r is Err && r->Err_0@ == "Unknown provider"@ && final(configs)@ == old(configs)@,
            Some(p) => if active < old(configs)@.len() {
                r is Ok && entries_view(final(configs)@) == after_update(
                    entries_view(old(configs)@),
                    active as int,
                    LLMConfigView {
                        provider_type: p,
                        model: model@,
                        api_key: api_key@,
                        base_url: opt_view(base_url),
                        max_tokens,
                        temperature_bits,
                        timeout_secs: CONFIG_TIMEOUT_SECS,
                    },
                )
            } else {
                r is Err && r->Err_0@ == no_active_text() && final(configs)@ == old(configs)@
            },
        },
{
    let config = match config_from_input(provider, model, api_key, base_url, temperature_bits, max_tokens) {
        Ok(c) => c,
        Err(e) => {
            return Err(e);
        },
    };
    if active < configs.len() {
        let name = configs[active].name.clone();
        let ghost old_view = entries_view(configs@);
        let ghost cv = config@;
        configs.set(active, LLMConfigEntry { name, config });
        assert(entries_view(configs@) =~= after_update(old_view, active as int, cv));
        Ok(())
    } else {
        Err(String::from_str("No active LLM configuration found"))
    }
}

/// List all LLM configurations.
pub fn list_llm_configs(configs: &Vec<LLMConfigEntry>) -> (r: Vec<LLMConfigEntry>)
    ensures
        entries_view(r@) == entries_view(configs@),
{
    let mut out: Vec<LLMConfigEntry> = Vec::new();
    let mut i: usize = 0;
    while i < configs.len()
        invariant
            i <= configs@.len(),
            entries_view(out@) == entries_view(configs@).subrange(0, i as int),
        decreases configs@.len() - i,
    {
        let ghost before = out@;
        let e = configs[i].duplicate();
        out.push(e);
        assert(entries_view(out@) =~= entries_view(before).push(e@));
        assert(entries_view(configs@).subrange(0, i + 1) =~= entries_view(configs@).subrange(
            0,
            i as int,
        ).push(configs@[i as int]@));
        i = i + 1;
    }
    assert(entries_view(configs@).subrange(0, configs@.len() as int) =~= entries_view(configs@));
    out
}

/// Add a new LLM configuration from user input and make it the active
/// one; an unknown provider is refused and nothing changes.
pub fn add_llm_config(
    configs: &mut Vec<LLMConfigEntry>,
    active: &mut usize,
    name: String,
    provider: &str,
    model: String,
    api_key: String,
    base_url: Option<String>,
    temperature_bits: u32,
    max_tokens: Option<u32>,
) -> (r: Result<LLMConfigEntry, String>)
    requires
        old(configs)@.len() < usize::MAX,
    ensures
        match provider_of_name(lowercase(provider@)) {
            None => r is Err && r->Err_0@ == "Unknown provider"@ && final(configs)@ == old(configs)@
                && *final(active) == *old(active),
            Some(p) => {
                let e = LLMConfigEntryView {
                    name: name@,
                    config: LLMConfigView {
                        provider_type: p,
                        model: model@,
                        api_key: api_key@,
                        base_url: opt_view(base_url),
                        max_tokens,
                        temperature_bits,
                        timeout_secs: CONFIG_TIMEOUT_SECS,
                    },
                };
                &&& r is Ok && r->Ok_0@ == e
                &&& entries_view(final(configs)@) == entries_view(old(configs)@).push(e)
                &&& *final(active) == old(configs)@.len()
            },
        },
{
    let config = match config_from_input(provider, model, api_key, base_url, temperature_bits, max_tokens) {
        Ok(c) => c,
        Err(e) => {
            return Err(e);
        },
    };
    let entry = LLMConfigEntry { name, config };
    let ghost old_view = entries_view(configs@);
    let stored = entry.duplicate();
    configs.push(stored);
    assert(entries_view(configs@) =~= old_view.push(entry@));
    *active = configs.len() - 1;
    Ok(entry)
}

/// Remove an LLM configuration by index. A position past the end and the
/// removal of the only entry are refused; otherwise the active position
/// follows the entry it named, or, where that entry is the one removed,
/// stays (moving back at the end of the list).
pub fn remove_llm_config(configs: &mut Vec<LLMConfigEntry>, active: &mut usize, index: usize) -> (r:
    Result<(), String>)
    ensures
        index >= old(configs)@.len() ==> r is Err && r->Err_0@ == index_error_text(
            index as nat,
            old(configs)@.len(),
        ) && final(configs)@ == old(configs)@ && *final(active) == *old(active),
        index < old(configs)@.len() && old(configs)@.len() <= 1 ==> r is Err && r->Err_0@
            == last_entry_text() && final(configs)@ == old(configs)@ && *final(active) == *old(active),
        index < old(configs)@.len() && old(configs)@.len() > 1 ==> r is Ok && entries_view(
            final(configs)@,
        ) == entries_view(old(configs)@).remove(index as int) && *final(active)
            == active_after_remove(old(configs)@.len() as int, *old(active) as int, index as int),
{
    if index >= configs.len() {
        return Err(index_error(index, configs.len()));
    }
    if configs.len() <= 1 {
        return Err(String::from_str("Cannot remove the last LLM configuration"));
    }
    let ghost old_view = entries_view(configs@);
    configs.remove(index);
    assert(entries_view(configs@) =~= old_view.remove(index as int));
    let len = configs.len();
    if *active >= len && len > 0 {
        *active = len - 1;
    } else if index < *active {
        *active = *active - 1;
    }
    Ok(())
}

/// Set the active LLM configuration by index; a position past the end is
/// refused.
pub fn set_active_llm(configs: &Vec<LLMConfigEntry>, active: &mut usize, index: usize) -> (r: Result<
    (),
    String,
>)
    ensures
        index >= configs@.len() ==> r is Err && r->Err_0@ == index_error_text(
            index as nat,
            configs@.len(),
        ) && *final(active) == *old(active),
        index < configs@.len() ==> r is Ok && *final(active) == index,
{
    if index >= configs.len() {
        return Err(index_error(index, configs.len()));
    }
    *active = index;
    Ok(())
}

/// Every operation keeps a well-formed registry well-formed: an update and
/// a choice leave the list's length, an addition makes the new last entry
/// active, and a removal of one of two or more entries leaves the active
/// position inside the shorter list.
pub proof fn lemma_operations_keep_wf(
    configs: Seq<LLMConfigEntryView>,
    active: int,
    index: int,
    config: LLMConfigView,
    entry: LLMConfigEntryView,
)
    requires
        registry_wf(configs, active),
    ensures
        registry_wf(after_update(configs, active, config), active),
        registry_wf(configs.push(entry), configs.len() as int),
        0 <= index < configs.len() && configs.len() > 1 ==> registry_wf(
            configs.remove(index),
            active_after_remove(configs.len() as int, active, index),
        ),
        0 <= index < configs.len() ==> registry_wf(configs, index),
{
}

/// Removing an entry other than the active one keeps the active entry.
pub proof fn lemma_remove_keeps_active_entry(configs: Seq<LLMConfigEntryView>, active: int, index: int)
    requires
        registry_wf(configs, active),
        0 <= index < configs.len(),
        configs.len() > 1,
        index != active,
    ensures
        active_entry(
            configs.remove(index),
            active_after_remove(configs.len() as int, active, index),
        ) == Some(configs[active]),
{
}

/// After an update, reading the active configuration gives what was
/// written, under the entry's old name.
pub proof fn lemma_update_then_get(configs: Seq<LLMConfigEntryView>, active: int, config: LLMConfigView)
    requires
        registry_wf(configs, active),
    ensures
        active_entry(after_update(configs, active, config), active) == Some(
            LLMConfigEntryView { name: configs[active].name, config },
        ),
{
}

/// After an addition, the active entry is the one added.
pub proof fn lemma_add_then_get(configs: Seq<LLMConfigEntryView>, entry: LLMConfigEntryView)
    ensures
        active_entry(configs.push(entry), configs.len() as int) == Some(entry),
{
}

/// After choosing an existing position, the active entry is the one there.
pub proof fn lemma_set_active_then_get(configs: Seq<LLMConfigEntryView>, index: int)
    requires
        0 <= index < configs.len(),
    ensures
        active_entry(configs, index) == Some(configs[index]),
{
}

/// The configurations at start-up: one entry, `Default`, holding the
/// default configuration; it is the active one.
pub fn default_llm_configs() -> (r: Vec<LLMConfigEntry>)
    ensures
        entries_view(r@) == seq![LLMConfigEntryView { name: "Default"@, config: default_config_view() }],
        registry_wf(entries_view(r@), 0),
{
    let mut v: Vec<LLMConfigEntry> = Vec::new();
    v.push(LLMConfigEntry { name: String::from_str("Default"), config: LLMConfig::default() });
    assert(entries_view(v@) =~= seq![LLMConfigEntryView { name: "Default"@, config: default_config_view() }]);
    v
}

} // verus!
