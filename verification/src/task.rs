//! A translation task: one source text, its language pair, its status and
//! its translation once there is one.

use vstd::prelude::*;
use crate::document::opt_view;
use crate::language::Language;
use crate::cache_item::{UtcTime, new_uuid, utc_now};

verus! {

/// Language pair
#[derive(Debug, Clone, Copy, PartialEq, Eq, Structural)]
pub struct LanguagePair {
    pub source: Language,
    pub target: Language,
}

/// Task status
#[derive(Debug)]
pub enum TaskStatus {
    Pending,
    InProgress,
    Translated,
    Polished,
    Proofread,
    Failed(String),
}

/// Task metadata
#[derive(Debug)]
pub struct TaskMetadata {
    pub file_path: Option<String>,
    pub line_number: Option<usize>,
    pub context_before: Vec<String>,
    pub context_after: Vec<String>,
    pub character_name: Option<String>,
}

impl Default for TaskMetadata {
    fn default() -> (r: Self)
        ensures
            r.file_path is None,
            r.line_number is None,
            r.context_before@.len() == 0,
            r.context_after@.len() == 0,
            r.character_name is None,
    {
        TaskMetadata {
            file_path: None,
            line_number: None,
            context_before: Vec::new(),
            context_after: Vec::new(),
            character_name: None,
        }
    }
}

/// Translation task entity
#[derive(Debug)]
pub struct Task {
    pub id: uuid::Uuid,
    pub source_text: String,
    pub translated_text: Option<String>,
    pub status: TaskStatus,
    pub language_pair: LanguagePair,
    pub metadata: TaskMetadata,
    pub created_at: UtcTime,
    pub updated_at: UtcTime,
}

impl Task {
    /// A pending task for `source_text`, with a fresh identifier, empty
    /// metadata and both times set to now.
    pub fn new(source_text: String, language_pair: LanguagePair) -> (r: Self)
        ensures
            r.source_text@ == source_text@,
            r.translated_text is None,
            r.status is Pending,
            r.language_pair == language_pair,
            r.metadata.file_path is None,
            r.metadata.line_number is None,
            r.metadata.context_before@.len() == 0,
            r.metadata.context_after@.len() == 0,
            r.metadata.character_name is None,
            r.created_at == r.updated_at,
    {
        let now = utc_now();
        Task {
            id: new_uuid(),
            source_text,
            translated_text: None,
            status: TaskStatus::Pending,
            language_pair,
            metadata: TaskMetadata::default(),
            created_at: now,
            updated_at: now,
        }
    }

    /// The task, its metadata replaced by `metadata`.
    pub fn with_metadata(self, metadata: TaskMetadata) -> (r: Self)
        ensures
            r.id == self.id,
            r.source_text == self.source_text,
            r.translated_text == self.translated_text,
            r.status == self.status,
            r.language_pair == self.language_pair,
            r.metadata == metadata,
            r.created_at == self.created_at,
            r.updated_at == self.updated_at,
    {
        let mut t = self;
        t.metadata = metadata;
        t
    }

    /// Records the translation `text`; the task is then translated and its
    /// update time is now.
    pub fn mark_translated(&mut self, text: String)
        ensures
            opt_view(final(self).translated_text) == Some(text@),
            final(self).status is Translated,
            final(self).id == old(self).id,
            final(self).source_text == old(self).source_text,
            final(self).language_pair == old(self).language_pair,
            final(self).metadata == old(self).metadata,
            final(self).created_at == old(self).created_at,
    {
        self.translated_text = Some(text);
        self.status = TaskStatus::Translated;
        self.updated_at = utc_now();
    }

    /// Records the failure `error`; the update time is then now.
    pub fn mark_failed(&mut self, error: String)
        ensures
            final(self).status matches TaskStatus::Failed(e) && e@ == error@,
            final(self).id == old(self).id,
            final(self).source_text == old(self).source_text,
            final(self).translated_text == old(self).translated_text,
            final(self).language_pair == old(self).language_pair,
            final(self).metadata == old(self).metadata,
            final(self).created_at == old(self).created_at,
    {
        self.status = TaskStatus::Failed(error);
        self.updated_at = utc_now();
    }
}

} // verus!
