//! Verified core of the MindRush document translator: text utilities,
//! language handling, translation-job scheduling, document segmentation
//! and marker-based reassembly.

pub mod text;
pub mod language;
pub mod markers;
pub mod batch;
pub mod document;
pub mod epub_job;
pub mod markdown;
pub mod export;
pub mod epub_read;
pub mod pdf;
pub mod code_blocks;
pub mod translation_result;
pub mod llm;
pub mod registry;
pub mod history;
pub mod cache_item;
pub mod task;
pub mod memory_cache;
pub mod text_processor;
pub mod translate;
