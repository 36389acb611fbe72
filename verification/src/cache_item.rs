//! The cached translation of one text, keyed by the SHA-256 of the text.

use vstd::prelude::*;
use crate::document::opt_view;
use crate::translation_result::copy_opt_string;

verus! {

/// `uuid::Uuid`, carried through as an opaque value.
#[verifier::external_type_specification]
#[verifier::external_body]
pub struct ExUuid(uuid::Uuid);

/// A fresh random identifier (`Uuid::new_v4`). It rests on chance, so
/// nothing is stated of it.
#[verifier::external_body]
pub(crate) fn new_uuid() -> (r: uuid::Uuid) {
    uuid::Uuid::new_v4()
}

/// A moment in UTC: whole seconds since the Unix epoch and the
/// nanoseconds past that second, as `chrono::DateTime<Utc>` gives them.
#[derive(Clone, Copy, Debug, PartialEq, Eq, Structural)]
pub struct UtcTime {
    pub secs: i64,
    pub nanos: u32,
}

/// The current time (`Utc::now`), as its seconds and nanoseconds
/// (`timestamp`, `timestamp_subsec_nanos`). It rests on the clock, so
/// nothing is stated of it. `Utc::now` panics when the system clock reads
/// before 1970, a state of the machine that no `requires` can leave out.
#[verifier::external_body]
pub(crate) fn utc_now() -> (r: UtcTime) {
    let t = chrono::Utc::now();
    UtcTime { secs: t.timestamp(), nanos: t.timestamp_subsec_nanos() }
}

/// The SHA-256 digest of the UTF-8 bytes of a text.
pub uninterp spec fn sha256_of_text(text: Seq<char>) -> Seq<u8>;

/// Hashes the UTF-8 bytes of `text` with `sha2::Sha256` (`Digest::digest`).
/// The digest is named [`sha256_of_text`]; of it the contract states only
/// that it has 32 bytes, as every SHA-256 digest has.
#[verifier::external_body]
fn sha256_digest(text: &str) -> (r: Vec<u8>)
    ensures
        r@ == sha256_of_text(text@),
        r@.len() == 32,
{
    <sha2::Sha256 as sha2::Digest>::digest(text.as_bytes()).to_vec()
}

/// The lower-case hexadecimal digit of `n` (below 16).
pub open spec fn hex_digit(n: int) -> char {
    if n < 10 {
        (('0' as u32) + n) as char
    } else {
        (('a' as u32) + n - 10) as char
    }
}

/// The lower-case hexadecimal text of `bytes`: two digits per byte, the
/// high half first.
pub open spec fn hex_text(bytes: Seq<u8>) -> Seq<char>
    decreases bytes.len(),
{
    if bytes.len() == 0 {
        Seq::empty()
    } else {
        hex_text(bytes.drop_last()) + seq![
            hex_digit(bytes.last() as int / 16),
            hex_digit(bytes.last() as int % 16),
        ]
    }
}

/// Encodes `bytes` as lower-case hexadecimal (`hex::encode`): each byte as
/// two digits from `0123456789abcdef`, the high half first, as the crate's
/// documentation states.
#[verifier::external_body]
fn hex_encode(bytes: &[u8]) -> (r: String)
    ensures
        r@ == hex_text(bytes@),
{
    hex::encode(bytes)
}

/// Translation status
#[derive(Clone, Copy, Debug, PartialEq, Eq, Structural)]
pub enum TranslationStatus {
    Untranslated,
    Translated,
    Polished,
    Excluded,
}

impl Default for TranslationStatus {
    fn default() -> (r: Self)
        ensures
            r == TranslationStatus::Untranslated,
    {
        TranslationStatus::Untranslated
    }
}

/// Cache item - stores translation result for a single text. The
/// detection confidence in `lang_code` is the bit pattern of its `f32`
/// value; `extra` holds its key/value pairs, each key once.
#[derive(Debug)]
pub struct CacheItem {
    pub id: uuid::Uuid,
    pub text_index: usize,
    pub translation_status: TranslationStatus,
    pub model: String,
    pub source_text: String,
    pub translated_text: String,
    pub text_to_detect: Option<String>,
    pub lang_code: Option<(String, u32, Vec<String>)>,
    pub extra: Vec<(String, String)>,
    pub source_hash: String,
    pub tokens_used: u32,
    pub created_at: UtcTime,
    pub updated_at: UtcTime,
}

/// The contents of a [`CacheItem`].
pub struct CacheItemView {
    pub id: uuid::Uuid,
    pub text_index: usize,
    pub translation_status: TranslationStatus,
    pub model: Seq<char>,
    pub source_text: Seq<char>,
    pub translated_text: Seq<char>,
    pub text_to_detect: Option<Seq<char>>,
    pub lang_code: Option<(Seq<char>, u32, Seq<Seq<char>>)>,
    pub extra: Seq<(Seq<char>, Seq<char>)>,
    pub source_hash: Seq<char>,
    pub tokens_used: u32,
    pub created_at: UtcTime,
    pub updated_at: UtcTime,
}

/// The view of an optional detected language.
pub open spec fn lang_code_view(o: Option<(String, u32, Vec<String>)>) -> Option<
    (Seq<char>, u32, Seq<Seq<char>>),
> {
    match o {
        Some(t) => Some((t.0@, t.1, t.2@.map_values(|s: String| s@))),
        None => None,
    }
}

impl View for CacheItem {
    type V = CacheItemView;

    open spec fn view(&self) -> CacheItemView {
        CacheItemView {
            id: self.id,
            text_index: self.text_index,
            translation_status: self.translation_status,
            model: self.model@,
            source_text: self.source_text@,
            translated_text: self.translated_text@,
            text_to_detect: opt_view(self.text_to_detect),
            lang_code: lang_code_view(self.lang_code),
            extra: self.extra@.map_values(|p: (String, String)| (p.0@, p.1@)),
            source_hash: self.source_hash@,
            tokens_used: self.tokens_used,
            created_at: self.created_at,
            updated_at: self.updated_at,
        }
    }
}

/// The cache key of a text: the lower-case hexadecimal SHA-256 of its
/// UTF-8 bytes.
pub open spec fn text_hash(text: Seq<char>) -> Seq<char> {
    hex_text(sha256_of_text(text))
}

fn copy_strings(v: &Vec<String>) -> (r: Vec<String>)
    ensures
        r@.map_values(|s: String| s@) == v@.map_values(|s: String| s@),
{
    let mut out: Vec<String> = Vec::new();
    let mut i: usize = 0;
    while i < v.len()
        invariant
            i <= v@.len(),
            out@.map_values(|s: String| s@) == v@.map_values(|s: String| s@).subrange(0, i as int),
        decreases v@.len() - i,
    {
        let ghost before = out@;
        let s = v[i].clone();
        out.push(s);
        assert(out@.map_values(|s: String| s@) =~= before.map_values(|s: String| s@).push(s@));
        assert(v@.map_values(|s: String| s@).subrange(0, i + 1) =~= v@.map_values(|s: String| s@).subrange(
            0,
            i as int,
        ).push(v@[i as int]@));
        i = i + 1;
    }
    assert(v@.map_values(|s: String| s@).subrange(0, v@.len() as int) =~= v@.map_values(
        |s: String| s@,
    ));
    out
}

fn copy_pairs(v: &Vec<(String, String)>) -> (r: Vec<(String, String)>)
    ensures
        r@.map_values(|p: (String, String)| (p.0@, p.1@)) == v@.map_values(
            |p: (String, String)| (p.0@, p.1@),
        ),
{
    let mut out: Vec<(String, String)> = Vec::new();
    let mut i: usize = 0;
    while i < v.len()
        invariant
            i <= v@.len(),
            out@.map_values(|p: (String, String)| (p.0@, p.1@)) == v@.map_values(
                |p: (String, String)| (p.0@, p.1@),
            ).subrange(0, i as int),
        decreases v@.len() - i,
    {
        let ghost before = out@;
        let p = (v[i].0.clone(), v[i].1.clone());
        out.push(p);
        assert(out@.map_values(|p: (String, String)| (p.0@, p.1@)) =~= before.map_values(
            |p: (String, String)| (p.0@, p.1@),
        ).push((p.0@, p.1@)));
        assert(v@.map_values(|p: (String, String)| (p.0@, p.1@)).subrange(0, i + 1) =~= v@.map_values(
            |p: (String, String)| (p.0@, p.1@),
        ).subrange(0, i as int).push((v@[i as int].0@, v@[i as int].1@)));
        i = i + 1;
    }
    assert(v@.map_values(|p: (String, String)| (p.0@, p.1@)).subrange(0, v@.len() as int)
        =~= v@.map_values(|p: (String, String)| (p.0@, p.1@)));
    out
}

impl CacheItem {
    /// A new untranslated item for `source_text`, with a fresh identifier,
    /// the hash of the text, and both times set to now.
    pub fn new(source_text: String, text_index: usize) -> (r: Self)
        ensures
            r.text_index == text_index,
            r.translation_status == TranslationStatus::Untranslated,
            r.model@ == Seq::<char>::empty(),
            r.source_text@ == source_text@,
            r.translated_text@ == Seq::<char>::empty(),
            r.text_to_detect is None,
            r.lang_code is None,
            r.extra@.len() == 0,
            r.source_hash@ == text_hash(source_text@),
            r.tokens_used == 0,
            r.created_at == r.updated_at,
    {
        let now = utc_now();
        let hash = CacheItem::compute_hash(source_text.as_str());
        CacheItem {
            id: new_uuid(),
            text_index,
            translation_status: TranslationStatus::Untranslated,
            model: String::new(),
            source_text,
            translated_text: String::new(),
            text_to_detect: None,
            lang_code: None,
            extra: Vec::new(),
            source_hash: hash,
            tokens_used: 0,
            created_at: now,
            updated_at: now,
        }
    }

    /// Compute SHA256 hash of source text for cache key
    pub fn compute_hash(text: &str) -> (r: String)
        ensures
            r@ == text_hash(text@),
            r@.len() == 64,
    {
        let digest = sha256_digest(text);
        let r = hex_encode(digest.as_slice());
        proof {
            lemma_hex_text_len(digest@);
        }
        r
    }

    /// Get final text: the translation, where there is one, else the
    /// source.
    pub fn final_text(&self) -> (r: &str)
        ensures
            self.translated_text@.len() > 0 ==> r@ == self.translated_text@,
            self.translated_text@.len() == 0 ==> r@ == self.source_text@,
    {
        if !self.translated_text.as_str().is_empty() {
            self.translated_text.as_str()
        } else {
            self.source_text.as_str()
        }
    }

    /// Whether the item holds a translation (translated or polished).
    pub fn is_translated(&self) -> (r: bool)
        ensures
            r == (self.translation_status == TranslationStatus::Translated
                || self.translation_status == TranslationStatus::Polished),
    {
        match self.translation_status {
            TranslationStatus::Translated | TranslationStatus::Polished => true,
            _ => false,
        }
    }

    /// Whether the item is excluded from translation.
    pub fn is_excluded(&self) -> (r: bool)
        ensures
            r == (self.translation_status == TranslationStatus::Excluded),
    {
        match self.translation_status {
            TranslationStatus::Excluded => true,
            _ => false,
        }
    }

    /// A copy of this item.
    pub fn duplicate(&self) -> (r: CacheItem)
        ensures
            r@ == self@,
    {
        let lang_code = match &self.lang_code {
            Some(t) => Some((t.0.clone(), t.1, copy_strings(&t.2))),
            None => None,
        };
        CacheItem {
            id: self.id,
            text_index: self.text_index,
            translation_status: self.translation_status,
            model: self.model.clone(),
            source_text: self.source_text.clone(),
            translated_text: self.translated_text.clone(),
            text_to_detect: copy_opt_string(&self.text_to_detect),
            lang_code,
            extra: copy_pairs(&self.extra),
            source_hash: self.source_hash.clone(),
            tokens_used: self.tokens_used,
            created_at: self.created_at,
            updated_at: self.updated_at,
        }
    }
}

proof fn lemma_hex_text_len(bytes: Seq<u8>)
    ensures
        hex_text(bytes).len() == 2 * bytes.len(),
    decreases bytes.len(),
{
    if bytes.len() > 0 {
        lemma_hex_text_len(bytes.drop_last());
    }
}

} // verus!
