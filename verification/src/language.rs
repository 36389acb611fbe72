//! Supported languages: IETF tags, parsing of language codes and a
//! script-based guess of the language of a text.

use vstd::prelude::*;
use crate::text::{chars_of, chars_equal_str};

verus! {

/// Supported languages.
#[derive(Debug, Clone, Copy, PartialEq, Eq, Structural)]
pub enum Language {
    ChineseSimplified,
    ChineseTraditional,
    Japanese,
    Korean,
    English,
    German,
    French,
    Spanish,
    Russian,
    Portuguese,
    Italian,
    Dutch,
    Polish,
    Czech,
    Hungarian,
    Unknown,
}

/// What `str::to_lowercase` returns for a text: its Unicode lowercase
/// mapping (full case mapping, independent of locale).
pub uninterp spec fn lowercase(s: Seq<char>) -> Seq<char>;

/// Every character is ASCII.
pub open spec fn is_ascii_text(s: Seq<char>) -> bool {
    forall|i: int| 0 <= i < s.len() ==> (#[trigger] s[i]) as u32 <= 0x7F
}

/// `A`..`Z` mapped to `a`..`z`; every other character kept.
pub open spec fn ascii_lower_char(c: char) -> char {
    if 'A' <= c <= 'Z' {
        ((c as u32) + 32) as char
    } else {
        c
    }
}

/// `a`..`z` mapped to `A`..`Z`; every other character kept.
pub open spec fn ascii_upper_char(c: char) -> char {
    if 'a' <= c <= 'z' {
        ((c as u32) - 32) as char
    } else {
        c
    }
}

/// The text with its ASCII capitals made small.
pub open spec fn ascii_lowercase(s: Seq<char>) -> Seq<char> {
    Seq::new(s.len(), |i: int| ascii_lower_char(s[i]))
}

/// The text with its ASCII small letters made capital.
pub open spec fn ascii_uppercase(s: Seq<char>) -> Seq<char> {
    Seq::new(s.len(), |i: int| ascii_upper_char(s[i]))
}

/// Calls `str::to_lowercase`. Its result is named [`lowercase`]. Of the
/// Unicode lowercase mapping the contract states only what it does on ASCII
/// text, as std documents it: `A`..`Z` become `a`..`z` and every other
/// ASCII character stays.
#[verifier::external_body]
pub(crate) fn to_lowercase(s: &str) -> (r: String)
    ensures
        r@ == lowercase(s@),
        is_ascii_text(s@) ==> r@ == ascii_lowercase(s@),
{
    s.to_lowercase()
}

/// The IETF tag of each language.
pub open spec fn ietf_tag(l: Language) -> Seq<char> {
    match l {
        Language::ChineseSimplified => "zh-Hans"@,
        Language::ChineseTraditional => "zh-Hant"@,
        Language::Japanese => "ja"@,
        Language::Korean => "ko"@,
        Language::English => "en"@,
        Language::German => "de"@,
        Language::French => "fr"@,
        Language::Spanish => "es"@,
        Language::Russian => "ru"@,
        Language::Portuguese => "pt"@,
        Language::Italian => "it"@,
        Language::Dutch => "nl"@,
        Language::Polish => "pl"@,
        Language::Czech => "cs"@,
        Language::Hungarian => "hu"@,
        Language::Unknown => "und"@,
    }
}

/// The language that a lower-case code names, if any.
pub open spec fn language_of_code(s: Seq<char>) -> Option<Language> {
    if s == "zh"@ || s == "zh-hans"@ || s == "chs"@ || s == "zh-cn"@ {
        Some(Language::ChineseSimplified)
    } else if s == "zh-tw"@ || s == "zh-hant"@ || s == "cht"@ {
        Some(Language::ChineseTraditional)
    } else if s == "ja"@ || s == "jpn"@ {
        Some(Language::Japanese)
    } else if s == "ko"@ || s == "kor"@ {
        Some(Language::Korean)
    } else if s == "en"@ || s == "eng"@ {
        Some(Language::English)
    } else if s == "de"@ || s == "deu"@ {
        Some(Language::German)
    } else if s == "fr"@ || s == "fra"@ {
        Some(Language::French)
    } else if s == "es"@ || s == "spa"@ {
        Some(Language::Spanish)
    } else if s == "ru"@ || s == "rus"@ {
        Some(Language::Russian)
    } else if s == "pt"@ || s == "por"@ {
        Some(Language::Portuguese)
    } else if s == "it"@ || s == "ita"@ {
        Some(Language::Italian)
    } else if s == "nl"@ || s == "dut"@ {
        Some(Language::Dutch)
    } else if s == "pl"@ || s == "pol"@ {
        Some(Language::Polish)
    } else if s == "cs"@ || s == "cze"@ {
        Some(Language::Czech)
    } else if s == "hu"@ || s == "hun"@ {
        Some(Language::Hungarian)
    } else {
        None
    }
}

/// Hiragana or Katakana.
pub open spec fn is_kana(c: char) -> bool {
    (0x3040 <= c as u32 <= 0x309F) || (0x30A0 <= c as u32 <= 0x30FF)
}

/// Hangul syllables.
pub open spec fn is_hangul(c: char) -> bool {
    0xAC00 <= c as u32 <= 0xD7AF
}

/// CJK unified ideographs and extension A.
pub open spec fn is_han(c: char) -> bool {
    (0x4E00 <= c as u32 <= 0x9FFF) || (0x3400 <= c as u32 <= 0x4DBF)
}

/// The Latin ranges that the detector looks for.
pub open spec fn is_latin(c: char) -> bool {
    (0x0041 <= c as u32 <= 0x007A) || (0x00C0 <= c as u32 <= 0x024F)
}

/// Whether some character of `s` satisfies `p`.
pub open spec fn any_char(s: Seq<char>, p: spec_fn(char) -> bool) -> bool {
    exists|i: int| 0 <= i < s.len() && p(#[trigger] s[i])
}

/// The language that the script heuristic picks for `s`: Japanese kana wins,
/// then Hangul, then Han ideographs (Simplified Chinese), then Latin letters
/// (English); otherwise unknown.
pub open spec fn detected_language(s: Seq<char>) -> Language {
    if any_char(s, |c: char| is_kana(c)) {
        Language::Japanese
    } else if any_char(s, |c: char| is_hangul(c)) {
        Language::Korean
    } else if any_char(s, |c: char| is_han(c)) {
        Language::ChineseSimplified
    } else if any_char(s, |c: char| is_latin(c)) {
        Language::English
    } else {
        Language::Unknown
    }
}

/// Which of the four script classes `s` contains.
fn scan_scripts(s: &[char]) -> (r: (bool, bool, bool, bool))
    ensures
        r.0 == any_char(s@, |c: char| is_kana(c)),
        r.1 == any_char(s@, |c: char| is_hangul(c)),
        r.2 == any_char(s@, |c: char| is_han(c)),
        r.3 == any_char(s@, |c: char| is_latin(c)),
{
    let mut kana = false;
    let mut hangul = false;
    let mut han = false;
    let mut latin = false;
    let mut i: usize = 0;
    while i < s.len()
        invariant
            i <= s@.len(),
            kana == exists|j: int| 0 <= j < i && is_kana(#[trigger] s@[j]),
            hangul == exists|j: int| 0 <= j < i && is_hangul(#[trigger] s@[j]),
            han == exists|j: int| 0 <= j < i && is_han(#[trigger] s@[j]),
            latin == exists|j: int| 0 <= j < i && is_latin(#[trigger] s@[j]),
        decreases s@.len() - i,
    {
        let code = s[i] as u32;
        if (0x3040 <= code && code <= 0x309F) || (0x30A0 <= code && code <= 0x30FF) {
            kana = true;
        }
        if 0xAC00 <= code && code <= 0xD7AF {
            hangul = true;
        }
        if (0x4E00 <= code && code <= 0x9FFF) || (0x3400 <= code && code <= 0x4DBF) {
            han = true;
        }
        if (0x0041 <= code && code <= 0x007A) || (0x00C0 <= code && code <= 0x024F) {
            latin = true;
        }
        i = i + 1;
    }
    (kana, hangul, han, latin)
}

impl Language {
    /// Get IETF language tag.
    pub fn to_ietf_tag(&self) -> (r: &'static str)
        ensures
            r@ == ietf_tag(*self),
    {
        match self {
            Language::ChineseSimplified => "zh-Hans",
            Language::ChineseTraditional => "zh-Hant",
            Language::Japanese => "ja",
            Language::Korean => "ko",
            Language::English => "en",
            Language::German => "de",
            Language::French => "fr",
            Language::Spanish => "es",
            Language::Russian => "ru",
            Language::Portuguese => "pt",
            Language::Italian => "it",
            Language::Dutch => "nl",
            Language::Polish => "pl",
            Language::Czech => "cs",
            Language::Hungarian => "hu",
            Language::Unknown => "und",
        }
    }

    /// The language named by an already lower-cased code.
    pub fn from_lowercase_code(code: &str) -> (r: Option<Language>)
        ensures
            r == language_of_code(code@),
    {
        let c = chars_of(code);
        let s = c.as_slice();
        if chars_equal_str(s, "zh") || chars_equal_str(s, "zh-hans") || chars_equal_str(s, "chs")
            || chars_equal_str(s, "zh-cn") {
            Some(Language::ChineseSimplified)
        } else if chars_equal_str(s, "zh-tw") || chars_equal_str(s, "zh-hant") || chars_equal_str(
            s,
            "cht",
        ) {
            Some(Language::ChineseTraditional)
        } else if chars_equal_str(s, "ja") || chars_equal_str(s, "jpn") {
            Some(Language::Japanese)
        } else if chars_equal_str(s, "ko") || chars_equal_str(s, "kor") {
            Some(Language::Korean)
        } else if chars_equal_str(s, "en") || chars_equal_str(s, "eng") {
            Some(Language::English)
        } else if chars_equal_str(s, "de") || chars_equal_str(s, "deu") {
            Some(Language::German)
        } else if chars_equal_str(s, "fr") || chars_equal_str(s, "fra") {
            Some(Language::French)
        } else if chars_equal_str(s, "es") || chars_equal_str(s, "spa") {
            Some(Language::Spanish)
        } else if chars_equal_str(s, "ru") || chars_equal_str(s, "rus") {
            Some(Language::Russian)
        } else if chars_equal_str(s, "pt") || chars_equal_str(s, "por") {
            Some(Language::Portuguese)
        } else if chars_equal_str(s, "it") || chars_equal_str(s, "ita") {
            Some(Language::Italian)
        } else if chars_equal_str(s, "nl") || chars_equal_str(s, "dut") {
            Some(Language::Dutch)
        } else if chars_equal_str(s, "pl") || chars_equal_str(s, "pol") {
            Some(Language::Polish)
        } else if chars_equal_str(s, "cs") || chars_equal_str(s, "cze") {
            Some(Language::Czech)
        } else if chars_equal_str(s, "hu") || chars_equal_str(s, "hun") {
            Some(Language::Hungarian)
        } else {
            None
        }
    }

    /// Parse from IETF language tag (case-insensitively).
    pub fn from_code(code: &str) -> (r: Option<Language>)
        ensures
            r == language_of_code(lowercase(code@)),
            is_ascii_text(code@) ==> r == language_of_code(ascii_lowercase(code@)),
    {
        let lower = to_lowercase(code);
        Language::from_lowercase_code(lower.as_str())
    }

    /// Detect the language of a text by the scripts it uses (the language
    /// part of the confidence-scored detection).
    pub fn detect_language(text: &str) -> (r: Language)
        ensures
            r == detected_language(text@),
    {
        let c = chars_of(text);
        let (kana, hangul, han, latin) = scan_scripts(c.as_slice());
        if kana {
            Language::Japanese
        } else if hangul {
            Language::Korean
        } else if han {
            Language::ChineseSimplified
        } else if latin {
            Language::English
        } else {
            Language::Unknown
        }
    }
}

/// Every supported language's IETF tag is ASCII and is read back, in any
/// case, as that language.
pub proof fn lemma_tag_code_round_trip(l: Language)
    requires
        l != Language::Unknown,
    ensures
        is_ascii_text(ietf_tag(l)),
        language_of_code(ascii_lowercase(ietf_tag(l))) == Some(l),
{
    reveal_strlit("zh-Hans");
    reveal_strlit("zh-Hant");
    reveal_strlit("zh-hans");
    reveal_strlit("zh-hant");
    reveal_strlit("zh");
    reveal_strlit("chs");
    reveal_strlit("zh-cn");
    reveal_strlit("zh-tw");
    reveal_strlit("cht");
    reveal_strlit("ja");
    reveal_strlit("jpn");
    reveal_strlit("ko");
    reveal_strlit("kor");
    reveal_strlit("en");
    reveal_strlit("eng");
    reveal_strlit("de");
    reveal_strlit("deu");
    reveal_strlit("fr");
    reveal_strlit("fra");
    reveal_strlit("es");
    reveal_strlit("spa");
    reveal_strlit("ru");
    reveal_strlit("rus");
    reveal_strlit("pt");
    reveal_strlit("por");
    reveal_strlit("it");
    reveal_strlit("ita");
    reveal_strlit("nl");
    reveal_strlit("dut");
    reveal_strlit("pl");
    reveal_strlit("pol");
    reveal_strlit("cs");
    reveal_strlit("cze");
    reveal_strlit("hu");
    reveal_strlit("hun");
    assert("zh-hans"@[6] == 's' && "zh-hant"@[6] == 't');
    assert("zh"@[0] == 'z' && "ja"@[0] == 'j' && "ko"@[0] == 'k' && "en"@[0] == 'e');
    assert("de"@[0] == 'd' && "fr"@[0] == 'f' && "es"@[1] == 's' && "ru"@[0] == 'r');
    assert("pt"@[0] == 'p' && "it"@[0] == 'i' && "nl"@[0] == 'n' && "pl"@[1] == 'l');
    assert("cs"@[0] == 'c' && "hu"@[0] == 'h');
    let t = ietf_tag(l);
    if l == Language::ChineseSimplified {
        assert(ascii_lowercase(t) =~= "zh-hans"@);
    } else if l == Language::ChineseTraditional {
        assert(ascii_lowercase(t) =~= "zh-hant"@);
    } else {
        assert(ascii_lowercase(t) =~= t);
    }
}

/// Upper-casing an ASCII code changes nothing that the code names: both
/// forms lower-case to the same text, so they name the same language, and
/// no code names the unknown language.
pub proof fn lemma_code_case_insensitive(s: Seq<char>)
    requires
        is_ascii_text(s),
    ensures
        is_ascii_text(ascii_uppercase(s)),
        ascii_lowercase(ascii_uppercase(s)) == ascii_lowercase(s),
        language_of_code(ascii_lowercase(ascii_uppercase(s))) == language_of_code(ascii_lowercase(s)),
        language_of_code(ascii_lowercase(s)) != Some(Language::Unknown),
{
    assert(ascii_lowercase(ascii_uppercase(s)) =~= ascii_lowercase(s));
}

/// Han ideographs outweigh Latin letters: a text with a Han ideograph and
/// no kana or Hangul is Simplified Chinese, whatever else it holds; kana
/// make it Japanese and Hangul (without kana) Korean, whatever else it
/// holds; a text with none of these scripts is English exactly when it
/// holds a Latin letter.
pub proof fn lemma_script_precedence(s: Seq<char>)
    ensures
        (exists|i: int| 0 <= i < s.len() && is_kana(#[trigger] s[i])) ==> detected_language(s)
            == Language::Japanese,
        (forall|i: int| 0 <= i < s.len() ==> !is_kana(#[trigger] s[i])) && (exists|i: int|
            0 <= i < s.len() && is_hangul(#[trigger] s[i])) ==> detected_language(s) == Language::Korean,
        (forall|i: int| 0 <= i < s.len() ==> !is_kana(#[trigger] s[i]) && !is_hangul(s[i])) && (exists|i: int|
            0 <= i < s.len() && is_han(#[trigger] s[i])) ==> detected_language(s)
            == Language::ChineseSimplified,
        (forall|i: int| 0 <= i < s.len() ==> !is_kana(#[trigger] s[i]) && !is_hangul(s[i]) && !is_han(s[i]))
            ==> (detected_language(s) == Language::English <==> exists|i: int|
            0 <= i < s.len() && is_latin(#[trigger] s[i])),
{
    if exists|i: int| 0 <= i < s.len() && is_kana(#[trigger] s[i]) {
        let i = choose|i: int| 0 <= i < s.len() && is_kana(#[trigger] s[i]);
        assert(any_char(s, |c: char| is_kana(c)));
    }
    if exists|i: int| 0 <= i < s.len() && is_hangul(#[trigger] s[i]) {
        let i = choose|i: int| 0 <= i < s.len() && is_hangul(#[trigger] s[i]);
        assert(any_char(s, |c: char| is_hangul(c)));
    }
    if exists|i: int| 0 <= i < s.len() && is_han(#[trigger] s[i]) {
        let i = choose|i: int| 0 <= i < s.len() && is_han(#[trigger] s[i]);
        assert(any_char(s, |c: char| is_han(c)));
    }
    if exists|i: int| 0 <= i < s.len() && is_latin(#[trigger] s[i]) {
        let i = choose|i: int| 0 <= i < s.len() && is_latin(#[trigger] s[i]);
        assert(any_char(s, |c: char| is_latin(c)));
    }
}

/// The Chinese codes, in any case: `zh-tw`, `zh-hant` and `cht`, and no
/// other code, name Traditional Chinese; `zh`, `zh-hans`, `chs` and
/// `zh-cn`, and no other code, name Simplified Chinese.
pub proof fn lemma_chinese_codes(s: Seq<char>)
    requires
        is_ascii_text(s),
    ensures
        language_of_code(ascii_lowercase(s)) == Some(Language::ChineseTraditional) <==> (ascii_lowercase(s)
            == "zh-tw"@ || ascii_lowercase(s) == "zh-hant"@ || ascii_lowercase(s) == "cht"@),
        language_of_code(ascii_lowercase(s)) == Some(Language::ChineseSimplified) <==> (ascii_lowercase(s)
            == "zh"@ || ascii_lowercase(s) == "zh-hans"@ || ascii_lowercase(s) == "chs"@ || ascii_lowercase(s)
            == "zh-cn"@),
{
    reveal_strlit("zh");
    reveal_strlit("zh-hans");
    reveal_strlit("chs");
    reveal_strlit("zh-cn");
    reveal_strlit("zh-tw");
    reveal_strlit("zh-hant");
    reveal_strlit("cht");
    assert("zh-cn"@[3] == 'c' && "zh-tw"@[3] == 't');
    assert("zh-hans"@[6] == 's' && "zh-hant"@[6] == 't');
    assert("chs"@[2] == 's' && "cht"@[2] == 't');
    let c = ascii_lowercase(s);
    assert("zh"@.len() == 2 && "zh-tw"@.len() == 5 && "zh-hant"@.len() == 7);
    assert("zh-tw"@ != "zh-cn"@) by {
        if "zh-tw"@ == "zh-cn"@ {
            assert("zh-tw"@[3] == "zh-cn"@[3]);
        }
    }
    assert("zh-hant"@ != "zh-hans"@) by {
        if "zh-hant"@ == "zh-hans"@ {
            assert("zh-hant"@[6] == "zh-hans"@[6]);
        }
    }
    if c == "zh-tw"@ {
        assert(c != "zh-cn"@);
        assert(c != "zh"@);
        assert(c != "zh-hans"@);
        assert(c != "chs"@);
    } else if c == "zh-hant"@ {
        assert(c != "zh-hans"@);
        assert(c != "zh"@);
        assert(c != "zh-cn"@);
        assert(c != "chs"@);
    } else if c == "cht"@ {
        assert(c != "chs"@ && c != "zh"@ && c != "zh-cn"@ && c != "zh-hans"@);
    }
}

/// Parses the source and target language codes of a request.
pub fn parse_language_pair(source: &str, target: &str) -> (r: Result<(Language, Language), String>)
    ensures
        match r {
            Ok((s, t)) => Some(s) == language_of_code(lowercase(source@)) && Some(t) == language_of_code(
                lowercase(target@),
            ),
            Err(e) => if language_of_code(lowercase(source@)) is None {
                e@ == "Invalid source language"@
            } else {
                language_of_code(lowercase(target@)) is None && e@ == "Invalid target language"@
            },
        },
        is_ascii_text(source@) && is_ascii_text(target@) ==> match r {
            Ok((s, t)) => Some(s) == language_of_code(ascii_lowercase(source@)) && Some(t) == language_of_code(
                ascii_lowercase(target@),
            ),
            Err(_) => language_of_code(ascii_lowercase(source@)) is None || language_of_code(
                ascii_lowercase(target@),
            ) is None,
        },
{
    let s = match Language::from_code(source) {
        Some(s) => s,
        None => return Err(String::from_str("Invalid source language")),
    };
    let t = match Language::from_code(target) {
        Some(t) => t,
        None => return Err(String::from_str("Invalid target language")),
    };
    Ok((s, t))
}

} // verus!
