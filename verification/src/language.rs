//! Choosing the target language: text in the user's language goes to the
//! second language, any other text to the user's language.

use vstd::prelude::*;
use crate::text::{chars_of, lower_seq, lowercase, seq_eq, string_of, trim, trim_seq, copy_range};

verus! {

/// Name for the ISO 639-3 code of the language that `whatlang::detect_lang`
/// finds in `text`, or none when it finds no language.
pub uninterp spec fn detected_language(text: Seq<char>) -> Option<Seq<char>>;

/// `whatlang::detect_lang(text)`, the language found given by its ISO 639-3
/// code (`Lang::code`, one code per language).
#[verifier::external_body]
fn detect_language_code(text: &str) -> (r: Option<&'static str>)
    ensures
        match r {
            Some(c) => detected_language(text@) == Some(c@),
            None => detected_language(text@) is None,
        },
{
    match whatlang::detect_lang(text) {
        Some(lang) => Some(lang.code()),
        None => None,
    }
}

/// Name for the ISO 639-3 code of `isolang::Language::from_639_1(code)`, or
/// none when that finds no language.
pub uninterp spec fn iso_639_1_language(code: Seq<char>) -> Option<Seq<char>>;

/// `isolang::Language::from_639_1(code)`, the language given by its ISO 639-3
/// code (`Language::to_639_3`, one code per language).
#[verifier::external_body]
fn language_from_639_1(code: &str) -> (r: Option<&'static str>)
    ensures
        match r {
            Some(c) => iso_639_1_language(code@) == Some(c@),
            None => iso_639_1_language(code@) is None,
        },
{
    match isolang::Language::from_639_1(code) {
        Some(language) => Some(language.to_639_3()),
        None => None,
    }
}

/// Name for whether `isolang::Language::from_639_3(code)` finds a language.
pub uninterp spec fn iso_639_3_known(code: Seq<char>) -> bool;

/// `isolang::Language::from_639_3(code)`, the language given by its ISO 639-3
/// code. The table it searches maps each code to the language with that code,
/// so a language found has `code` itself as its code.
#[verifier::external_body]
fn language_from_639_3(code: &str) -> (r: Option<&'static str>)
    ensures
        r is Some == iso_639_3_known(code@),
        r matches Some(c) ==> c@ == code@,
{
    match isolang::Language::from_639_3(code) {
        Some(language) => Some(language.to_639_3()),
        None => None,
    }
}

/// Name for the ISO 639-3 code of `isolang::Language::from_name(name)` (an
/// English language name, matched exactly), or none.
pub uninterp spec fn iso_name_language(name: Seq<char>) -> Option<Seq<char>>;

/// `isolang::Language::from_name(name)`, the language given by its ISO 639-3
/// code.
#[verifier::external_body]
fn language_from_name(name: &str) -> (r: Option<&'static str>)
    ensures
        match r {
            Some(c) => iso_name_language(name@) == Some(c@),
            None => iso_name_language(name@) is None,
        },
{
    match isolang::Language::from_name(name) {
        Some(language) => Some(language.to_639_3()),
        None => None,
    }
}

/// Index of the first `-` or `_` in `s`, or its length.
pub open spec fn separator_index(s: Seq<char>) -> nat
    decreases s.len(),
{
    if s.len() == 0 || s[0] == '-' || s[0] == '_' {
        0
    } else {
        1 + separator_index(s.drop_first())
    }
}

/// The primary subtag of a language tag: the part before the first `-` or `_`.
pub open spec fn primary_subtag(s: Seq<char>) -> Seq<char> {
    s.take(separator_index(s) as int)
}

/// The setting, trimmed and in ASCII lower case.
pub open spec fn normalized_setting(configured: Seq<char>) -> Seq<char> {
    lower_seq(trim_seq(configured))
}

/// A setting that names Chinese, which is detected as Mandarin.
pub open spec fn names_chinese(configured: Seq<char>) -> bool {
    let normalized = normalized_setting(configured);
    let base = primary_subtag(normalized);
    ||| base == "zh"@
    ||| base == "zho"@
    ||| base == "chi"@
    ||| base == "cmn"@
    ||| normalized == "chinese"@
    ||| normalized == "simplified chinese"@
    ||| normalized == "mandarin"@
}

/// The ISO 639-3 code of the language a setting names: by its primary subtag
/// as an ISO 639-1 code, else as an ISO 639-3 code, else the trimmed setting
/// as an English language name.
pub open spec fn configured_language(configured: Seq<char>) -> Option<Seq<char>> {
    let base = primary_subtag(normalized_setting(configured));
    match iso_639_1_language(base) {
        Some(c) => Some(c),
        None => if iso_639_3_known(base) {
            Some(base)
        } else {
            iso_name_language(trim_seq(configured))
        },
    }
}

/// Whether the language detected, by its ISO 639-3 code, is the one that the
/// setting names.
pub open spec fn language_matches(detected: Seq<char>, configured: Seq<char>) -> bool {
    if names_chinese(configured) {
        detected == "cmn"@
    } else {
        configured_language(configured) is Some && iso_639_3_known(detected)
            && configured_language(configured) == Some(detected)
    }
}

/// The language to translate `text` into.
pub open spec fn target_for(text: Seq<char>, user: Seq<char>, second: Seq<char>) -> Seq<char> {
    match detected_language(text) {
        Some(d) => if language_matches(d, user) {
            second
        } else {
            user
        },
        None => user,
    }
}

/// The primary subtag of `s`.
fn primary(s: &[char]) -> (r: Vec<char>)
    ensures
        r@ == primary_subtag(s@),
{
    let mut i: usize = 0;
    assert(s@.skip(0) =~= s@);
    while i < s.len() && s[i] != '-' && s[i] != '_'
        invariant
            i <= s.len(),
            separator_index(s@) == i + separator_index(s@.skip(i as int)),
        decreases s.len() - i,
    {
        assert(s@.skip(i as int).drop_first() =~= s@.skip(i + 1));
        i = i + 1;
    }
    assert(separator_index(s@.skip(i as int)) == 0);
    assert(s@.subrange(0, i as int) =~= s@.take(i as int));
    copy_range(s, 0, i)
}

/// Whether `s` equals the text `lit`.
fn is_text(s: &[char], lit: &str) -> (r: bool)
    ensures
        r == (s@ == lit@),
{
    seq_eq(s, &chars_of(lit))
}

/// Whether a language detected as the ISO 639-3 code `detected` is the
/// language that the setting `configured` names.
pub fn matches_configured_language(detected: &str, configured: &str) -> (r: bool)
    ensures
        r == language_matches(detected@, configured@),
{
    let trimmed = trim(&chars_of(configured));
    let normalized = lowercase(&trimmed);
    let base = primary(&normalized);
    if is_text(&base, "zh") || is_text(&base, "zho") || is_text(&base, "chi") || is_text(
        &base,
        "cmn",
    ) || is_text(&normalized, "chinese") || is_text(&normalized, "simplified chinese")
        || is_text(&normalized, "mandarin") {
        return seq_eq(&chars_of(detected), &chars_of("cmn"));
    }
    let base_text = string_of(&base);
    let configured_code: Option<&str> = match language_from_639_1(base_text.as_str()) {
        Some(c) => Some(c),
        None => match language_from_639_3(base_text.as_str()) {
            Some(c) => Some(c),
            None => language_from_name(string_of(&trimmed).as_str()),
        },
    };
    let detected_code = language_from_639_3(detected);
    match (configured_code, detected_code) {
        (Some(c), Some(d)) => seq_eq(&chars_of(c), &chars_of(d)),
        _ => false,
    }
}

/// The language to translate `text` into: `second_language` when the text is
/// detected to be in `user_language`, `user_language` otherwise.
pub fn target_language<'a>(text: &str, user_language: &'a str, second_language: &'a str) -> (r:
    &'a str)
    ensures
        r@ == target_for(text@, user_language@, second_language@),
{
    match detect_language_code(text) {
        Some(code) => if matches_configured_language(code, user_language) {
            second_language
        } else {
            user_language
        },
        None => user_language,
    }
}

/// Text detected to be in the user's language is translated into the second
/// language; any other text, and text in which no language is detected, into
/// the user's language.
pub proof fn law_target_language_rule(text: Seq<char>, user: Seq<char>, second: Seq<char>)
    ensures
        (detected_language(text) matches Some(d) && language_matches(d, user)) ==> target_for(text, user, second) == second,
        !(detected_language(text) matches Some(d) && language_matches(d, user)) ==> target_for(text, user, second) == user,
{
}

} // verus!
