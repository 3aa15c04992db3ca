//! Which tokenizer reads a text: the one for the language that the text
//! announces in a prefix, or else for the language that it appears to be in.

use vstd::prelude::*;
use vstd::string::StrSliceExecFns;
use vstd::string::StringSliceAdditionalSpecFns;
use vstd::utf8::decode_utf8;
use vstd::utf8::encode_utf8;
use vstd::utf8::is_char_boundary;
use vstd::utf8::pop_first_scalar;
use vstd::utf8::valid_utf8;
use whichlang::Lang;

verus! {

/// The languages that can be told apart.
#[derive(Clone, Copy, Debug, PartialEq, Eq, Structural)]
pub enum Language {
    Ara,
    Cmn,
    Deu,
    Eng,
    Fra,
    Hin,
    Ita,
    Jpn,
    Kor,
    Nld,
    Por,
    Rus,
    Spa,
    Swe,
    Tur,
    Vie,
}

/// The tokenizers.
#[derive(Clone, Copy, Debug, PartialEq, Eq, Structural)]
pub enum TokenizerChoice {
    /// The dictionary tokenizer for Chinese.
    Chinese,
    /// The dictionary tokenizer for Japanese.
    Japanese,
    /// The tokenizer that splits on whatever is not a letter or a digit.
    Simple,
}

/// The length of a language prefix in bytes: three letters and a colon.
pub const LANGUAGE_PREFIX_LEN: usize = 4;

/// The language that a text appears to be in.
pub uninterp spec fn detected_language(text: Seq<char>) -> Language;

/// The most features that the detection counts for one character.
pub const FEATURES_PER_CHAR: usize = 3;

/// The longest text, in characters, whose language can be detected: the
/// detection counts its features in a `u32`, three for a character at most.
pub const MAX_DETECTABLE_CHARS: usize = 1_431_655_765;

/// Whether the language of a text can be detected: its features can be
/// counted in a `u32`.
pub open spec fn detectable(text: Seq<char>) -> bool {
    FEATURES_PER_CHAR * text.len() <= u32::MAX
}

/// `whichlang::detect_language`: the language that scores highest for the
/// text, which depends on the text alone; the result is given in the
/// library's own enum, variant for variant. The outside function counts up
/// to three features for each character in a `u32`, and a text with more
/// features than that is left out.
#[verifier::external_body]
pub(crate) fn detect_language(text: &str) -> (language: Language)
    requires
        detectable(text@),
    ensures
        language == detected_language(text@),
{
    match whichlang::detect_language(text) {
        Lang::Ara => Language::Ara, Lang::Cmn => Language::Cmn, Lang::Deu => Language::Deu,
        Lang::Eng => Language::Eng, Lang::Fra => Language::Fra, Lang::Hin => Language::Hin,
        Lang::Ita => Language::Ita, Lang::Jpn => Language::Jpn, Lang::Kor => Language::Kor,
        Lang::Nld => Language::Nld, Lang::Por => Language::Por, Lang::Rus => Language::Rus,
        Lang::Spa => Language::Spa, Lang::Swe => Language::Swe, Lang::Tur => Language::Tur,
        Lang::Vie => Language::Vie,
    }
}

/// The language that the bytes announce: `JPN:`, `CMN:` or `ENG:` at
/// their start.
pub open spec fn announced_language(bytes: Seq<u8>) -> Option<Language> {
    if bytes.len() < 4 || bytes[3] != 0x3a {
        None
    } else if bytes[0] == 0x4a && bytes[1] == 0x50 && bytes[2] == 0x4e {
        Some(Language::Jpn)
    } else if bytes[0] == 0x43 && bytes[1] == 0x4d && bytes[2] == 0x4e {
        Some(Language::Cmn)
    } else if bytes[0] == 0x45 && bytes[1] == 0x4e && bytes[2] == 0x47 {
        Some(Language::Eng)
    } else {
        None
    }
}

/// The tokenizer for a language.
pub open spec fn tokenizer_of(language: Language) -> TokenizerChoice {
    match language {
        Language::Cmn => TokenizerChoice::Chinese,
        Language::Jpn => TokenizerChoice::Japanese,
        _ => TokenizerChoice::Simple,
    }
}

/// The tokenizer for a language.
pub fn tokenizer_for(language: Language) -> (choice: TokenizerChoice)
    ensures
        choice == tokenizer_of(language),
{
    match language {
        Language::Cmn => TokenizerChoice::Chinese,
        Language::Jpn => TokenizerChoice::Japanese,
        _ => TokenizerChoice::Simple,
    }
}

/// Reads the language prefix of a text. The prefix is `{ID}:`, `ID` being
/// one of the three-letter codes `JPN`, `CMN` and `ENG`. Returns the language
/// and the text behind the prefix, or no language and the whole text where
/// there is no prefix.
pub fn process_language_prefix(text: &str) -> (parsed: (Option<Language>, &str))
    ensures
        parsed.0 == announced_language(text.spec_bytes()),
        parsed.1.spec_bytes() == if parsed.0 is Some {
            text.spec_bytes().skip(4)
        } else {
            text.spec_bytes()
        },
        parsed.1@ == if parsed.0 is Some {
            text@.skip(4)
        } else {
            text@
        },
{
    let bytes = text.as_bytes();
    if bytes.len() < LANGUAGE_PREFIX_LEN || bytes[3] != 0x3a {
        return (None, text);
    }
    let predefined_language = if bytes[0] == 0x4a && bytes[1] == 0x50 && bytes[2] == 0x4e {
        Language::Jpn
    } else if bytes[0] == 0x43 && bytes[1] == 0x4d && bytes[2] == 0x4e {
        Language::Cmn
    } else if bytes[0] == 0x45 && bytes[1] == 0x4e && bytes[2] == 0x47 {
        Language::Eng
    } else {
        return (None, text);
    };
    proof {
        vstd::utf8::encode_utf8_valid_utf8(text@);
        lemma_boundary_after_prefix(text.spec_bytes());
    }
    let (_, text_to_tokenize) = text.split_at(LANGUAGE_PREFIX_LEN);
    proof {
        assert(text_to_tokenize.spec_bytes() =~= text.spec_bytes().skip(4));
        lemma_text_behind_prefix(text@, text_to_tokenize@);
    }
    (Some(predefined_language), text_to_tokenize)
}

/// A run of ASCII bytes at the start of a text ends where a character ends.
pub proof fn lemma_boundary_after_ascii(bytes: Seq<u8>, n: int)
    requires
        valid_utf8(bytes),
        0 <= n <= bytes.len(),
        forall|i: int| 0 <= i < n ==> bytes[i] <= 0x7f,
    ensures
        is_char_boundary(bytes, n),
    decreases n,
{
    if n > 0 {
        let rest = pop_first_scalar(bytes);
        assert(rest == bytes.subrange(1, bytes.len() as int));
        assert forall|i: int| 0 <= i < n - 1 implies rest[i] <= 0x7f by {
            assert(rest[i] == bytes[i + 1]);
        }
        lemma_boundary_after_ascii(rest, n - 1);
    }
}

/// A text of ASCII bytes has one character for each byte.
pub proof fn lemma_ascii_chars(bytes: Seq<u8>)
    requires
        valid_utf8(bytes),
        forall|i: int| 0 <= i < bytes.len() ==> bytes[i] <= 0x7f,
    ensures
        decode_utf8(bytes).len() == bytes.len(),
    decreases bytes.len(),
{
    if bytes.len() > 0 {
        let rest = pop_first_scalar(bytes);
        assert(rest == bytes.subrange(1, bytes.len() as int));
        assert forall|i: int| 0 <= i < rest.len() implies rest[i] <= 0x7f by {
            assert(rest[i] == bytes[i + 1]);
        }
        lemma_ascii_chars(rest);
    }
}

/// Behind a language prefix lies the text without its first four
/// characters.
pub proof fn lemma_text_behind_prefix(text: Seq<char>, rest: Seq<char>)
    requires
        announced_language(encode_utf8(text)) is Some,
        encode_utf8(rest) == encode_utf8(text).skip(4),
    ensures
        rest == text.skip(4),
{
    let bytes = encode_utf8(text);
    let head = bytes.subrange(0, 4);
    let tail = bytes.subrange(4, bytes.len() as int);
    vstd::utf8::encode_utf8_valid_utf8(text);
    vstd::utf8::encode_utf8_decode_utf8(text);
    vstd::utf8::encode_utf8_decode_utf8(rest);
    lemma_boundary_after_prefix(bytes);
    vstd::utf8::valid_utf8_split(bytes, 4);
    vstd::utf8::decode_utf8_split(bytes, 4);
    lemma_ascii_chars(head);
    assert(tail =~= bytes.skip(4));
    assert(text =~= decode_utf8(head) + rest);
    assert(rest =~= text.skip(4));
}

/// A language prefix ends where a character ends.
pub proof fn lemma_boundary_after_prefix(bytes: Seq<u8>)
    requires
        valid_utf8(bytes),
        announced_language(bytes) is Some,
    ensures
        is_char_boundary(bytes, 4),
{
    lemma_boundary_after_ascii(bytes, 4);
}

/// Whether the language of the text can be detected.
pub fn can_detect(text: &str) -> (fits: bool)
    ensures
        fits == detectable(text@),
{
    text.unicode_len() <= MAX_DETECTABLE_CHARS
}

/// The part of a text that the tokenizer reads: the text behind the
/// language prefix, or the whole text where it has none.
pub open spec fn tokenized_text(text: Seq<char>) -> Seq<char> {
    if announced_language(encode_utf8(text)) is Some {
        text.skip(4)
    } else {
        text
    }
}

/// The tokenizer for a text: that of the language that the text
/// announces, or else of the language that it appears to be in.
pub open spec fn tokenizer_choice(text: Seq<char>) -> TokenizerChoice {
    tokenizer_of(
        match announced_language(encode_utf8(text)) {
            Some(language) => language,
            None => detected_language(text),
        },
    )
}

/// Whether a tokenizer can be chosen for the text: the text announces
/// its language, or its language can be detected.
pub open spec fn choosable(text: Seq<char>) -> bool {
    announced_language(encode_utf8(text)) is Some || detectable(text)
}

/// Chooses the tokenizer for a text, and the part of the text that it is
/// to read: the language is the one that the text announces, or else the
/// one that the text behind the prefix appears to be in. A text without a
/// prefix must be one whose language can be detected.
pub fn choose_tokenizer(text: &str) -> (chosen: (TokenizerChoice, &str))
    requires
        choosable(text@),
    ensures
        chosen.0 == tokenizer_choice(text@),
        chosen.1@ == tokenized_text(text@),
{
    let (predefined_language, text_to_tokenize) = process_language_prefix(text);
    let language = match predefined_language {
        Some(language) => language,
        None => detect_language(text_to_tokenize),
    };
    (tokenizer_for(language), text_to_tokenize)
}

/// Chooses the tokenizer for a text where one can be chosen: `None` for
/// a text that announces no language and is too long for its language to be
/// detected.
pub fn try_choose_tokenizer(text: &str) -> (chosen: Option<(TokenizerChoice, &str)>)
    ensures
        match chosen {
            Some(choice) => choosable(text@) && choice.0 == tokenizer_choice(text@) && choice.1@
                == tokenized_text(text@),
            None => !choosable(text@),
        },
{
    let (predefined_language, _) = process_language_prefix(text);
    if predefined_language.is_none() && !can_detect(text) {
        return None;
    }
    Some(choose_tokenizer(text))
}

} // verus!
