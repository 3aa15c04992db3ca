use split_cache::init::export_question;
use split_cache::init::output_path;
use split_cache::init::InitOption;
use split_cache::language::can_detect;
use split_cache::language::choose_tokenizer;
use split_cache::language::process_language_prefix;
use split_cache::language::tokenizer_for;
use split_cache::language::try_choose_tokenizer;
use split_cache::language::Language;
use split_cache::language::TokenizerChoice;

#[test]
fn test_multilanguage_process_predefined_language() {
    {
        let (lang, text) = process_language_prefix("JPN:すもももももももものうち");
        assert_eq!(lang, Some(Language::Jpn));
        assert_eq!(text, "すもももももももものうち");
    }
    {
        let (lang, text) = process_language_prefix("CMN:地址1，包含無效的字元");
        assert_eq!(lang, Some(Language::Cmn));
        assert_eq!(text, "地址1，包含無效的字元");
    }
    {
        let (lang, text) = process_language_prefix("ENG:my address");
        assert_eq!(lang, Some(Language::Eng));
        assert_eq!(text, "my address");
    }
    {
        let (lang, text) = process_language_prefix("UNK:my address");
        assert!(lang.is_none());
        assert_eq!(text, "UNK:my address");
    }
}

#[test]
fn short_and_odd_prefixes_are_no_prefixes() {
    assert_eq!(process_language_prefix(""), (None, ""));
    assert_eq!(process_language_prefix("JPN"), (None, "JPN"));
    assert_eq!(process_language_prefix("JPN:"), (Some(Language::Jpn), ""));
    assert_eq!(process_language_prefix("jpn:text"), (None, "jpn:text"));
    assert_eq!(process_language_prefix("JPN;text"), (None, "JPN;text"));
    assert_eq!(process_language_prefix("ENGtext"), (None, "ENGtext"));
    assert_eq!(process_language_prefix("すもも"), (None, "すもも"));
    assert_eq!(process_language_prefix("é:JPN:"), (None, "é:JPN:"));
    assert_eq!(process_language_prefix("CMN:CMN:a"), (Some(Language::Cmn), "CMN:a"));
}

#[test]
fn tokenizers_by_language() {
    assert_eq!(tokenizer_for(Language::Cmn), TokenizerChoice::Chinese);
    assert_eq!(tokenizer_for(Language::Jpn), TokenizerChoice::Japanese);
    assert_eq!(tokenizer_for(Language::Eng), TokenizerChoice::Simple);
    assert_eq!(tokenizer_for(Language::Kor), TokenizerChoice::Simple);
    assert_eq!(tokenizer_for(Language::Vie), TokenizerChoice::Simple);
}

#[test]
fn the_announced_language_wins_over_the_detected_one() {
    assert_eq!(
        choose_tokenizer("ENG:すもももももももものうち"),
        (TokenizerChoice::Simple, "すもももももももものうち")
    );
    assert_eq!(
        choose_tokenizer("CMN:すもももももももものうち"),
        (TokenizerChoice::Chinese, "すもももももももものうち")
    );
    assert_eq!(choose_tokenizer("JPN:-"), (TokenizerChoice::Japanese, "-"));
}

#[test]
fn the_language_is_detected_without_a_prefix() {
    assert_eq!(
        choose_tokenizer("すもももももももものうち"),
        (TokenizerChoice::Japanese, "すもももももももものうち")
    );
    assert_eq!(
        choose_tokenizer("地址1，包含無效的字元 (包括符號與不標準的asci阿爾發字元"),
        (
            TokenizerChoice::Chinese,
            "地址1，包含無效的字元 (包括符號與不標準的asci阿爾發字元"
        )
    );
    assert_eq!(
        choose_tokenizer("The quick brown fox jumps over the lazy dog"),
        (
            TokenizerChoice::Simple,
            "The quick brown fox jumps over the lazy dog"
        )
    );
    assert_eq!(choose_tokenizer("-"), (TokenizerChoice::Simple, "-"));
    assert_eq!(choose_tokenizer(""), (TokenizerChoice::Simple, ""));
}

#[test]
fn init_options_have_names() {
    assert_eq!(InitOption::Source.name(), "source");
    assert_eq!(InitOption::Index.name(), "index");
    assert_eq!(InitOption::Quickwit.name(), "quickwit");
    assert_eq!(InitOption::Source.to_string(), "source");
    assert_eq!(InitOption::Quickwit.to_string(), "quickwit");
    assert_eq!(InitOption::Index, InitOption::Index);
    assert_ne!(InitOption::Index, InitOption::Source);
}

#[test]
fn only_source_configs_have_a_schema() {
    assert!(InitOption::Source.has_schema());
    assert!(!InitOption::Index.has_schema());
    assert!(!InitOption::Quickwit.has_schema());
}

#[test]
fn configs_are_exported_beside_the_working_directory() {
    assert_eq!(InitOption::Source.config_path(), "./new-source-config.yaml");
    assert_eq!(InitOption::Index.config_path(), "./new-index-config.yaml");
    assert_eq!(
        InitOption::Quickwit.config_path(),
        "./new-quickwit-config.yaml"
    );
    assert_eq!(
        export_question("./new-source-config.yaml"),
        "Where should this config be exported? (Leave blank for ./new-source-config.yaml)"
    );
}

#[test]
fn a_blank_answer_keeps_the_default_path() {
    assert_eq!(
        output_path(None, "./new-source-config.yaml".to_string()),
        "./new-source-config.yaml"
    );
    assert_eq!(
        output_path(
            Some("/etc/source.yaml".to_string()),
            "./new-source-config.yaml".to_string()
        ),
        "/etc/source.yaml"
    );
}

#[test]
fn texts_of_ordinary_length_can_be_detected() {
    assert!(can_detect(""));
    assert!(can_detect("The quick brown fox"));
    assert!(can_detect("すもももももももものうち"));
    assert!(can_detect(&"a".repeat(100_000)));
}

#[test]
fn a_tokenizer_is_chosen_where_the_text_allows() {
    assert_eq!(
        try_choose_tokenizer("JPN:-"),
        Some((TokenizerChoice::Japanese, "-"))
    );
    assert_eq!(
        try_choose_tokenizer("すもももももももものうち"),
        Some((TokenizerChoice::Japanese, "すもももももももものうち"))
    );
    assert_eq!(
        try_choose_tokenizer("my address"),
        Some((TokenizerChoice::Simple, "my address"))
    );
}
