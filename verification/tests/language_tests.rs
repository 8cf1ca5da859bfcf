use fy::language::{matches_configured_language, target_language};

#[test]
fn chinese_text_uses_second_language() {
    let target = target_language(
        "这是一段用于测试语言识别功能的简体中文文本。",
        "zh-CN",
        "en",
    );
    assert_eq!(target, "en");
}

#[test]
fn other_language_uses_user_language() {
    let target = target_language(
        "This is a sufficiently long English sentence for language detection.",
        "zh-CN",
        "en",
    );
    assert_eq!(target, "zh-CN");
}

#[test]
fn english_can_be_the_user_language() {
    let target = target_language(
        "This is another sufficiently long English sentence for reliable detection.",
        "English",
        "fr",
    );
    assert_eq!(target, "fr");
}

#[test]
fn settings_name_languages_by_code_or_name() {
    assert!(matches_configured_language("eng", "en-US"));
    assert!(matches_configured_language("eng", " EN_gb "));
    assert!(matches_configured_language("eng", "eng"));
    assert!(matches_configured_language("deu", "German"));
    assert!(!matches_configured_language("eng", "german"));
    assert!(!matches_configured_language("eng", "fr"));
    assert!(!matches_configured_language("eng", "xx"));
}

#[test]
fn chinese_settings_match_mandarin_only() {
    for setting in ["zh", "ZH-Hans", "zho", "chi_CN", "cmn", "Chinese", " simplified chinese ", "Mandarin"] {
        assert!(matches_configured_language("cmn", setting), "{setting}");
        assert!(!matches_configured_language("zho", setting), "{setting}");
    }
}

#[test]
fn undetectable_text_goes_to_the_user_language() {
    assert_eq!(target_language("12345 !!!", "en", "zh"), "en");
}
