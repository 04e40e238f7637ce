use magicbox::lang::{detect_lang, is_cjk, Lang};

#[test]
fn detects_english() {
    assert_eq!(detect_lang("hello"), Lang::En);
    assert_eq!(detect_lang("Grüße, señor!"), Lang::En);
    assert_eq!(detect_lang("한국어"), Lang::En);
}

#[test]
fn detects_chinese() {
    assert_eq!(detect_lang("你好"), Lang::Zh);
    assert_eq!(detect_lang("hello 世界"), Lang::Zh);
    assert_eq!(detect_lang("end。"), Lang::Zh);
    assert_eq!(detect_lang("\u{2F00}"), Lang::Zh);
}

#[test]
fn empty_text_is_english() {
    assert_eq!(detect_lang(""), Lang::En);
    assert_eq!(detect_lang("  \t"), Lang::En);
}

#[test]
fn cjk_block_edges() {
    assert!(is_cjk('\u{4E00}'));
    assert!(is_cjk('\u{9FFF}'));
    assert!(!is_cjk('\u{A000}'));
    assert!(is_cjk('\u{3400}'));
    assert!(is_cjk('\u{4DBF}'));
    assert!(is_cjk('\u{F900}'));
    assert!(is_cjk('\u{FAFF}'));
    assert!(is_cjk('\u{2E80}'));
    assert!(is_cjk('\u{3000}'));
    assert!(is_cjk('\u{303F}'));
    assert!(!is_cjk('\u{3040}'));
    assert!(is_cjk('\u{31C0}'));
    assert!(is_cjk('\u{2FF0}'));
    assert!(is_cjk('\u{2FFF}'));
    assert!(!is_cjk('\u{2E7F}'));
    assert!(!is_cjk('a'));
}

#[test]
fn lang_tags() {
    assert_eq!(Lang::Zh.as_str(), "zh");
    assert_eq!(Lang::En.as_str(), "en");
    assert_eq!(Lang::from_tag("zh"), Some(Lang::Zh));
    assert_eq!(Lang::from_tag("en"), Some(Lang::En));
    assert_eq!(Lang::from_tag("EN"), None);
    assert_eq!(Lang::from_tag("fr"), None);
    assert_eq!(Lang::from_tag(""), None);
    assert_eq!(Lang::Zh.opposite(), Lang::En);
    assert_eq!(Lang::En.opposite(), Lang::Zh);
}
