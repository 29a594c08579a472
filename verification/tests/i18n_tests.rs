use ro_control::i18n::{get_dictionary, init, parse_locale, tr, Lang};

#[test]
fn parse_turkish() {
    assert_eq!(parse_locale("tr_TR.UTF-8"), Lang::Tr);
    assert_eq!(parse_locale("TR_TR"), Lang::Tr);
}

#[test]
fn parse_english_fallback() {
    assert_eq!(parse_locale("en_US.UTF-8"), Lang::En);
    assert_eq!(parse_locale(""), Lang::En);
}

#[test]
fn parse_unknown_falls_back_to_english() {
    assert_eq!(parse_locale("xx_XX.UTF-8"), Lang::En);
}

#[test]
fn parse_portuguese_brazil() {
    assert_eq!(parse_locale("pt_BR.UTF-8"), Lang::PtBr);
}

#[test]
fn parse_chinese_variants() {
    assert_eq!(parse_locale("zh_CN.UTF-8"), Lang::ZhCn);
    assert_eq!(parse_locale("zh_TW.UTF-8"), Lang::ZhTw);
    assert_eq!(parse_locale("zh_Hant"), Lang::ZhTw);
}

#[test]
fn dictionary_has_english_keys() {
    let dict = get_dictionary();
    assert!(dict.has_key(Lang::En, "title_main"));
    assert!(dict.has_key(Lang::En, "desc_main"));
}

#[test]
fn dictionary_has_turkish_translations() {
    let dict = get_dictionary();
    assert!(dict.has_lang(Lang::Tr), "Turkish translations missing");
    assert!(dict.has_key(Lang::Tr, "title_main"));
}

#[test]
fn unknown_key_returns_fallback() {
    let result = tr(Lang::En, "this_key_does_not_exist_xyz");
    assert_eq!(result, "???");
}

#[test]
fn translation_prefers_selected_language() {
    assert_eq!(tr(Lang::Tr, "tab_install"), "Kurulum");
    assert_eq!(tr(Lang::En, "tab_install"), "Install");
}

#[test]
fn translation_falls_back_to_english_value() {
    // German has no entry for this key, English does.
    assert_eq!(tr(Lang::De, "desc_main"), "Optimized options for your hardware.");
}

#[test]
fn init_takes_first_present_locale() {
    assert_eq!(init(Some("tr_TR.UTF-8"), Some("de_DE"), None), Lang::Tr);
    assert_eq!(init(None, Some("de_DE"), Some("fr_FR")), Lang::De);
    assert_eq!(init(None, None, Some("fr_FR")), Lang::Fr);
    assert_eq!(init(None, None, None), Lang::En);
}
