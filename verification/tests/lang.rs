use itcoolmcplang1c::lang::{codes, HelpLang};

#[test]
fn code_selects_file_suffix() {
    assert_eq!(HelpLang::from_code("ru").unwrap().context_book(), "shcntx_ru.hbk");
    assert_eq!(HelpLang::from_code("EN").unwrap().context_book(), "shcntx_root.hbk");
    assert!(HelpLang::from_code("de").is_none());
}

#[test]
fn book_file_name_follows_language() {
    let ru = HelpLang::from_code("ru").unwrap();
    let en = HelpLang::from_code("en").unwrap();

    assert_eq!(ru.books[2].file_name(&ru), "shquery_ru.hbk");
    assert_eq!(en.books[2].file_name(&en), "shquery_root.hbk");
}

#[test]
fn russian_labels_match_reference_extractor() {
    let ru = HelpLang::from_code("ru").unwrap();

    assert_eq!(ru.variant_note("По строке", "Х(Y)"), "Вариант синтаксиса «По строке»: Х(Y)");
    assert_eq!(
        ru.blurb("Язык запросов", "shquery_ru.hbk"),
        "Язык запросов: справка платформы (shquery_ru.hbk)."
    );
}

#[test]
fn code_is_trimmed_and_case_folded() {
    assert_eq!(HelpLang::from_code("  Ru \n").unwrap().code, "ru");
    assert_eq!(HelpLang::from_code("eN").unwrap().suffix, "root");
    assert!(HelpLang::from_code("r u").is_none());
    assert_eq!(codes(), ["ru", "en"]);
}

#[test]
fn english_variant_note_uses_quotes() {
    let en = HelpLang::from_code("en").unwrap();
    assert_eq!(en.variant_note("By string", "New Query(Text)"), "Syntax variant \"By string\": New Query(Text)");
}
