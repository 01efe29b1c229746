use itcoolmcplang1c::check::{help_lang_hint, no_source_reason, parse_failed_reason, probe_missing_reason, rejected_reason, unknown_code_reason, check_source, fail_report, help_line, numbers_line, probe_query, result_name, verdict_line, CheckSource};
use itcoolmcplang1c::progress::BookStats;
use itcoolmcplang1c::lang::HelpLang;
use itcoolmcplang1c::schema::{ApiObject, Document, ExecutionContext, Property, SearchSource};

#[test]
fn ready_index_wins_over_platform() {
    assert_eq!(check_source(1, true), CheckSource::ReadyIndex);
    assert_eq!(check_source(1, false), CheckSource::ReadyIndex);
    assert_eq!(check_source(0, true), CheckSource::Platform);
    assert_eq!(check_source(0, false), CheckSource::Nowhere);
}

#[test]
fn failed_item_names_reason_hint_and_verdict() {
    let lines = fail_report("язык справки", "неизвестный код «de»", "укажите --help-lang ru или en");

    assert_eq!(
        lines,
        vec![
            "язык справки: ОТКАЗ — неизвестный код «de»",
            "   что делать: укажите --help-lang ru или en",
            "вердикт: сервер неработоспособен",
        ]
    );
}

#[test]
fn probe_follows_help_language() {
    assert_eq!(probe_query(&HelpLang::from_code("ru").unwrap()), "ЗначениеЗаполнено");
    assert_eq!(probe_query(&HelpLang::from_code("en").unwrap()), "ValueIsFilled");
}

#[test]
fn result_name_picks_title_or_name() {
    let section = SearchSource::Section {
        version: "8.3.27".to_string(),
        section_id: "lang_If".to_string(),
        title: "Если".to_string(),
        content: String::new(),
    };
    let method = SearchSource::ApiMethod {
        version: "8.3.27".to_string(),
        name: "ЗначениеЗаполнено".to_string(),
        description: String::new(),
        context: ExecutionContext::Both,
    };
    let object = SearchSource::ApiObject { version: "8.3.27".to_string(), name: "Запрос".to_string(), description: String::new() };

    assert_eq!(result_name(&section), "Если");
    assert_eq!(result_name(&method), "ЗначениеЗаполнено");
    assert_eq!(result_name(&object), "Запрос");
}

#[test]
fn numbers_count_properties_of_all_objects() {
    let property = |name: &str| Property { name: name.to_string(), property_type: String::new(), description: String::new(), readonly: false };
    let doc = Document {
        version: "8.3.27".to_string(),
        platform: "1С:Предприятие".to_string(),
        release_date: None,
        sections: vec![],
        api_methods: vec![],
        api_objects: vec![
            ApiObject { name: "А".to_string(), description: String::new(), properties: vec![property("x"), property("y")], methods: vec![] },
            ApiObject { name: "Б".to_string(), description: String::new(), properties: vec![property("z")], methods: vec![] },
        ],
        relationships: vec![],
    };

    assert_eq!(numbers_line(&doc), "числа: объектов 2, методов 0, свойств 3");
}

#[test]
fn verdict_names_what_was_checked() {
    assert_eq!(
        verdict_line("готовый индекс из /data"),
        "вердикт: Сервер работоспособен — проверено: готовый индекс из /data"
    );
}

#[test]
fn help_line_lists_language_books() {
    let ru = HelpLang::from_code("ru").unwrap();
    let books = vec![
        BookStats { book: "shlang_ru.hbk".to_string(), taken: 12, skipped: 0 },
        BookStats { book: "shquery_ru.hbk".to_string(), taken: 3, skipped: 1 },
    ];
    assert_eq!(
        help_line(&ru, &books),
        "справка: shcntx_ru.hbk — объекты и методы; shlang_ru.hbk — 12 разделов, shquery_ru.hbk — 3 разделов"
    );
    assert_eq!(help_line(&ru, &[]), "справка: shcntx_ru.hbk — объекты и методы; разделов языка не найдено");
}

#[test]
fn failure_reasons_name_their_cause() {
    assert_eq!(unknown_code_reason("de"), "неизвестный код «de»");
    assert_eq!(help_lang_hint(), "укажите --help-lang ru или en");
    assert_eq!(
        no_source_reason("/kb", "нет каталога"),
        "нет ни готового индекса в /kb, ни установленной платформы (нет каталога)"
    );
    assert_eq!(parse_failed_reason("битый ZIP"), "разбор не удался: битый ZIP");
    assert_eq!(rejected_reason("пустая версия"), "база знаний не приняла документ: пустая версия");
    assert_eq!(probe_missing_reason("ValueIsFilled"), "«ValueIsFilled» в собранной базе не найден");
}
