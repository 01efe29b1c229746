use itcoolmcplang1c::extract::{append_english, owner_of, Extractor};
use itcoolmcplang1c::lang::HelpLang;
use itcoolmcplang1c::schema::ExecutionContext;

fn ru() -> Extractor {
    Extractor::new(HelpLang::from_code("ru").unwrap()).unwrap()
}

#[test]
fn owner_is_taken_before_the_first_member_dir() {
    assert_eq!(
        owner_of("objects/a/b/Obj/methods/X123.html"),
        Some("objects/a/b/Obj".to_string())
    );
    assert_eq!(owner_of("objects/Global context.html"), None);
}

#[test]
fn page_keywords_reject_russian_parenthetical() {
    let e = ru();

    let words = e.page_keywords("Секция ВЫБРАТЬ", "Описание запроса", "SELECT.html");

    assert_eq!(words, vec!["Секция ВЫБРАТЬ", "SELECT"]);
}

#[test]
fn page_keywords_take_latin_english_name() {
    let e = ru();

    let words = e.page_keywords("ЕСТЬNULL", "ISNULL", "ISNULL.html");

    assert_eq!(words, vec!["ЕСТЬNULL", "ISNULL"]);
}

#[test]
fn availability_covers_all_combinations() {
    let e = ru();

    assert_eq!(
        e.availability("Тонкий клиент, сервер, толстый клиент."),
        ExecutionContext::Both
    );
    assert_eq!(e.availability("Сервер."), ExecutionContext::Server);
    assert_eq!(e.availability("Тонкий клиент, веб-клиент."), ExecutionContext::Client);
    assert_eq!(e.availability("Мобильная платформа."), ExecutionContext::Both);
}

#[test]
fn availability_treats_external_connection_as_server() {
    assert_eq!(ru().availability("Внешнее соединение."), ExecutionContext::Server);
}

#[test]
fn english_availability_uses_english_markers() {
    let e = Extractor::new(HelpLang::from_code("en").unwrap()).unwrap();

    assert_eq!(
        e.availability("Server, thick client, external connection."),
        ExecutionContext::Both
    );
    assert_eq!(e.availability("Server."), ExecutionContext::Server);
}

#[test]
fn rubrics_split_without_lookahead() {
    let e = ru();
    let block = &[
        r#"<div class="V8SH_rubric">&lt;Имя&gt; (обязательный)</div>Тип: Строка.<br>Имя."#,
        r#"<div class="V8SH_rubric">&lt;Флаг&gt; (необязательный)</div>Тип: Булево.<br>Флаг."#
    ].concat();

    let parts = e.rubrics(block);

    assert_eq!(parts.len(), 2);
    assert!(parts[0].1.contains("Строка"));
    assert!(!parts[0].1.contains("Булево"));
    assert!(parts[1].1.contains("Булево"));
}

#[test]
fn params_take_name_type_and_required_flag() {
    let e = ru();
    let block = &[
        r#"<div class="V8SH_rubric">&lt;Имя&gt; (обязательный)</div>Тип: Строка.<br>Имя файла."#,
        r#"<div class="V8SH_rubric">&lt;Флаг&gt; (необязательный)</div>Тип: Булево.<br>Признак."#
    ].concat();

    let params = e.parse_params(block);

    assert_eq!(params.len(), 2);
    assert_eq!(params[0].name, "Имя");
    assert_eq!(params[0].param_type, "Строка");
    assert!(params[0].required);
    assert_eq!(params[0].description, "Имя файла.");
    assert!(!params[1].required);
}

#[test]
fn chapters_cut_the_footer() {
    let e = ru();
    let body = &[
        r#"<p class="V8SH_chapter">Описание:</p>Полезное.<hr>"#,
        r#"<p class="V8SH_chapter">Методическая информация</p>Мусор."#
    ].concat();

    let chapters = e.chapters(body);

    assert_eq!(chapters.len(), 1);
    assert_eq!(chapters[0].0, "Описание");
}

#[test]
fn h1_matches_regardless_of_class() {
    let e = ru();

    for markup in [
        r#"<h1 class="V8SH_pagetitle">Если</h1>"#,
        r#"<h1 class=V8SH_pagetitle>Если</h1>"#,
        r#"<h1 class="">Если</h1>"#,
        "<h1>Если</h1>",
    ] {
        let found = e.h1_title(markup).map(|(_, inner)| inner);
        assert_eq!(found.as_deref(), Some("Если"), "{}", markup);
    }
}

#[test]
fn split_names_separates_russian_and_english() {
    let e = ru();

    assert_eq!(
        e.split_names("СхемаЗапроса (QuerySchema)"),
        ("СхемаЗапроса".to_string(), "QuerySchema".to_string())
    );
    assert_eq!(
        e.split_names("ТаблицаЗначений"),
        ("ТаблицаЗначений".to_string(), String::new())
    );
}

#[test]
fn property_readonly_comes_from_usage_chapter() {
    let e = ru();
    let body = &[
        r#"<p class="V8SH_chapter">Использование:</p>Только чтение."#,
        r#"<p class="V8SH_chapter">Описание:</p>Тип: Число.<br>Количество."#
    ].concat();

    let (property_type, description, readonly) = e.parse_property(body);

    assert_eq!(property_type, "Число");
    assert_eq!(description, "Количество.");
    assert!(readonly);
}

#[test]
fn syntax_variants_fill_params_and_notes() {
    let e = ru();
    let body = &[
        r#"<p class="V8SH_chapter">Вариант синтаксиса: По строке</p>"#,
        r#"<p class="V8SH_chapter">Синтаксис:</p>Новый Запрос(Текст)"#,
        r#"<p class="V8SH_chapter">Параметры:</p>"#,
        r#"<div class="V8SH_rubric">&lt;Текст&gt; (обязательный)</div>Тип: Строка.<br>Текст."#,
        r#"<p class="V8SH_chapter">Вариант синтаксиса: По умолчанию</p>"#,
        r#"<p class="V8SH_chapter">Синтаксис:</p>Новый Запрос()"#
    ].concat();

    let member = e.parse_member(body);

    assert_eq!(member.parameters.len(), 1);
    assert_eq!(member.parameters[0].name, "Текст");
    assert_eq!(
        member.notes,
        vec![
            "Вариант синтаксиса «По умолчанию»: Новый Запрос()",
            "Вариант синтаксиса «По строке»: Новый Запрос(Текст)",
        ]
    );
}

#[test]
fn examples_are_capped_at_two() {
    let e = ru();
    let body = &[
        r#"<p class="V8SH_chapter">Пример:</p>А = 1;"#,
        r#"<p class="V8SH_chapter">Пример:</p>Б = 2;"#,
        r#"<p class="V8SH_chapter">Пример:</p>В = 3;"#
    ].concat();

    let member = e.parse_member(body);

    assert_eq!(member.examples.len(), 2);
    assert_eq!(member.examples[0].code, "А = 1;");
    assert_eq!(member.examples[1].code, "Б = 2;");
}

#[test]
fn english_description_is_appended_in_parentheses() {
    assert_eq!(append_english("Описание", "Name"), "Описание (Name)");
    assert_eq!(append_english("", "Name"), "(Name)");
}
