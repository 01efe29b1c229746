use itcoolmcplang1c::html::{char_rfind, clip, TextRx};

#[test]
fn clip_cuts_on_char_boundary() {
    let s = "Ещё один русский текст без точек внутри совсем";

    let out = clip(s, 10);

    assert_eq!(out.chars().count(), 10 + 2);
    assert!(out.ends_with(" …"));
    assert_eq!(out, "Ещё один р …");
}

#[test]
fn clip_prefers_sentence_end() {
    let s = "Первое предложение. Второе предложение продолжается дальше";

    let out = clip(s, 30);

    assert_eq!(out, "Первое предложение. …");
}

#[test]
fn clip_ignores_early_sentence_end() {
    let s = "Да. Дальше идёт длинное продолжение без единой точки внутри";

    let out = clip(s, 40);

    assert!(!out.starts_with("Да. …"));
    assert!(out.ends_with(" …"));
}

#[test]
fn clip_keeps_short_text_as_is() {
    assert_eq!(clip("Коротко", 100), "Коротко");
}

#[test]
fn clip_never_exceeds_limit_plus_tail() {
    let s = "слово ".repeat(50);
    for limit in [0usize, 1, 5, 17, 60] {
        let out = clip(&s, limit);
        assert!(out.chars().count() <= limit + 2, "{} {}", limit, out);
    }
}

#[test]
fn rfind_counts_characters() {
    assert_eq!(char_rfind("ab. cd. e", ". "), Some(6));
    assert_eq!(char_rfind("ёё. ё", ". "), Some(2));
    assert_eq!(char_rfind("нет", ". "), None);
}

fn rx() -> TextRx {
    TextRx::new().unwrap()
}

#[test]
fn text_replaces_tags_with_space() {
    let rx = rx();

    let out = rx.text("<p>значение типа.</p><p>Не работает</p>", false);

    assert_eq!(out, "значение типа. Не работает");
}

#[test]
fn text_keeps_lines_without_spacing_out_code() {
    let rx = rx();

    let out = rx.text("Запрос = Новый Запрос(Текст);<br>Запрос.Выполнить();", true);

    assert_eq!(out, "Запрос = Новый Запрос(Текст);\nЗапрос.Выполнить();");
}

#[test]
fn non_breaking_space_collapses() {
    let rx = rx();

    let out = rx.text("Тип:\u{00A0}\u{00A0}Число", false);

    assert_eq!(out, "Тип: Число");
}

#[test]
fn named_entities_are_unescaped() {
    let rx = rx();

    assert_eq!(rx.text("&laquo;Имя&raquo; &amp; &lt;b&gt;", false), "«Имя» & <b>");
}

#[test]
fn space_before_punctuation_is_removed() {
    let rx = rx();

    assert_eq!(rx.text("текст<b></b> , ещё<i></i> .", false), "текст, ещё.");
}

#[test]
fn blank_lines_are_squeezed() {
    let rx = rx();

    let out = rx.text("а<br><br><br><br>б", true);

    assert_eq!(out, "а\n\nб");
}
