use itcoolmcplang1c::progress::{BookStats, BuildReport, Outcome, Progress, Skipped};

#[test]
fn building_state_reports_percent() {
    let mut progress = Progress::new();
    progress.set_outcome(Outcome::Building);
    progress.stage_percent("members", 1, 2, 0, 100);

    let hint = progress.hint().unwrap();

    assert!(hint.contains("50%"), "{}", hint);
    assert!(hint.contains("members"), "{}", hint);
}

#[test]
fn ready_state_has_no_hint() {
    let mut progress = Progress::new();
    progress.set_outcome(Outcome::Ready);

    assert_eq!(progress.hint(), None);
}

#[test]
fn missing_platform_keeps_its_instruction() {
    let mut progress = Progress::new();
    progress.set_outcome(Outcome::NoPlatform("укажите --platform-dir".to_string()));

    assert_eq!(progress.hint().as_deref(), Some("укажите --platform-dir"));
}

#[test]
fn stage_percent_never_exceeds_the_range() {
    let mut progress = Progress::new();
    progress.set_outcome(Outcome::Building);
    progress.stage_percent("objects", 999, 10, 2, 35);

    assert!(progress.hint().unwrap().contains("35%"));
}

#[test]
fn idle_has_no_hint_and_failure_explains() {
    let mut progress = Progress::new();
    assert_eq!(progress.outcome(), Outcome::Idle);
    assert_eq!(progress.hint(), None);

    progress.set_outcome(Outcome::Failed("нет файла".to_string()));
    assert_eq!(
        progress.hint().unwrap(),
        "Индексация справки платформы не удалась: нет файла. База знаний пуста."
    );
}

#[test]
fn building_without_stage_says_preparing() {
    let mut progress = Progress::new();
    progress.set_outcome(Outcome::Building);
    let hint = progress.hint().unwrap();
    assert!(hint.starts_with("Идёт индексация справки платформы: 0% (подготовка)."), "{}", hint);
}

#[test]
fn stage_name_changes_only_with_percent() {
    let mut progress = Progress::new();
    progress.set_outcome(Outcome::Building);
    progress.stage_percent("objects", 0, 0, 10, 10);
    progress.stage_percent("members", 5, 10, 0, 20);
    assert!(progress.hint().unwrap().contains("10% (objects)"));
}

#[test]
fn build_report_line() {
    let report = BuildReport {
        version: "8.3.27".to_string(),
        objects: 1,
        methods: 2,
        properties: 3,
        root_sections: 4,
        subsections: 5,
        skipped: Skipped { category: 6, dup_method: 7, no_owner: 8 },
        books: vec![BookStats { book: "shlang_ru.hbk".to_string(), taken: 1, skipped: 0 }],
    };
    assert_eq!(
        report.describe(),
        "версия 8.3.27: объектов 1, методов 2, свойств 3, разделов 4 корневых / 5; пропущено категорий 6, дублей методов 7, без владельца 8"
    );
}

#[test]
fn book_line_pads_the_file_name() {
    let stats = BookStats { book: "shlang_ru.hbk".to_string(), taken: 12, skipped: 3 };

    assert_eq!(stats.line(), "   shlang_ru.hbk      12 разделов, пропущено 3");
}

#[test]
fn long_book_name_is_not_cut() {
    let stats = BookStats { book: "a_very_long_book_name.hbk".to_string(), taken: 0, skipped: 0 };

    assert_eq!(stats.line(), "   a_very_long_book_name.hbk 0 разделов, пропущено 0");
}

#[test]
fn huge_counts_do_not_overflow_the_percentage() {
    let mut progress = Progress::new();
    progress.set_outcome(Outcome::Building);
    progress.stage_percent("objects", usize::MAX, usize::MAX, 0, usize::MAX);

    assert!(progress.hint().unwrap().contains("100%"));
}
