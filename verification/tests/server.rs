use itcoolmcplang1c::config::{KnowledgeConfig, LoggingConfig, PromptsConfig, ServerConfig, DEFAULT_MAX_RESULTS};
use itcoolmcplang1c::lang::HelpLang;
use itcoolmcplang1c::platform::Platform;
use itcoolmcplang1c::server::{adopt_built, adopt_cached, resolve_platform, unknown_language, validate_mode};
use itcoolmcplang1c::knowledge::KnowledgeBase;
use itcoolmcplang1c::progress::{Outcome, Progress};
use itcoolmcplang1c::schema::Document;

#[test]
fn removed_modes_are_refused() {
    assert!(validate_mode("stdio").is_ok(), "stdio — единственный рабочий режим");

    for mode in ["http", "both", "grpc"] {
        let error = validate_mode(mode).expect_err("режим не поддерживается и обязан быть отказом");
        let text = error.to_string();

        assert!(text.contains(mode), "отказ должен называть режим: {text}");
        assert!(text.contains("stdio"), "отказ должен называть поддерживаемый режим: {text}");
    }
}

#[test]
fn test_default_config() {
    assert_eq!(ServerConfig::default().mode, "stdio");
    assert_eq!(DEFAULT_MAX_RESULTS, 10);
    let knowledge = KnowledgeConfig::default();
    assert_eq!(knowledge.data_dir, "./data");
    assert_eq!(knowledge.help_language, "ru");
    assert_eq!(PromptsConfig::default().template_file, "./prompts.json");
    assert_eq!(LoggingConfig::default().level, "info");
    assert_eq!(LoggingConfig::default().format, "pretty");
}

#[test]
fn platform_comes_from_config_discovery_or_a_hint() {
    let lang = HelpLang::from_code("ru").unwrap();
    let knowledge = KnowledgeConfig::default();
    let found = Platform { bin_dir: "/opt/1cv8/x86_64/8.3.27.1/bin".to_string(), version: "8.3.27.1".to_string() };

    let p = resolve_platform(&knowledge, &lang, Some(found), &[], false, false).unwrap();
    assert_eq!(p.version, "8.3.27.1");

    let hint = resolve_platform(&knowledge, &lang, None, &["/opt/1cv8/x86_64".to_string()], false, false).unwrap_err();
    assert!(hint.contains("/opt/1cv8/x86_64"), "{}", hint);

    let mut configured = KnowledgeConfig::default();
    configured.platform_dir = Some("/definitely/not/here".to_string());
    let err = resolve_platform(&configured, &lang, None, &[], false, false).unwrap_err();
    assert!(err.contains("shcntx_ru.hbk"), "{}", err);

    configured.platform_dir = Some("/opt/1cv8/x86_64/8.3.27.1936".to_string());
    let p = resolve_platform(&configured, &lang, None, &[], false, true).unwrap();
    assert_eq!(p.bin_dir, "/opt/1cv8/x86_64/8.3.27.1936/bin");
    assert_eq!(p.version, "8.3.27.1936");
}

fn doc(version: &str) -> Document {
    Document {
        version: version.to_string(),
        platform: "1С:Предприятие".to_string(),
        release_date: None,
        sections: vec![],
        api_methods: vec![],
        api_objects: vec![],
        relationships: vec![],
    }
}

#[test]
fn cached_index_makes_the_base_ready() {
    let mut kb = KnowledgeBase::new();
    let mut progress = Progress::new();

    assert!(adopt_cached(&mut kb, &mut progress, Some(doc("8.3.27"))));

    assert_eq!(progress.outcome(), Outcome::Ready);
    assert!(kb.has_version("8.3.27"));
}

#[test]
fn without_cache_the_build_starts() {
    let mut kb = KnowledgeBase::new();
    let mut progress = Progress::new();

    assert!(!adopt_cached(&mut kb, &mut progress, None));

    assert_eq!(progress.outcome(), Outcome::Building);
    assert!(progress.hint().unwrap().contains("0%"));
}

#[test]
fn failed_build_is_reported_to_the_tools() {
    let mut kb = KnowledgeBase::new();
    let mut progress = Progress::new();

    adopt_built(&mut kb, &mut progress, Err("нет FileStorage".to_string()));

    assert_eq!(progress.outcome(), Outcome::Failed("нет FileStorage".to_string()));
    assert_eq!(
        progress.hint().as_deref(),
        Some("Индексация справки платформы не удалась: нет FileStorage. База знаний пуста.")
    );
    assert!(!kb.has_version("8.3.27"));
}

#[test]
fn finished_build_fills_the_base() {
    let mut kb = KnowledgeBase::new();
    let mut progress = Progress::new();

    adopt_built(&mut kb, &mut progress, Ok(doc("8.3.27")));

    assert_eq!(progress.outcome(), Outcome::Ready);
    assert!(kb.has_version("8.3.27"));
}

#[test]
fn unknown_language_names_the_supported_ones() {
    assert_eq!(unknown_language("de"), "Неизвестный язык справки «de». Поддерживаются: ru, en.");
}
