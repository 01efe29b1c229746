use itcoolmcplang1c::cli::{arg_in, mask, strip_bom, Resolver, Setting, Source};

fn args(items: &[&str]) -> Vec<String> {
    items.iter().map(|s| s.to_string()).collect()
}

#[test]
fn arg_reads_separate_form() {
    let argv = args(&["exe", "--config", "C:/x.ini", "--log-level", "debug"]);

    assert_eq!(arg_in(&argv, "--config"), Some("C:/x.ini".to_string()));
    assert_eq!(arg_in(&argv, "--log-level"), Some("debug".to_string()));
    assert_eq!(arg_in(&argv, "--missing"), None);
}

#[test]
fn joined_form_is_not_recognized() {
    let argv = args(&["exe", "--config=C:/x.ini"]);

    assert_eq!(arg_in(&argv, "--config"), None);
}

#[test]
fn dangling_key_yields_none() {
    let argv = args(&["exe", "--config"]);

    assert_eq!(arg_in(&argv, "--config"), None);
}

#[test]
fn file_value_is_used_when_nothing_else_given() {
    let resolver = Resolver::new(Some("C:/cfg.ini".to_string()));

    let setting = resolver
        .get("--nothing-like-this", "MCP_TEST_ABSENT_KEY", Some("из файла".into()), &args(&["exe"]), None)
        .unwrap();

    assert_eq!(setting.value, "из файла");
    assert_eq!(setting.source, Source::File("C:/cfg.ini".to_string()));
}

#[test]
fn default_is_last() {
    let resolver = Resolver::new(None);

    let setting = resolver.get_or("--nothing-like-this", "MCP_TEST_ABSENT_KEY", None, "300", &args(&["exe"]), None);

    assert_eq!(setting.value, "300");
    assert_eq!(setting.source, Source::Default);
}

#[test]
fn missing_required_names_every_source() {
    let resolver = Resolver::new(None);

    let err = resolver
        .require(
            "base_url",
            "--base-url",
            "ITCOOLMCPRUN1C_BASE_URL",
            None,
            "[service] base_url",
            &args(&["exe"]),
            None,
        )
        .unwrap_err();

    let text = err.message();
    assert!(text.contains("--base-url"), "{}", text);
    assert!(text.contains("ITCOOLMCPRUN1C_BASE_URL"), "{}", text);
    assert!(text.contains("[service] base_url"), "{}", text);
}

#[test]
fn secret_is_masked() {
    assert_eq!(mask("itcool"), "itc***");
    assert_eq!(mask("abc"), "***");
    assert_eq!(mask(""), "***");
}

#[test]
fn bom_is_detected_and_stripped() {
    let (text, had_bom) = strip_bom("\u{feff}[paths]");
    assert_eq!(text, "[paths]");
    assert!(had_bom);

    let (text, had_bom) = strip_bom("[paths]");
    assert_eq!(text, "[paths]");
    assert!(!had_bom);
}

#[test]
fn report_line_names_key_value_and_source() {
    let setting = Setting {
        value: "/conf".to_string(),
        source: Source::Arg("--conf-dir".to_string()),
    };

    assert_eq!(setting.report("conf-dir"), "conf-dir = /conf (--conf-dir)");
}

#[test]
fn masked_report_hides_secret() {
    let setting = Setting {
        value: "itcool".to_string(),
        source: Source::Env("ITCOOLMCPRUN1C_PASSWORD".to_string()),
    };

    let line = setting.report_masked("password");
    assert!(!line.contains("itcool"), "пароль в журнале: {}", line);
    assert!(line.contains("itc***"), "{}", line);
}

#[test]
fn environment_beats_file_and_empty_environment_does_not() {
    let resolver = Resolver::new(Some("cfg.ini".to_string()));

    let from_env = resolver
        .get("--key", "KEY", Some("file".into()), &args(&["exe"]), Some("env".into()))
        .unwrap();
    assert_eq!(from_env.value, "env");
    assert_eq!(from_env.source, Source::Env("KEY".to_string()));

    let empty_env = resolver
        .get("--key", "KEY", Some("file".into()), &args(&["exe"]), Some(String::new()))
        .unwrap();
    assert_eq!(empty_env.value, "file");

    let from_arg = resolver
        .get("--key", "KEY", Some("file".into()), &args(&["exe", "--key", "arg"]), Some("env".into()))
        .unwrap();
    assert_eq!(from_arg.value, "arg");
    assert_eq!(from_arg.source, Source::Arg("--key".to_string()));
}

#[test]
fn source_descriptions() {
    assert_eq!(Source::Env("X".to_string()).describe(), "env X");
    assert_eq!(Source::File("f.ini".to_string()).describe(), "файл f.ini");
    assert_eq!(Source::Default.describe(), "дефолт");
}
