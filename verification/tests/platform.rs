use itcoolmcplang1c::lang::HelpLang;
use itcoolmcplang1c::platform::{
    book_places, detect_version, discover, from_dir, join_path, not_found_hint, version_key, Platform,
};

fn file_in(dir: &std::path::Path, name: &str) -> tempfile::NamedTempFile {
    tempfile::Builder::new().rand_bytes(0).prefix(name).tempfile_in(dir).unwrap()
}

/// The platform of a directory, looking on disk where its entry book lies.
fn from_disk(dir: &str, lang: &HelpLang, hint: Option<&str>) -> Result<Platform, String> {
    let (beside, in_bin_dir) = book_places(dir, lang);
    let in_dir = std::path::Path::new(&beside).is_file();
    let in_bin = !in_dir && std::path::Path::new(&in_bin_dir).is_file();
    from_dir(dir, lang, hint, in_dir, in_bin)
}

/// The help books of a platform, looking on disk which are files.
fn books_on_disk(platform: &Platform, lang: &HelpLang) -> Vec<String> {
    let present: Vec<bool> = platform.book_candidates(lang).iter().map(|p| std::path::Path::new(p).is_file()).collect();
    platform.help_books(lang, &present)
}

fn dir_in(dir: &std::path::Path, name: &str) -> tempfile::TempDir {
    tempfile::Builder::new().rand_bytes(0).prefix(name).tempdir_in(dir).unwrap()
}

fn ru() -> HelpLang {
    HelpLang::from_code("ru").unwrap()
}

#[test]
fn document_version_drops_the_build_number() {
    let platform = Platform {
        bin_dir: "/x".to_string(),
        version: "8.3.27.1936".to_string(),
    };

    assert_eq!(platform.document_version(), "8.3.27");
}

#[test]
fn document_version_keeps_short_version_as_is() {
    let platform = Platform {
        bin_dir: "/x".to_string(),
        version: "8.3".to_string(),
    };

    assert_eq!(platform.document_version(), "8.3");
}

#[test]
fn version_is_detected_from_the_directory_above_bin() {
    assert_eq!(
        detect_version("/opt/1cv8/x86_64/8.3.27.1936/bin"),
        Some("8.3.27.1936".to_string())
    );
    assert_eq!(detect_version("/home/user/help"), None);
}

#[test]
fn versions_compare_numerically() {
    assert!(version_key("8.3.27.1936") > version_key("8.3.9.1"));
    assert!(version_key("8.3.24.1368") < version_key("8.3.27.1936"));
}

#[test]
fn directory_without_help_is_rejected() {
    let temp = tempfile::TempDir::new().unwrap();

    let err = from_disk(temp.path().to_str().unwrap(), &ru(), None).unwrap_err();

    assert!(err.contains("shcntx_ru.hbk"), "{}", err);
}

#[test]
fn version_directory_resolves_to_its_bin() {
    let temp = tempfile::TempDir::new().unwrap();
    let version = dir_in(temp.path(), "8.3.27.1936");
    let version_dir = version.path().to_path_buf();
    let bin_dir = dir_in(&version_dir, "bin");
    let bin = bin_dir.path().to_path_buf();
    let _book = file_in(&bin, "shcntx_ru.hbk");

    let platform = from_disk(version_dir.to_str().unwrap(), &ru(), None).unwrap();

    assert_eq!(platform.bin_dir, bin.to_str().unwrap());
    assert_eq!(platform.version, "8.3.27.1936");
}

#[test]
fn version_hint_overrides_detection() {
    let temp = tempfile::TempDir::new().unwrap();
    let _book = file_in(temp.path(), "shcntx_ru.hbk");

    let platform = from_disk(temp.path().to_str().unwrap(), &ru(), Some("8.3.27.1936")).unwrap();

    assert_eq!(platform.document_version(), "8.3.27");
}

#[test]
fn help_books_list_only_existing_files() {
    let temp = tempfile::TempDir::new().unwrap();
    let _entry = file_in(temp.path(), "shcntx_ru.hbk");
    let _query = file_in(temp.path(), "shquery_ru.hbk");

    let platform = from_disk(temp.path().to_str().unwrap(), &ru(), Some("8.3.27.1936")).unwrap();
    let books = books_on_disk(&platform, &ru());

    assert_eq!(books.len(), 2);
    assert!(books.iter().any(|p| p.ends_with("shquery_ru.hbk")));
    assert!(!books.iter().any(|p| p.ends_with("shlang_ru.hbk")));
}

#[test]
fn decisions_without_disk() {
    let lang = ru();
    let p = from_dir("/opt/8.3.25.1", &lang, None, false, true).unwrap();
    assert_eq!(p.bin_dir, "/opt/8.3.25.1/bin");
    assert_eq!(p.version, "8.3.25.1");

    let err = from_dir("/home/help", &lang, None, true, false).unwrap_err();
    assert!(err.contains("--platform-version"), "{}", err);
    assert!(err.contains("\"/home/help\""), "{}", err);

    let err = from_dir("/nowhere", &lang, Some("8.3"), false, false).unwrap_err();
    assert!(err.starts_with("ru: В каталоге \"/nowhere\" нет файла справки shcntx_ru.hbk (язык ru)"), "{}", err);

    let p = from_dir("/d", &lang, Some(""), true, false);
    assert!(p.is_err(), "an empty hint does not count");
}

#[test]
fn detection_edge_cases() {
    assert_eq!(detect_version("8.3.1/bin/"), Some("8.3.1".to_string()));
    assert_eq!(detect_version("/opt/8.3.1"), Some("8.3.1".to_string()));
    assert_eq!(detect_version("/opt/8..3/bin"), None);
    assert_eq!(detect_version("/opt/8.3./bin"), None);
    assert_eq!(detect_version("/opt/83/bin"), None);
    assert_eq!(detect_version("bin"), None);
    assert_eq!(detect_version("/"), None);
}

#[test]
fn keys_and_paths() {
    assert_eq!(version_key("8.3.x"), Vec::<u64>::new());
    assert_eq!(version_key("+8.3"), vec![8, 3]);
    assert_eq!(version_key("99999999999999999999.1"), Vec::<u64>::new());
    assert_eq!(join_path("/a/", "b"), "/a/b");
    assert_eq!(join_path("", "b"), "b");
    assert_eq!(join_path("/a", "b"), "/a/b");
}

#[test]
fn hint_lists_searched_roots() {
    let roots = vec!["/opt/1cv8/x86_64".to_string(), "/opt/1cv8/i386".to_string()];
    let hint = not_found_hint(&ru(), &roots);
    assert!(hint.starts_with("Установка платформы 1С не найдена. Искали shcntx_ru.hbk внутри: /opt/1cv8/x86_64, /opt/1cv8/i386."), "{}", hint);
}

#[test]
fn discovery_picks_the_newest_numeric_version() {
    let candidates = vec![
        ("8.3.9.1".to_string(), "/opt/1cv8/x86_64/8.3.9.1/bin".to_string()),
        ("8.3.27.1936".to_string(), "/opt/1cv8/x86_64/8.3.27.1936/bin".to_string()),
        ("common".to_string(), "/opt/1cv8/x86_64/common/bin".to_string()),
        ("8.3.24.1368".to_string(), "/opt/1cv8/x86_64/8.3.24.1368/bin".to_string()),
    ];

    let found = discover(candidates).unwrap();

    assert_eq!(found.version, "8.3.27.1936");
    assert_eq!(found.bin_dir, "/opt/1cv8/x86_64/8.3.27.1936/bin");
}

#[test]
fn discovery_without_versions_finds_nothing() {
    assert!(discover(vec![]).is_none());
    assert!(discover(vec![("common".to_string(), "/x/common/bin".to_string())]).is_none());
}

#[test]
fn of_equal_versions_the_last_found_wins() {
    let candidates = vec![
        ("8.3.27".to_string(), "/a/bin".to_string()),
        ("8.3.27".to_string(), "/b/bin".to_string()),
    ];

    assert_eq!(discover(candidates).unwrap().bin_dir, "/b/bin");
}

#[test]
fn help_books_keep_table_order() {
    let platform = Platform { bin_dir: "/opt/1cv8/x86_64/8.3.27.1936/bin".to_string(), version: "8.3.27.1936".to_string() };
    let books = platform.help_books(&ru(), &[true, false, true, true]);
    assert_eq!(
        books,
        vec![
            "/opt/1cv8/x86_64/8.3.27.1936/bin/shcntx_ru.hbk".to_string(),
            "/opt/1cv8/x86_64/8.3.27.1936/bin/shclang_ru.hbk".to_string(),
            "/opt/1cv8/x86_64/8.3.27.1936/bin/shquery_ru.hbk".to_string(),
        ]
    );
    assert!(platform.help_books(&ru(), &[false, false, false, false]).is_empty());
}

#[test]
fn version_is_detected_from_a_windows_path() {
    assert_eq!(
        detect_version(r"C:\Program Files\1cv8\8.3.27.1936\bin").as_deref(),
        Some("8.3.27.1936")
    );
    assert_eq!(detect_version(r"C:\Program Files\1cv8\common"), None);
}
