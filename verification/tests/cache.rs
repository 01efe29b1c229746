use itcoolmcplang1c::cache::{cache_root, meta_for, path_for, same_meta, SourceStamp};
use itcoolmcplang1c::lang::HelpLang;
use itcoolmcplang1c::platform::Platform;

fn platform() -> Platform {
    Platform { bin_dir: "/opt/1cv8/x86_64/8.3.27.1936/bin".to_string(), version: "8.3.27.1936".to_string() }
}

fn stamps(size: u64) -> Vec<SourceStamp> {
    vec![SourceStamp { name: "shcntx_ru.hbk".to_string(), size, mtime: Some(1_700_000_000) }]
}

#[test]
fn fresh_cache_is_accepted() {
    let platform = platform();
    let lang = HelpLang::from_code("ru").unwrap();

    let stored = meta_for(&platform, &lang, stamps(4));

    assert_eq!(stored, meta_for(&platform, &lang, stamps(4)));
    assert!(same_meta(&stored, &meta_for(&platform, &lang, stamps(4))));
}

#[test]
fn changed_book_invalidates_the_stamp() {
    let platform = platform();
    let lang = HelpLang::from_code("ru").unwrap();
    let before = meta_for(&platform, &lang, stamps(4));

    let after = meta_for(&platform, &lang, stamps(24));

    assert_ne!(before, after);
    assert!(!same_meta(&before, &after));
}

#[test]
fn platform_version_is_part_of_the_key() {
    let mut platform = platform();
    let lang = HelpLang::from_code("ru").unwrap();
    let before = meta_for(&platform, &lang, stamps(4));

    platform.version = "8.3.24.1368".to_string();

    assert_ne!(before, meta_for(&platform, &lang, stamps(4)));
    assert!(!same_meta(&before, &meta_for(&platform, &lang, stamps(4))));
    assert_ne!(path_for(Some("/home/u/.cache/itcoolmcplang1c"), &platform, &lang), None);
}

#[test]
fn language_separates_cache_files() {
    let platform = platform();

    let ru = path_for(Some("/c"), &platform, &HelpLang::from_code("ru").unwrap());
    let en = path_for(Some("/c"), &platform, &HelpLang::from_code("en").unwrap());

    assert_ne!(ru, en);
    assert_eq!(ru.as_deref(), Some("/c/index-ru-8.3.27.1936.json"));
    assert_eq!(en.as_deref(), Some("/c/index-en-8.3.27.1936.json"));
}

#[test]
fn cache_lives_in_its_own_directory() {
    assert_eq!(cache_root(Some("/home/u/.cache")).as_deref(), Some("/home/u/.cache/itcoolmcplang1c"));
    assert_eq!(cache_root(None), None);
    assert_eq!(path_for(None, &platform(), &HelpLang::from_code("ru").unwrap()), None);
}

#[test]
fn missing_modification_time_differs_from_a_known_one() {
    let platform = platform();
    let lang = HelpLang::from_code("ru").unwrap();
    let known = meta_for(&platform, &lang, stamps(4));
    let unknown = meta_for(&platform, &lang, vec![SourceStamp { name: "shcntx_ru.hbk".to_string(), size: 4, mtime: None }]);

    assert!(!same_meta(&known, &unknown));
}
