use itcoolmcplang1c::paths::{data_dir_missing, launch_data_dir, wants_default_root, config_in_dir, knowledge_dir_in, normalize, normalize_windows, resolve_relative, resolve_relative_windows};
use itcoolmcplang1c::platform::join_path;
use std::io::Write;
use std::path::Path;

fn file_in(dir: &Path, name: &str, content: &str) -> tempfile::NamedTempFile {
    let mut f = tempfile::Builder::new().rand_bytes(0).prefix(name).tempfile_in(dir).unwrap();
    f.write_all(content.as_bytes()).unwrap();
    f
}

fn dir_in(dir: &Path, name: &str) -> tempfile::TempDir {
    tempfile::Builder::new().rand_bytes(0).prefix(name).tempdir_in(dir).unwrap()
}

#[test]
fn absolute_path_ignores_base_dir() {
    let base = "X:/knowledge";
    let absolute = "Y:/elsewhere/data";

    let resolved = resolve_relative(base, absolute);

    assert_eq!(resolved, normalize(absolute), "база отсчёта не при делах");
    assert!(
        !Path::new(&resolved).starts_with(base),
        "абсолютный путь не разворачивается от базы: {resolved:?}"
    );
}

#[test]
fn relative_path_unfolds_from_knowledge_root() {
    let base = "X:/knowledge";

    assert_eq!(Path::new(&resolve_relative(base, "./data")), Path::new(base).join("data"));
}

#[test]
fn current_dir_segments_do_not_reach_the_report() {
    let base = "X:/knowledge";

    for input in ["./data", "data/./", "././data"] {
        let resolved = resolve_relative(base, input);

        assert!(
            !Path::new(&resolved)
                .components()
                .any(|c| matches!(c, std::path::Component::CurDir)),
            "сегмент «.» остался в {resolved:?} (вход {input})"
        );
    }

    assert_eq!(normalize("./"), ".");
}

#[test]
fn normalize_keeps_root_and_parent_segments() {
    assert_eq!(normalize("/a/./b//c/"), "/a/b/c");
    assert_eq!(normalize("a/../b"), "a/../b");
    assert_eq!(normalize("/"), "/");
    assert_eq!(normalize(""), ".");
    assert_eq!(resolve_relative("/base", "/abs/x"), "/abs/x");
    assert_eq!(resolve_relative("/base/", "rel"), "/base/rel");
}

#[test]
fn config_is_found_inside_knowledge_root() {
    let temp = tempfile::TempDir::new().unwrap();
    let expected = temp.path().join("itcoolmcplang1c.toml");
    let _config = file_in(temp.path(), "itcoolmcplang1c.toml", "[search]\nmax_results = 5\n");

    let found = config_on_disk(temp.path().to_str().unwrap());

    assert_eq!(Path::new(&found), expected);
}

#[test]
fn legacy_config_name_is_still_found_in_root() {
    let temp = tempfile::TempDir::new().unwrap();
    let expected = temp.path().join("config.toml");
    let _config = file_in(temp.path(), "config.toml", "[search]\nmax_results = 5\n");

    let found = config_on_disk(temp.path().to_str().unwrap());

    assert_eq!(Path::new(&found), expected);
}

#[test]
fn missing_config_still_points_inside_root() {
    let temp = tempfile::TempDir::new().unwrap();

    let found = config_on_disk(temp.path().to_str().unwrap());

    assert_eq!(Path::new(&found), temp.path().join("itcoolmcplang1c.toml"));
}

#[test]
fn nested_data_dir_wins_over_root() {
    let temp = tempfile::TempDir::new().unwrap();
    let _data = dir_in(temp.path(), "data");
    let _backup = dir_in(temp.path(), "backup");

    assert_eq!(Path::new(&knowledge_dir_on_disk(temp.path().to_str().unwrap())), temp.path().join("data"));
}

#[test]
fn flat_layout_falls_back_to_root() {
    let temp = tempfile::TempDir::new().unwrap();

    assert_eq!(Path::new(&knowledge_dir_on_disk(temp.path().to_str().unwrap())), temp.path());
}

#[test]
fn knowledge_dir_prefers_nested_data_when_told() {
    assert_eq!(Path::new(&knowledge_dir_in("/srv/kb", true)), Path::new("/srv/kb").join("data"));
    assert_eq!(knowledge_dir_in("/srv/kb", false), "/srv/kb");
}

#[test]
fn config_prefers_new_name_then_legacy() {
    let main = Path::new("/etc/app").join("itcoolmcplang1c.toml");
    let legacy = Path::new("/etc/app").join("config.toml");
    assert_eq!(Path::new(&config_in_dir("/etc/app", true, true)), main);
    assert_eq!(Path::new(&config_in_dir("/etc/app", false, true)), legacy);
    assert_eq!(Path::new(&config_in_dir("/etc/app", false, false)), main);
}

#[test]
fn separators_are_one_kind_on_windows() {
    let resolved = normalize_windows(&join_path("F:/knowledge", "data"));

    assert_eq!(resolved, r"F:\knowledge\data");
    assert!(!resolved.contains('/'), "в пути остался чужой разделитель: {resolved:?}");
}

#[test]
fn windows_paths_keep_drive_root_and_network_prefix() {
    assert_eq!(normalize_windows(r"C:\"), r"C:\");
    assert_eq!(normalize_windows("C:/base/./kb"), r"C:\base\kb");
    assert_eq!(normalize_windows("F:data"), "F:data");
    assert_eq!(normalize_windows(r"\\server\share\.\kb"), r"\\server\share\kb");
    assert_eq!(normalize_windows("/opt/kb"), r"\opt\kb");
    assert_eq!(normalize_windows("."), ".");
    assert_eq!(normalize_windows(""), ".");
    assert_eq!(resolve_relative_windows(r"C:\srv", "./data"), r"C:\srv\data");
    assert_eq!(resolve_relative_windows(r"C:\srv", "D:/kb"), r"D:\kb");
}

#[test]
fn normalizing_twice_changes_nothing() {
    for p in ["./a/./b/", "/x/./../y", "./", ".", "", "a//b", "/"] {
        let once = normalize(p);
        assert_eq!(normalize(&once), once);
        assert!(once == "." || !once.split('/').any(|s| s == "."));
    }
    assert_eq!(normalize("/x/./../y"), "/x/../y");
}

/// The configuration file of a directory, looking on disk which names exist.
fn config_on_disk(dir: &str) -> String {
    let main_exists = Path::new(&join_path(dir, "itcoolmcplang1c.toml")).exists();
    let legacy_exists = !main_exists && Path::new(&join_path(dir, "config.toml")).exists();
    config_in_dir(dir, main_exists, legacy_exists)
}

/// The knowledge directory of a root, looking on disk for a nested `data`.
fn knowledge_dir_on_disk(root: &str) -> String {
    knowledge_dir_in(root, Path::new(&join_path(root, "data")).is_dir())
}

#[test]
fn launch_picks_the_knowledge_directory() {
    assert!(wants_default_root(true, false, false));
    assert!(!wants_default_root(true, true, false));
    assert!(!wants_default_root(false, false, false));
    assert!(data_dir_missing(false, false, false, false, false));
    assert!(!data_dir_missing(false, false, false, true, false));

    assert_eq!(
        Path::new(&launch_data_dir(Some("/kb"), true, false, None, "/kb", "./data", false)),
        Path::new("/kb").join("data")
    );
    assert_eq!(launch_data_dir(Some("/kb"), false, false, None, "/kb", "./data", false), "/kb");
    assert_eq!(launch_data_dir(None, false, false, Some("/home/u/.cache/x"), "/home/u/.cache/x", "./data", false), "/home/u/.cache/x");
    assert_eq!(launch_data_dir(Some("/kb"), true, true, None, "/kb", "./store", false), "/kb/store");
    assert_eq!(launch_data_dir(None, false, true, None, r"C:\srv", "./store", true), r"C:\srv\store");
}
