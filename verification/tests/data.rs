use itcoolmcplang1c::data::{DataManager, DiskUsage};

#[test]
fn test_disk_usage_format() {
    assert_eq!(DiskUsage::format_size(500), "500 bytes");
    assert_eq!(DiskUsage::format_size(1024), "1.00 KB");
    assert_eq!(DiskUsage::format_size(1024 * 1024), "1.00 MB");
    assert_eq!(DiskUsage::format_size(1024 * 1024 * 1024), "1.00 GB");
}

fn float_format(bytes: u64) -> String {
    const KB: u64 = 1024;
    const MB: u64 = KB * 1024;
    const GB: u64 = MB * 1024;
    if bytes >= GB {
        format!("{:.2} GB", bytes as f64 / GB as f64)
    } else if bytes >= MB {
        format!("{:.2} MB", bytes as f64 / MB as f64)
    } else if bytes >= KB {
        format!("{:.2} KB", bytes as f64 / KB as f64)
    } else {
        format!("{} bytes", bytes)
    }
}

#[test]
fn integer_formatting_agrees_with_float_formatting() {
    let mut samples: Vec<u64> = vec![0, 1, 1023, 1024, 1025, 1152, 1160, 1536, 10_239, 10_240, 1_048_575, 1_048_576];
    for shift in 10..64 {
        let base = 1u64 << shift;
        for delta in [0u64, 1, 5, 10, 11, 512, 1000, 5243, 10_485] {
            samples.push(base.saturating_add(delta));
            samples.push(base.saturating_sub(delta));
            samples.push(base.saturating_add(base / 8).saturating_add(delta));
        }
    }
    samples.push(u64::MAX);
    samples.push(u64::MAX - 1);
    samples.push((1u64 << 53) + 1);
    samples.push((1u64 << 54) + 2);
    samples.push((1u64 << 54) + 6);
    let mut x: u64 = 0x9E37_79B9_7F4A_7C15;
    for _ in 0..20_000 {
        x ^= x << 13;
        x ^= x >> 7;
        x ^= x << 17;
        samples.push(x >> (x % 60));
    }
    for bytes in samples {
        assert_eq!(DiskUsage::format_size(bytes), float_format(bytes), "bytes = {}", bytes);
    }
}

#[test]
fn test_data_manager_creation() {
    let temp_dir = tempfile::TempDir::new().unwrap();
    let root = temp_dir.path().to_str().unwrap().to_string();

    let dm = DataManager::new(root.clone(), true).unwrap();

    assert_eq!(dm.data_path(), root);
    let dirs = dm.subdirectories();
    assert_eq!(dirs, vec![format!("{root}/languages"), format!("{root}/cache"), format!("{root}/logs")]);
}

#[test]
fn missing_data_dir_is_an_error() {
    let err = DataManager::new("/no-such-dir".to_string(), false).unwrap_err();
    assert_eq!(
        err,
        "ru: Папка данных не существует: \"/no-such-dir\", en: Data directory does not exist: \"/no-such-dir\""
    );
}

#[test]
fn disk_usage_totals() {
    let dm = DataManager::new("/d".to_string(), true).unwrap();
    let usage = dm.get_disk_usage(1, 2, 3);
    assert_eq!(usage.total, 6);
    assert_eq!(usage.logs, 3);
}
