use beamng_editor::backup::{
    backup_file_name, format_size, is_backup_file, meta_path, sanitize_key, sort_backups, validate_backup_file,
    BackupIndex, BackupManager, BackupMetadata,
};
use beamng_editor::digest::checksum_bytes;

fn meta(key: &str, at: i64, version: u32) -> BackupMetadata {
    BackupMetadata::for_new_backup(
        &format!("b/{key}/{key}_{version}.pc"),
        &format!("v/{key}.pc"),
        key,
        key,
        "test",
        version,
        b"{}",
        at,
    )
}

#[test]
fn sizes_match_two_decimal_formatting() {
    let samples: [u64; 16] = [
        0, 1, 1023, 1024, 1025, 1536, 10_000, 1_048_575, 1_048_576, 1_572_864, 5_000_000, 123_456_789,
        1_073_741_824, 999_999_999_999, 9_007_199_254_740_993, u64::MAX,
    ];
    for b in samples {
        let f = b as f64;
        let expected = if f >= 1048576.0 {
            format!("{:.2} MB", f / 1048576.0)
        } else if f >= 1024.0 {
            format!("{:.2} KB", f / 1024.0)
        } else {
            format!("{} B", b)
        };
        assert_eq!(format_size(b), expected, "bytes = {b}");
    }
}

#[test]
fn size_formula_values() {
    assert_eq!(format_size(512), "512 B");
    assert_eq!(format_size(1536), "1.50 KB");
    assert_eq!(format_size(3 * 1048576), "3.00 MB");
}

#[test]
fn keys_are_sanitized() {
    assert_eq!(sanitize_key("pickup v8/é-x_1"), "pickup_v8__-x_1");
    assert_eq!(BackupManager::vehicle_backup_dir("root/backups", "a b"), "root/backups/a_b");
}

#[test]
fn backup_names() {
    assert_eq!(backup_file_name("pickup", "20240101_120000", 7), "pickup_20240101_120000_v007.pc");
    assert_eq!(backup_file_name("pickup", "t", 1234), "pickup_t_v1234.pc");
    assert!(is_backup_file("b/pickup_t_v001.pc"));
    assert!(!is_backup_file("b/pickup_t_v001.meta.json"));
    assert_eq!(meta_path("b/pickup_t_v001.pc"), "b/pickup_t_v001.meta.json");
}

#[test]
fn checksum_is_sha256_hex() {
    assert_eq!(checksum_bytes(b"abc"), "ba7816bf8f01cfea414140de5dae2223b00361a396177a9cb410ff61f20015ad");
    let m = meta("k", 5, 1);
    assert_eq!(m.file_size, 2);
    assert_eq!(m.checksum, checksum_bytes(b"{}"));
}

#[test]
fn backups_sort_by_time_stably() {
    let v = vec![meta("k", 30, 1), meta("k", 10, 2), meta("k", 30, 3), meta("k", 20, 4)];
    let sorted = sort_backups(v);
    let order: Vec<u32> = sorted.iter().map(|m| m.version).collect();
    assert_eq!(order, vec![2, 4, 1, 3]);
}

#[test]
fn index_lookups() {
    let mut idx = BackupIndex::new();
    assert!(idx.needs_initial_backup("pickup"));
    assert!(idx.latest_for("pickup").is_none());
    idx.push_backup(meta("pickup", 1, 1));
    idx.push_backup(meta("pickup", 2, 2));
    idx.push_backup(meta("bx", 3, 1));
    assert_eq!(idx.backups_for("pickup").len(), 2);
    assert_eq!(idx.latest_for("pickup").unwrap().version, 2);
    assert!(!idx.needs_initial_backup("pickup"));
    let all: Vec<(String, u32)> = idx.all_backups().iter().map(|m| (m.vehicle_key.clone(), m.version)).collect();
    assert_eq!(all, vec![("bx".to_string(), 1), ("pickup".to_string(), 1), ("pickup".to_string(), 2)]);
    assert_eq!(idx.vehicle_keys(), vec!["bx".to_string(), "pickup".to_string()]);
}

#[test]
fn latest_after_push_is_the_pushed_backup() {
    let mut idx = BackupIndex::new();
    idx.push_backup(meta("a", 10, 1));
    idx.push_backup(meta("a", 5, 9));
    assert_eq!(idx.latest_for("a").unwrap().version, 9);
}

#[test]
fn restore_all_takes_the_earliest_of_each_vehicle() {
    let mut idx = BackupIndex::new();
    idx.load_vehicle("b".to_string(), vec![meta("b", 9, 2), meta("b", 1, 1)]);
    idx.load_vehicle("a".to_string(), vec![meta("a", 1, 1)]);
    idx.set_vehicle("c".to_string(), Vec::new());
    let plan = BackupManager::restore_all(&idx);
    let got: Vec<(String, u32)> = plan.iter().map(|(k, m)| (k.clone(), m.version)).collect();
    assert_eq!(got, vec![("a".to_string(), 1), ("b".to_string(), 1)]);
    assert_eq!(idx.latest_for("b").unwrap().version, 2);
}

#[test]
fn restore_checks() {
    let m = meta("a", 1, 1);
    let e = BackupManager::restore_backup(&m, false, Ok(())).unwrap_err();
    assert_eq!(e.message, "Backup file missing: b/a/a_1.pc");
    let e2 = BackupManager::restore_backup(&m, true, validate_backup_file("{ nope")).unwrap_err();
    assert!(e2.message.starts_with("JSON error: "));
    let ok = BackupManager::restore_backup(&m, true, validate_backup_file("{}")).unwrap();
    assert_eq!(ok, ("b/a/a_1.pc".to_string(), "v/a.pc".to_string()));
}

#[test]
fn initial_backup_only_once() {
    let mut idx = BackupIndex::new();
    assert_eq!(
        BackupManager::ensure_initial_backup(&idx, "v/a.pc"),
        Some("initial auto-backup before first edit".to_string())
    );
    idx.push_backup(meta("a", 1, 1));
    assert_eq!(BackupManager::ensure_initial_backup(&idx, "v/a.pc"), None);
}

#[test]
fn new_backup_plan() {
    let plan = BackupManager::create_backup("v/pickup.pc", "root/backups", 2).unwrap();
    assert_eq!(plan.vehicle_key, "pickup");
    assert_eq!(plan.dir, "root/backups/pickup");
    assert_eq!(plan.version, 3);
    assert_eq!(plan.timestamp.len(), 15);
    let ts: Vec<char> = plan.timestamp.chars().collect();
    assert_eq!(ts[8], '_');
    assert!(ts.iter().enumerate().all(|(i, c)| i == 8 || c.is_ascii_digit()));
    let year: i32 = plan.timestamp[0..4].parse().unwrap();
    assert!(year >= 1969);
    assert_eq!(plan.backup_path, format!("root/backups/pickup/pickup_{}_v003.pc", plan.timestamp));
}

#[test]
fn metadata_dates() {
    let m = BackupManager::build_metadata("b/x.pc", "v/x.pc", "x", "X", "r", 1, b"abc").unwrap();
    assert!(m.created_at_ms > 1_600_000_000_000);
    let imported = BackupManager::metadata_from_file("b/x.pc", "x", b"abc", Some(42)).unwrap();
    assert_eq!(imported.created_at_ms, 42);
    assert_eq!(imported.reason, "imported");
    assert_eq!(imported.version, 0);
    assert_eq!(imported.original_path, "");
}

#[test]
fn backup_plan_at_a_given_time() {
    let plan = BackupManager::plan_backup_at("v/pickup.pc", "root", 0, Some((2024, 3, 9, 7, 5, 1))).unwrap();
    assert_eq!(plan.timestamp, "20240309_070501");
    assert_eq!(plan.version, 1);
    assert_eq!(plan.backup_path, "root/pickup/pickup_20240309_070501_v001.pc");
    let far = BackupManager::plan_backup_at("v/pickup.pc", "root", 0, Some((12345, 12, 31, 23, 59, 59))).unwrap();
    assert_eq!(far.timestamp, "+123451231_235959");
}

#[test]
fn backup_plan_without_a_local_time() {
    let none = BackupManager::plan_backup_at("v/pickup.pc", "root", 0, None);
    assert_eq!(none.unwrap_err().message, "Could not read the local time");
    let bad = BackupManager::plan_backup_at("v/pickup.pc", "root", 0, Some((2024, 13, 1, 0, 0, 0)));
    assert!(bad.is_err());
    let early = BackupManager::plan_backup_at("v/pickup.pc", "root", 0, Some((1900, 1, 1, 0, 0, 0)));
    assert!(early.is_err());
}

#[test]
fn the_clock_reads_after_the_epoch() {
    let ms = beamng_editor::backup::now_millis().unwrap();
    assert!(ms > 1_600_000_000_000);
    let (y, mo, d, h, mi, s) = beamng_editor::backup::local_now().unwrap();
    assert!(y >= 2020);
    assert!((1..=12).contains(&mo) && (1..=31).contains(&d));
    assert!(h <= 23 && mi <= 59 && s <= 59);
}
