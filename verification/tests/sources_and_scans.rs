use beamng_editor::scan_util::{mod_zip_dirs, zip_scan_dirs};
use beamng_editor::scanner::{
    build_local_entry, build_zip_entry, config_name_from_info, count_configs_per_folder, count_local_configs,
    configs_in_folder, find_thumbnail, format_display_name, stock_info_candidates, vehicle_folder_from_pc_entry,
    vehicle_pc_entries, zip_mod_name, ScanKind, ScanOutcome, ScanStep, ScanTally, VehicleCategory, VehicleScanner,
};
use beamng_editor::error::AppError;
use beamng_editor::json::JsonValue;
use beamng_editor::settings::{AppSettings, DirProbe};
use beamng_editor::vehicle_source::{
    cache_key, extract_target, find_thumbnail_for_pc, find_thumbnail_in_folder, find_thumbnail_in_zip,
    is_image_name, is_image_path, pick_thumbnail_from_zip_index, thumbnail_candidate_names, zip_entry_folder,
    zip_rewrite_names, FolderListing, LocalPathStep, ThumbnailSource, VehicleLocation, WriteBackStep,
};

fn strings(v: &[&str]) -> Vec<String> {
    v.iter().map(|s| s.to_string()).collect()
}

fn listing(is_dir: bool, files: &[&str], ui: &[&str]) -> FolderListing {
    FolderListing { is_dir, files: strings(files), ui_files: strings(ui) }
}

fn empty_listing() -> FolderListing {
    listing(false, &[], &[])
}

#[test]
fn locations() {
    let local = VehicleLocation::Local { config_path: "v/a.pc".to_string() };
    assert_eq!(local.config_path().map(|s| s.as_str()), Some("v/a.pc"));
    assert_eq!(local.display_label(), "v/a.pc");
    assert!(matches!(local.ensure_local_path(false), LocalPathStep::Ready(p) if p == "v/a.pc"));
    assert!(matches!(local.write_back("v/a.pc"), WriteBackStep::Nothing));
    assert!(matches!(local.write_back("c/a.pc"), WriteBackStep::Copy { from, to } if from == "c/a.pc" && to == "v/a.pc"));
    let mut z = VehicleLocation::Zip { archive_path: "m.zip".to_string(), pc_entry: "vehicles/x/a.pc".to_string(), cached_path: None };
    assert_eq!(z.display_label(), "m.zip!vehicles/x/a.pc");
    assert!(z.config_path().is_none());
    assert!(matches!(z.ensure_local_path(true), LocalPathStep::Extract { .. }));
    z.set_cached_path("cache/k/a.pc".to_string());
    assert!(matches!(z.ensure_local_path(true), LocalPathStep::Ready(p) if p == "cache/k/a.pc"));
    assert!(matches!(z.ensure_local_path(false), LocalPathStep::Extract { archive_path, entry } if archive_path == "m.zip" && entry == "vehicles/x/a.pc"));
    assert!(matches!(z.write_back("e.pc"), WriteBackStep::ReplaceEntry { from, .. } if from == "e.pc"));
}

#[test]
fn cache_keys_hash_archive_and_entry() {
    let k = cache_key("a", "bc");
    assert_eq!(k, "ba7816bf8f01cfea414140de5dae2223b00361a396177a9cb410ff61f20015ad");
    assert_eq!(extract_target("cache", "a", "bc"), format!("cache/{k}/bc"));
    assert_eq!(extract_target("cache", "a", "bc/"), format!("cache/{}/bc", cache_key("a", "bc/")));
    assert!(extract_target("cache", "a", "").ends_with("/config.pc"));
}

#[test]
fn image_names() {
    assert!(is_image_name("Preview.JPG"));
    assert!(is_image_name("x.webp"));
    assert!(!is_image_name("x.gif"));
    assert!(is_image_path("a/b/c.png"));
    assert_eq!(thumbnail_candidate_names("base").len(), 8);
    assert_eq!(thumbnail_candidate_names("base")[0], "base.jpg");
}

#[test]
fn folder_thumbnails() {
    let l = listing(true, &["x.png", "default.png", "base.png"], &["z.jpg", "a.png", "notes.txt"]);
    assert_eq!(find_thumbnail_in_folder("v/pickup", "base", &l), Some("v/pickup/base.png".to_string()));
    let l2 = listing(true, &["x.png"], &["z.jpg", "a.png", "notes.txt"]);
    assert_eq!(find_thumbnail_in_folder("v/pickup", "base", &l2), Some("v/pickup/ui/a.png".to_string()));
    let l3 = listing(true, &["readme.txt", "x.png", "y.png"], &[]);
    assert_eq!(find_thumbnail_in_folder("v/pickup", "base", &l3), Some("v/pickup/x.png".to_string()));
    assert_eq!(find_thumbnail_in_folder("v/pickup", "base", &listing(false, &["base.png"], &[])), None);
    assert_eq!(find_thumbnail("v/pickup", &listing(true, &["pickup.jpg"], &[])), Some("v/pickup/pickup.jpg".to_string()));
}

#[test]
fn pc_thumbnail_falls_back_to_user_folder() {
    let own = listing(true, &["a.pc"], &[]);
    let user = listing(true, &["default.jpg"], &[]);
    let t = find_thumbnail_for_pc("mods/m/vehicles/pickup/a.pc", "mods/m/vehicles/pickup", "a", Some("U"), &own, &user);
    assert!(matches!(t, Some(ThumbnailSource::File(p)) if p == "U/vehicles/pickup/default.jpg"));
    assert!(find_thumbnail_for_pc("x/a.pc", "x", "a", None, &own, &user).is_none());
}

#[test]
fn zip_thumbnails() {
    let names = strings(&[
        "vehicles\\pickup\\A.PC",
        "vehicles/pickup/ui/z.png",
        "vehicles/pickup/ui/b.png",
        "vehicles/pickup/PREVIEW.jpg",
        "vehicles/pickup/a.JPG",
        "vehicles/other/a.jpg",
    ]);
    assert_eq!(zip_entry_folder("vehicles\\pickup\\a.pc"), "vehicles/pickup");
    assert_eq!(
        pick_thumbnail_from_zip_index(&names, "vehicles/pickup", "a"),
        Some("vehicles/pickup/a.JPG".to_string())
    );
    assert_eq!(
        pick_thumbnail_from_zip_index(&names, "vehicles/pickup/", "zzz"),
        Some("vehicles/pickup/PREVIEW.jpg".to_string())
    );
    let ui_only = strings(&["vehicles/pickup/ui/z.png", "vehicles/pickup/ui/b.png", "vehicles/pickup/other.jpg"]);
    assert_eq!(pick_thumbnail_from_zip_index(&ui_only, "vehicles/pickup", "zzz"), Some("vehicles/pickup/ui/b.png".to_string()));
    let none = strings(&["vehicles/pickup/other.jpg"]);
    assert_eq!(pick_thumbnail_from_zip_index(&none, "vehicles/pickup", "zzz"), None);
    let t = find_thumbnail_in_zip("m.zip", "vehicles/pickup/a.pc", "a", None, Some(&names), &empty_listing());
    assert!(matches!(t, Some(ThumbnailSource::Zip { archive_path, entry }) if archive_path == "m.zip" && entry == "vehicles/pickup/a.JPG"));
    let fallback = listing(true, &["a.png"], &[]);
    let t2 = find_thumbnail_in_zip("m.zip", "vehicles/pickup/a.pc", "a", Some("U"), None, &fallback);
    assert!(matches!(t2, Some(ThumbnailSource::File(p)) if p == "U/vehicles/pickup/a.png"));
}

#[test]
fn rewriting_an_archive_keeps_other_entries() {
    let names = strings(&["a\\x.pc", "b.txt", "a/x.pc", "c"]);
    assert_eq!(zip_rewrite_names(&names, "a\\x.pc"), strings(&["b.txt", "c", "a/x.pc"]));
}

#[test]
fn entry_names() {
    assert_eq!(format_display_name("my_car_v2"), "my car v2");
    assert_eq!(vehicle_folder_from_pc_entry("mods\\vehicles\\pickup\\a.pc"), Some("pickup".to_string()));
    assert_eq!(vehicle_folder_from_pc_entry("vehicles"), None);
    assert_eq!(vehicle_folder_from_pc_entry("a/b.pc"), None);
    assert_eq!(zip_mod_name("", ScanKind::Stock), "BeamNG");
    assert_eq!(zip_mod_name("m/pickup.zip", ScanKind::Mod), "pickup");
    let pcs = vehicle_pc_entries(&strings(&["vehicles/a/x.pc", "mod/vehicles/b/y.pc", "x.pc", "vehicles/a/x.jbeam", "levels/vehicles/z.pc"]));
    assert_eq!(pcs, strings(&["vehicles/a/x.pc", "mod/vehicles/b/y.pc", "levels/vehicles/z.pc"]));
}

#[test]
fn configs_are_counted_per_folder() {
    let counts = count_configs_per_folder(&strings(&["vehicles/a/x.pc", "vehicles/b/y.pc", "vehicles/a/z.pc"]));
    assert_eq!(counts, vec![("vehicles/a".to_string(), 2), ("vehicles/b".to_string(), 1)]);
    assert_eq!(configs_in_folder(&counts, "vehicles/a"), 2);
    assert_eq!(configs_in_folder(&counts, "vehicles/c"), 1);
    assert_eq!(count_local_configs(None), 1);
    assert_eq!(count_local_configs(Some(&strings(&["a.pc", "b.pc", "c.jbeam"]))), 2);
    assert_eq!(count_local_configs(Some(&strings(&["c.jbeam"]))), 1);
}

#[test]
fn local_entries() {
    let own = listing(true, &["base.pc", "base.jpg"], &[]);
    let v = build_local_entry("U/vehicles", "U/vehicles/pickup/base.pc", Some("U"), ScanKind::Saved, "Saved", Ok(()), &own, &empty_listing(), Some(&strings(&["base.pc", "b.pc"]))).unwrap();
    assert_eq!(v.id, "saved::pickup::base");
    assert_eq!(v.name, "base (saved)");
    assert_eq!(v.mod_name, "Saved");
    assert_eq!(v.category, VehicleCategory::Saved);
    assert_eq!(v.config_count, 2);
    assert!(matches!(v.thumbnail, Some(ThumbnailSource::File(ref p)) if p == "U/vehicles/pickup/base.jpg"));
    let m = build_local_entry("M", "M/my_mod/vehicles/pickup/off_road.pc", None, ScanKind::Mod, "Mod", Ok(()), &empty_listing(), &empty_listing(), None).unwrap();
    assert_eq!(m.id, "my_mod::pickup::off_road");
    assert_eq!(m.name, "off road");
    assert_eq!(m.mod_name, "my_mod");
    let st = build_local_entry("G", "G/pickup/v_8.pc", None, ScanKind::Stock, "Stock", Ok(()), &empty_listing(), &empty_listing(), None).unwrap();
    assert_eq!(st.name, "v 8 (pickup)");
    assert!(st.is_stock);
    let e = build_local_entry("G", "G/pickup/v_8.pc", None, ScanKind::Mod, "x", Err(AppError::msg("bad".to_string())), &empty_listing(), &empty_listing(), None).unwrap_err();
    assert_eq!(e.message, "bad");
    let e2 = build_local_entry("G", "/", None, ScanKind::Mod, "x", Ok(()), &empty_listing(), &empty_listing(), None).unwrap_err();
    assert_eq!(e2.message, "Config has no parent folder");
}

#[test]
fn zip_entries() {
    let docs = vec![None, Some(JsonValue::Object(vec![("Configuration".to_string(), JsonValue::Str("V8 Sport".to_string()))]))];
    assert_eq!(stock_info_candidates("pickup", "v8"), strings(&["vehicles/pickup/info_v8.json", "vehicles/pickup/info.json"]));
    assert_eq!(config_name_from_info(&docs, "v8_sport"), "V8 Sport");
    assert_eq!(config_name_from_info(&vec![None, None], "v8_sport"), "v8 sport");
    let s = build_zip_entry("G/pickup.zip", "vehicles/pickup/v8.pc", "pickup", None, 3, ScanKind::Stock, Ok(()), &docs, None, &empty_listing()).unwrap();
    assert_eq!(s.id, "stock::pickup::v8");
    assert_eq!(s.name, "V8 Sport");
    assert_eq!(s.mod_name, "BeamNG");
    assert!(s.in_zip);
    assert_eq!(s.config_count, 3);
    let m = build_zip_entry("M/m.zip", "x/y.pc", "m", None, 1, ScanKind::Mod, Ok(()), &docs, None, &empty_listing()).unwrap();
    assert_eq!(m.id, "m::m::y::M/m.zip");
    assert_eq!(m.model_key, "m");
}

#[test]
fn scan_tally_reports_each_id_once() {
    let mut t = ScanTally::new();
    assert_eq!(t.next_file(), 1);
    let e = || build_local_entry("R", "R/a/b.pc", None, ScanKind::Mod, "x", Ok(()), &empty_listing(), &empty_listing(), None);
    assert!(matches!(t.record(e()), ScanOutcome::New(_)));
    assert!(matches!(t.record(e()), ScanOutcome::Duplicate));
    assert!(matches!(t.record(Err(AppError::msg("x".to_string()))), ScanOutcome::Skipped));
    assert_eq!(t.skipped(), 1);
    assert_eq!(t.count(), 1);
}

#[test]
fn scan_plan_follows_settings() {
    let settings = AppSettings { beamng_user_path: Some("U".to_string()), mods_vehicles_path: None, beamng_exe_path: Some("G/Bin64/BeamNG.drive.x64.exe".to_string()), hot_reload_external_changes: false };
    let fs = DirProbe { local_app_data: None, existing_dirs: strings(&["U", "U/vehicles", "U/mods", "G/content/vehicles"]) };
    let steps = VehicleScanner::scan_all(&settings, &fs).unwrap();
    let names: Vec<String> = steps.iter().map(|s| s.progress_message()).collect();
    assert_eq!(names, strings(&["Saved configs: U/vehicles", "Mods: U/mods", "Stock packs: G/content/vehicles"]));
    assert!(matches!(steps[0], ScanStep::Saved(_)));
    let nothing = DirProbe { local_app_data: None, existing_dirs: Vec::new() };
    let blank = AppSettings { beamng_user_path: None, mods_vehicles_path: None, beamng_exe_path: None, hot_reload_external_changes: false };
    let e = VehicleScanner::scan_all(&blank, &nothing).unwrap_err();
    assert_eq!(e.message, "Set BeamNG user folder or BeamNG.exe in Settings to begin scanning");
}

#[test]
fn zip_folders_under_mods() {
    let fs = DirProbe { local_app_data: None, existing_dirs: strings(&["M", "M/unpacked"]) };
    assert_eq!(mod_zip_dirs("M", &fs), strings(&["M", "M/unpacked"]));
    assert_eq!(zip_scan_dirs("M", &fs), strings(&["M"]));
}
