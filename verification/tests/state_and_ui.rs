use beamng_editor::backup::BackupIndex;
use beamng_editor::config::VehicleConfig;
use beamng_editor::json::JsonValue;
use beamng_editor::scanner::{ScanMessage, VehicleCategory, VehicleEntry};
use beamng_editor::seen::{PartCounter, SeenIds};
use beamng_editor::settings::{AppSettings, DirProbe};
use beamng_editor::state::{apply_steps, expired_after, AppState, AppTab, ApplyAction, ApplyStep, StepOutcome, Toast};
use beamng_editor::backup::BackupMetadata;
use beamng_editor::thumbnail::{decode_thumbnail, ThumbnailTracker};
use beamng_editor::vehicle_source::VehicleLocation;

fn no_settings() -> AppSettings {
    AppSettings {
        beamng_user_path: None,
        mods_vehicles_path: None,
        beamng_exe_path: None,
        hot_reload_external_changes: false,
    }
}

fn empty_fs() -> DirProbe {
    DirProbe { local_app_data: None, existing_dirs: vec![] }
}

fn config_with_engine(engine: &str) -> VehicleConfig {
    let raw = JsonValue::Object(vec![
        ("model".to_string(), JsonValue::Str("pickup".to_string())),
        (
            "parts".to_string(),
            JsonValue::Object(vec![("mainEngine".to_string(), JsonValue::Str(engine.to_string()))]),
        ),
    ]);
    VehicleConfig::load("vehicles/pickup/base.pc".to_string(), raw)
}

fn engine_of(state: &AppState) -> String {
    state.edit_buffer.as_ref().unwrap().parts.get("mainEngine").unwrap().clone()
}

fn vehicle(id: &str, name: &str, category: VehicleCategory, mod_name: &str) -> VehicleEntry {
    VehicleEntry {
        id: id.to_string(),
        name: name.to_string(),
        model_key: id.to_string(),
        location: VehicleLocation::Local { config_path: format!("vehicles/{}/a.pc", id) },
        mod_name: mod_name.to_string(),
        category,
        is_stock: category == VehicleCategory::Stock,
        thumbnail: None,
        config_count: 1,
        in_zip: false,
    }
}

#[test]
fn new_state_starts_on_the_grid() {
    let st = AppState::new(no_settings(), BackupIndex::new());
    assert!(st.tab == AppTab::Grid);
    assert!(st.vehicles.is_empty());
    assert!(st.undo_stack.is_empty() && st.redo_stack.is_empty());
    assert!(!st.dirty);
    assert_eq!(st.status_message, "Set BeamNG user folder and exe in Settings, then Rescan.");
}

#[test]
fn undo_restores_the_saved_buffer_and_redo_returns() {
    let mut st = AppState::new(no_settings(), BackupIndex::new());
    st.edit_buffer = Some(config_with_engine("v6"));
    st.push_undo("Engine swap".to_string());
    st.edit_buffer.as_mut().unwrap().set_part("mainEngine", "v8");
    assert_eq!(st.undo_stack.len(), 1);
    st.undo();
    assert_eq!(engine_of(&st), "v6");
    assert_eq!(st.slot_edits.get("mainEngine").unwrap(), "v6");
    assert!(st.dirty);
    assert_eq!(st.redo_stack.len(), 1);
    assert_eq!(st.toasts.last().unwrap().message, "Undo: Engine swap");
    st.redo();
    assert_eq!(engine_of(&st), "v8");
    assert_eq!(st.undo_stack.len(), 1);
    assert!(st.redo_stack.is_empty());
}

#[test]
fn undo_with_nothing_saved_changes_nothing() {
    let mut st = AppState::new(no_settings(), BackupIndex::new());
    st.edit_buffer = Some(config_with_engine("v6"));
    st.undo();
    assert_eq!(engine_of(&st), "v6");
    assert!(!st.dirty);
    assert!(st.toasts.is_empty());
}

#[test]
fn undo_stack_keeps_the_last_fifty() {
    let mut st = AppState::new(no_settings(), BackupIndex::new());
    st.edit_buffer = Some(config_with_engine("v6"));
    for i in 0..60 {
        st.push_undo(format!("step {}", i));
    }
    assert_eq!(st.undo_stack.len(), 50);
    assert_eq!(st.undo_stack[0].label, "step 10");
    assert_eq!(st.undo_stack[49].label, "step 59");
}

#[test]
fn toasts_keep_the_last_five() {
    let mut st = AppState::new(no_settings(), BackupIndex::new());
    for i in 0..7 {
        st.push_toast(Toast::info(format!("t{}", i)));
    }
    assert_eq!(st.toasts.len(), 5);
    assert_eq!(st.toasts[0].message, "t2");
    assert_eq!(st.toasts[4].message, "t6");
}

#[test]
fn a_fresh_toast_has_not_expired() {
    let t = Toast::error("boom".to_string());
    assert!(t.is_error);
    assert!(!t.expired());
    assert!(!expired_after(4_000_000_000));
    assert!(expired_after(4_000_000_001));
}

#[test]
fn slot_edits_apply_to_the_buffer() {
    let mut st = AppState::new(no_settings(), BackupIndex::new());
    st.edit_buffer = Some(config_with_engine("v6"));
    st.sync_slot_edits();
    st.slot_edits.insert("mainEngine".to_string(), "i4".to_string());
    st.slot_edits.insert("pickup_body".to_string(), "body_b".to_string());
    st.apply_slot_edits();
    let b = st.edit_buffer.as_ref().unwrap();
    assert_eq!(b.parts.get("mainEngine").unwrap(), "i4");
    assert_eq!(b.parts.get("pickup_body").unwrap(), "body_b");
    let parts = b.raw.get("parts").unwrap();
    assert_eq!(parts.get("mainEngine").unwrap().as_str().unwrap(), "i4");
    assert_eq!(parts.get("pickup_body").unwrap().as_str().unwrap(), "body_b");
    assert_eq!(b.raw.get("model").unwrap().as_str().unwrap(), "pickup");
}

#[test]
fn edits_put_a_parts_object_into_a_document_without_one() {
    let raw = JsonValue::Object(vec![("model".to_string(), JsonValue::Str("pickup".to_string()))]);
    let mut st = AppState::new(no_settings(), BackupIndex::new());
    st.edit_buffer = Some(VehicleConfig::load("a.pc".to_string(), raw));
    st.slot_edits.insert("mainEngine".to_string(), "v8".to_string());
    st.apply_slot_edits();
    let b = st.edit_buffer.as_ref().unwrap();
    let parts = b.raw.get("parts").unwrap();
    assert_eq!(parts.get("mainEngine").unwrap().as_str().unwrap(), "v8");
}

#[test]
fn filters_vehicles_by_category_and_query() {
    let mut st = AppState::new(no_settings(), BackupIndex::new());
    st.vehicles.push(vehicle("pickup", "Gavril D-Series", VehicleCategory::Stock, "BeamNG"));
    st.vehicles.push(vehicle("etk800", "ETK 800", VehicleCategory::Mod, "CoolMod"));
    st.vehicles.push(vehicle("mine", "My Pickup", VehicleCategory::Saved, "Saved"));
    assert_eq!(st.filtered_vehicles().len(), 3);
    st.search_query = "  PICKUP ".to_string();
    let ids: Vec<String> = st.filtered_vehicles().iter().map(|v| v.id.clone()).collect();
    assert_eq!(ids, vec!["pickup".to_string(), "mine".to_string()]);
    st.search_query = String::new();
    st.mod_only = true;
    let ids: Vec<String> = st.filtered_vehicles().iter().map(|v| v.id.clone()).collect();
    assert_eq!(ids, vec!["etk800".to_string()]);
    st.mod_only = false;
    st.mod_filter = Some("coolmod".to_string());
    let ids: Vec<String> = st.filtered_vehicles().iter().map(|v| v.id.clone()).collect();
    assert_eq!(ids, vec!["etk800".to_string()]);
}

#[test]
fn scan_messages_fill_the_list_and_finish() {
    let mut st = AppState::new(no_settings(), BackupIndex::new());
    st.scan.scanning = true;
    let msgs = vec![
        ScanMessage::Progress { current: 1, message: "reading".to_string() },
        ScanMessage::Vehicle(vehicle("pickup", "Pickup", VehicleCategory::Stock, "BeamNG")),
        ScanMessage::Skipped,
        ScanMessage::Finished { total: 3, skipped: 1 },
    ];
    assert!(st.poll_scan(msgs));
    assert!(!st.scan.scanning);
    assert_eq!(st.vehicles.len(), 1);
    assert_eq!(st.status_message, "Found 3 .pc configs (1 vehicles loaded)");
    assert_eq!(st.toasts.last().unwrap().message, "Scan complete: 1 vehicles (1 configs skipped)");
    assert!(st.requests.parts_scan);
}

#[test]
fn scan_needs_a_folder() {
    let mut st = AppState::new(no_settings(), BackupIndex::new());
    assert!(!st.start_scan(&empty_fs()));
    assert_eq!(st.toasts.last().unwrap().message, "Set BeamNG user folder or BeamNG.exe in Settings first");
    assert!(st.toasts.last().unwrap().is_error);
}

#[test]
fn scan_error_becomes_a_toast() {
    let mut st = AppState::new(no_settings(), BackupIndex::new());
    assert!(!st.on_scan_message(ScanMessage::Error("bad zip".to_string())));
    assert_eq!(st.toasts.len(), 1);
    assert_eq!(st.toasts[0].message, "bad zip");
}

#[test]
fn seen_ids_report_first_sightings() {
    let mut s = SeenIds::new();
    assert!(s.is_empty());
    assert!(s.insert("b".to_string()));
    assert!(s.insert("a".to_string()));
    assert!(!s.insert("b".to_string()));
    assert!(s.contains("a"));
    s.remove("a");
    assert!(!s.contains("a"));
    assert_eq!(s.drain(), vec!["b".to_string()]);
    assert!(s.is_empty());
}

#[test]
fn part_counter_counts_files_and_new_ids() {
    let mut c = PartCounter::new();
    assert!(!c.next_file(2));
    assert!(c.next_file(2));
    assert_eq!(c.scanned(), 2);
    assert!(c.first_sighting("x".to_string()));
    assert!(!c.first_sighting("x".to_string()));
}

#[test]
fn thumbnail_tracker_moves_ids_through_states() {
    let mut t = ThumbnailTracker::new();
    assert!(t.queue_load("a"));
    assert!(!t.queue_load("a"));
    assert!(t.is_loading("a"));
    assert!(t.has_pending());
    t.poll("a", true);
    assert!(!t.is_loading("a"));
    assert_eq!(t.upload_pending(), vec!["a".to_string()]);
    assert!(t.get("a"));
    assert!(!t.queue_load("a"));
    assert!(t.queue_load("b"));
    t.poll("b", false);
    assert!(!t.queue_load("b"));
    t.clear();
    assert!(!t.get("a"));
    assert!(t.queue_load("b"));
}

#[test]
fn decodes_a_png_thumbnail() {
    let img = image::RgbaImage::from_pixel(2, 3, image::Rgba([10, 20, 30, 255]));
    let mut bytes: Vec<u8> = Vec::new();
    image::DynamicImage::ImageRgba8(img)
        .write_to(&mut std::io::Cursor::new(&mut bytes), image::ImageFormat::Png)
        .unwrap();
    let d = decode_thumbnail(&bytes).unwrap();
    assert_eq!((d.width, d.height), (2, 3));
    assert_eq!(d.rgba.len(), 24);
    assert_eq!(&d.rgba[0..4], &[10, 20, 30, 255]);
    assert!(decode_thumbnail(b"not an image").is_none());
}

#[test]
fn settings_load_fills_the_detected_user_folder() {
    let fs = DirProbe {
        local_app_data: Some("/home/u/AppData/Local".to_string()),
        existing_dirs: vec!["/home/u/AppData/Local/BeamNG/BeamNG.drive/current".to_string()],
    };
    let s = AppSettings::load(None, &fs);
    assert_eq!(s.beamng_user_path.as_deref(), Some("/home/u/AppData/Local/BeamNG/BeamNG.drive/current"));
    assert!(!s.hot_reload_external_changes);
    let mut p = no_settings();
    p.beamng_exe_path = Some("C:/Games/BeamNG/BeamNG.drive.exe".to_string());
    let s = AppSettings::load(Some(p), &fs);
    assert_eq!(s.beamng_user_path.as_deref(), Some("/home/u/AppData/Local/BeamNG/BeamNG.drive/current"));
    assert_eq!(s.beamng_exe_path.as_deref(), Some("C:/Games/BeamNG/BeamNG.drive.exe"));
    let s = AppSettings::load(None, &empty_fs());
    assert!(s.beamng_user_path.is_none());
}

#[test]
fn settings_files_live_in_the_settings_folder() {
    assert_eq!(AppSettings::settings_path("/cfg"), "/cfg/settings.json");
    assert_eq!(AppSettings::backups_root("/cfg"), "/cfg/backups");
    assert_eq!(AppSettings::cache_root("/cfg"), "/cfg/cache");
    match AppSettings::settings_dir() {
        Ok(d) => assert!(!d.is_empty()),
        Err(e) => assert_eq!(e.message, "Could not resolve settings directory"),
    }
}

#[test]
fn new_state_keeps_its_settings_and_backups() {
    let mut settings = no_settings();
    settings.beamng_exe_path = Some("C:/BeamNG/BeamNG.drive.exe".to_string());
    let mut idx = BackupIndex::new();
    idx.load_vehicle("pickup".to_string(), Vec::new());
    let st = AppState::new(settings, idx);
    assert_eq!(st.settings.beamng_exe_path.as_deref(), Some("C:/BeamNG/BeamNG.drive.exe"));
    assert_eq!(st.backup_index.vehicle_keys(), vec!["pickup".to_string()]);
    assert!(!st.scan.scanning && !st.requests.rescan);
}

#[test]
fn apply_backs_up_before_saving() {
    let mut st = AppState::new(no_settings(), BackupIndex::new());
    st.vehicles.push(vehicle("pickup", "Gavril D-Series", VehicleCategory::Stock, "BeamNG"));
    st.selected_id = Some("pickup".to_string());
    st.edit_buffer = Some(config_with_engine("v6"));
    let plan = st.prepare_apply().unwrap();
    assert_eq!(plan.vehicle_name, "Gavril D-Series");
    assert_eq!(plan.vehicle_key, "base");
    assert_eq!(plan.existing, 0);
    let steps = apply_steps(&st.backup_index, &plan);
    assert_eq!(steps.len(), 4);
    assert!(matches!(&steps[0], ApplyStep::Backup { reason, existing: 0, record: false } if reason == "initial auto-backup before first edit"));
    assert!(matches!(&steps[1], ApplyStep::Backup { reason, existing: 0, record: true } if reason == "before apply"));
    assert!(matches!(steps[2], ApplyStep::Save));
    assert!(matches!(steps[3], ApplyStep::WriteBack));
    st.selected_id = None;
    assert_eq!(st.prepare_apply().unwrap().vehicle_name, "vehicle");
}

fn written(key: &str) -> BackupMetadata {
    BackupMetadata::for_new_backup("b/base_v001.pc", "vehicles/pickup/base.pc", key, "Pickup", "before apply", 1, b"{}", 7)
}

#[test]
fn a_failed_backup_stops_the_save() {
    let mut st = AppState::new(no_settings(), BackupIndex::new());
    st.edit_buffer = Some(config_with_engine("v6"));
    st.dirty = true;
    let plan = st.prepare_apply().unwrap();
    let steps = apply_steps(&st.backup_index, &plan);
    assert_eq!(st.apply_next(&plan, &steps, 0, StepOutcome::Done), ApplyAction::Run(1));
    let a = st.apply_next(&plan, &steps, 1, StepOutcome::Failed("disk full".to_string()));
    assert_eq!(a, ApplyAction::Abort);
    assert!(st.dirty);
    assert!(st.loaded_config.is_none());
    let last = st.toasts.last().unwrap();
    assert!(last.is_error);
    assert_eq!(last.message, "Backup failed: disk full");
    assert!(st.backup_index.backups_for("base").is_empty());
}

#[test]
fn a_failed_first_backup_names_itself() {
    let mut st = AppState::new(no_settings(), BackupIndex::new());
    st.edit_buffer = Some(config_with_engine("v6"));
    let plan = st.prepare_apply().unwrap();
    let steps = apply_steps(&st.backup_index, &plan);
    assert_eq!(st.apply_next(&plan, &steps, 0, StepOutcome::Failed("no room".to_string())), ApplyAction::Abort);
    assert_eq!(st.toasts.last().unwrap().message, "Initial backup failed: no room");
    assert_eq!(st.apply_next(&plan, &steps, 2, StepOutcome::Failed("locked".to_string())), ApplyAction::Abort);
    assert_eq!(st.toasts.last().unwrap().message, "Save failed: locked");
    assert_eq!(st.apply_next(&plan, &steps, 3, StepOutcome::Failed("gone".to_string())), ApplyAction::Abort);
    assert_eq!(st.toasts.last().unwrap().message, "Write-back failed: gone");
}

#[test]
fn a_full_save_records_the_backup_and_cleans_the_editor() {
    let mut st = AppState::new(no_settings(), BackupIndex::new());
    st.edit_buffer = Some(config_with_engine("v8"));
    st.dirty = true;
    let plan = st.prepare_apply().unwrap();
    let steps = apply_steps(&st.backup_index, &plan);
    assert_eq!(st.apply_next(&plan, &steps, 0, StepOutcome::BackupWritten(written("base"))), ApplyAction::Run(1));
    assert!(st.backup_index.backups_for("base").is_empty());
    assert_eq!(st.apply_next(&plan, &steps, 1, StepOutcome::BackupWritten(written("base"))), ApplyAction::Run(2));
    assert_eq!(st.backup_index.backups_for("base").len(), 1);
    assert!(st.dirty);
    assert_eq!(st.apply_next(&plan, &steps, 2, StepOutcome::Done), ApplyAction::Run(3));
    assert_eq!(st.apply_next(&plan, &steps, 3, StepOutcome::Done), ApplyAction::Finish);
    assert!(!st.dirty);
    assert_eq!(st.status_message, "Saved vehicles/pickup/base.pc");
    assert_eq!(st.loaded_config.as_ref().unwrap().path, "vehicles/pickup/base.pc");
    assert_eq!(st.toasts.last().unwrap().message, "Changes applied and saved");
}
