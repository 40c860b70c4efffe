use beamng_editor::engine::{
    collect_slot_types, engines_by_mod, file_mod_name, filter_engines, is_engine_slot_type, parse_jbeam_engines,
    EnginePart, EngineScanner,
};
use beamng_editor::json::JsonValue;
use beamng_editor::mod_scanner::{
    add_vehicle_folder, add_vehicle_to_mod, all_known_models, analyze_mod_root, analyze_mod_zip, build_mod_entry,
    classify_mod, compat_document, compat_targets, extract_action, is_editable, is_engine_jbeam, is_engine_part_file,
    loose_mod_name, mod_root_path, mods_dir, pack_entry_name, pack_mod, remove_vehicle_folder, unpack_mod,
    vehicle_folder_from_entry, AddFolderAction, ExtractAction, ModEntry, ModKind, ModLocation, ModScanner,
    ModStats, ModStorage, ModTally,
};
use beamng_editor::parts::{
    capitalize_word, engine_mods_sorted, filter_parts_for_mod_entry, friendly_slot_label, infer_mod_name,
    is_engine_slot_name, parse_jbeam_text, PartEntry, PartsIndex, PartsScanner,
};
use beamng_editor::settings::{AppSettings, DirProbe};

fn strings(v: &[&str]) -> Vec<String> {
    v.iter().map(|s| s.to_string()).collect()
}

fn s(x: &str) -> JsonValue {
    JsonValue::Str(x.to_string())
}

fn obj(entries: Vec<(&str, JsonValue)>) -> JsonValue {
    JsonValue::Object(entries.into_iter().map(|(k, v)| (k.to_string(), v)).collect())
}

fn stats(targets: &[&str], engines: usize, jbeams: usize, pcs: usize) -> ModStats {
    ModStats { target_vehicles: strings(targets), engine_count: engines, jbeam_count: jbeams, pc_count: pcs }
}

fn part(id: &str, name: &str, slot: &str, m: &str, engine: bool) -> PartEntry {
    PartEntry {
        id: id.to_string(),
        name: name.to_string(),
        slot_type: slot.to_string(),
        mod_name: m.to_string(),
        is_engine: engine,
        source_file: format!("mods/{m}/{id}.jbeam"),
    }
}

#[test]
fn mods_are_classified() {
    assert_eq!(classify_mod(&stats(&[], 1, 3, 0)), ModKind::EngineParts);
    assert_eq!(classify_mod(&stats(&[], 1, 3, 2)), ModKind::FullVehicle);
    assert_eq!(classify_mod(&stats(&[], 0, 3, 0)), ModKind::PartsPack);
    let e = build_mod_entry("id".to_string(), "n".to_string(), ModLocation::Zip { archive_path: "z.zip".to_string() }, ModStorage::Packed, stats(&["a"], 0, 1, 1));
    assert_eq!(e.kind, ModKind::FullVehicle);
    assert!(!is_editable(&e));
    assert_eq!(mod_root_path(&e), None);
}

#[test]
fn mod_folders_are_analysed() {
    let files = vec![
        ("m/vehicles/pickup/engine.jbeam".to_string(), "{\"x\": {\"slotType\": \"mainEngine\"}}".to_string()),
        ("m/vehicles/pickup/body.jbeam".to_string(), "{\"x\": {\"slotType\": \"body\"}}".to_string()),
        ("m/vehicles/pickup/a.pc".to_string(), String::new()),
        ("m/readme.txt".to_string(), String::new()),
    ];
    let st = analyze_mod_root(&strings(&["pickup", "Common", "bx"]), &files, Some(&strings(&["etk", "bx"])));
    assert_eq!(st.target_vehicles, strings(&["bx", "etk", "pickup"]));
    assert_eq!(st.jbeam_count, 2);
    assert_eq!(st.engine_count, 1);
    assert_eq!(st.pc_count, 1);
    assert!(is_engine_jbeam("\"SlotType\": 1", "x/ENGINE/a.jbeam"));
    assert!(!is_engine_jbeam("engine", "a.jbeam"));
}

#[test]
fn mod_archives_are_analysed() {
    let entries = vec![
        ("mod\\vehicles\\pickup\\e.jbeam".to_string(), "{\"slotType\": \"x\", \"name\": \"Engine\"}".to_string()),
        ("mod/vehicles/common/c.jbeam".to_string(), "{}".to_string()),
        ("mod/vehicles/bx/a.pc".to_string(), String::new()),
        ("vehicles/zz/b.pc".to_string(), String::new()),
    ];
    let st = analyze_mod_zip(&entries);
    assert_eq!(st.target_vehicles, strings(&["bx", "pickup"]));
    assert_eq!(st.jbeam_count, 2);
    assert_eq!(st.engine_count, 1);
    assert_eq!(st.pc_count, 2);
    assert_eq!(vehicle_folder_from_entry("a/vehicles/x/y"), Some("x".to_string()));
}

#[test]
fn known_models() {
    let e = build_mod_entry("i".to_string(), "n".to_string(), ModLocation::Unpacked { root: "r".to_string() }, ModStorage::Unpacked, stats(&["pickup", "zz"], 0, 1, 0));
    assert_eq!(all_known_models(&vec![e], &Vec::new()), strings(&["pickup", "zz"]));
}

#[test]
fn compatibility_documents() {
    let doc = compat_document(&strings(&["a", "b"]));
    assert_eq!(compat_targets(&doc), strings(&["a", "b"]));
    let mixed = obj(vec![("target_vehicles", JsonValue::Array(vec![s("x"), JsonValue::Null, s("y")]))]);
    assert_eq!(compat_targets(&mixed), strings(&["x", "y"]));
    assert!(compat_targets(&s("nothing")).is_empty());
}

#[test]
fn adding_a_vehicle_to_a_mod() {
    let packed = build_mod_entry("i".to_string(), "n".to_string(), ModLocation::Zip { archive_path: "z".to_string() }, ModStorage::Packed, stats(&[], 0, 1, 0));
    assert_eq!(add_vehicle_to_mod(&packed, "pickup").unwrap_err().message, "Unpack this mod before editing vehicle compatibility");
    let m = build_mod_entry("i".to_string(), "n".to_string(), ModLocation::Unpacked { root: "mods/unpacked/n".to_string() }, ModStorage::Unpacked, stats(&["zz", "bx"], 0, 1, 0));
    let plan = add_vehicle_to_mod(&m, "pickup").unwrap();
    assert_eq!(plan.root, "mods/unpacked/n");
    assert_eq!(plan.compat, Some(strings(&["bx", "pickup", "zz"])));
    assert!(add_vehicle_to_mod(&m, "bx").unwrap().compat.is_none());
}

#[test]
fn vehicle_folders() {
    let e = add_vehicle_folder("r", "pickup", None, true, false).unwrap_err();
    assert_eq!(e.message, "Vehicle folder already exists: pickup");
    assert!(matches!(add_vehicle_folder("r", "pickup", Some("bx"), false, true), Ok(AddFolderAction::CopyEngineParts { from, to }) if from == "r/vehicles/bx" && to == "r/vehicles/pickup"));
    match add_vehicle_folder("r", "pickup", Some("bx"), false, false) {
        Ok(AddFolderAction::WriteStub { dir, file, text }) => {
            assert_eq!(dir, "r/vehicles/pickup");
            assert_eq!(file, "r/vehicles/pickup/pickup_engine_adapter.jbeam");
            assert_eq!(text, "{\n  \"pickup_engine_adapter\": {\n    \"slotType\": \"mainEngine\",\n    \"information\": { \"name\": \"Engine adapter for pickup\" }\n  }\n}\n");
        }
        _ => panic!("expected a stub"),
    }
    assert!(is_engine_part_file("t/V8_ENGINE.jbeam"));
    assert!(!is_engine_part_file("t/engine.pc"));
    assert_eq!(remove_vehicle_folder("r", "x", false).unwrap_err().message, "Folder not found: x");
    assert_eq!(remove_vehicle_folder("r", "x", true).unwrap(), "r/vehicles/x");
}

#[test]
fn packing_and_unpacking() {
    assert_eq!(unpack_mod("a/b/m.zip", "mods", false).unwrap(), "mods/unpacked/m");
    assert_eq!(unpack_mod("a/b/m.zip", "mods", true).unwrap_err().message, "Already unpacked at mods/unpacked/m");
    assert_eq!(pack_mod("mods/unpacked/m", "mods"), "mods/packed/m.zip");
    assert!(matches!(extract_action("d", "../evil"), ExtractAction::Skip));
    assert!(matches!(extract_action("d", "x\\y/"), ExtractAction::Dir(p) if p == "d/x/y/"));
    assert!(matches!(extract_action("d", "x/y.txt"), ExtractAction::File(p) if p == "d/x/y.txt"));
    assert_eq!(pack_entry_name("src", "src", true).unwrap(), None);
    assert_eq!(pack_entry_name("src", "src/a/b", true).unwrap(), Some("a/b/".to_string()));
    assert_eq!(pack_entry_name("src", "src/a/c.txt", false).unwrap(), Some("a/c.txt".to_string()));
    assert_eq!(pack_entry_name("src", "other/a", false).unwrap_err().message, "prefix not found");
}

#[test]
fn mods_folder_must_be_configured() {
    let blank = AppSettings { beamng_user_path: None, mods_vehicles_path: None, beamng_exe_path: None, hot_reload_external_changes: false };
    let fs = DirProbe { local_app_data: None, existing_dirs: Vec::new() };
    assert_eq!(mods_dir(&blank, &fs).unwrap_err().message, "Mods folder not configured");
}

#[test]
fn mod_scan_reports_each_mod_once() {
    let mut t = ModTally::new();
    let first = ModScanner::emit_unpacked_mod("mods/unpacked/m", stats(&[], 0, 2, 0), &mut t).unwrap();
    assert_eq!(first.id, "unpacked::m");
    assert!(ModScanner::emit_unpacked_mod("mods/unpacked/m", stats(&[], 0, 2, 0), &mut t).is_none());
    assert!(ModScanner::emit_unpacked_mod("mods/unpacked/empty", stats(&[], 0, 0, 0), &mut t).is_none());
    let z = ModScanner::emit_zip_mod("mods/m.zip", stats(&[], 0, 0, 1), &mut t).unwrap();
    assert_eq!(z.id, "zip::m::mods/m.zip");
    assert_eq!(loose_mod_name("G/vehicles/COMMON"), None);
    assert_eq!(loose_mod_name("G/vehicles/pickup"), Some("pickup".to_string()));
    assert!(ModScanner::emit_loose_mod("G/vehicles/pickup", "pickup".to_string(), stats(&[], 0, 0, 3), &mut t).is_none());
    assert_eq!(t.count(), 2);
}

#[test]
fn engine_slots() {
    assert!(is_engine_slot_type("Main_Engine"));
    assert!(!is_engine_slot_type("body"));
    assert!(is_engine_slot_name("pickup_mainEngine"));
    assert!(is_engine_slot_name("ENGINESLOT_x"));
    assert!(!is_engine_slot_name("wheel"));
}

#[test]
fn slot_types_are_collected() {
    let p = obj(vec![
        ("slotType", s("pickup_engine")),
        ("slots", JsonValue::Array(vec![
            JsonValue::Array(vec![s("type"), s("default")]),
            obj(vec![("type", s("b_intake")), ("name", s("mainEngine_x"))]),
            obj(vec![("type", s("a_exhaust")), ("name", s("exhaust"))]),
            obj(vec![("nested", obj(vec![("type", s("a_exhaust"))]))]),
        ])),
    ]);
    assert_eq!(collect_slot_types(&p), strings(&["a_exhaust", "b_intake", "mainEngine_x", "pickup_engine"]));
}

#[test]
fn engines_of_a_document() {
    let doc = obj(vec![
        ("__meta", obj(vec![("slotType", s("mainEngine"))])),
        ("pickup_engine_v8", obj(vec![("slotType", s("pickup_engine")), ("information", obj(vec![("name", s("V8"))]))])),
        ("pickup_body", obj(vec![("slotType", s("body"))])),
        ("turbo", obj(vec![("information", obj(vec![("name", s("Engine turbo"))]))])),
        ("weird", s("x")),
    ]);
    let es = parse_jbeam_engines(&doc, "m/a.jbeam", "m");
    let ids: Vec<&str> = es.iter().map(|e| e.id.as_str()).collect();
    assert_eq!(ids, vec!["pickup_engine_v8", "turbo"]);
    assert_eq!(es[0].name, "V8");
    assert_eq!(es[0].slot_types, strings(&["pickup_engine"]));
    assert!(es[1].slot_types.is_empty());
    assert_eq!(file_mod_name("mods", "mods/my_mod/a/b.jbeam"), "my_mod");
    assert_eq!(file_mod_name("mods", "other/a.jbeam"), "unknown");
    assert!(EngineScanner::scan_engines(false).is_err());
}

fn engine(id: &str, name: &str, m: &str) -> EnginePart {
    EnginePart { id: id.to_string(), name: name.to_string(), slot_types: Vec::new(), source_file: String::new(), mod_name: m.to_string() }
}

#[test]
fn engines_are_searched_and_counted() {
    let es = vec![engine("v8", "Big V8", "ModA"), engine("i4", "Small", "modb"), engine("v6", "Mid", "moda")];
    let by_mod: Vec<&str> = filter_engines(&es, "", Some("MODA")).iter().map(|e| e.id.as_str()).collect();
    assert_eq!(by_mod, vec!["v8", "v6"]);
    let q: Vec<&str> = filter_engines(&es, "  BIG ", None).iter().map(|e| e.id.as_str()).collect();
    assert_eq!(q, vec!["v8"]);
    assert_eq!(engines_by_mod(&es), vec![("ModA".to_string(), 1), ("modb".to_string(), 1), ("moda".to_string(), 1)]);
}

#[test]
fn parts_of_a_document() {
    let doc = obj(vec![
        ("pickup_engine", obj(vec![("slotType", s("pickup_engine"))])),
        ("no_slot", obj(vec![])),
        ("engine_thing", obj(vec![])),
        ("__x", obj(vec![("slotType", s("a"))])),
    ]);
    let ps = parse_jbeam_text(&doc, "m", "src.jbeam");
    assert_eq!(ps.len(), 2);
    assert_eq!(ps[1].slot_type, "engine");
    assert!(ps[1].is_engine);
    assert_eq!(infer_mod_name("mods", "mods/x/y.jbeam"), "x");
}

#[test]
fn slot_labels() {
    assert_eq!(capitalize_word("élan"), "Élan");
    assert_eq!(capitalize_word(""), "");
    assert_eq!(friendly_slot_label("pickup_body  style"), "Pickup Body Style");
    assert_eq!(friendly_slot_label("main_engine"), "⚙ Main Engine");
}

#[test]
fn index_and_dropdown() {
    let parts = vec![
        part("e2", "Zeta engine", "pickup_engine", "ModA", true),
        part("e1", "Alpha engine", "pickup_engine", "ModA", true),
        part("b1", "Body", "pickup_body", "ModB", false),
        part("e1", "Alpha engine dup", "pickup_engine", "ModC", true),
        part("x1", "Exhaust", "pickup_exhaust", "ModB", false),
    ];
    let idx = PartsIndex::finalize_from_parts(parts);
    let engines: Vec<&str> = idx.engines.iter().map(|p| p.name.as_str()).collect();
    assert_eq!(engines, vec!["Alpha engine", "Alpha engine dup", "Zeta engine"]);
    assert_eq!(idx.all_by_id.len(), 4);
    assert_eq!(idx.by_slot_type[0].0, "pickup_engine");
    let opts = idx.dropdown_options("pickup_engine", "e9");
    let got: Vec<(&str, &str)> = opts.iter().map(|p| (p.id.as_str(), p.name.as_str())).collect();
    assert_eq!(got, vec![("e1", "Alpha engine"), ("e9", "Current: e9"), ("e2", "Zeta engine")]);
    let body = idx.dropdown_options("body", "");
    assert_eq!(body.len(), 1);
    assert_eq!(body[0].id, "b1");
    let mods: Vec<(&str, usize, bool)> = engine_mods_sorted(&idx).iter().map(|m| (m.mod_name.as_str(), m.engine_count, m.is_engine_only_mod)).collect();
    assert_eq!(mods, vec![("ModA", 2, true), ("ModC", 1, false)]);
    let of_a: Vec<&str> = filter_parts_for_mod_entry(&idx, "moda", "zeta").iter().map(|p| p.id.as_str()).collect();
    assert_eq!(of_a, vec!["e2"]);
}

#[test]
fn parts_scan_needs_somewhere_to_look() {
    let blank = AppSettings { beamng_user_path: None, mods_vehicles_path: None, beamng_exe_path: None, hot_reload_external_changes: false };
    let fs = DirProbe { local_app_data: None, existing_dirs: Vec::new() };
    assert_eq!(PartsScanner::scan(&blank, &fs).unwrap_err().message, "Set BeamNG user folder or BeamNG.exe in Settings");
    let with_mods = AppSettings { beamng_user_path: Some("U".to_string()), mods_vehicles_path: None, beamng_exe_path: None, hot_reload_external_changes: false };
    let fs2 = DirProbe { local_app_data: None, existing_dirs: strings(&["U", "U/mods"]) };
    let plan = PartsScanner::scan(&with_mods, &fs2).unwrap();
    assert_eq!(plan.roots, vec![("U/mods".to_string(), "mods".to_string())]);
    assert!(plan.stock_dir.is_none());
}

#[test]
fn mod_entries_are_plain_data() {
    let m = ModEntry {
        id: "x".to_string(),
        name: "x".to_string(),
        location: ModLocation::Unpacked { root: "r".to_string() },
        storage: ModStorage::Unpacked,
        kind: ModKind::PartsPack,
        target_vehicles: Vec::new(),
        engine_count: 0,
        jbeam_count: 0,
        pc_count: 0,
    };
    assert!(is_editable(&m));
    assert_eq!(mod_root_path(&m), Some("r".to_string()));
}
