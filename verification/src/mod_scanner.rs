//! Mods found in the mods folder and the game folder: how each is
//! analysed, classified, identified and edited.
use vstd::prelude::*;

use crate::error::AppError;
use crate::json::{array_strings, model_get, JsonModel, JsonValue};
use crate::json_util::{split_on, split_str};
use crate::paths::{extension, file_name, file_name_of, file_stem, file_stem_of, has_extension, join, join_path};
use crate::scanner::{after_vehicles, after_vehicles_exec, or_default, VehicleEntry};
use crate::seen::SeenIds;
use crate::settings::{opt_view, AppSettings, DirProbe};
use crate::text::{
    concat, contains, eq_ci, eq_ignore_case, ends_with, has_suffix, insert_sorted_unique, lower,
    replace_char, replace_char_str, sort_string_vec, sort_strings, str_contains, str_eq, strictly_sorted,
    to_lower, unicode_lower, unicode_lower_of, vec_contains_str, views,
};

verus! {

/// Whether a mod is a zip archive or a folder.
#[derive(Debug, Clone, Copy, PartialEq, Eq, Structural)]
pub enum ModStorage {
    Packed,
    Unpacked,
}

/// What a mod mainly holds.
#[derive(Debug, Clone, Copy, PartialEq, Eq, Structural)]
pub enum ModKind {
    EngineParts,
    PartsPack,
    FullVehicle,
}

/// Where a mod lives.
#[derive(Debug)]
pub enum ModLocation {
    Unpacked { root: String },
    Zip { archive_path: String },
}

/// A mod found by a scan.
#[derive(Debug)]
pub struct ModEntry {
    pub id: String,
    pub name: String,
    pub location: ModLocation,
    pub storage: ModStorage,
    pub kind: ModKind,
    pub target_vehicles: Vec<String>,
    pub engine_count: usize,
    pub jbeam_count: usize,
    pub pc_count: usize,
}

/// What a mod scan reports.
#[derive(Debug)]
pub enum ModScanMessage {
    Progress { current: usize, message: String },
    Mod(ModEntry),
    Finished { total: usize },
    Error(String),
}

/// What the analysis of a mod finds.
#[derive(Debug)]
pub struct ModStats {
    pub target_vehicles: Vec<String>,
    pub engine_count: usize,
    pub jbeam_count: usize,
    pub pc_count: usize,
}

/// The mathematical form of a mod location.
pub enum ModLocationView {
    Unpacked(Seq<char>),
    Zip(Seq<char>),
}

impl View for ModLocation {
    type V = ModLocationView;

    open spec fn view(&self) -> ModLocationView {
        match *self {
            ModLocation::Unpacked { root } => ModLocationView::Unpacked(root@),
            ModLocation::Zip { archive_path } => ModLocationView::Zip(archive_path@),
        }
    }
}

/// The mathematical form of analysis results.
pub struct ModStatsView {
    pub target_vehicles: Seq<Seq<char>>,
    pub engine_count: nat,
    pub jbeam_count: nat,
    pub pc_count: nat,
}

impl View for ModStats {
    type V = ModStatsView;

    open spec fn view(&self) -> ModStatsView {
        ModStatsView {
            target_vehicles: views(self.target_vehicles@),
            engine_count: self.engine_count as nat,
            jbeam_count: self.jbeam_count as nat,
            pc_count: self.pc_count as nat,
        }
    }
}

/// The mathematical form of a mod entry.
pub struct ModEntryView {
    pub id: Seq<char>,
    pub name: Seq<char>,
    pub location: ModLocationView,
    pub storage: ModStorage,
    pub kind: ModKind,
    pub target_vehicles: Seq<Seq<char>>,
    pub engine_count: nat,
    pub jbeam_count: nat,
    pub pc_count: nat,
}

impl View for ModEntry {
    type V = ModEntryView;

    open spec fn view(&self) -> ModEntryView {
        ModEntryView {
            id: self.id@,
            name: self.name@,
            location: self.location@,
            storage: self.storage,
            kind: self.kind,
            target_vehicles: views(self.target_vehicles@),
            engine_count: self.engine_count as nat,
            jbeam_count: self.jbeam_count as nat,
            pc_count: self.pc_count as nat,
        }
    }
}

/// The entry of a mod with the given analysis.
pub open spec fn entry_of(
    id: Seq<char>,
    name: Seq<char>,
    location: ModLocationView,
    storage: ModStorage,
    stats: ModStatsView,
) -> ModEntryView {
    ModEntryView {
        id,
        name,
        location,
        storage,
        kind: kind_of(stats.pc_count, stats.engine_count),
        target_vehicles: stats.target_vehicles,
        engine_count: stats.engine_count,
        jbeam_count: stats.jbeam_count,
        pc_count: stats.pc_count,
    }
}

/// The kind of a mod from its counts: configs make a full vehicle, engine
/// parts without configs an engine mod, anything else a parts pack.
pub open spec fn kind_of(pc_count: nat, engine_count: nat) -> ModKind {
    if pc_count == 0 && engine_count > 0 {
        ModKind::EngineParts
    } else if pc_count > 0 {
        ModKind::FullVehicle
    } else if engine_count > 0 {
        ModKind::EngineParts
    } else {
        ModKind::PartsPack
    }
}

/// The kind of a mod.
pub fn classify_mod(stats: &ModStats) -> (r: ModKind)
    ensures
        r == kind_of(stats.pc_count as nat, stats.engine_count as nat),
{
    if stats.pc_count == 0 && stats.engine_count > 0 {
        return ModKind::EngineParts;
    }
    if stats.pc_count > 0 {
        return ModKind::FullVehicle;
    }
    if stats.engine_count > 0 {
        return ModKind::EngineParts;
    }
    ModKind::PartsPack
}

/// The entry of a mod.
pub fn build_mod_entry(
    id: String,
    name: String,
    location: ModLocation,
    storage: ModStorage,
    stats: ModStats,
) -> (r: ModEntry)
    ensures
        r@ == entry_of(id@, name@, location@, storage, stats@),
{
    let kind = classify_mod(&stats);
    ModEntry {
        id,
        name,
        location,
        storage,
        kind,
        target_vehicles: stats.target_vehicles,
        engine_count: stats.engine_count,
        jbeam_count: stats.jbeam_count,
        pc_count: stats.pc_count,
    }
}

/// The vehicle folder named by an archive entry: the piece after its first
/// `vehicles` piece.
pub fn vehicle_folder_from_entry(entry: &str) -> (r: Option<String>)
    ensures
        opt_view(r) == after_vehicles(split_on(entry@, '/')),
{
    let parts = split_str(entry, '/');
    after_vehicles_exec(&parts)
}

/// Whether a `.jbeam` file holds an engine part: it declares a slot type and
/// mentions an engine, in its text or in its path (ASCII case ignored).
pub open spec fn engine_jbeam(text: Seq<char>, path: Seq<char>) -> bool {
    contains(lower(text), "\"slottype\""@) && (contains(lower(text), "engine"@) || contains(
        lower(path),
        "engine"@,
    ))
}

/// Whether a `.jbeam` file read from `path` holds an engine part.
pub fn is_engine_jbeam(text: &str, path: &str) -> (r: bool)
    ensures
        r == engine_jbeam(text@, path@),
{
    let lt = to_lower(text);
    if !str_contains(lt.as_str(), "\"slottype\"") {
        return false;
    }
    if str_contains(lt.as_str(), "engine") {
        return true;
    }
    let lp = to_lower(path);
    str_contains(lp.as_str(), "engine")
}

// ---------------------------------------------------------------------------
// Analysing a mod folder
// ---------------------------------------------------------------------------

/// Files of a mod folder with a given extension.
pub open spec fn count_ext(files: Seq<(Seq<char>, Seq<char>)>, ext: Seq<char>) -> nat
    decreases files.len(),
{
    if files.len() == 0 {
        0
    } else {
        count_ext(files.drop_last(), ext) + if extension(files.last().0) == Some(ext) {
            1nat
        } else {
            0nat
        }
    }
}

/// The `.jbeam` files of a mod folder that hold an engine part.
pub open spec fn count_engine_jbeams(files: Seq<(Seq<char>, Seq<char>)>) -> nat
    decreases files.len(),
{
    if files.len() == 0 {
        0
    } else {
        count_engine_jbeams(files.drop_last()) + if extension(files.last().0) == Some("jbeam"@)
            && engine_jbeam(files.last().1, files.last().0) {
            1nat
        } else {
            0nat
        }
    }
}

/// The views of (path, text) pairs.
pub open spec fn file_views(v: Seq<(String, String)>) -> Seq<(Seq<char>, Seq<char>)> {
    v.map_values(|p: (String, String)| (p.0@, p.1@))
}

/// The vehicles a mod folder targets: its `vehicles` subfolders other than
/// `common` (any case), and those its compatibility file lists.
pub open spec fn root_targets(vehicle_dirs: Seq<Seq<char>>, compat: Seq<Seq<char>>) -> Set<Seq<char>> {
    vehicle_dirs.to_set().filter(|d: Seq<char>| !eq_ci(d, "common"@)).union(compat.to_set())
}

/// Analyses a mod folder. `vehicle_dirs` lists the folders in its
/// `vehicles` folder; `files` every file below it (its path, and its text
/// when it is a `.jbeam` file); `compat` the vehicles of its compatibility
/// file, when that could be read.
pub fn analyze_mod_root(
    vehicle_dirs: &Vec<String>,
    files: &Vec<(String, String)>,
    compat: Option<&Vec<String>>,
) -> (r: ModStats)
    ensures
        strictly_sorted(views(r.target_vehicles@)),
        views(r.target_vehicles@).to_set() == root_targets(
            views(vehicle_dirs@),
            match compat {
                Some(c) => views(c@),
                None => Seq::empty(),
            },
        ),
        r.jbeam_count == count_ext(file_views(files@), "jbeam"@),
        r.engine_count == count_engine_jbeams(file_views(files@)),
        r.pc_count == count_ext(file_views(files@), "pc"@),
{
    let mut targets: Vec<String> = Vec::new();
    let ghost ds = views(vehicle_dirs@);
    let mut i: usize = 0;
    while i < vehicle_dirs.len()
        invariant
            i <= vehicle_dirs@.len(),
            ds == views(vehicle_dirs@),
            strictly_sorted(views(targets@)),
            views(targets@).to_set() == ds.take(i as int).to_set().filter(
                |d: Seq<char>| !eq_ci(d, "common"@),
            ),
        decreases vehicle_dirs@.len() - i,
    {
        let ghost before = views(targets@).to_set();
        proof {
            assert(ds.take(i + 1) =~= ds.take(i as int).push(ds[i as int]));
            ds.take(i as int).lemma_push_to_set_commute(ds[i as int]);
            assert(ds[i as int] == vehicle_dirs@[i as int]@);
        }
        if !eq_ignore_case(vehicle_dirs[i].as_str(), "common") {
            insert_sorted_unique(&mut targets, vehicle_dirs[i].clone());
            assert(views(targets@).to_set() =~= ds.take(i + 1).to_set().filter(
                |d: Seq<char>| !eq_ci(d, "common"@),
            ));
        } else {
            assert(views(targets@).to_set() =~= ds.take(i + 1).to_set().filter(
                |d: Seq<char>| !eq_ci(d, "common"@),
            ));
        }
        i = i + 1;
    }
    assert(ds.take(vehicle_dirs@.len() as int) =~= ds);
    let ghost fv = file_views(files@);
    let mut jbeams: usize = 0;
    let mut engines: usize = 0;
    let mut pcs: usize = 0;
    let mut k: usize = 0;
    while k < files.len()
        invariant
            k <= files@.len(),
            fv == file_views(files@),
            jbeams == count_ext(fv.take(k as int), "jbeam"@),
            engines == count_engine_jbeams(fv.take(k as int)),
            pcs == count_ext(fv.take(k as int), "pc"@),
            jbeams <= k,
            engines <= k,
            pcs <= k,
        decreases files@.len() - k,
    {
        proof {
            reveal_strlit("jbeam");
            reveal_strlit("pc");
            assert("jbeam"@.len() != "pc"@.len());
            assert(fv.take(k + 1).drop_last() =~= fv.take(k as int));
            assert(fv.take(k + 1).last() == (files@[k as int].0@, files@[k as int].1@));
        }
        let path = files[k].0.as_str();
        if has_extension(path, "jbeam") {
            jbeams = jbeams + 1;
            if is_engine_jbeam(files[k].1.as_str(), path) {
                engines = engines + 1;
            }
        } else if has_extension(path, "pc") {
            pcs = pcs + 1;
        }
        k = k + 1;
    }
    assert(fv.take(files@.len() as int) =~= fv);
    let ghost dir_set = views(targets@).to_set();
    match compat {
        Some(extra) => {
            let ghost es = views(extra@);
            let mut j: usize = 0;
            while j < extra.len()
                invariant
                    j <= extra@.len(),
                    es == views(extra@),
                    strictly_sorted(views(targets@)),
                    views(targets@).to_set() == dir_set.union(es.take(j as int).to_set()),
                decreases extra@.len() - j,
            {
                proof {
                    assert(es.take(j + 1) =~= es.take(j as int).push(es[j as int]));
                    es.take(j as int).lemma_push_to_set_commute(es[j as int]);
                    assert(es[j as int] == extra@[j as int]@);
                }
                insert_sorted_unique(&mut targets, extra[j].clone());
                assert(views(targets@).to_set() =~= dir_set.union(es.take(j + 1).to_set()));
                j = j + 1;
            }
            assert(es.take(extra@.len() as int) =~= es);
        },
        None => {
            assert(dir_set.union(Seq::<Seq<char>>::empty().to_set()) =~= dir_set);
        },
    }
    ModStats { target_vehicles: targets, engine_count: engines, jbeam_count: jbeams, pc_count: pcs }
}

// ---------------------------------------------------------------------------
// Analysing a mod archive
// ---------------------------------------------------------------------------

/// The vehicle an archive entry (already read with `/`) targets: the folder
/// after `vehicles` in a name holding `/vehicles/`, unless it is `common`.
pub open spec fn entry_target(n: Seq<char>) -> Option<Seq<char>> {
    if contains(n, "/vehicles/"@) {
        match after_vehicles(split_on(n, '/')) {
            Some(v) => if v != "common"@ {
                Some(v)
            } else {
                None
            },
            None => None,
        }
    } else {
        None
    }
}

/// The vehicles the entries of an archive target.
pub open spec fn zip_targets(names: Seq<Seq<char>>) -> Set<Seq<char>>
    decreases names.len(),
{
    if names.len() == 0 {
        Set::empty()
    } else {
        match entry_target(replace_char(names.last(), '\\', '/')) {
            Some(v) => zip_targets(names.drop_last()).insert(v),
            None => zip_targets(names.drop_last()),
        }
    }
}

/// Whether a `.jbeam` text of an archive holds an engine part.
pub open spec fn zip_engine_text(t: Seq<char>) -> bool {
    contains(lower(t), "\"slottype\""@) && (contains(lower(t), "engine"@) || contains(t, "Engine"@))
}

/// Archive entries whose name (read with `/`) ends with `suffix`; for
/// `.pc`, those that are not `.jbeam` files.
pub open spec fn count_suffix(entries: Seq<(Seq<char>, Seq<char>)>, suffix: Seq<char>) -> nat
    decreases entries.len(),
{
    if entries.len() == 0 {
        0
    } else {
        let n = replace_char(entries.last().0, '\\', '/');
        count_suffix(entries.drop_last(), suffix) + if has_suffix(n, suffix) && (suffix == ".jbeam"@
            || !has_suffix(n, ".jbeam"@)) {
            1nat
        } else {
            0nat
        }
    }
}

/// The `.jbeam` entries of an archive that hold an engine part.
pub open spec fn count_zip_engines(entries: Seq<(Seq<char>, Seq<char>)>) -> nat
    decreases entries.len(),
{
    if entries.len() == 0 {
        0
    } else {
        count_zip_engines(entries.drop_last()) + if has_suffix(
            replace_char(entries.last().0, '\\', '/'),
            ".jbeam"@,
        ) && zip_engine_text(entries.last().1) {
            1nat
        } else {
            0nat
        }
    }
}

/// Analyses a mod archive from its entries: each entry's name, and its text
/// when it is a `.jbeam` file.
pub fn analyze_mod_zip(entries: &Vec<(String, String)>) -> (r: ModStats)
    ensures
        strictly_sorted(views(r.target_vehicles@)),
        views(r.target_vehicles@).to_set() == zip_targets(
            file_views(entries@).map_values(|e: (Seq<char>, Seq<char>)| e.0),
        ),
        r.jbeam_count == count_suffix(file_views(entries@), ".jbeam"@),
        r.pc_count == count_suffix(file_views(entries@), ".pc"@),
        r.engine_count == count_zip_engines(file_views(entries@)),
{
    let ghost fv = file_views(entries@);
    let ghost names = fv.map_values(|e: (Seq<char>, Seq<char>)| e.0);
    let mut targets: Vec<String> = Vec::new();
    let mut jbeams: usize = 0;
    let mut engines: usize = 0;
    let mut pcs: usize = 0;
    let mut i: usize = 0;
    proof {
        reveal_strlit(".jbeam");
        reveal_strlit(".pc");
        assert(".jbeam"@.len() != ".pc"@.len());
    }
    while i < entries.len()
        invariant
            i <= entries@.len(),
            fv == file_views(entries@),
            names == fv.map_values(|e: (Seq<char>, Seq<char>)| e.0),
            strictly_sorted(views(targets@)),
            views(targets@).to_set() == zip_targets(names.take(i as int)),
            jbeams == count_suffix(fv.take(i as int), ".jbeam"@),
            pcs == count_suffix(fv.take(i as int), ".pc"@),
            engines == count_zip_engines(fv.take(i as int)),
            jbeams <= i,
            pcs <= i,
            engines <= i,
            ".jbeam"@ != ".pc"@,
        decreases entries@.len() - i,
    {
        proof {
            assert(fv.take(i + 1).drop_last() =~= fv.take(i as int));
            assert(fv.take(i + 1).last() == (entries@[i as int].0@, entries@[i as int].1@));
            assert(names.take(i + 1).drop_last() =~= names.take(i as int));
            assert(names.take(i + 1).last() == entries@[i as int].0@);
        }
        let n = replace_char_str(entries[i].0.as_str(), '\\', '/');
        if str_contains(n.as_str(), "/vehicles/") {
            match vehicle_folder_from_entry(n.as_str()) {
                Some(v) => {
                    if !str_eq(v.as_str(), "common") {
                        insert_sorted_unique(&mut targets, v);
                    }
                },
                None => {},
            }
        }
        if ends_with(n.as_str(), ".jbeam") {
            jbeams = jbeams + 1;
            let t = entries[i].1.as_str();
            let lt = to_lower(t);
            if str_contains(lt.as_str(), "\"slottype\"") && (str_contains(lt.as_str(), "engine")
                || str_contains(t, "Engine")) {
                engines = engines + 1;
            }
        } else if ends_with(n.as_str(), ".pc") {
            pcs = pcs + 1;
        }
        i = i + 1;
    }
    assert(fv.take(entries@.len() as int) =~= fv);
    assert(names.take(entries@.len() as int) =~= names);
    ModStats { target_vehicles: targets, engine_count: engines, jbeam_count: jbeams, pc_count: pcs }
}

// ---------------------------------------------------------------------------
// Mods on the whole
// ---------------------------------------------------------------------------

/// The folder of an unpacked mod.
pub fn mod_root_path(entry: &ModEntry) -> (r: Option<String>)
    ensures
        opt_view(r) == match entry.location@ {
            ModLocationView::Unpacked(root) => Some(root),
            ModLocationView::Zip(_) => None,
        },
{
    match &entry.location {
        ModLocation::Unpacked { root } => Some(root.clone()),
        ModLocation::Zip { .. } => None,
    }
}

/// Only unpacked mods can be edited.
pub fn is_editable(entry: &ModEntry) -> (r: bool)
    ensures
        r == (entry.storage == ModStorage::Unpacked),
{
    entry.storage == ModStorage::Unpacked
}

/// The mods folder, which editing mods needs.
pub fn mods_dir(settings: &AppSettings, fs: &DirProbe) -> (r: Result<String, AppError>)
    ensures
        match r {
            Ok(d) => settings.spec_mods_dir(*fs) == Some(d@),
            Err(e) => settings.spec_mods_dir(*fs) is None && e.message@ == "Mods folder not configured"@,
        },
{
    match settings.mods_dir(fs) {
        Some(d) => Ok(d),
        None => Err(AppError::msg("Mods folder not configured".to_owned())),
    }
}

/// The non-empty model keys of some vehicles.
pub open spec fn vehicle_models(vs: Seq<VehicleEntry>) -> Set<Seq<char>>
    decreases vs.len(),
{
    if vs.len() == 0 {
        Set::empty()
    } else if vs.last().model_key@.len() > 0 {
        vehicle_models(vs.drop_last()).insert(vs.last().model_key@)
    } else {
        vehicle_models(vs.drop_last())
    }
}

/// The vehicles some mods target.
pub open spec fn mod_targets(es: Seq<ModEntry>) -> Set<Seq<char>>
    decreases es.len(),
{
    if es.len() == 0 {
        Set::empty()
    } else {
        mod_targets(es.drop_last()).union(views(es.last().target_vehicles@).to_set())
    }
}

/// Every vehicle model known: those of the scanned vehicles and those the
/// mods target, sorted without duplicates.
pub fn all_known_models(entries: &Vec<ModEntry>, vehicles: &Vec<VehicleEntry>) -> (r: Vec<String>)
    ensures
        strictly_sorted(views(r@)),
        views(r@).to_set() == vehicle_models(vehicles@).union(mod_targets(entries@)),
{
    let mut models: Vec<String> = Vec::new();
    let mut i: usize = 0;
    assert(views(models@).to_set() =~= Set::<Seq<char>>::empty());
    while i < vehicles.len()
        invariant
            i <= vehicles@.len(),
            strictly_sorted(views(models@)),
            views(models@).to_set() == vehicle_models(vehicles@.take(i as int)),
        decreases vehicles@.len() - i,
    {
        proof {
            assert(vehicles@.take(i + 1).drop_last() =~= vehicles@.take(i as int));
        }
        if !crate::text::is_empty_str(vehicles[i].model_key.as_str()) {
            insert_sorted_unique(&mut models, vehicles[i].model_key.clone());
        }
        i = i + 1;
    }
    assert(vehicles@.take(vehicles@.len() as int) =~= vehicles@);
    let ghost vm = views(models@).to_set();
    let mut j: usize = 0;
    assert(vm.union(mod_targets(entries@.take(0))) =~= vm);
    while j < entries.len()
        invariant
            j <= entries@.len(),
            strictly_sorted(views(models@)),
            views(models@).to_set() == vm.union(mod_targets(entries@.take(j as int))),
        decreases entries@.len() - j,
    {
        proof {
            assert(entries@.take(j + 1).drop_last() =~= entries@.take(j as int));
        }
        let ts = &entries[j].target_vehicles;
        let ghost tv = views(ts@);
        let ghost base = views(models@).to_set();
        let mut k: usize = 0;
        while k < ts.len()
            invariant
                k <= ts@.len(),
                tv == views(ts@),
                strictly_sorted(views(models@)),
                views(models@).to_set() == base.union(tv.take(k as int).to_set()),
            decreases ts@.len() - k,
        {
            proof {
                assert(tv.take(k + 1) =~= tv.take(k as int).push(tv[k as int]));
                tv.take(k as int).lemma_push_to_set_commute(tv[k as int]);
                assert(tv[k as int] == ts@[k as int]@);
            }
            insert_sorted_unique(&mut models, ts[k].clone());
            assert(views(models@).to_set() =~= base.union(tv.take(k + 1).to_set()));
            k = k + 1;
        }
        assert(tv.take(ts@.len() as int) =~= tv);
        assert(views(models@).to_set() =~= vm.union(mod_targets(entries@.take(j + 1))));
        j = j + 1;
    }
    assert(entries@.take(entries@.len() as int) =~= entries@);
    models
}

// ---------------------------------------------------------------------------
// Compatibility files
// ---------------------------------------------------------------------------

/// The compatibility file of a mod folder.
pub fn compat_file_path(mod_root: &str) -> (r: String)
    ensures
        r@ == join(mod_root@, ".beamng_editor_compat.json"@),
{
    join_path(mod_root, ".beamng_editor_compat.json")
}

/// The vehicles a compatibility document lists: the strings of its
/// `target_vehicles` array.
pub fn compat_targets(doc: &JsonValue) -> (r: Vec<String>)
    ensures
        views(r@) == match model_get(doc.model(), "target_vehicles"@) {
            Some(JsonModel::Array(items)) => array_strings(items),
            _ => Seq::empty(),
        },
{
    doc.get_string_array("target_vehicles")
}

/// The compatibility document listing `vehicles`.
pub fn compat_document(vehicles: &Vec<String>) -> (r: JsonValue)
    ensures
        r.model() == JsonModel::Object(
            seq![
                ("target_vehicles"@, JsonModel::Array(
                    views(vehicles@).map_values(|v: Seq<char>| JsonModel::Str(v)),
                )),
            ],
        ),
{
    let mut items: Vec<JsonValue> = Vec::new();
    let mut i: usize = 0;
    while i < vehicles.len()
        invariant
            i <= vehicles@.len(),
            items@.len() == i,
            forall|k: int| 0 <= k < i ==> #[trigger] items@[k].model() == JsonModel::Str(vehicles@[k]@),
        decreases vehicles@.len() - i,
    {
        items.push(JsonValue::Str(vehicles[i].clone()));
        i = i + 1;
    }
    let arr = JsonValue::Array(items);
    proof {
        crate::json::lemma_model_array(arr);
        assert(crate::json::item_models(items@) =~= views(vehicles@).map_values(
            |v: Seq<char>| JsonModel::Str(v),
        ));
    }
    let mut es: Vec<(String, JsonValue)> = Vec::new();
    es.push(("target_vehicles".to_owned(), arr));
    let r = JsonValue::Object(es);
    proof {
        crate::json::lemma_model_object(r);
        assert(crate::json::entry_models(es@) =~= seq![
            ("target_vehicles"@, JsonModel::Array(
                views(vehicles@).map_values(|v: Seq<char>| JsonModel::Str(v)),
            )),
        ]);
    }
    r
}

proof fn lemma_array_strings_of_strings(vs: Seq<Seq<char>>)
    ensures
        array_strings(vs.map_values(|v: Seq<char>| JsonModel::Str(v))) == vs,
    decreases vs.len(),
{
    if vs.len() > 0 {
        lemma_array_strings_of_strings(vs.drop_last());
        assert(vs.map_values(|v: Seq<char>| JsonModel::Str(v)).drop_last() =~= vs.drop_last().map_values(
            |v: Seq<char>| JsonModel::Str(v),
        ));
        assert(vs.drop_last().push(vs.last()) =~= vs);
    } else {
        assert(vs.map_values(|v: Seq<char>| JsonModel::Str(v)) =~= Seq::<JsonModel>::empty());
    }
}

/// Reading the vehicles of the compatibility document written for a list
/// of vehicles gives back that list.
pub proof fn law_compat_round_trip(vs: Seq<Seq<char>>)
    ensures
        (match model_get(
            JsonModel::Object(
                seq![("target_vehicles"@, JsonModel::Array(vs.map_values(|v: Seq<char>| JsonModel::Str(v))))],
            ),
            "target_vehicles"@,
        ) {
            Some(JsonModel::Array(items)) => array_strings(items),
            _ => Seq::empty(),
        }) == vs,
{
    let d = JsonModel::Object(
        seq![("target_vehicles"@, JsonModel::Array(vs.map_values(|v: Seq<char>| JsonModel::Str(v))))],
    );
    let es = seq![("target_vehicles"@, JsonModel::Array(vs.map_values(|v: Seq<char>| JsonModel::Str(v))))];
    assert(es[0].0 == "target_vehicles"@);
    assert(crate::json::entries_get(es, "target_vehicles"@) == Some(es[0].1));
    lemma_array_strings_of_strings(vs);
}

/// Adding a vehicle to a mod's targets lists the vehicle and every earlier
/// target, nothing else, in `str` order.
pub proof fn law_added_vehicle_listed(targets: Seq<Seq<char>>, vehicle: Seq<char>)
    ensures
        sort_strings(targets.push(vehicle)).contains(vehicle),
        forall|i: int| 0 <= i < targets.len() ==> sort_strings(targets.push(vehicle)).contains(#[trigger] targets[i]),
        forall|x: Seq<char>| #[trigger] sort_strings(targets.push(vehicle)).contains(x) ==> x == vehicle || targets.contains(x),
        sort_strings(targets.push(vehicle)).len() == targets.len() + 1,
        forall|i: int, j: int|
            0 <= i < j < sort_strings(targets.push(vehicle)).len() ==> !crate::text::seq_lt(
                #[trigger] sort_strings(targets.push(vehicle))[j],
                #[trigger] sort_strings(targets.push(vehicle))[i],
            ),
{
    let t = targets.push(vehicle);
    let r = sort_strings(t);
    crate::text::law_sort_strings(t);
    assert forall|x: Seq<char>| t.contains(x) <==> r.contains(x) by {
        vstd::seq_lib::to_multiset_contains(t, x);
        vstd::seq_lib::to_multiset_contains(r, x);
    }
    assert(t[targets.len() as int] == vehicle);
    assert forall|i: int| 0 <= i < targets.len() implies r.contains(#[trigger] targets[i]) by {
        assert(t[i] == targets[i]);
    }
    assert forall|x: Seq<char>| #[trigger] r.contains(x) implies x == vehicle || targets.contains(x) by {
        let k = choose|k: int| 0 <= k < t.len() && t[k] == x;
        if k < targets.len() {
            assert(targets[k] == x);
        }
    }
}

// ---------------------------------------------------------------------------
// Editing a mod
// ---------------------------------------------------------------------------

/// What adding a vehicle to an unpacked mod takes: its folder, and the new
/// compatibility list when the vehicle was not listed yet.
#[derive(Debug)]
pub struct AddVehiclePlan {
    pub root: String,
    pub compat: Option<Vec<String>>,
}

/// Plans adding `vehicle` to a mod: refused for a packed mod; otherwise
/// the mod folder, and the sorted target list with the vehicle added when
/// it was missing.
pub fn add_vehicle_to_mod(entry: &ModEntry, vehicle: &str) -> (r: Result<AddVehiclePlan, AppError>)
    ensures
        match entry.location@ {
            ModLocationView::Zip(_) => r matches Err(e) && e.message@
                == "Unpack this mod before editing vehicle compatibility"@,
            ModLocationView::Unpacked(root) => r matches Ok(p) && p.root@ == root && if views(
                entry.target_vehicles@,
            ).contains(vehicle@) {
                p.compat is None
            } else {
                p.compat matches Some(c) && views(c@) == sort_strings(
                    views(entry.target_vehicles@).push(vehicle@),
                )
            },
        },
{
    let root = match mod_root_path(entry) {
        Some(r) => r,
        None => {
            return Err(AppError::msg("Unpack this mod before editing vehicle compatibility".to_owned()));
        },
    };
    if vec_contains_str(&entry.target_vehicles, vehicle) {
        return Ok(AddVehiclePlan { root, compat: None });
    }
    let mut vehicles: Vec<String> = Vec::new();
    let mut i: usize = 0;
    while i < entry.target_vehicles.len()
        invariant
            i <= entry.target_vehicles@.len(),
            views(vehicles@) == views(entry.target_vehicles@).take(i as int),
        decreases entry.target_vehicles@.len() - i,
    {
        let c = entry.target_vehicles[i].clone();
        let ghost prev = views(vehicles@);
        vehicles.push(c);
        proof {
            assert(views(vehicles@) =~= prev.push(c@));
            assert(views(entry.target_vehicles@).take(i + 1) =~= views(entry.target_vehicles@).take(
                i as int,
            ).push(entry.target_vehicles@[i as int]@));
        }
        i = i + 1;
    }
    assert(views(entry.target_vehicles@).take(entry.target_vehicles@.len() as int) =~= views(
        entry.target_vehicles@,
    ));
    let ghost v0 = views(vehicles@);
    let owned = vehicle.to_owned();
    vehicles.push(owned);
    assert(views(vehicles@) =~= v0.push(vehicle@));
    assert(views(vehicles@) =~= views(entry.target_vehicles@).push(vehicle@));
    Ok(AddVehiclePlan { root, compat: Some(sort_string_vec(vehicles)) })
}

/// The folder of `vehicle` in a mod: `<mod>/vehicles/<vehicle>`.
pub fn vehicle_dir(mod_root: &str, vehicle: &str) -> (r: String)
    ensures
        r@ == join(join(mod_root@, "vehicles"@), vehicle@),
{
    let v = join_path(mod_root, "vehicles");
    join_path(v.as_str(), vehicle)
}

/// The adapter part written for a vehicle that has no template.
pub open spec fn adapter_stub_text(vehicle: Seq<char>) -> Seq<char> {
    "{\n  \""@ + vehicle + "_engine_adapter\": {\n    \"slotType\": \"mainEngine\",\n    \"information\": { \"name\": \"Engine adapter for "@
        + vehicle + "\" }\n  }\n}\n"@
}

/// How a vehicle folder is filled.
#[derive(Debug)]
pub enum AddFolderAction {
    /// Copy the engine `.jbeam` files of the template folder.
    CopyEngineParts { from: String, to: String },
    /// Write an adapter part to `file`.
    WriteStub { dir: String, file: String, text: String },
}

/// Plans adding the folder of `vehicle` to a mod folder: refused when it
/// exists (`dst_exists`); copied from the template folder when one is named
/// and is a directory (`template_is_dir`); otherwise an adapter stub.
pub fn add_vehicle_folder(
    mod_root: &str,
    vehicle: &str,
    template: Option<&str>,
    dst_exists: bool,
    template_is_dir: bool,
) -> (r: Result<AddFolderAction, AppError>)
    ensures
        dst_exists ==> (r matches Err(e) && e.message@ == "Vehicle folder already exists: "@ + vehicle@),
        !dst_exists && template is Some && template_is_dir ==> (r matches Ok(
            AddFolderAction::CopyEngineParts { from, to },
        ) && from@ == join(join(mod_root@, "vehicles"@), template->0@) && to@ == join(
            join(mod_root@, "vehicles"@),
            vehicle@,
        )),
        !dst_exists && !(template is Some && template_is_dir) ==> (r matches Ok(
            AddFolderAction::WriteStub { dir, file, text },
        ) && dir@ == join(join(mod_root@, "vehicles"@), vehicle@) && file@ == join(
            dir@,
            vehicle@ + "_engine_adapter.jbeam"@,
        ) && text@ == adapter_stub_text(vehicle@)),
{
    let dst = vehicle_dir(mod_root, vehicle);
    if dst_exists {
        return Err(AppError::msg(concat("Vehicle folder already exists: ", vehicle)));
    }
    match template {
        Some(t) => {
            if template_is_dir {
                return Ok(AddFolderAction::CopyEngineParts { from: vehicle_dir(mod_root, t), to: dst });
            }
        },
        None => {},
    }
    let name = concat(vehicle, "_engine_adapter.jbeam");
    let file = join_path(dst.as_str(), name.as_str());
    let mut text = "{\n  \"".to_owned();
    text.append(vehicle);
    text.append("_engine_adapter\": {\n    \"slotType\": \"mainEngine\",\n    \"information\": { \"name\": \"Engine adapter for ");
    text.append(vehicle);
    text.append("\" }\n  }\n}\n");
    Ok(AddFolderAction::WriteStub { dir: dst, file, text })
}

/// Whether a file of a template folder is copied: an engine `.jbeam` file
/// (its lowercased name mentions `engine`).
pub fn is_engine_part_file(path: &str) -> (r: bool)
    ensures
        r == (extension(path@) == Some("jbeam"@) && match file_name(path@) {
            Some(n) => contains(unicode_lower_of(n), "engine"@),
            None => false,
        }),
{
    if !has_extension(path, "jbeam") {
        return false;
    }
    match file_name_of(path) {
        Some(n) => {
            let l = unicode_lower(n.as_str());
            str_contains(l.as_str(), "engine")
        },
        None => false,
    }
}

/// Checks removing the folder of `vehicle` from a mod: refused unless it is
/// a directory (`is_dir`); the folder to remove.
pub fn remove_vehicle_folder(mod_root: &str, vehicle: &str, is_dir: bool) -> (r: Result<String, AppError>)
    ensures
        match r {
            Ok(p) => is_dir && p@ == join(join(mod_root@, "vehicles"@), vehicle@),
            Err(e) => !is_dir && e.message@ == "Folder not found: "@ + vehicle@,
        },
{
    if !is_dir {
        return Err(AppError::msg(concat("Folder not found: ", vehicle)));
    }
    Ok(vehicle_dir(mod_root, vehicle))
}

// ---------------------------------------------------------------------------
// Packing and unpacking
// ---------------------------------------------------------------------------

/// Where an archive is unpacked: `<mods>/unpacked/<stem>` (`mod` when the
/// archive has no stem).
pub open spec fn unpack_dest(zip_path: Seq<char>, mods_root: Seq<char>) -> Seq<char> {
    join(join(mods_root, "unpacked"@), or_default(file_stem(zip_path), "mod"@))
}

/// Where an archive is unpacked.
pub fn unpack_destination(zip_path: &str, mods_root: &str) -> (r: String)
    ensures
        r@ == unpack_dest(zip_path@, mods_root@),
{
    let root = join_path(mods_root, "unpacked");
    match file_stem_of(zip_path) {
        Some(s) => join_path(root.as_str(), s.as_str()),
        None => join_path(root.as_str(), "mod"),
    }
}

/// Plans unpacking an archive: refused when its destination exists
/// (`dest_exists`); otherwise the destination.
pub fn unpack_mod(zip_path: &str, mods_root: &str, dest_exists: bool) -> (r: Result<String, AppError>)
    ensures
        match r {
            Ok(d) => !dest_exists && d@ == unpack_dest(zip_path@, mods_root@),
            Err(e) => dest_exists && e.message@ == "Already unpacked at "@ + unpack_dest(zip_path@, mods_root@),
        },
{
    let dest = unpack_destination(zip_path, mods_root);
    if dest_exists {
        return Err(AppError::msg(concat("Already unpacked at ", dest.as_str())));
    }
    Ok(dest)
}

/// Where a mod folder is packed: `<mods>/packed/<name>.zip` (`mod` when the
/// folder has no name).
pub open spec fn pack_dest(folder: Seq<char>, mods_root: Seq<char>) -> Seq<char> {
    join(join(mods_root, "packed"@), or_default(file_name(folder), "mod"@) + ".zip"@)
}

/// Where a mod folder is packed.
pub fn pack_mod(folder: &str, mods_root: &str) -> (r: String)
    ensures
        r@ == pack_dest(folder@, mods_root@),
{
    let root = join_path(mods_root, "packed");
    let name = match file_name_of(folder) {
        Some(n) => concat(n.as_str(), ".zip"),
        None => "mod.zip".to_owned(),
    };
    proof {
        reveal_strlit("mod.zip");
        reveal_strlit("mod");
        reveal_strlit(".zip");
        assert("mod"@ + ".zip"@ =~= "mod.zip"@);
    }
    join_path(root.as_str(), name.as_str())
}

/// What is done with one entry of an archive being unpacked.
#[derive(Debug)]
pub enum ExtractAction {
    /// Skipped: its name holds `..`.
    Skip,
    /// A folder to create.
    Dir(String),
    /// A file to write.
    File(String),
}

/// What unpacking does with an archive entry into `dest_dir`: names
/// holding `..` are skipped, names ending in `/` are folders, others files
/// (names read with `/`).
pub fn extract_action(dest_dir: &str, entry_name: &str) -> (r: ExtractAction)
    ensures
        ({
            let n = replace_char(entry_name@, '\\', '/');
            if contains(n, ".."@) {
                r is Skip
            } else if n.len() > 0 && n.last() == '/' {
                r matches ExtractAction::Dir(p) && p@ == join(dest_dir@, n)
            } else {
                r matches ExtractAction::File(p) && p@ == join(dest_dir@, n)
            }
        }),
{
    let n = replace_char_str(entry_name, '\\', '/');
    if str_contains(n.as_str(), "..") {
        return ExtractAction::Skip;
    }
    let is_dir = ends_with(n.as_str(), "/");
    proof {
        reveal_strlit("/");
        if n@.len() > 0 {
            assert(n@.subrange(n@.len() - 1, n@.len() as int)[0] == n@.last());
            if n@.last() == '/' {
                assert(n@.subrange(n@.len() - 1, n@.len() as int) =~= "/"@);
            }
        }
    }
    let p = join_path(dest_dir, n.as_str());
    if is_dir {
        ExtractAction::Dir(p)
    } else {
        ExtractAction::File(p)
    }
}

/// The archive name of a file or folder below `source` when packing: its
/// path below `source` read with `/`, folders ending in `/`; none for
/// `source` itself; refused for a path not below `source`.
pub fn pack_entry_name(source: &str, path: &str, is_dir: bool) -> (r: Result<Option<String>, AppError>)
    ensures
        match crate::paths::strip_root(path@, source@) {
            None => r matches Err(e) && e.message@ == "prefix not found"@,
            Some(rel) => if rel.len() == 0 {
                r matches Ok(None)
            } else {
                r matches Ok(Some(n)) && n@ == replace_char(rel, '\\', '/') + if is_dir {
                    seq!['/']
                } else {
                    Seq::empty()
                }
            },
        },
{
    let rel = match crate::paths::strip_root_of(path, source) {
        Some(r) => r,
        None => {
            return Err(AppError::msg("prefix not found".to_owned()));
        },
    };
    if crate::text::is_empty_str(rel.as_str()) {
        return Ok(None);
    }
    let mut name = replace_char_str(rel.as_str(), '\\', '/');
    if is_dir {
        name.push('/');
    } else {
        assert(name@ + Seq::<char>::empty() =~= name@);
    }
    Ok(Some(name))
}

// ---------------------------------------------------------------------------
// Running a mod scan
// ---------------------------------------------------------------------------

/// One part of a mod scan.
#[derive(Debug)]
pub enum ModScanStep {
    /// The mods folder: its archives, then its unpacked mods.
    ModsDir(String),
    /// Loose vehicles in the game folder.
    GameLoose(String),
}

/// The running totals of a mod scan.
#[derive(Debug)]
pub struct ModTally {
    count: usize,
    seen: SeenIds,
}

impl ModTally {
    /// Mods reported.
    pub closed spec fn spec_count(self) -> nat {
        self.count as nat
    }

    /// Identifiers reported.
    pub closed spec fn spec_seen(self) -> Set<Seq<char>> {
        self.seen.set()
    }

    /// Nothing reported yet.
    pub fn new() -> (r: ModTally)
        ensures
            r.spec_count() == 0,
            r.spec_seen() == Set::<Seq<char>>::empty(),
    {
        ModTally { count: 0, seen: SeenIds::new() }
    }

    /// Mods reported.
    pub fn count(&self) -> (r: usize)
        ensures
            r == self.spec_count(),
    {
        self.count
    }

    /// Reports a mod unless its identifier was reported before.
    fn report(&mut self, id: String) -> (r: bool)
        requires
            old(self).spec_count() < usize::MAX,
        ensures
            r == !old(self).spec_seen().contains(id@),
            final(self).spec_seen() == old(self).spec_seen().insert(id@),
            final(self).spec_count() == old(self).spec_count() + if r {
                1nat
            } else {
                0nat
            },
    {
        let fresh = self.seen.insert(id);
        if fresh {
            self.count = self.count + 1;
        }
        fresh
    }

    /// The closing report of the scan.
    pub fn finished(&self) -> (r: ModScanMessage)
        ensures
            r matches ModScanMessage::Finished { total } && total == self.spec_count(),
    {
        ModScanMessage::Finished { total: self.count }
    }
}

/// What reporting a mod does: nothing when it holds no part and no config
/// (`relevant` false) or its identifier was reported; otherwise the mod is
/// reported and counted.
pub open spec fn emitted(
    old_tally: ModTally,
    new_tally: ModTally,
    relevant: bool,
    id: Seq<char>,
    r: Option<ModEntryView>,
    entry: ModEntryView,
) -> bool {
    if !relevant {
        r is None && new_tally == old_tally
    } else {
        new_tally.spec_seen() == old_tally.spec_seen().insert(id) && if old_tally.spec_seen().contains(id) {
            r is None && new_tally.spec_count() == old_tally.spec_count()
        } else {
            r == Some(entry) && new_tally.spec_count() == old_tally.spec_count() + 1
        }
    }
}

/// The view of an optional entry.
pub open spec fn opt_entry(e: Option<ModEntry>) -> Option<ModEntryView> {
    match e {
        Some(x) => Some(x@),
        None => None,
    }
}

/// The name of a loose game folder worth analysing: none for `common` (any case).
pub fn loose_mod_name(path: &str) -> (r: Option<String>)
    ensures
        ({
            let name = or_default(file_name(path@), Seq::empty());
            if eq_ci(name, "common"@) {
                r is None
            } else {
                opt_view(r) == Some(name)
            }
        }),
{
    let name = match file_name_of(path) {
        Some(n) => n,
        None => String::new(),
    };
    if eq_ignore_case(name.as_str(), "common") {
        None
    } else {
        Some(name)
    }
}

/// Scans mods.
pub struct ModScanner;

impl ModScanner {
    /// The parts of a mod scan: the mods folder, then the game's loose
    /// vehicles, each when its folder exists.
    pub fn scan_all(settings: &AppSettings, fs: &DirProbe) -> (r: Vec<ModScanStep>)
        ensures
            r@.len() == (if settings.spec_mods_dir(*fs) is Some { 1int } else { 0int }) + (
            if settings.spec_game_loose_vehicles_dir(*fs) is Some {
                1int
            } else {
                0int
            }),
            settings.spec_mods_dir(*fs) matches Some(m) ==> (r@[0] matches ModScanStep::ModsDir(d) && d@
                == m),
            settings.spec_game_loose_vehicles_dir(*fs) matches Some(g) ==> (r@.last() matches ModScanStep::GameLoose(d)
                && d@ == g),
    {
        let mut steps: Vec<ModScanStep> = Vec::new();
        match settings.mods_dir(fs) {
            Some(d) => {
                steps.push(ModScanStep::ModsDir(d));
            },
            None => {},
        }
        match settings.game_loose_vehicles_dir(fs) {
            Some(d) => {
                steps.push(ModScanStep::GameLoose(d));
            },
            None => {},
        }
        steps
    }

    /// Reports an unpacked mod folder with its analysis: named after the
    /// folder (`mod` when it has no name), identified as `unpacked::<name>`.
    pub fn emit_unpacked_mod(mod_root: &str, stats: ModStats, tally: &mut ModTally) -> (r: Option<ModEntry>)
        requires
            old(tally).spec_count() < usize::MAX,
        ensures
            ({
                let name = or_default(file_name(mod_root@), "mod"@);
                let id = "unpacked::"@ + name;
                emitted(
                    *old(tally),
                    *final(tally),
                    stats.jbeam_count != 0 || stats.pc_count != 0,
                    id,
                    opt_entry(r),
                    entry_of(id, name, ModLocationView::Unpacked(mod_root@), ModStorage::Unpacked, stats@),
                )
            }),
    {
        let name = match file_name_of(mod_root) {
            Some(n) => n,
            None => "mod".to_owned(),
        };
        if stats.jbeam_count == 0 && stats.pc_count == 0 {
            return None;
        }
        let id = concat("unpacked::", name.as_str());
        if !tally.report(id.clone()) {
            return None;
        }
        Some(build_mod_entry(id, name, ModLocation::Unpacked { root: mod_root.to_owned() }, ModStorage::Unpacked, stats))
    }

    /// Reports a mod archive with its analysis: named after its stem (`mod`
    /// when it has none), identified as `zip::<name>::<path>`.
    pub fn emit_zip_mod(zip_path: &str, stats: ModStats, tally: &mut ModTally) -> (r: Option<ModEntry>)
        requires
            old(tally).spec_count() < usize::MAX,
        ensures
            ({
                let name = or_default(file_stem(zip_path@), "mod"@);
                let id = "zip::"@ + name + "::"@ + zip_path@;
                emitted(
                    *old(tally),
                    *final(tally),
                    stats.jbeam_count != 0 || stats.pc_count != 0,
                    id,
                    opt_entry(r),
                    entry_of(id, name, ModLocationView::Zip(zip_path@), ModStorage::Packed, stats@),
                )
            }),
    {
        let name = match file_stem_of(zip_path) {
            Some(n) => n,
            None => "mod".to_owned(),
        };
        if stats.jbeam_count == 0 && stats.pc_count == 0 {
            return None;
        }
        let mut id = concat("zip::", name.as_str());
        id.append("::");
        id.append(zip_path);
        if !tally.report(id.clone()) {
            return None;
        }
        Some(build_mod_entry(id, name, ModLocation::Zip { archive_path: zip_path.to_owned() }, ModStorage::Packed, stats))
    }

    /// Reports a loose vehicle folder of the game (named `name`, see
    /// [`loose_mod_name`]) with its analysis, when it holds `.jbeam` files:
    /// identified as `game_loose::<name>`.
    pub fn emit_loose_mod(path: &str, name: String, stats: ModStats, tally: &mut ModTally) -> (r: Option<ModEntry>)
        requires
            old(tally).spec_count() < usize::MAX,
        ensures
            ({
                let id = "game_loose::"@ + name@;
                emitted(
                    *old(tally),
                    *final(tally),
                    stats.jbeam_count != 0,
                    id,
                    opt_entry(r),
                    entry_of(id, name@, ModLocationView::Unpacked(path@), ModStorage::Unpacked, stats@),
                )
            }),
    {
        if stats.jbeam_count == 0 {
            return None;
        }
        let id = concat("game_loose::", name.as_str());
        if !tally.report(id.clone()) {
            return None;
        }
        Some(build_mod_entry(id, name, ModLocation::Unpacked { root: path.to_owned() }, ModStorage::Unpacked, stats))
    }
}

} // verus!
