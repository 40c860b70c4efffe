//! Vehicle configs found by a scan: how each is named, identified,
//! classified and counted.
use vstd::prelude::*;

use crate::error::AppError;
use crate::json::{model_get_str, JsonModel, JsonValue};
use crate::json_util::{split_on, split_str};
use crate::paths::{
    extension, file_name, file_name_of, file_stem, file_stem_of, first_component,
    first_component_of, has_extension, parent, parent_of, strip_root, strip_root_of,
};
use crate::settings::{opt_view, AppSettings, DirProbe};
use crate::text::{
    concat, contains, ends_with, has_prefix, has_suffix, insert_sorted_unique, is_empty_str,
    replace_char, replace_char_str, starts_with, str_contains, str_eq, strictly_sorted, vec_contains_str,
    views,
};
use crate::vehicle_source::{
    find_thumbnail_for_pc, find_thumbnail_in_folder, find_thumbnail_in_zip, thumb_view,
    thumbnail_for_pc, thumbnail_for_zip, thumbnail_of, FolderListing, LocationView, ThumbView,
    ThumbnailSource, VehicleLocation,
};

verus! {

/// Where a vehicle config comes from.
#[derive(Debug, Clone, Copy, PartialEq, Eq, Structural)]
pub enum VehicleCategory {
    Saved,
    Stock,
    Mod,
}

/// What a scanned folder or archive holds.
#[derive(Debug, Clone, Copy, PartialEq, Eq, Structural)]
pub enum ScanKind {
    Saved,
    Stock,
    Mod,
}

/// A vehicle config found by a scan.
#[derive(Debug)]
pub struct VehicleEntry {
    pub id: String,
    pub name: String,
    pub model_key: String,
    pub location: VehicleLocation,
    pub mod_name: String,
    pub category: VehicleCategory,
    pub is_stock: bool,
    pub thumbnail: Option<ThumbnailSource>,
    pub config_count: usize,
    pub in_zip: bool,
}

/// The mathematical form of a vehicle entry.
pub struct VehicleEntryView {
    pub id: Seq<char>,
    pub name: Seq<char>,
    pub model_key: Seq<char>,
    pub location: LocationView,
    pub mod_name: Seq<char>,
    pub category: VehicleCategory,
    pub is_stock: bool,
    pub thumbnail: Option<ThumbView>,
    pub config_count: nat,
    pub in_zip: bool,
}

impl View for VehicleEntry {
    type V = VehicleEntryView;

    open spec fn view(&self) -> VehicleEntryView {
        VehicleEntryView {
            id: self.id@,
            name: self.name@,
            model_key: self.model_key@,
            location: self.location@,
            mod_name: self.mod_name@,
            category: self.category,
            is_stock: self.is_stock,
            thumbnail: thumb_view(self.thumbnail),
            config_count: self.config_count as nat,
            in_zip: self.in_zip,
        }
    }
}

impl VehicleEntry {
    /// A copy of the entry.
    pub fn copy(&self) -> (r: VehicleEntry)
        ensures
            r@ == self@,
    {
        VehicleEntry {
            id: self.id.clone(),
            name: self.name.clone(),
            model_key: self.model_key.clone(),
            location: self.location.copy(),
            mod_name: self.mod_name.clone(),
            category: self.category,
            is_stock: self.is_stock,
            thumbnail: match &self.thumbnail {
                Some(t) => Some(t.copy()),
                None => None,
            },
            config_count: self.config_count,
            in_zip: self.in_zip,
        }
    }
}

/// What a vehicle scan reports.
#[derive(Debug)]
pub enum ScanMessage {
    Progress { current: usize, message: String },
    Vehicle(VehicleEntry),
    Finished { total: usize, skipped: usize },
    Skipped,
    Error(String),
}

// ---------------------------------------------------------------------------
// Names
// ---------------------------------------------------------------------------

/// A config name as shown: `_` read as a space.
pub open spec fn display_name(stem: Seq<char>) -> Seq<char> {
    replace_char(stem, '_', ' ')
}

/// How a config name is shown.
pub fn format_display_name(stem: &str) -> (r: String)
    ensures
        r@ == display_name(stem@),
{
    replace_char_str(stem, '_', ' ')
}

/// The piece after the first `vehicles` piece, if any.
pub open spec fn after_vehicles(parts: Seq<Seq<char>>) -> Option<Seq<char>>
    decreases parts.len(),
{
    if parts.len() == 0 {
        None
    } else if parts[0] == "vehicles"@ {
        if parts.len() > 1 {
            Some(parts[1])
        } else {
            None
        }
    } else {
        after_vehicles(parts.drop_first())
    }
}

/// The piece after the first `vehicles` piece.
pub fn after_vehicles_exec(parts: &Vec<String>) -> (r: Option<String>)
    ensures
        opt_view(r) == after_vehicles(views(parts@)),
{
    let ghost ps = views(parts@);
    assert(ps.skip(0) =~= ps);
    let mut i: usize = 0;
    while i < parts.len()
        invariant
            i <= parts@.len(),
            ps == views(parts@),
            after_vehicles(ps) == after_vehicles(ps.skip(i as int)),
        decreases parts@.len() - i,
    {
        assert(ps.skip(i as int)[0] == parts@[i as int]@);
        if str_eq(parts[i].as_str(), "vehicles") {
            if i + 1 < parts.len() {
                assert(ps.skip(i as int)[1] == parts@[i + 1]@);
                return Some(parts[i + 1].clone());
            } else {
                return None;
            }
        }
        assert(ps.skip(i as int).drop_first() =~= ps.skip(i + 1));
        i = i + 1;
    }
    None
}

/// The vehicle folder of an archive entry (`\` read as `/`): the piece after
/// its first `vehicles` piece.
pub open spec fn pc_entry_vehicle(entry: Seq<char>) -> Option<Seq<char>> {
    after_vehicles(split_on(replace_char(entry, '\\', '/'), '/'))
}

/// The vehicle folder of an archive entry.
pub fn vehicle_folder_from_pc_entry(entry: &str) -> (r: Option<String>)
    ensures
        opt_view(r) == pc_entry_vehicle(entry@),
{
    let norm = replace_char_str(entry, '\\', '/');
    let parts = split_str(norm.as_str(), '/');
    after_vehicles_exec(&parts)
}

/// The folder of an archive entry, with `\` read as `/` (empty when it has none).
pub open spec fn folder_of_entry(entry: Seq<char>) -> Seq<char> {
    match parent(entry) {
        Some(p) => replace_char(p, '\\', '/'),
        None => Seq::empty(),
    }
}

/// The folder of an archive entry.
pub fn zip_entry_folder(entry: &str) -> (r: String)
    ensures
        r@ == folder_of_entry(entry@),
{
    match parent_of(entry) {
        Some(p) => replace_char_str(p.as_str(), '\\', '/'),
        None => String::new(),
    }
}

/// A vehicle config inside an archive: a `.pc` under a `vehicles` folder.
pub open spec fn is_vehicle_pc(n: Seq<char>) -> bool {
    has_suffix(n, ".pc"@) && (contains(n, "/vehicles/"@) || has_prefix(n, "vehicles/"@))
}

/// The vehicle configs of an archive listing, `\` read as `/`, in order.
pub open spec fn vehicle_pcs(names: Seq<Seq<char>>) -> Seq<Seq<char>>
    decreases names.len(),
{
    if names.len() == 0 {
        Seq::empty()
    } else {
        let r = vehicle_pcs(names.drop_last());
        let n = replace_char(names.last(), '\\', '/');
        if is_vehicle_pc(n) {
            r.push(n)
        } else {
            r
        }
    }
}

/// The vehicle configs of an archive listing are its names with `\` read as
/// `/` that end in `.pc` and lie under a `vehicles` folder (one at the root,
/// or one named `vehicles` anywhere), in listing order.
pub proof fn law_vehicle_pcs(names: Seq<Seq<char>>)
    ensures
        vehicle_pcs(names) == names.map_values(|n: Seq<char>| replace_char(n, '\\', '/')).filter(
            |n: Seq<char>| has_suffix(n, ".pc"@) && (contains(n, "/vehicles/"@) || has_prefix(n, "vehicles/"@)),
        ),
    decreases names.len(),
{
    reveal(Seq::filter);
    let f = |n: Seq<char>| replace_char(n, '\\', '/');
    let p = |n: Seq<char>| has_suffix(n, ".pc"@) && (contains(n, "/vehicles/"@) || has_prefix(n, "vehicles/"@));
    if names.len() > 0 {
        law_vehicle_pcs(names.drop_last());
        assert(names.map_values(f).drop_last() =~= names.drop_last().map_values(f));
    } else {
        assert(names.map_values(f) =~= Seq::<Seq<char>>::empty());
    }
}

/// The vehicle configs of an archive listing.
pub fn vehicle_pc_entries(names: &Vec<String>) -> (r: Vec<String>)
    ensures
        views(r@) == vehicle_pcs(views(names@)),
{
    let ghost ns = views(names@);
    let mut out: Vec<String> = Vec::new();
    let mut i: usize = 0;
    while i < names.len()
        invariant
            i <= names@.len(),
            ns == views(names@),
            views(out@) == vehicle_pcs(ns.take(i as int)),
        decreases names@.len() - i,
    {
        proof {
            assert(ns.take(i + 1).drop_last() =~= ns.take(i as int));
            assert(ns.take(i + 1).last() == names@[i as int]@);
        }
        let n = replace_char_str(names[i].as_str(), '\\', '/');
        if ends_with(n.as_str(), ".pc") && (str_contains(n.as_str(), "/vehicles/") || starts_with(
            n.as_str(),
            "vehicles/",
        )) {
            let ghost o0 = views(out@);
            out.push(n);
            assert(views(out@) =~= o0.push(out@.last()@));
        }
        i = i + 1;
    }
    assert(ns.take(names@.len() as int) =~= ns);
    out
}

/// The name of the mod an archive belongs to: its file stem, else `BeamNG`
/// for stock packs and `mod` otherwise.
pub fn zip_mod_name(zip_path: &str, kind: ScanKind) -> (r: String)
    ensures
        r@ == match file_stem(zip_path@) {
            Some(s) => s,
            None => if kind == ScanKind::Stock {
                "BeamNG"@
            } else {
                "mod"@
            },
        },
{
    match file_stem_of(zip_path) {
        Some(s) => s,
        None => if kind == ScanKind::Stock {
            "BeamNG".to_owned()
        } else {
            "mod".to_owned()
        },
    }
}

// ---------------------------------------------------------------------------
// Counting configs
// ---------------------------------------------------------------------------

/// Index of the first group with key `f`, or the number of groups.
pub open spec fn group_index(g: Seq<(Seq<char>, nat)>, f: Seq<char>) -> int
    decreases g.len(),
{
    if g.len() == 0 {
        0
    } else if g[0].0 == f {
        0
    } else {
        1 + group_index(g.drop_first(), f)
    }
}

/// How many entries each folder holds, folders in order of first appearance.
pub open spec fn group_counts(folders: Seq<Seq<char>>) -> Seq<(Seq<char>, nat)>
    decreases folders.len(),
{
    if folders.len() == 0 {
        Seq::empty()
    } else {
        let g = group_counts(folders.drop_last());
        let f = folders.last();
        let k = group_index(g, f);
        if k < g.len() {
            g.update(k, (f, g[k].1 + 1))
        } else {
            g.push((f, 1))
        }
    }
}

/// The folders of some archive entries.
pub open spec fn entry_folders(entries: Seq<Seq<char>>) -> Seq<Seq<char>> {
    entries.map_values(|e: Seq<char>| folder_of_entry(e))
}

/// The view of a list of counts.
pub open spec fn counts_view(v: Seq<(String, usize)>) -> Seq<(Seq<char>, nat)> {
    v.map_values(|p: (String, usize)| (p.0@, p.1 as nat))
}

proof fn lemma_group_index(g: Seq<(Seq<char>, nat)>, f: Seq<char>)
    ensures
        0 <= group_index(g, f) <= g.len(),
        forall|j: int| 0 <= j < group_index(g, f) ==> #[trigger] g[j].0 != f,
        group_index(g, f) < g.len() ==> g[group_index(g, f)].0 == f,
    decreases g.len(),
{
    if g.len() > 0 && g[0].0 != f {
        lemma_group_index(g.drop_first(), f);
        assert forall|j: int| 0 <= j < group_index(g, f) implies #[trigger] g[j].0 != f by {
            if j > 0 {
                assert(g[j] == g.drop_first()[j - 1]);
            }
        }
    }
}

proof fn lemma_group_counts_bound(folders: Seq<Seq<char>>)
    ensures
        group_counts(folders).len() <= folders.len(),
        forall|k: int| 0 <= k < group_counts(folders).len() ==> #[trigger] group_counts(folders)[k].1
            <= folders.len(),
    decreases folders.len(),
{
    if folders.len() > 0 {
        lemma_group_counts_bound(folders.drop_last());
        lemma_group_index(group_counts(folders.drop_last()), folders.last());
    }
}

proof fn lemma_filter_eq_push(d: Seq<Seq<char>>, x: Seq<char>, f: Seq<char>)
    ensures
        d.push(x).filter(|y: Seq<char>| y == f).len() == d.filter(|y: Seq<char>| y == f).len() + if x == f {
            1int
        } else {
            0int
        },
{
    reveal(Seq::filter);
    assert(d.push(x).drop_last() =~= d);
}

/// Counting by group lists each key once, with the number of times it
/// occurs, and lists every key that occurs.
pub proof fn law_group_counts(keys: Seq<Seq<char>>)
    ensures
        forall|a: int, b: int|
            0 <= a < b < group_counts(keys).len() ==> (#[trigger] group_counts(keys)[a]).0 != (#[trigger] group_counts(
                keys,
            )[b]).0,
        forall|i: int|
            0 <= i < group_counts(keys).len() ==> (#[trigger] group_counts(keys)[i]).1 == keys.filter(
                |y: Seq<char>| y == group_counts(keys)[i].0,
            ).len(),
        forall|m: int|
            0 <= m < keys.len() ==> exists|i: int|
                0 <= i < group_counts(keys).len() && (#[trigger] group_counts(keys)[i]).0 == #[trigger] keys[m],
    decreases keys.len(),
{
    reveal(Seq::filter);
    if keys.len() > 0 {
        let d = keys.drop_last();
        law_group_counts(d);
        let g = group_counts(d);
        let f = keys.last();
        let k = group_index(g, f);
        lemma_group_index(g, f);
        let t = group_counts(keys);
        assert(keys == d.push(f));
        assert forall|a: int, b: int| 0 <= a < b < t.len() implies (#[trigger] t[a]).0 != (#[trigger] t[b]).0 by {
            if b < g.len() {
                assert(t[a].0 == g[a].0 && t[b].0 == g[b].0);
            } else {
                assert(t[a].0 == g[a].0);
            }
        }
        assert forall|i: int| 0 <= i < t.len() implies (#[trigger] t[i]).1 == keys.filter(
            |y: Seq<char>| y == t[i].0,
        ).len() by {
            let ti = t[i].0;
            lemma_filter_eq_push(d, f, ti);
            let pt = |y: Seq<char>| y == ti;
            assert(keys.filter(pt).len() == d.filter(pt).len() + if f == ti {
                1int
            } else {
                0int
            });
            if i < g.len() {
                assert(t[i].0 == g[i].0);
                assert(g[i].1 == d.filter(|y: Seq<char>| y == g[i].0).len());
                assert((|y: Seq<char>| y == g[i].0) =~= pt);
                if i == k {
                    assert(t[i].1 == g[i].1 + 1);
                } else {
                    assert(t[i] == g[i]);
                    if k < g.len() {
                        if i < k {
                            assert(g[i].0 != g[k].0);
                        } else {
                            assert(g[k].0 != g[i].0);
                        }
                    }
                    assert(g[i].0 != f);
                }
                assert(t[i].1 == keys.filter(pt).len());
            } else {
                assert(t[i] == (f, 1nat));
                assert(ti == f);
                assert forall|y: Seq<char>| d.contains(y) implies y != f by {
                    let m = choose|m: int| 0 <= m < d.len() && d[m] == y;
                    let j = choose|j: int| 0 <= j < g.len() && (#[trigger] g[j]).0 == #[trigger] d[m];
                    assert(g[j].0 != f);
                }
                crate::text::lemma_filter_members(d, pt);
                let e = d.filter(pt);
                if e.len() > 0 {
                    assert(e.contains(e[0]));
                }
                assert(t[i].1 == keys.filter(pt).len());
            }
            assert((|y: Seq<char>| y == t[i].0) =~= pt);
        }
        assert forall|m: int| 0 <= m < keys.len() implies exists|i: int|
            0 <= i < t.len() && (#[trigger] t[i]).0 == #[trigger] keys[m] by {
            if m == keys.len() - 1 {
                assert(t[k].0 == f);
            } else {
                assert(keys[m] == d[m]);
                let j = choose|j: int| 0 <= j < g.len() && (#[trigger] g[j]).0 == #[trigger] d[m];
                assert(t[j].0 == g[j].0);
            }
        }
    }
}

/// How many times each key occurs, keys in order of first appearance.
pub fn count_groups(keys: &Vec<String>) -> (r: Vec<(String, usize)>)
    ensures
        counts_view(r@) == group_counts(views(keys@)),
{
    let ghost fs = views(keys@);
    let mut out: Vec<(String, usize)> = Vec::new();
    let mut i: usize = 0;
    while i < keys.len()
        invariant
            i <= keys@.len(),
            fs == views(keys@),
            counts_view(out@) == group_counts(fs.take(i as int)),
        decreases keys@.len() - i,
    {
        let f = keys[i].clone();
        let ghost t = fs.take(i + 1);
        let ghost g = group_counts(fs.take(i as int));
        proof {
            assert(t.drop_last() =~= fs.take(i as int));
            assert(t.last() == f@);
            lemma_group_index(g, f@);
            lemma_group_counts_bound(fs.take(i as int));
        }
        let mut k: usize = 0;
        while k < out.len() && !str_eq(out[k].0.as_str(), f.as_str())
            invariant
                k <= out@.len(),
                counts_view(out@) == g,
                forall|j: int| 0 <= j < k ==> #[trigger] g[j].0 != f@,
            decreases out@.len() - k,
        {
            assert(g[k as int].0 == out@[k as int].0@);
            k = k + 1;
        }
        proof {
            if k < out@.len() {
                assert(g[k as int].0 == out@[k as int].0@);
            }
            assert(k == group_index(g, f@)) by {
                if k < group_index(g, f@) {
                    assert(g[k as int].0 != f@);
                } else if k > group_index(g, f@) {
                    assert(g[group_index(g, f@)].0 != f@);
                }
            }
        }
        if k < out.len() {
            let c = out[k].1;
            assert(c <= i) by {
                assert(g[k as int].1 == c);
            }
            let name = out[k].0.clone();
            out.set(k, (name, c + 1));
            assert(counts_view(out@) =~= g.update(k as int, (f@, g[k as int].1 + 1)));
        } else {
            out.push((f, 1));
            assert(counts_view(out@) =~= g.push((t.last(), 1)));
        }
        i = i + 1;
    }
    assert(fs.take(keys@.len() as int) =~= fs);
    out
}

/// How many configs each folder of an archive holds.
pub fn count_configs_per_folder(entries: &Vec<String>) -> (r: Vec<(String, usize)>)
    ensures
        counts_view(r@) == group_counts(entry_folders(views(entries@))),
{
    let mut folders: Vec<String> = Vec::new();
    let mut i: usize = 0;
    while i < entries.len()
        invariant
            i <= entries@.len(),
            views(folders@) == entry_folders(views(entries@)).take(i as int),
        decreases entries@.len() - i,
    {
        let f = zip_entry_folder(entries[i].as_str());
        let ghost prev = views(folders@);
        folders.push(f);
        proof {
            assert(views(folders@) =~= prev.push(f@));
            assert(entry_folders(views(entries@)).take(i + 1) =~= entry_folders(views(entries@)).take(
                i as int,
            ).push(folder_of_entry(entries@[i as int]@)));
        }
        i = i + 1;
    }
    assert(entry_folders(views(entries@)).take(entries@.len() as int) =~= entry_folders(views(entries@)));
    count_groups(&folders)
}

/// The number of configs counted for a folder, 1 when it is not listed.
pub open spec fn configs_in(counts: Seq<(Seq<char>, nat)>, folder: Seq<char>) -> nat {
    let k = group_index(counts, folder);
    if k < counts.len() {
        counts[k].1
    } else {
        1
    }
}

/// The number of configs counted for a folder.
pub fn configs_in_folder(counts: &Vec<(String, usize)>, folder: &str) -> (r: usize)
    ensures
        r == configs_in(counts_view(counts@), folder@),
{
    let ghost g = counts_view(counts@);
    proof {
        lemma_group_index(g, folder@);
    }
    let mut k: usize = 0;
    while k < counts.len() && !str_eq(counts[k].0.as_str(), folder)
        invariant
            k <= counts@.len(),
            g == counts_view(counts@),
            forall|j: int| 0 <= j < k ==> #[trigger] g[j].0 != folder@,
        decreases counts@.len() - k,
    {
        assert(g[k as int].0 == counts@[k as int].0@);
        k = k + 1;
    }
    proof {
        if k < counts@.len() {
            assert(g[k as int].0 == counts@[k as int].0@);
        }
        assert(k == group_index(g, folder@)) by {
            if k < group_index(g, folder@) {
                assert(g[k as int].0 != folder@);
            } else if k > group_index(g, folder@) {
                assert(g[group_index(g, folder@)].0 != folder@);
            }
        }
    }
    if k < counts.len() {
        counts[k].1
    } else {
        1
    }
}

/// How many of a listing's names have extension `pc`.
pub open spec fn pc_count(names: Seq<Seq<char>>) -> nat
    decreases names.len(),
{
    if names.len() == 0 {
        0
    } else {
        pc_count(names.drop_last()) + if extension(names.last()) == Some("pc"@) {
            1nat
        } else {
            0nat
        }
    }
}

/// The configs counted for a folder on disk: its `.pc` entries, at least 1,
/// and 1 when the folder could not be listed.
pub open spec fn local_config_count(listing: Option<Seq<Seq<char>>>) -> nat {
    match listing {
        Some(ns) => if pc_count(ns) >= 1 {
            pc_count(ns)
        } else {
            1
        },
        None => 1,
    }
}

/// The configs counted for a folder on disk, from its listing.
pub fn count_local_configs(listing: Option<&Vec<String>>) -> (r: usize)
    ensures
        r == local_config_count(
            match listing {
                Some(ns) => Some(views(ns@)),
                None => None,
            },
        ),
{
    match listing {
        None => 1,
        Some(ns) => {
            let ghost vs = views(ns@);
            let mut n: usize = 0;
            let mut i: usize = 0;
            while i < ns.len()
                invariant
                    i <= ns@.len(),
                    vs == views(ns@),
                    n == pc_count(vs.take(i as int)),
                    n <= i,
                decreases ns@.len() - i,
            {
                proof {
                    assert(vs.take(i + 1).drop_last() =~= vs.take(i as int));
                    assert(vs.take(i + 1).last() == ns@[i as int]@);
                }
                if has_extension(ns[i].as_str(), "pc") {
                    n = n + 1;
                }
                i = i + 1;
            }
            assert(vs.take(ns@.len() as int) =~= vs);
            if n >= 1 {
                n
            } else {
                1
            }
        },
    }
}

// ---------------------------------------------------------------------------
// Building entries
// ---------------------------------------------------------------------------

/// The mod a config on disk belongs to: the first component of its path
/// below the scanned root (the path itself when it is not below it), else
/// `fallback`.
pub open spec fn mod_label_of(root: Seq<char>, path: Seq<char>, fallback: Seq<char>) -> Seq<char> {
    let rel = match strip_root(path, root) {
        Some(r) => r,
        None => path,
    };
    let c = first_component(rel);
    if c.len() == 0 {
        fallback
    } else {
        c
    }
}

/// The text of an optional name, or a default.
pub open spec fn or_default(o: Option<Seq<char>>, d: Seq<char>) -> Seq<char> {
    match o {
        Some(x) => x,
        None => d,
    }
}

/// The entry of a config file on disk in folder `folder`, named `stem`.
pub open spec fn local_entry(
    root: Seq<char>,
    config_path: Seq<char>,
    folder: Seq<char>,
    kind: ScanKind,
    mod_label: Seq<char>,
    config_count: nat,
    thumbnail: Option<ThumbView>,
) -> VehicleEntryView {
    let vf = or_default(file_name(folder), "vehicle"@);
    let stem = or_default(file_stem(config_path), "vehicle"@);
    let mod_name = match kind {
        ScanKind::Saved => "Saved"@,
        ScanKind::Stock => "BeamNG"@,
        ScanKind::Mod => mod_label_of(root, config_path, mod_label),
    };
    VehicleEntryView {
        id: match kind {
            ScanKind::Saved => "saved::"@ + vf + "::"@ + stem,
            ScanKind::Stock => "stock::"@ + vf + "::"@ + stem,
            ScanKind::Mod => mod_name + "::"@ + vf + "::"@ + stem,
        },
        name: match kind {
            ScanKind::Saved => display_name(stem) + " (saved)"@,
            ScanKind::Stock => display_name(stem) + " ("@ + display_name(vf) + ")"@,
            ScanKind::Mod => display_name(stem),
        },
        model_key: vf,
        location: LocationView::Local(config_path),
        mod_name,
        category: match kind {
            ScanKind::Saved => VehicleCategory::Saved,
            ScanKind::Stock => VehicleCategory::Stock,
            ScanKind::Mod => VehicleCategory::Mod,
        },
        is_stock: kind == ScanKind::Stock,
        thumbnail,
        config_count,
        in_zip: false,
    }
}

fn or_default_exec(o: Option<String>, d: &str) -> (r: String)
    ensures
        r@ == or_default(opt_view(o), d@),
{
    match o {
        Some(x) => x,
        None => d.to_owned(),
    }
}

fn mod_label_exec(root: &str, path: &str, fallback: &str) -> (r: String)
    ensures
        r@ == mod_label_of(root@, path@, fallback@),
{
    let rel = match strip_root_of(path, root) {
        Some(r) => r,
        None => path.to_owned(),
    };
    let c = first_component_of(rel.as_str());
    if is_empty_str(c.as_str()) {
        fallback.to_owned()
    } else {
        c
    }
}

fn join3(a: &str, b: &str, c: &str) -> (r: String)
    ensures
        r@ == a@ + "::"@ + b@ + "::"@ + c@,
{
    let mut r = a.to_owned();
    r.append("::");
    r.append(b);
    r.append("::");
    r.append(c);
    r
}

/// The scan entry of the config file `config_path`, found while scanning
/// `root` as `kind` (`mod_label` names the mod when the path does not).
/// `validation` is the outcome of checking the file's JSON; `folder` and
/// `fallback` list the folders searched for a thumbnail (see
/// [`find_thumbnail_for_pc`]), `siblings` the config's folder.
pub fn build_local_entry(
    root: &str,
    config_path: &str,
    user_dir: Option<&str>,
    kind: ScanKind,
    mod_label: &str,
    validation: Result<(), AppError>,
    folder: &FolderListing,
    fallback: &FolderListing,
    siblings: Option<&Vec<String>>,
) -> (r: Result<VehicleEntry, AppError>)
    ensures
        match parent(config_path@) {
            None => r matches Err(e) && e.message@ == "Config has no parent folder"@,
            Some(dir) => match validation {
                Err(e) => r matches Err(e2) && e2.message@ == e.message@,
                Ok(_) => r matches Ok(v) && v@ == local_entry(
                    root@,
                    config_path@,
                    dir,
                    kind,
                    mod_label@,
                    local_config_count(
                        match siblings {
                            Some(ns) => Some(views(ns@)),
                            None => None,
                        },
                    ),
                    thumbnail_for_pc(
                        config_path@,
                        dir,
                        or_default(file_stem(config_path@), "vehicle"@),
                        match user_dir {
                            Some(u) => Some(u@),
                            None => None,
                        },
                        folder@,
                        fallback@,
                    ),
                ),
            },
        },
{
    let dir = match parent_of(config_path) {
        Some(d) => d,
        None => {
            return Err(AppError::msg("Config has no parent folder".to_owned()));
        },
    };
    match validation {
        Err(e) => {
            return Err(e);
        },
        Ok(_) => {},
    }
    let vf = or_default_exec(file_name_of(dir.as_str()), "vehicle");
    let stem = or_default_exec(file_stem_of(config_path), "vehicle");
    let mod_name = match kind {
        ScanKind::Saved => "Saved".to_owned(),
        ScanKind::Stock => "BeamNG".to_owned(),
        ScanKind::Mod => mod_label_exec(root, config_path, mod_label),
    };
    let name = match kind {
        ScanKind::Saved => {
            let mut n = format_display_name(stem.as_str());
            n.append(" (saved)");
            n
        },
        ScanKind::Stock => {
            let mut n = format_display_name(stem.as_str());
            n.append(" (");
            let f = format_display_name(vf.as_str());
            n.append(f.as_str());
            n.append(")");
            n
        },
        ScanKind::Mod => format_display_name(stem.as_str()),
    };
    let id = match kind {
        ScanKind::Saved => join3("saved", vf.as_str(), stem.as_str()),
        ScanKind::Stock => join3("stock", vf.as_str(), stem.as_str()),
        ScanKind::Mod => join3(mod_name.as_str(), vf.as_str(), stem.as_str()),
    };
    proof {
        reveal_strlit("saved");
        reveal_strlit("stock");
        reveal_strlit("saved::");
        reveal_strlit("stock::");
        reveal_strlit("::");
        assert("saved"@ + "::"@ =~= "saved::"@);
        assert("stock"@ + "::"@ =~= "stock::"@);
    }
    let config_count = count_local_configs(siblings);
    let thumbnail = find_thumbnail_for_pc(config_path, dir.as_str(), stem.as_str(), user_dir, folder, fallback);
    let category = match kind {
        ScanKind::Saved => VehicleCategory::Saved,
        ScanKind::Stock => VehicleCategory::Stock,
        ScanKind::Mod => VehicleCategory::Mod,
    };
    Ok(VehicleEntry {
        id,
        name,
        model_key: vf,
        location: VehicleLocation::Local { config_path: config_path.to_owned() },
        mod_name,
        category,
        is_stock: kind == ScanKind::Stock,
        thumbnail,
        config_count,
        in_zip: false,
    })
}

/// The info files of a stock vehicle that may name a config, in order.
pub open spec fn stock_info_names(vehicle_folder: Seq<char>, stem: Seq<char>) -> Seq<Seq<char>> {
    seq![
        "vehicles/"@ + vehicle_folder + "/info_"@ + stem + ".json"@,
        "vehicles/"@ + vehicle_folder + "/info.json"@,
    ]
}

/// The info files of a stock vehicle that may name a config.
pub fn stock_info_candidates(vehicle_folder: &str, stem: &str) -> (r: Vec<String>)
    ensures
        views(r@) == stock_info_names(vehicle_folder@, stem@),
{
    let mut a = "vehicles/".to_owned();
    a.append(vehicle_folder);
    a.append("/info_");
    a.append(stem);
    a.append(".json");
    let mut b = "vehicles/".to_owned();
    b.append(vehicle_folder);
    b.append("/info.json");
    let mut r: Vec<String> = Vec::new();
    r.push(a);
    r.push(b);
    assert(views(r@) =~= stock_info_names(vehicle_folder@, stem@));
    r
}

/// The models of optional documents.
pub open spec fn doc_models(docs: Seq<Option<JsonValue>>) -> Seq<Option<JsonModel>> {
    docs.map_values(|d: Option<JsonValue>| match d {
        Some(v) => Some(v.model()),
        None => None,
    })
}

/// The first `Configuration` string of the documents read (`None` for one
/// that could not be read or parsed).
pub open spec fn first_configuration(docs: Seq<Option<JsonModel>>) -> Option<Seq<char>>
    decreases docs.len(),
{
    if docs.len() == 0 {
        None
    } else {
        match docs[0] {
            Some(m) => match model_get_str(m, "Configuration"@) {
                Some(c) => Some(c),
                None => first_configuration(docs.drop_first()),
            },
            None => first_configuration(docs.drop_first()),
        }
    }
}

/// The name of a stock config: the `Configuration` of its info files (as
/// listed by [`stock_info_candidates`]), else its display name.
pub open spec fn stock_config_name(docs: Seq<Option<JsonModel>>, stem: Seq<char>) -> Seq<char> {
    or_default(first_configuration(docs), display_name(stem))
}

/// The name of a stock config from its info documents.
pub fn config_name_from_info(docs: &Vec<Option<JsonValue>>, stem: &str) -> (r: String)
    ensures
        r@ == stock_config_name(doc_models(docs@), stem@),
{
    let ghost ds = doc_models(docs@);
    assert(ds.skip(0) =~= ds);
    let mut i: usize = 0;
    while i < docs.len()
        invariant
            i <= docs@.len(),
            ds == doc_models(docs@),
            first_configuration(ds) == first_configuration(ds.skip(i as int)),
        decreases docs@.len() - i,
    {
        assert(ds.skip(i as int)[0] == ds[i as int]);
        match &docs[i] {
            Some(d) => match d.get_str("Configuration") {
                Some(c) => {
                    return c.clone();
                },
                None => {},
            },
            None => {},
        }
        assert(ds.skip(i as int).drop_first() =~= ds.skip(i + 1));
        i = i + 1;
    }
    format_display_name(stem)
}

/// The entry of config `pc_entry` of the archive `zip_path`.
pub open spec fn zip_entry(
    zip_path: Seq<char>,
    pc_entry: Seq<char>,
    mod_name: Seq<char>,
    config_count: nat,
    kind: ScanKind,
    docs: Seq<Option<JsonModel>>,
    thumbnail: Option<ThumbView>,
) -> VehicleEntryView {
    let stem = or_default(file_stem(pc_entry), "vehicle"@);
    let vf = or_default(pc_entry_vehicle(pc_entry), mod_name);
    VehicleEntryView {
        id: if kind == ScanKind::Stock {
            "stock::"@ + vf + "::"@ + stem
        } else {
            mod_name + "::"@ + vf + "::"@ + stem + "::"@ + zip_path
        },
        name: if kind == ScanKind::Stock {
            stock_config_name(docs, stem)
        } else {
            display_name(stem)
        },
        model_key: vf,
        location: LocationView::Zip(zip_path, pc_entry, None),
        mod_name: if kind == ScanKind::Stock {
            "BeamNG"@
        } else {
            mod_name
        },
        category: match kind {
            ScanKind::Saved => VehicleCategory::Saved,
            ScanKind::Stock => VehicleCategory::Stock,
            ScanKind::Mod => VehicleCategory::Mod,
        },
        is_stock: kind == ScanKind::Stock,
        thumbnail,
        config_count,
        in_zip: true,
    }
}

/// The scan entry of config `pc_entry` of archive `zip_path`.
/// `validation` is the outcome of checking the entry's JSON; `docs` the info
/// documents named by [`stock_info_candidates`] (used for stock packs);
/// `names` the archive's entry names and `fallback` the folder listing used
/// for the thumbnail (see [`find_thumbnail_in_zip`]).
pub fn build_zip_entry(
    zip_path: &str,
    pc_entry: &str,
    mod_name: &str,
    user_dir: Option<&str>,
    config_count: usize,
    kind: ScanKind,
    validation: Result<(), AppError>,
    docs: &Vec<Option<JsonValue>>,
    names: Option<&Vec<String>>,
    fallback: &FolderListing,
) -> (r: Result<VehicleEntry, AppError>)
    ensures
        match validation {
            Err(e) => r matches Err(e2) && e2.message@ == e.message@,
            Ok(_) => r matches Ok(v) && v@ == zip_entry(
                zip_path@,
                pc_entry@,
                mod_name@,
                config_count as nat,
                kind,
                doc_models(docs@),
                thumbnail_for_zip(
                    zip_path@,
                    pc_entry@,
                    or_default(file_stem(pc_entry@), "vehicle"@),
                    match user_dir {
                        Some(u) => Some(u@),
                        None => None,
                    },
                    match names {
                        Some(ns) => Some(views(ns@)),
                        None => None,
                    },
                    fallback@,
                ),
            ),
        },
{
    match validation {
        Err(e) => {
            return Err(e);
        },
        Ok(_) => {},
    }
    let stem = or_default_exec(file_stem_of(pc_entry), "vehicle");
    let vf = or_default_exec(vehicle_folder_from_pc_entry(pc_entry), mod_name);
    let is_stock = kind == ScanKind::Stock;
    let name = if is_stock {
        config_name_from_info(docs, stem.as_str())
    } else {
        format_display_name(stem.as_str())
    };
    let thumbnail = find_thumbnail_in_zip(zip_path, pc_entry, stem.as_str(), user_dir, names, fallback);
    let id = if is_stock {
        proof {
            reveal_strlit("stock");
            reveal_strlit("stock::");
            reveal_strlit("::");
            assert("stock"@ + "::"@ =~= "stock::"@);
        }
        join3("stock", vf.as_str(), stem.as_str())
    } else {
        let mut i = join3(mod_name, vf.as_str(), stem.as_str());
        i.append("::");
        i.append(zip_path);
        i
    };
    let category = match kind {
        ScanKind::Saved => VehicleCategory::Saved,
        ScanKind::Stock => VehicleCategory::Stock,
        ScanKind::Mod => VehicleCategory::Mod,
    };
    Ok(VehicleEntry {
        id,
        name,
        model_key: vf,
        location: VehicleLocation::Zip {
            archive_path: zip_path.to_owned(),
            pc_entry: pc_entry.to_owned(),
            cached_path: None,
        },
        mod_name: if is_stock {
            "BeamNG".to_owned()
        } else {
            mod_name.to_owned()
        },
        category,
        is_stock,
        thumbnail,
        config_count,
        in_zip: true,
    })
}

/// The thumbnail of a vehicle folder: one named after the folder, else as
/// [`find_thumbnail_in_folder`] finds.
pub fn find_thumbnail(folder: &str, listing: &FolderListing) -> (r: Option<String>)
    ensures
        opt_view(r) == thumbnail_of(folder@, or_default(file_name(folder@), Seq::empty()), listing@),
{
    let stem = match file_name_of(folder) {
        Some(n) => n,
        None => String::new(),
    };
    find_thumbnail_in_folder(folder, stem.as_str(), listing)
}

// ---------------------------------------------------------------------------
// Running a scan
// ---------------------------------------------------------------------------

/// What happened to one scanned config.
#[derive(Debug)]
pub enum ScanOutcome {
    /// A config not reported before: report it.
    New(VehicleEntry),
    /// A config whose identifier was already reported.
    Duplicate,
    /// A config that could not be read.
    Skipped,
}

/// The running totals of a vehicle scan.
#[derive(Debug)]
pub struct ScanTally {
    count: usize,
    skipped: usize,
    seen: crate::seen::SeenIds,
}

impl ScanTally {
    /// Configs looked at.
    pub closed spec fn spec_count(self) -> nat {
        self.count as nat
    }

    /// Configs skipped.
    pub closed spec fn spec_skipped(self) -> nat {
        self.skipped as nat
    }

    /// Identifiers reported.
    pub closed spec fn spec_seen(self) -> Set<Seq<char>> {
        self.seen.set()
    }

    /// Nothing scanned yet.
    pub fn new() -> (r: ScanTally)
        ensures
            r.spec_count() == 0,
            r.spec_skipped() == 0,
            r.spec_seen() == Set::<Seq<char>>::empty(),
    {
        ScanTally { count: 0, skipped: 0, seen: crate::seen::SeenIds::new() }
    }

    /// Configs looked at.
    pub fn count(&self) -> (r: usize)
        ensures
            r == self.spec_count(),
    {
        self.count
    }

    /// Configs skipped.
    pub fn skipped(&self) -> (r: usize)
        ensures
            r == self.spec_skipped(),
    {
        self.skipped
    }

    /// Counts one more config; its progress number.
    pub fn next_file(&mut self) -> (r: usize)
        requires
            old(self).spec_count() < usize::MAX,
        ensures
            final(self).spec_count() == old(self).spec_count() + 1,
            r == final(self).spec_count(),
            final(self).spec_skipped() == old(self).spec_skipped(),
            final(self).spec_seen() == old(self).spec_seen(),
    {
        self.count = self.count + 1;
        self.count
    }

    /// Records how building a config's entry went: a failure is skipped, an
    /// entry whose identifier was reported before is a duplicate, any other
    /// is new.
    pub fn record(&mut self, result: Result<VehicleEntry, AppError>) -> (r: ScanOutcome)
        requires
            old(self).spec_skipped() < usize::MAX,
        ensures
            final(self).spec_count() == old(self).spec_count(),
            match result {
                Err(_) => r is Skipped && final(self).spec_skipped() == old(self).spec_skipped() + 1
                    && final(self).spec_seen() == old(self).spec_seen(),
                Ok(v) => final(self).spec_skipped() == old(self).spec_skipped() && final(self).spec_seen()
                    == old(self).spec_seen().insert(v.id@) && if old(self).spec_seen().contains(v.id@) {
                    r is Duplicate
                } else {
                    r matches ScanOutcome::New(w) && w@ == v@
                },
            },
    {
        match result {
            Err(_) => {
                self.skipped = self.skipped + 1;
                ScanOutcome::Skipped
            },
            Ok(v) => {
                if self.seen.insert(v.id.clone()) {
                    ScanOutcome::New(v)
                } else {
                    ScanOutcome::Duplicate
                }
            },
        }
    }

    /// The closing report of the scan.
    pub fn finished(&self) -> (r: ScanMessage)
        ensures
            r matches ScanMessage::Finished { total, skipped } && total == self.spec_count() && skipped
                == self.spec_skipped(),
    {
        ScanMessage::Finished { total: self.count, skipped: self.skipped }
    }
}

/// One part of a vehicle scan.
#[derive(Debug)]
pub enum ScanStep {
    /// Saved configs in the user folder (scanned as saved, labelled `Saved`).
    Saved(String),
    /// The mods folder.
    Mods(String),
    /// Loose vehicles in the game folder (scanned as mods, labelled `Game`).
    GameLoose(String),
    /// Stock vehicle packs.
    Stock(String),
}

/// The mathematical form of a scan step.
pub enum StepView {
    Saved(Seq<char>),
    Mods(Seq<char>),
    GameLoose(Seq<char>),
    Stock(Seq<char>),
}

impl View for ScanStep {
    type V = StepView;

    open spec fn view(&self) -> StepView {
        match *self {
            ScanStep::Saved(d) => StepView::Saved(d@),
            ScanStep::Mods(d) => StepView::Mods(d@),
            ScanStep::GameLoose(d) => StepView::GameLoose(d@),
            ScanStep::Stock(d) => StepView::Stock(d@),
        }
    }
}

/// The views of scan steps.
pub open spec fn steps_view(v: Seq<ScanStep>) -> Seq<StepView> {
    v.map_values(|s: ScanStep| s@)
}

/// The step for a folder, when there is one.
pub open spec fn step_if(d: Option<Seq<char>>, mk: spec_fn(Seq<char>) -> StepView) -> Seq<StepView> {
    match d {
        Some(x) => seq![mk(x)],
        None => Seq::empty(),
    }
}

/// The steps of a vehicle scan: saved configs, mods, the game's loose
/// vehicles and its stock packs, each whose folder exists.
pub open spec fn scan_steps(s: AppSettings, fs: DirProbe) -> Seq<StepView> {
    step_if(s.spec_saved_vehicles_dir(fs), |d: Seq<char>| StepView::Saved(d)) + step_if(
        s.spec_mods_dir(fs),
        |d: Seq<char>| StepView::Mods(d),
    ) + step_if(s.spec_game_loose_vehicles_dir(fs), |d: Seq<char>| StepView::GameLoose(d)) + step_if(
        s.spec_game_vehicles_dir(fs),
        |d: Seq<char>| StepView::Stock(d),
    )
}

/// Whether the settings give anywhere to scan.
pub open spec fn scannable(s: AppSettings, fs: DirProbe) -> bool {
    s.spec_mods_dir(fs) is Some || s.spec_saved_vehicles_dir(fs) is Some || s.spec_game_vehicles_dir(fs) is Some
        || s.spec_game_loose_vehicles_dir(fs) is Some
}

impl ScanStep {
    /// The progress line shown when the step starts.
    pub fn progress_message(&self) -> (r: String)
        ensures
            r@ == match self@ {
                StepView::Saved(d) => "Saved configs: "@ + d,
                StepView::Mods(d) => "Mods: "@ + d,
                StepView::GameLoose(d) => "Game vehicles: "@ + d,
                StepView::Stock(d) => "Stock packs: "@ + d,
            },
    {
        match self {
            ScanStep::Saved(d) => concat("Saved configs: ", d.as_str()),
            ScanStep::Mods(d) => concat("Mods: ", d.as_str()),
            ScanStep::GameLoose(d) => concat("Game vehicles: ", d.as_str()),
            ScanStep::Stock(d) => concat("Stock packs: ", d.as_str()),
        }
    }
}

/// Scans vehicle configs.
pub struct VehicleScanner;

impl VehicleScanner {
    /// What a vehicle scan does: refused when there is nowhere to scan,
    /// otherwise the steps of [`scan_steps`].
    pub fn scan_all(settings: &AppSettings, fs: &DirProbe) -> (r: Result<Vec<ScanStep>, AppError>)
        ensures
            match r {
                Ok(steps) => scannable(*settings, *fs) && steps_view(steps@) == scan_steps(*settings, *fs),
                Err(e) => !scannable(*settings, *fs) && e.message@
                    == "Set BeamNG user folder or BeamNG.exe in Settings to begin scanning"@,
            },
    {
        if !settings.can_scan(fs) {
            return Err(
                AppError::msg("Set BeamNG user folder or BeamNG.exe in Settings to begin scanning".to_owned()),
            );
        }
        let mut steps: Vec<ScanStep> = Vec::new();
        let ghost s0 = steps_view(steps@);
        match settings.saved_vehicles_dir(fs) {
            Some(d) => {
                steps.push(ScanStep::Saved(d));
            },
            None => {},
        }
        let ghost s1 = steps_view(steps@);
        assert(s1 =~= step_if(settings.spec_saved_vehicles_dir(*fs), |d: Seq<char>| StepView::Saved(d)));
        match settings.mods_dir(fs) {
            Some(d) => {
                steps.push(ScanStep::Mods(d));
            },
            None => {},
        }
        let ghost s2 = steps_view(steps@);
        assert(s2 =~= s1 + step_if(settings.spec_mods_dir(*fs), |d: Seq<char>| StepView::Mods(d)));
        match settings.game_loose_vehicles_dir(fs) {
            Some(d) => {
                steps.push(ScanStep::GameLoose(d));
            },
            None => {},
        }
        let ghost s3 = steps_view(steps@);
        assert(s3 =~= s2 + step_if(
            settings.spec_game_loose_vehicles_dir(*fs),
            |d: Seq<char>| StepView::GameLoose(d),
        ));
        match settings.game_vehicles_dir(fs) {
            Some(d) => {
                steps.push(ScanStep::Stock(d));
            },
            None => {},
        }
        assert(steps_view(steps@) =~= s3 + step_if(
            settings.spec_game_vehicles_dir(*fs),
            |d: Seq<char>| StepView::Stock(d),
        ));
        Ok(steps)
    }
}

} // verus!
