//! Engine parts declared by `.jbeam` documents: which parts are engines,
//! which slots they fit, and how they are searched and counted.
use vstd::prelude::*;

use crate::error::AppError;
use crate::json::{
    entry_models, item_models, lemma_model_array, lemma_model_object, model_get, model_get_str, JsonModel,
    JsonValue,
};
use crate::paths::{first_component, first_component_of, strip_root, strip_root_of};
use crate::scanner::{count_groups, counts_view, group_counts, or_default};
use crate::text::{
    contains, contains_ci, dedup, dedup_vec, eq_ci, eq_ignore_case, has_prefix, lower, sort_string_vec,
    sort_strings, starts_with, str_contains, str_eq, to_lower, trim, trim_str, views,
};

verus! {

/// An engine part found in a `.jbeam` document.
#[derive(Debug)]
pub struct EnginePart {
    pub id: String,
    pub name: String,
    pub slot_types: Vec<String>,
    pub source_file: String,
    pub mod_name: String,
}

/// The mathematical form of an engine part.
pub struct EnginePartView {
    pub id: Seq<char>,
    pub name: Seq<char>,
    pub slot_types: Seq<Seq<char>>,
    pub source_file: Seq<char>,
    pub mod_name: Seq<char>,
}

impl View for EnginePart {
    type V = EnginePartView;

    open spec fn view(&self) -> EnginePartView {
        EnginePartView {
            id: self.id@,
            name: self.name@,
            slot_types: views(self.slot_types@),
            source_file: self.source_file@,
            mod_name: self.mod_name@,
        }
    }
}

/// What an engine scan reports.
#[derive(Debug)]
pub enum EngineScanMessage {
    Progress { scanned: usize, message: String },
    Engine(EnginePart),
    Finished { total: usize },
    Error(String),
}

/// Whether a slot type is an engine slot: it mentions `engine` (ASCII case
/// ignored), or is `mainengine` or `main_engine`.
pub open spec fn engine_slot_type(slot: Seq<char>) -> bool {
    let l = lower(slot);
    contains(l, "engine"@) || l == "mainengine"@ || l == "main_engine"@
}

/// Whether a slot type is an engine slot.
pub fn is_engine_slot_type(slot: &str) -> (r: bool)
    ensures
        r == engine_slot_type(slot@),
{
    let l = to_lower(slot);
    str_contains(l.as_str(), "engine") || str_eq(l.as_str(), "mainengine") || str_eq(l.as_str(), "main_engine")
}

// ---------------------------------------------------------------------------
// Slot types
// ---------------------------------------------------------------------------

/// The slot types named anywhere inside a `slots` value: in arrays, each
/// item's `type`, its `name` when that is an engine slot type, then what its
/// own value names; in objects, each `type` string, and what the other
/// values name.
pub open spec fn slots_in(v: JsonModel) -> Seq<Seq<char>>
    decreases v, 1nat, 0nat,
{
    match v {
        JsonModel::Array(items) => items_slots(v, items.len()),
        JsonModel::Object(es) => entries_slots(v, es.len()),
        _ => Seq::empty(),
    }
}

/// What one array item names.
pub open spec fn item_slots(item: JsonModel) -> Seq<Seq<char>>
    decreases item, 2nat, 0nat,
{
    (match model_get_str(item, "type"@) {
        Some(t) => seq![t],
        None => Seq::empty(),
    }) + (match model_get_str(item, "name"@) {
        Some(n) => if engine_slot_type(n) {
            seq![n]
        } else {
            Seq::empty()
        },
        None => Seq::empty(),
    }) + slots_in(item)
}

/// What the first `n` items of an array name.
pub open spec fn items_slots(v: JsonModel, n: nat) -> Seq<Seq<char>>
    decreases v, 0nat, n,
{
    match v {
        JsonModel::Array(items) => if n == 0 || n > items.len() {
            Seq::empty()
        } else {
            items_slots(v, (n - 1) as nat) + item_slots(items[n - 1])
        },
        _ => Seq::empty(),
    }
}

/// What the first `n` entries of an object name.
pub open spec fn entries_slots(v: JsonModel, n: nat) -> Seq<Seq<char>>
    decreases v, 0nat, n,
{
    match v {
        JsonModel::Object(es) => if n == 0 || n > es.len() {
            Seq::empty()
        } else {
            entries_slots(v, (n - 1) as nat) + if es[n - 1].0 == "type"@ {
                match es[n - 1].1 {
                    JsonModel::Str(s) => seq![s],
                    _ => Seq::empty(),
                }
            } else {
                slots_in(es[n - 1].1)
            }
        },
        _ => Seq::empty(),
    }
}

fn push_all(out: &mut Vec<String>, extra: Vec<String>)
    ensures
        views(final(out)@) == views(old(out)@) + views(extra@),
{
    let ghost base = views(out@);
    let mut i: usize = 0;
    while i < extra.len()
        invariant
            i <= extra@.len(),
            views(out@) == base + views(extra@).take(i as int),
        decreases extra@.len() - i,
    {
        let ghost prev = views(out@);
        out.push(extra[i].clone());
        proof {
            assert(views(out@) =~= prev.push(extra@[i as int]@));
            assert(views(extra@).take(i + 1) =~= views(extra@).take(i as int).push(extra@[i as int]@));
        }
        i = i + 1;
    }
    assert(views(extra@).take(extra@.len() as int) =~= views(extra@));
}

/// Appends the slot types named inside `value` (see [`slots_in`]).
pub fn collect_slots_recursive(value: &JsonValue, out: &mut Vec<String>)
    ensures
        views(final(out)@) == views(old(out)@) + slots_in(value.model()),
    decreases value,
{
    match value {
        JsonValue::Array(arr) => {
            proof {
                lemma_model_array(*value);
            }
            let ghost m = value.model();
            let ghost base = views(out@);
            proof {
                assert(decreases_to!(*value => *arr));
                assert forall|k: int| 0 <= k < arr@.len() implies decreases_to!(*value => #[trigger] arr@[k]) by {
                    assert(decreases_to!(*arr => arr@[k]));
                }
            }
            let mut i: usize = 0;
            while i < arr.len()
                invariant
                    i <= arr@.len(),
                    m == value.model(),
                    m == JsonModel::Array(item_models(arr@)),
                    views(out@) == base + items_slots(m, i as nat),
                    forall|k: int| 0 <= k < arr@.len() ==> decreases_to!(*value => #[trigger] arr@[k]),
                decreases arr@.len() - i,
            {
                let item = &arr[i];
                let ghost before = views(out@);
                let mut mine: Vec<String> = Vec::new();
                match item.get_str("type") {
                    Some(t) => {
                        mine.push(t.clone());
                    },
                    None => {},
                }
                let ghost a = views(mine@);
                match item.get_str("name") {
                    Some(n) => {
                        if is_engine_slot_type(n.as_str()) {
                            mine.push(n.clone());
                        }
                    },
                    None => {},
                }
                let ghost ab = views(mine@);
                proof {
                    assert(ab =~= (match model_get_str(item.model(), "type"@) {
                        Some(t) => seq![t],
                        None => Seq::empty(),
                    }) + (match model_get_str(item.model(), "name"@) {
                        Some(n) => if engine_slot_type(n) {
                            seq![n]
                        } else {
                            Seq::empty()
                        },
                        None => Seq::empty(),
                    }));
                }
                collect_slots_recursive(item, &mut mine);
                let ghost collected = views(mine@);
                push_all(out, mine);
                proof {
                    assert(item_models(arr@)[i as int] == item.model());
                    assert(collected == ab + slots_in(item.model()));
                    assert(item_slots(item.model()) == ab + slots_in(item.model()));
                    assert(items_slots(m, (i + 1) as nat) == items_slots(m, i as nat) + item_slots(
                        item_models(arr@)[i as int],
                    ));
                    assert(views(out@) == before + collected);
                    assert(views(out@) =~= base + items_slots(m, (i + 1) as nat));
                }
                i = i + 1;
            }
            assert(items_slots(m, arr@.len() as nat) == slots_in(m));
        },
        JsonValue::Object(es) => {
            proof {
                lemma_model_object(*value);
            }
            let ghost m = value.model();
            let ghost base = views(out@);
            proof {
                assert(decreases_to!(*value => *es));
                assert forall|k: int| 0 <= k < es@.len() implies decreases_to!(*value => #[trigger] es@[k].1) by {
                    assert(decreases_to!(*es => es@[k]));
                    assert(decreases_to!(es@[k] => es@[k].1));
                }
            }
            let mut i: usize = 0;
            while i < es.len()
                invariant
                    i <= es@.len(),
                    m == value.model(),
                    m == JsonModel::Object(entry_models(es@)),
                    views(out@) == base + entries_slots(m, i as nat),
                    forall|k: int| 0 <= k < es@.len() ==> decreases_to!(*value => #[trigger] es@[k].1),
                decreases es@.len() - i,
            {
                let key = &es[i].0;
                let v = &es[i].1;
                let ghost before = views(out@);
                proof {
                    assert(entry_models(es@)[i as int] == (key@, v.model()));
                }
                if str_eq(key.as_str(), "type") {
                    match v {
                        JsonValue::Str(s) => {
                            out.push(s.clone());
                            assert(views(out@) =~= before.push(s@));
                        },
                        _ => {},
                    }
                } else {
                    collect_slots_recursive(v, out);
                }
                proof {
                    assert(views(out@) =~= base + entries_slots(m, (i + 1) as nat));
                }
                i = i + 1;
            }
            assert(entries_slots(m, es@.len() as nat) == slots_in(m));
        },
        _ => {},
    }
}

/// The slot types a part names before sorting: its `slotType`, then what
/// its `slots` name.
pub open spec fn raw_slot_types(part: JsonModel) -> Seq<Seq<char>> {
    (match model_get_str(part, "slotType"@) {
        Some(s) => seq![s],
        None => Seq::empty(),
    }) + match model_get(part, "slots"@) {
        Some(v) => slots_in(v),
        None => Seq::empty(),
    }
}

/// The slot types of a part, sorted without repeats.
pub open spec fn slot_types_of(part: JsonModel) -> Seq<Seq<char>> {
    dedup(sort_strings(raw_slot_types(part)))
}

/// The slot types of a part.
pub fn collect_slot_types(part: &JsonValue) -> (r: Vec<String>)
    ensures
        views(r@) == slot_types_of(part.model()),
{
    let mut slots: Vec<String> = Vec::new();
    match part.get_str("slotType") {
        Some(s) => {
            slots.push(s.clone());
        },
        None => {},
    }
    let ghost a = views(slots@);
    match part.get("slots") {
        Some(v) => {
            collect_slots_recursive(v, &mut slots);
        },
        None => {},
    }
    assert(views(slots@) =~= raw_slot_types(part.model()));
    let sorted = sort_string_vec(slots);
    dedup_vec(sorted)
}

// ---------------------------------------------------------------------------
// Engine parts of a document
// ---------------------------------------------------------------------------

/// Whether some slot type is an engine slot.
pub open spec fn any_engine_slot(ss: Seq<Seq<char>>) -> bool
    decreases ss.len(),
{
    ss.len() > 0 && (engine_slot_type(ss.last()) || any_engine_slot(ss.drop_last()))
}

/// The display name of a part: `information.name`, else its id.
pub open spec fn part_name(id: Seq<char>, part: JsonModel) -> Seq<char> {
    or_default(
        match model_get(part, "information"@) {
            Some(info) => model_get_str(info, "name"@),
            None => None,
        },
        id,
    )
}

/// The engine part declared as `id` by `part`, when it is one: parts whose
/// id starts with `__` or `//`, and values that are not objects, are not
/// parts; a part is an engine when a slot it names is an engine slot, its
/// id mentions `engine`, its own slot type is an engine slot, or it has no
/// slot type and its name or id mentions `engine`.
pub open spec fn engine_entry(id: Seq<char>, part: JsonModel, path: Seq<char>, mod_name: Seq<char>) -> Option<
    EnginePartView,
> {
    if has_prefix(id, "__"@) || has_prefix(id, "//"@) || !(part is Object) {
        None
    } else {
        let slot_types = slot_types_of(part);
        let is_engine = any_engine_slot(slot_types) || contains(lower(id), "engine"@);
        let name = part_name(id, part);
        let part_type = or_default(model_get_str(part, "slotType"@), Seq::empty());
        let looks = is_engine || engine_slot_type(part_type) || (part_type.len() == 0 && (contains(
            lower(name),
            "engine"@,
        ) || contains(lower(id), "engine"@)));
        if !looks {
            None
        } else {
            Some(
                EnginePartView {
                    id,
                    name,
                    slot_types: if slot_types.len() == 0 && part_type.len() > 0 {
                        seq![part_type]
                    } else {
                        slot_types
                    },
                    source_file: path,
                    mod_name,
                },
            )
        }
    }
}

/// The engine parts declared by the entries of a document, in order.
pub open spec fn engines_in(es: Seq<(Seq<char>, JsonModel)>, path: Seq<char>, mod_name: Seq<char>) -> Seq<
    EnginePartView,
>
    decreases es.len(),
{
    if es.len() == 0 {
        Seq::empty()
    } else {
        let r = engines_in(es.drop_last(), path, mod_name);
        match engine_entry(es.last().0, es.last().1, path, mod_name) {
            Some(e) => r.push(e),
            None => r,
        }
    }
}

/// The engine parts of a `.jbeam` document (none unless it is an object).
pub open spec fn jbeam_engines(doc: JsonModel, path: Seq<char>, mod_name: Seq<char>) -> Seq<EnginePartView> {
    match doc {
        JsonModel::Object(es) => engines_in(es, path, mod_name),
        _ => Seq::empty(),
    }
}

proof fn lemma_engines_in_has(es: Seq<(Seq<char>, JsonModel)>, path: Seq<char>, mod_name: Seq<char>, k: int)
    requires
        0 <= k < es.len(),
        engine_entry(es[k].0, es[k].1, path, mod_name) is Some,
    ensures
        engines_in(es, path, mod_name).contains(engine_entry(es[k].0, es[k].1, path, mod_name)->0),
    decreases es.len(),
{
    let r = engines_in(es.drop_last(), path, mod_name);
    let x = engine_entry(es[k].0, es[k].1, path, mod_name)->0;
    if k == es.len() - 1 {
        assert(engines_in(es, path, mod_name)[r.len() as int] == x);
    } else {
        assert(es.drop_last()[k] == es[k]);
        lemma_engines_in_has(es.drop_last(), path, mod_name, k);
        let j = choose|j: int| 0 <= j < r.len() && r[j] == x;
        assert(0 <= j < r.len() && r[j] == x);
        match engine_entry(es.last().0, es.last().1, path, mod_name) {
            Some(e) => {
                assert(engines_in(es, path, mod_name) == r.push(e));
                assert(engines_in(es, path, mod_name)[j] == x);
            },
            None => {},
        }
    }
}

proof fn lemma_engines_in_from(es: Seq<(Seq<char>, JsonModel)>, path: Seq<char>, mod_name: Seq<char>)
    ensures
        forall|j: int|
            0 <= j < engines_in(es, path, mod_name).len() ==> exists|k: int|
                0 <= k < es.len() && engine_entry(es[k].0, es[k].1, path, mod_name) == Some(
                    #[trigger] engines_in(es, path, mod_name)[j],
                ),
    decreases es.len(),
{
    if es.len() > 0 {
        let d = es.drop_last();
        lemma_engines_in_from(d, path, mod_name);
        let r = engines_in(d, path, mod_name);
        let o = engines_in(es, path, mod_name);
        assert forall|j: int| 0 <= j < o.len() implies exists|k: int|
            0 <= k < es.len() && engine_entry(es[k].0, es[k].1, path, mod_name) == Some(#[trigger] o[j]) by {
            if j < r.len() {
                assert(o[j] == r[j]);
                let k = choose|k: int| 0 <= k < d.len() && engine_entry(d[k].0, d[k].1, path, mod_name) == Some(
                    #[trigger] r[j],
                );
                assert(es[k] == d[k]);
            } else {
                let n = es.len() - 1;
                assert(es[n] == es.last());
            }
        }
    }
}

/// The engines of a `.jbeam` document include every object under a key
/// that starts with neither `__` nor `//` and whose lowercased id mentions
/// `engine`, or whose `slotType` is an engine slot type: each is listed with
/// the key as id, as name its `information.name` when that is a string
/// (else the key), and the given file and mod.
pub proof fn law_jbeam_engines_listed(es: Seq<(Seq<char>, JsonModel)>, path: Seq<char>, mod_name: Seq<char>, k: int)
    requires
        0 <= k < es.len(),
        !has_prefix(es[k].0, "__"@),
        !has_prefix(es[k].0, "//"@),
        es[k].1 is Object,
        contains(lower(es[k].0), "engine"@) || (model_get_str(es[k].1, "slotType"@) matches Some(t) && engine_slot_type(
            t,
        )),
    ensures
        exists|j: int|
            0 <= j < jbeam_engines(JsonModel::Object(es), path, mod_name).len() && {
                let e = #[trigger] jbeam_engines(JsonModel::Object(es), path, mod_name)[j];
                &&& e.id == es[k].0
                &&& e.name == match model_get(es[k].1, "information"@) {
                    Some(info) => match model_get_str(info, "name"@) {
                        Some(n) => n,
                        None => es[k].0,
                    },
                    None => es[k].0,
                }
                &&& e.source_file == path
                &&& e.mod_name == mod_name
            },
{
    assert(engine_entry(es[k].0, es[k].1, path, mod_name) is Some);
    lemma_engines_in_has(es, path, mod_name, k);
    let r = engines_in(es, path, mod_name);
    let x = engine_entry(es[k].0, es[k].1, path, mod_name)->0;
    let j = choose|j: int| 0 <= j < r.len() && r[j] == x;
    assert(0 <= j < r.len() && r[j] == x);
    assert(jbeam_engines(JsonModel::Object(es), path, mod_name)[j] == x);
}

/// Every engine listed for a `.jbeam` document comes from one of its
/// entries: an object under a key that starts with neither `__` nor `//`,
/// that key being the engine's id.
pub proof fn law_jbeam_engines_sources(es: Seq<(Seq<char>, JsonModel)>, path: Seq<char>, mod_name: Seq<char>, j: int)
    requires
        0 <= j < jbeam_engines(JsonModel::Object(es), path, mod_name).len(),
    ensures
        exists|k: int|
            0 <= k < es.len() && (#[trigger] es[k]).0 == jbeam_engines(JsonModel::Object(es), path, mod_name)[j].id
                && !has_prefix(es[k].0, "__"@) && !has_prefix(es[k].0, "//"@) && es[k].1 is Object,
{
    lemma_engines_in_from(es, path, mod_name);
    let o = engines_in(es, path, mod_name);
    let k = choose|k: int| 0 <= k < es.len() && engine_entry(es[k].0, es[k].1, path, mod_name) == Some(#[trigger] o[j]);
    assert(engine_entry(es[k].0, es[k].1, path, mod_name) == Some(o[j]));
    assert(es[k].0 == o[j].id);
}

/// The views of engine parts.
pub open spec fn engine_views(v: Seq<EnginePart>) -> Seq<EnginePartView> {
    v.map_values(|e: EnginePart| e@)
}

fn any_engine_slot_exec(ss: &Vec<String>) -> (r: bool)
    ensures
        r == any_engine_slot(views(ss@)),
{
    let ghost vs = views(ss@);
    let mut found = false;
    let mut i: usize = 0;
    while i < ss.len()
        invariant
            i <= ss@.len(),
            vs == views(ss@),
            found == any_engine_slot(vs.take(i as int)),
        decreases ss@.len() - i,
    {
        proof {
            assert(vs.take(i + 1).drop_last() =~= vs.take(i as int));
            assert(vs.take(i + 1).last() == ss@[i as int]@);
        }
        if is_engine_slot_type(ss[i].as_str()) {
            found = true;
        }
        i = i + 1;
    }
    assert(vs.take(ss@.len() as int) =~= vs);
    found
}

fn engine_entry_exec(id: &String, part: &JsonValue, path: &str, mod_name: &str) -> (r: Option<EnginePart>)
    ensures
        match r {
            Some(e) => engine_entry(id@, part.model(), path@, mod_name@) == Some(e@),
            None => engine_entry(id@, part.model(), path@, mod_name@) is None,
        },
{
    if starts_with(id.as_str(), "__") || starts_with(id.as_str(), "//") || !part.is_object() {
        return None;
    }
    let slot_types = collect_slot_types(part);
    let lid = to_lower(id.as_str());
    let is_engine = any_engine_slot_exec(&slot_types) || str_contains(lid.as_str(), "engine");
    let name = match part.get("information") {
        Some(info) => match info.get_str("name") {
            Some(n) => n.clone(),
            None => id.clone(),
        },
        None => id.clone(),
    };
    let part_type = match part.get_str("slotType") {
        Some(t) => t.clone(),
        None => String::new(),
    };
    let lname = to_lower(name.as_str());
    let pt_empty = crate::text::is_empty_str(part_type.as_str());
    let looks = is_engine || is_engine_slot_type(part_type.as_str()) || (pt_empty && (str_contains(
        lname.as_str(),
        "engine",
    ) || str_contains(lid.as_str(), "engine")));
    if !looks {
        return None;
    }
    let types = if slot_types.len() == 0 && !pt_empty {
        let mut v: Vec<String> = Vec::new();
        v.push(part_type);
        assert(views(v@) =~= seq![v@[0]@]);
        v
    } else {
        slot_types
    };
    Some(EnginePart { id: id.clone(), name, slot_types: types, source_file: path.to_owned(), mod_name: mod_name.to_owned() })
}

/// The engine parts a `.jbeam` document at `path` of mod `mod_name` declares.
pub fn parse_jbeam_engines(doc: &JsonValue, path: &str, mod_name: &str) -> (r: Vec<EnginePart>)
    ensures
        engine_views(r@) == jbeam_engines(doc.model(), path@, mod_name@),
{
    let mut out: Vec<EnginePart> = Vec::new();
    match doc {
        JsonValue::Object(es) => {
            proof {
                lemma_model_object(*doc);
            }
            let ghost ms = entry_models(es@);
            let mut i: usize = 0;
            while i < es.len()
                invariant
                    i <= es@.len(),
                    ms == entry_models(es@),
                    doc.model() == JsonModel::Object(ms),
                    engine_views(out@) == engines_in(ms.take(i as int), path@, mod_name@),
                decreases es@.len() - i,
            {
                proof {
                    assert(ms.take(i + 1).drop_last() =~= ms.take(i as int));
                    assert(ms.take(i + 1).last() == ms[i as int]);
                    assert(ms[i as int] == (es@[i as int].0@, es@[i as int].1.model()));
                }
                let ghost prev = engine_views(out@);
                match engine_entry_exec(&es[i].0, &es[i].1, path, mod_name) {
                    Some(e) => {
                        out.push(e);
                        assert(engine_views(out@) =~= prev.push(out@.last()@));
                    },
                    None => {},
                }
                i = i + 1;
            }
            assert(ms.take(es@.len() as int) =~= ms);
        },
        _ => {},
    }
    out
}

// ---------------------------------------------------------------------------
// Searching engines
// ---------------------------------------------------------------------------

/// Whether an engine passes a search: from mod `mod_filter` (ASCII case
/// ignored) when one is given, and, for a non-empty query `q` (already
/// trimmed and lowercased), with `q` in its lowercased id, name or mod.
pub open spec fn engine_matches(e: EnginePartView, q: Seq<char>, mod_filter: Option<Seq<char>>) -> bool {
    (match mod_filter {
        Some(m) => eq_ci(e.mod_name, m),
        None => true,
    }) && (q.len() == 0 || contains(lower(e.id), q) || contains(lower(e.name), q) || contains(
        lower(e.mod_name),
        q,
    ))
}

/// The engines passing a search, in order.
pub open spec fn engines_matching(es: Seq<EnginePartView>, q: Seq<char>, mod_filter: Option<Seq<char>>) -> Seq<
    EnginePartView,
>
    decreases es.len(),
{
    if es.len() == 0 {
        Seq::empty()
    } else {
        let r = engines_matching(es.drop_last(), q, mod_filter);
        if engine_matches(es.last(), q, mod_filter) {
            r.push(es.last())
        } else {
            r
        }
    }
}

proof fn lemma_engines_matching_filter(es: Seq<EnginePartView>, q: Seq<char>, mod_filter: Option<Seq<char>>)
    ensures
        engines_matching(es, q, mod_filter) == es.filter(|e: EnginePartView| engine_matches(e, q, mod_filter)),
    decreases es.len(),
{
    reveal(Seq::filter);
    if es.len() > 0 {
        lemma_engines_matching_filter(es.drop_last(), q, mod_filter);
    }
}

/// An engine search keeps exactly the engines that pass it, in their order:
/// with the query trimmed and lowercased, each engine found is one of the
/// engines, from the mod asked for (ASCII case ignored) when one is, and,
/// for a non-empty query, holds the query in its lowercased id, name or mod
/// name; every engine of which this holds is found, and the engines found
/// keep their order.
pub proof fn law_engine_search(es: Seq<EnginePartView>, query: Seq<char>, mod_filter: Option<Seq<char>>)
    ensures
        forall|e: EnginePartView|
            #[trigger] engines_matching(es, lower(trim(query)), mod_filter).contains(e) ==> {
                &&& es.contains(e)
                &&& mod_filter matches Some(m) ==> eq_ci(e.mod_name, m)
                &&& lower(trim(query)).len() > 0 ==> contains(lower(e.id), lower(trim(query))) || contains(
                    lower(e.name),
                    lower(trim(query)),
                ) || contains(lower(e.mod_name), lower(trim(query)))
            },
        forall|e: EnginePartView|
            #[trigger] es.contains(e) && (mod_filter matches Some(m) ==> eq_ci(e.mod_name, m)) && (
            lower(trim(query)).len() == 0 || contains(lower(e.id), lower(trim(query))) || contains(
                lower(e.name),
                lower(trim(query)),
            ) || contains(lower(e.mod_name), lower(trim(query)))) ==> engines_matching(
                es,
                lower(trim(query)),
                mod_filter,
            ).contains(e),
        engines_matching(es, lower(trim(query)), mod_filter) == es.filter(
            |e: EnginePartView|
                (mod_filter matches Some(m) ==> eq_ci(e.mod_name, m)) && (lower(trim(query)).len() == 0 || contains(
                    lower(e.id),
                    lower(trim(query)),
                ) || contains(lower(e.name), lower(trim(query))) || contains(lower(e.mod_name), lower(trim(query)))),
        ),
{
    let q = lower(trim(query));
    lemma_engines_matching_filter(es, q, mod_filter);
    let pred = |e: EnginePartView| engine_matches(e, q, mod_filter);
    crate::text::lemma_filter_members(es, pred);
    let direct = |e: EnginePartView|
        (mod_filter matches Some(m) ==> eq_ci(e.mod_name, m)) && (q.len() == 0 || contains(lower(e.id), q) || contains(
            lower(e.name),
            q,
        ) || contains(lower(e.mod_name), q));
    assert(pred =~= direct);
}

/// The views of borrowed engine parts.
pub open spec fn engine_ref_views(v: Seq<&EnginePart>) -> Seq<EnginePartView> {
    v.map_values(|e: &EnginePart| e@)
}

/// The engines matching a query (trimmed, ASCII case ignored) and, when
/// given, a mod.
pub fn filter_engines<'a>(engines: &'a Vec<EnginePart>, query: &str, mod_filter: Option<&str>) -> (r: Vec<
    &'a EnginePart,
>)
    ensures
        engine_ref_views(r@) == engines_matching(
            engine_views(engines@),
            lower(trim(query@)),
            match mod_filter {
                Some(m) => Some(m@),
                None => None,
            },
        ),
{
    let t = trim_str(query);
    let q = to_lower(t.as_str());
    let ghost es = engine_views(engines@);
    let ghost mf = match mod_filter {
        Some(m) => Some(m@),
        None => None,
    };
    let mut out: Vec<&EnginePart> = Vec::new();
    let mut i: usize = 0;
    while i < engines.len()
        invariant
            i <= engines@.len(),
            es == engine_views(engines@),
            q@ == lower(trim(query@)),
            mf == match mod_filter {
                Some(m) => Some(m@),
                None => None,
            },
            engine_ref_views(out@) == engines_matching(es.take(i as int), q@, mf),
        decreases engines@.len() - i,
    {
        let e = &engines[i];
        proof {
            assert(es.take(i + 1).drop_last() =~= es.take(i as int));
            assert(es.take(i + 1).last() == e@);
        }
        let by_mod = match mod_filter {
            Some(m) => eq_ignore_case(e.mod_name.as_str(), m),
            None => true,
        };
        let keep = by_mod && (crate::text::is_empty_str(q.as_str()) || {
            let lid = to_lower(e.id.as_str());
            str_contains(lid.as_str(), q.as_str())
        } || {
            let ln = to_lower(e.name.as_str());
            str_contains(ln.as_str(), q.as_str())
        } || {
            let lm = to_lower(e.mod_name.as_str());
            str_contains(lm.as_str(), q.as_str())
        });
        if keep {
            let ghost prev = engine_ref_views(out@);
            out.push(e);
            assert(engine_ref_views(out@) =~= prev.push(e@));
        }
        i = i + 1;
    }
    assert(es.take(engines@.len() as int) =~= es);
    out
}

/// The mod names of some engines.
pub open spec fn engine_mods(es: Seq<EnginePartView>) -> Seq<Seq<char>> {
    es.map_values(|e: EnginePartView| e.mod_name)
}

/// How many engines each mod has, mods in order of first appearance.
pub fn engines_by_mod(engines: &Vec<EnginePart>) -> (r: Vec<(String, usize)>)
    ensures
        counts_view(r@) == group_counts(engine_mods(engine_views(engines@))),
{
    let mut names: Vec<String> = Vec::new();
    let mut i: usize = 0;
    while i < engines.len()
        invariant
            i <= engines@.len(),
            views(names@) == engine_mods(engine_views(engines@)).take(i as int),
        decreases engines@.len() - i,
    {
        let ghost prev = views(names@);
        names.push(engines[i].mod_name.clone());
        proof {
            assert(views(names@) =~= prev.push(engines@[i as int].mod_name@));
            assert(engine_mods(engine_views(engines@)).take(i + 1) =~= engine_mods(engine_views(engines@)).take(
                i as int,
            ).push(engines@[i as int].mod_name@));
        }
        i = i + 1;
    }
    assert(engine_mods(engine_views(engines@)).take(engines@.len() as int) =~= engine_mods(
        engine_views(engines@),
    ));
    count_groups(&names)
}

// ---------------------------------------------------------------------------
// Scanning
// ---------------------------------------------------------------------------

/// The mod a file belongs to: the first component of its path below the
/// scanned root, `unknown` when there is none.
pub open spec fn mod_of_file(root: Seq<char>, path: Seq<char>) -> Seq<char> {
    match strip_root(path, root) {
        Some(rel) => if first_component(rel).len() == 0 {
            "unknown"@
        } else {
            first_component(rel)
        },
        None => "unknown"@,
    }
}

/// The mod a file below `root` belongs to.
pub fn file_mod_name(root: &str, path: &str) -> (r: String)
    ensures
        r@ == mod_of_file(root@, path@),
{
    match strip_root_of(path, root) {
        Some(rel) => {
            let c = first_component_of(rel.as_str());
            if crate::text::is_empty_str(c.as_str()) {
                "unknown".to_owned()
            } else {
                c
            }
        },
        None => "unknown".to_owned(),
    }
}

/// Scans a mods folder for engine parts.
pub struct EngineScanner;

impl EngineScanner {
    /// Checks that an engine scan can start: the root must be a directory.
    pub fn scan_engines(root_is_dir: bool) -> (r: Result<(), AppError>)
        ensures
            r is Ok <==> root_is_dir,
            r matches Err(e) ==> e.message@ == "Mods root is not a directory"@,
    {
        if !root_is_dir {
            return Err(AppError::msg("Mods root is not a directory".to_owned()));
        }
        Ok(())
    }
}

} // verus!
