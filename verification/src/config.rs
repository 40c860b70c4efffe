//! A vehicle `.pc` config: its document, the parts it assigns to slots, and
//! the edits made to it.
use vstd::prelude::*;

use crate::error::AppError;
use crate::json::{
    entries_get, entries_set, entries_set_exec, entry_models, lemma_model_object, model_get, JsonModel,
    JsonValue,
};
use crate::paths::{file_stem, file_stem_of};
use crate::slots::{keys_sorted, pairs_map, SlotMap};
use crate::text::{
    contains, insert_sorted_unique, lower, seq_lt, str_contains, str_eq, strictly_sorted, to_lower, views,
};

verus! {

/// Known BeamNG engine slot names, in the order they are looked up.
pub open spec fn engine_slot_names() -> Seq<Seq<char>> {
    seq!["mainEngine"@, "engine"@, "main_engine"@, "engineMain"@, "engineSlot"@]
}

/// The number of known engine slot names.
pub const ENGINE_SLOT_NAME_COUNT: usize = 5;

/// The known engine slot name at position `i`.
pub fn engine_slot_name(i: usize) -> (r: &'static str)
    requires
        i < 5,
    ensures
        r@ == engine_slot_names()[i as int],
{
    if i == 0 {
        "mainEngine"
    } else if i == 1 {
        "engine"
    } else if i == 2 {
        "main_engine"
    } else if i == 3 {
        "engineMain"
    } else {
        "engineSlot"
    }
}

/// The slots assigned a string in a `parts` object, later entries winning.
pub open spec fn string_entries_map(es: Seq<(Seq<char>, JsonModel)>) -> Map<Seq<char>, Seq<char>>
    decreases es.len(),
{
    if es.len() == 0 {
        Map::empty()
    } else {
        let m = string_entries_map(es.drop_last());
        match es.last().1 {
            JsonModel::Str(s) => m.insert(es.last().0, s),
            _ => m,
        }
    }
}

/// The slot assignments of a config document: the string entries of its
/// `parts` object (none when there is no such object).
pub open spec fn parts_of(raw: JsonModel) -> Map<Seq<char>, Seq<char>> {
    match model_get(raw, "parts"@) {
        Some(JsonModel::Object(es)) => string_entries_map(es),
        _ => Map::empty(),
    }
}

/// The entries of a `parts` object listing the given assignments in order.
pub open spec fn parts_entries(ps: Seq<(Seq<char>, Seq<char>)>) -> Seq<(Seq<char>, JsonModel)> {
    ps.map_values(|p: (Seq<char>, Seq<char>)| (p.0, JsonModel::Str(p.1)))
}

/// A `parts` object listing the given assignments in order.
pub open spec fn parts_object(ps: Seq<(Seq<char>, Seq<char>)>) -> JsonModel {
    JsonModel::Object(parts_entries(ps))
}

/// The entries of an object after setting each assignment of `edits` in
/// turn (as strings).
pub open spec fn with_assignments(
    pes: Seq<(Seq<char>, JsonModel)>,
    edits: Seq<(Seq<char>, Seq<char>)>,
) -> Seq<(Seq<char>, JsonModel)>
    decreases edits.len(),
{
    if edits.len() == 0 {
        pes
    } else {
        entries_set(with_assignments(pes, edits.drop_last()), edits.last().0, JsonModel::Str(edits.last().1))
    }
}

/// Whether `result` is the document `raw` of a config with assignments
/// `base` after each of `edits` was assigned in turn (see
/// [`raw_with_part`]): with a `parts` object, its entries are set one after
/// the other; in any other object, the first edit puts in a `parts` object
/// with every assignment in key order, and the others are set in it; a
/// document that is not an object is unchanged.
pub open spec fn raw_after_edits(
    raw: JsonModel,
    base: Map<Seq<char>, Seq<char>>,
    edits: Seq<(Seq<char>, Seq<char>)>,
    result: JsonModel,
) -> bool {
    match raw {
        JsonModel::Object(es) => match entries_get(es, "parts"@) {
            Some(JsonModel::Object(pes)) => result == JsonModel::Object(
                entries_set(es, "parts"@, JsonModel::Object(with_assignments(pes, edits))),
            ),
            _ => if edits.len() == 0 {
                result == raw
            } else {
                exists|ps: Seq<(Seq<char>, Seq<char>)>|
                    keys_sorted(ps) && pairs_map(ps) == base.insert(edits[0].0, edits[0].1) && result
                        == JsonModel::Object(
                        entries_set(
                            es,
                            "parts"@,
                            JsonModel::Object(with_assignments(parts_entries(ps), edits.drop_first())),
                        ),
                    )
            },
        },
        _ => result == raw,
    }
}

/// The document after assigning `part` to `slot`, where `all` are the
/// config's assignments after the edit: the entry is set in an existing
/// `parts` object; otherwise a `parts` object with all assignments is put in
/// the document when it is an object.
pub open spec fn raw_with_part(
    raw: JsonModel,
    slot: Seq<char>,
    part: Seq<char>,
    all: Seq<(Seq<char>, Seq<char>)>,
) -> JsonModel {
    match raw {
        JsonModel::Object(es) => match entries_get(es, "parts"@) {
            Some(JsonModel::Object(pes)) => JsonModel::Object(
                entries_set(es, "parts"@, JsonModel::Object(entries_set(pes, slot, JsonModel::Str(part)))),
            ),
            _ => JsonModel::Object(entries_set(es, "parts"@, parts_object(all))),
        },
        _ => raw,
    }
}

/// One more assignment, made as [`raw_with_part`] makes it, extends
/// [`raw_after_edits`] by that edit.
pub proof fn lemma_raw_after_edits_push(
    raw: JsonModel,
    base: Map<Seq<char>, Seq<char>>,
    edits: Seq<(Seq<char>, Seq<char>)>,
    cur: JsonModel,
    slot: Seq<char>,
    part: Seq<char>,
    all: Seq<(Seq<char>, Seq<char>)>,
)
    requires
        raw_after_edits(raw, base, edits, cur),
        keys_sorted(all),
        edits.len() == 0 ==> pairs_map(all) == base.insert(slot, part),
    ensures
        raw_after_edits(raw, base, edits.push((slot, part)), raw_with_part(cur, slot, part, all)),
{
    let next = edits.push((slot, part));
    assert(next.drop_last() =~= edits);
    assert(next.last() == (slot, part));
    match raw {
        JsonModel::Object(es) => {
            match entries_get(es, "parts"@) {
                Some(JsonModel::Object(pes)) => {
                    let w = with_assignments(pes, edits);
                    crate::json::lemma_entries_get_set(es, "parts"@, JsonModel::Object(w), "parts"@);
                    crate::json::lemma_entries_set_twice(
                        es,
                        "parts"@,
                        JsonModel::Object(w),
                        JsonModel::Object(entries_set(w, slot, JsonModel::Str(part))),
                    );
                },
                _ => {
                    if edits.len() == 0 {
                        assert(next.drop_first() =~= Seq::<(Seq<char>, Seq<char>)>::empty());
                        assert(next[0] == (slot, part));
                        assert(with_assignments(parts_entries(all), next.drop_first()) == parts_entries(all));
                        assert(keys_sorted(all) && pairs_map(all) == base.insert(next[0].0, next[0].1)
                            && raw_with_part(cur, slot, part, all) == JsonModel::Object(
                            entries_set(
                                es,
                                "parts"@,
                                JsonModel::Object(with_assignments(parts_entries(all), next.drop_first())),
                            ),
                        ));
                    } else {
                        let ps = choose|ps: Seq<(Seq<char>, Seq<char>)>|
                            keys_sorted(ps) && pairs_map(ps) == base.insert(edits[0].0, edits[0].1) && cur
                                == JsonModel::Object(
                                entries_set(
                                    es,
                                    "parts"@,
                                    JsonModel::Object(with_assignments(parts_entries(ps), edits.drop_first())),
                                ),
                            );
                        let w = with_assignments(parts_entries(ps), edits.drop_first());
                        crate::json::lemma_entries_get_set(es, "parts"@, JsonModel::Object(w), "parts"@);
                        crate::json::lemma_entries_set_twice(
                            es,
                            "parts"@,
                            JsonModel::Object(w),
                            JsonModel::Object(entries_set(w, slot, JsonModel::Str(part))),
                        );
                        assert(next.drop_first().drop_last() =~= edits.drop_first());
                        assert(next.drop_first().last() == (slot, part));
                        assert(next[0] == edits[0]);
                        assert(keys_sorted(ps) && pairs_map(ps) == base.insert(next[0].0, next[0].1)
                            && raw_with_part(cur, slot, part, all) == JsonModel::Object(
                            entries_set(
                                es,
                                "parts"@,
                                JsonModel::Object(with_assignments(parts_entries(ps), next.drop_first())),
                            ),
                        ));
                    }
                },
            }
        },
        _ => {},
    }
}

/// The value a map gives a key, the empty string when absent.
pub open spec fn value_or_empty(m: Map<Seq<char>, Seq<char>>, k: Seq<char>) -> Seq<char> {
    if m.contains_key(k) {
        m[k]
    } else {
        Seq::empty()
    }
}

/// The first of `names` that the assignments hold.
pub open spec fn first_assigned(parts: Map<Seq<char>, Seq<char>>, names: Seq<Seq<char>>) -> Option<
    Seq<char>,
>
    decreases names.len(),
{
    if names.len() == 0 {
        None
    } else if parts.contains_key(names[0]) {
        Some(names[0])
    } else {
        first_assigned(parts, names.drop_first())
    }
}

/// The first key whose lowercase form contains `engine`.
pub open spec fn first_engine_like(keys: Seq<Seq<char>>) -> Option<Seq<char>>
    decreases keys.len(),
{
    if keys.len() == 0 {
        None
    } else if contains(lower(keys[0]), "engine"@) {
        Some(keys[0])
    } else {
        first_engine_like(keys.drop_first())
    }
}

/// The engine slot of a config: the first known engine slot name it
/// assigns, else the first assigned slot (in slot order) whose lowercase
/// name contains `engine`.
pub open spec fn engine_slot_of(parts: Map<Seq<char>, Seq<char>>, keys: Seq<Seq<char>>) -> Option<
    Seq<char>,
> {
    match first_assigned(parts, engine_slot_names()) {
        Some(n) => Some(n),
        None => first_engine_like(keys),
    }
}

/// A loaded vehicle config.
#[derive(Debug)]
pub struct VehicleConfig {
    /// Where the config file lives.
    pub path: String,
    /// The whole document.
    pub raw: JsonValue,
    /// Slot name to part id, as read from the document's `parts` object.
    pub parts: SlotMap,
}

/// The slot assignments of a document.
pub fn extract_parts(raw: &JsonValue) -> (r: SlotMap)
    ensures
        r.map() == parts_of(raw.model()),
{
    let mut parts = SlotMap::new();
    match raw.get("parts") {
        Some(JsonValue::Object(es)) => {
            let ghost ms = entry_models(es@);
            proof {
                lemma_model_object(JsonValue::Object(*es));
            }
            let mut i: usize = 0;
            while i < es.len()
                invariant
                    i <= es@.len(),
                    ms == entry_models(es@),
                    parts.map() == string_entries_map(ms.take(i as int)),
                decreases es@.len() - i,
            {
                proof {
                    assert(ms.take(i + 1).drop_last() =~= ms.take(i as int));
                    assert(ms.take(i + 1).last() == ms[i as int]);
                }
                match &es[i].1 {
                    JsonValue::Str(s) => {
                        parts.insert(es[i].0.clone(), s.clone());
                    },
                    _ => {},
                }
                i = i + 1;
            }
            assert(ms.take(es@.len() as int) =~= ms);
            proof {
                reveal_strlit("parts");
            }
            parts
        },
        _ => {
            proof {
                reveal_strlit("parts");
                assert(Map::<Seq<char>, Seq<char>>::empty() =~= parts_of(raw.model()));
            }
            parts
        },
    }
}

/// Checks what must hold of a document before it is saved: a `parts` entry,
/// when present, is an object.
pub fn validate_json(value: &JsonValue) -> (r: Result<(), AppError>)
    ensures
        r is Ok <==> match model_get(value.model(), "parts"@) {
            Some(p) => p is Object,
            None => true,
        },
        r matches Err(e) ==> e.message@ == "'parts' must be a JSON object"@,
{
    match value.get("parts") {
        Some(p) => {
            if !p.is_object() {
                return Err(AppError::msg("'parts' must be a JSON object".to_owned()));
            }
            Ok(())
        },
        None => Ok(()),
    }
}

/// The backup key of a config file: its file stem, or `unknown`.
pub fn vehicle_key_from_path(path: &str) -> (r: String)
    ensures
        r@ == match file_stem(path@) {
            Some(s) => s,
            None => "unknown"@,
        },
{
    match file_stem_of(path) {
        Some(s) => s,
        None => "unknown".to_owned(),
    }
}

impl VehicleConfig {
    /// The config read from `path`, whose document is `raw`.
    pub fn load(path: String, raw: JsonValue) -> (c: VehicleConfig)
        ensures
            c.path@ == path@,
            c.raw.model() == raw.model(),
            c.parts.map() == parts_of(raw.model()),
    {
        let parts = extract_parts(&raw);
        VehicleConfig { path, raw, parts }
    }

    /// A copy of this config.
    pub fn copy(&self) -> (c: VehicleConfig)
        ensures
            c.path@ == self.path@,
            c.raw.model() == self.raw.model(),
            c.parts.pairs() == self.parts.pairs(),
            c.parts.map() == self.parts.map(),
    {
        VehicleConfig { path: self.path.clone(), raw: self.raw.deep_clone(), parts: self.parts.copy() }
    }

    /// The engine slot and the part assigned to it: the first known engine
    /// slot name that is assigned, else the first assigned slot (in slot
    /// order) whose lowercase name contains `engine`.
    pub fn engine_slot(&self) -> (r: Option<(String, String)>)
        ensures
            match r {
                Some((slot, part)) => engine_slot_of(self.parts.map(), self.parts.keys()) == Some(
                    slot@,
                ) && self.parts.map().contains_key(slot@) && self.parts.map()[slot@] == part@,
                None => engine_slot_of(self.parts.map(), self.parts.keys()) is None,
            },
    {
        let ghost names = engine_slot_names();
        let mut i: usize = 0;
        assert(names.skip(0) =~= names);
        while i < ENGINE_SLOT_NAME_COUNT
            invariant
                i <= 5,
                names == engine_slot_names(),
                first_assigned(self.parts.map(), names) == first_assigned(
                    self.parts.map(),
                    names.skip(i as int),
                ),
            decreases 5 - i,
        {
            let name = engine_slot_name(i);
            proof {
                assert(names.skip(i as int)[0] == names[i as int]);
                assert(names.skip(i as int).drop_first() =~= names.skip(i + 1));
            }
            match self.parts.get(name) {
                Some(part) => {
                    return Some((name.to_owned(), part.clone()));
                },
                None => {},
            }
            i = i + 1;
        }
        proof {
            assert(names.skip(5) =~= Seq::<Seq<char>>::empty());
        }
        self.parts.reveal_sorted();
        let ghost keys = self.parts.keys();
        let n = self.parts.len();
        let mut k: usize = 0;
        assert(keys.skip(0) =~= keys);
        while k < n
            invariant
                k <= n == self.parts.pairs().len(),
                keys == self.parts.keys(),
                keys_sorted(self.parts.pairs()),
                names == engine_slot_names(),
                first_assigned(self.parts.map(), names) is None,
                first_engine_like(keys) == first_engine_like(keys.skip(k as int)),
            decreases n - k,
        {
            let (slot, part) = self.parts.entry_at(k);
            let low = to_lower(slot.as_str());
            proof {
                reveal_strlit("engine");
                assert(keys[k as int] == slot@);
                assert(keys.skip(k as int)[0] == keys[k as int]);
                assert(keys.skip(k as int).drop_first() =~= keys.skip(k + 1));
            }
            if str_contains(low.as_str(), "engine") {
                proof {
                    crate::slots::lemma_lookup_at(self.parts.pairs(), k as int);
                }
                return Some((slot.clone(), part.clone()));
            }
            k = k + 1;
        }
        proof {
            assert(keys.skip(n as int) =~= Seq::<Seq<char>>::empty());
        }
        None
    }

    /// Assigns `part_id` to `slot`, in the assignments and in the document.
    pub fn set_part(&mut self, slot: &str, part_id: &str)
        ensures
            final(self).path@ == old(self).path@,
            final(self).parts.map() == old(self).parts.map().insert(slot@, part_id@),
            final(self).raw.model() == raw_with_part(
                old(self).raw.model(),
                slot@,
                part_id@,
                final(self).parts.pairs(),
            ),
    {
        self.parts.insert(slot.to_owned(), part_id.to_owned());
        let mut raw = JsonValue::Null;
        std::mem::swap(&mut raw, &mut self.raw);
        let ghost old_raw = raw.model();
        proof {
            reveal_strlit("parts");
        }
        match raw {
            JsonValue::Object(mut es) => {
                proof {
                    lemma_model_object(JsonValue::Object(es));
                }
                let ghost ems = entry_models(es@);
                let pos = find_entry(&es, "parts");
                proof {
                    crate::json::lemma_entries_get_at(ems, "parts"@, pos as int);
                    crate::json::lemma_entries_set_at(ems, "parts"@, JsonModel::Null, pos as int);
                }
                let parts_is_object = pos < es.len() && es[pos].1.is_object();
                if parts_is_object {
                    let mut taken = JsonValue::Null;
                    std::mem::swap(&mut taken, &mut es[pos].1);
                    let ghost es_taken = es@;
                    proof {
                        assert forall|k: int| 0 <= k < es_taken.len() && k != pos implies #[trigger] entry_models(
                            es_taken,
                        )[k] == ems[k] by {}
                    }
                    match taken {
                        JsonValue::Object(mut pes) => {
                            proof {
                                lemma_model_object(JsonValue::Object(pes));
                            }
                            let ghost pms = entry_models(pes@);
                            entries_set_exec(&mut pes, slot.to_owned(), JsonValue::Str(part_id.to_owned()));
                            let new_parts = JsonValue::Object(pes);
                            proof {
                                lemma_model_object(new_parts);
                                assert(entry_models(pes@) =~= entries_set(pms, slot@, JsonModel::Str(part_id@)));
                            }
                            let ghost npm = new_parts.model();
                            entries_set_exec(&mut es, "parts".to_owned(), new_parts);
                            proof {
                                crate::json::lemma_entries_set_at(entry_models(es_taken), "parts"@, npm, pos as int);
                                crate::json::lemma_entries_set_at(ems, "parts"@, npm, pos as int);
                                assert(entry_models(es@) =~= ems.update(pos as int, ("parts"@, npm)));
                            }
                        },
                        _ => {},
                    }
                    let done = JsonValue::Object(es);
                    proof {
                        lemma_model_object(done);
                    }
                    self.raw = done;
                } else {
                    let obj = parts_json(&self.parts);
                    let ghost om = obj.model();
                    entries_set_exec(&mut es, "parts".to_owned(), obj);
                    let done = JsonValue::Object(es);
                    proof {
                        lemma_model_object(done);
                        assert(entry_models(es@) =~= entries_set(ems, "parts"@, om));
                    }
                    self.raw = done;
                }
            },
            other => {
                self.raw = other;
            },
        }
    }
}

impl VehicleConfig {
    /// The config's document as pretty-printed JSON (see
    /// [`crate::json_util::to_pretty_json`]).
    pub fn to_pretty_json(&self) -> (r: Result<String, AppError>)
        ensures
            match r {
                Ok(t) => crate::json_util::pretty_json(self.raw.model()) == Some(t@),
                Err(_) => crate::json_util::pretty_json(self.raw.model()) is None,
            },
    {
        crate::json_util::to_pretty_json(&self.raw)
    }
}

impl VehicleConfig {
    /// Takes `updated` (the config read again from disk) when its document
    /// differs from this one; whether it did.
    pub fn reload_if_changed(&mut self, updated: VehicleConfig) -> (r: bool)
        ensures
            r == (updated.raw.model() != old(self).raw.model()),
            r ==> final(self).path@ == updated.path@ && final(self).raw.model() == updated.raw.model()
                && final(self).parts.pairs() == updated.parts.pairs(),
            !r ==> *final(self) == *old(self),
    {
        let changed = !updated.raw.same_as(&self.raw);
        if changed {
            *self = updated;
        }
        changed
    }
}

proof fn lemma_string_entries(es: Seq<(Seq<char>, JsonModel)>)
    ensures
        forall|i: int|
            0 <= i < es.len() && (#[trigger] es[i]).1 is Str && (forall|j: int|
                i < j < es.len() ==> !(es[j].0 == es[i].0 && es[j].1 is Str)) ==> string_entries_map(
                es,
            ).contains_key(es[i].0) && string_entries_map(es)[es[i].0] == es[i].1->Str_0,
        forall|k: Seq<char>|
            #[trigger] string_entries_map(es).contains_key(k) ==> exists|i: int|
                0 <= i < es.len() && (#[trigger] es[i]).0 == k && es[i].1 == JsonModel::Str(
                    string_entries_map(es)[k],
                ),
    decreases es.len(),
{
    if es.len() > 0 {
        let d = es.drop_last();
        lemma_string_entries(d);
        let m = string_entries_map(d);
        let n = es.len() - 1;
        assert forall|i: int|
            0 <= i < es.len() && (#[trigger] es[i]).1 is Str && (forall|j: int|
                i < j < es.len() ==> !(es[j].0 == es[i].0 && es[j].1 is Str)) implies string_entries_map(
            es,
        ).contains_key(es[i].0) && string_entries_map(es)[es[i].0] == es[i].1->Str_0 by {
            if i < n {
                assert(d[i] == es[i]);
                assert(forall|j: int| i < j < d.len() ==> d[j] == es[j]);
                assert(!(es[n].0 == es[i].0 && es[n].1 is Str));
            }
        }
        assert forall|k: Seq<char>| #[trigger] string_entries_map(es).contains_key(k) implies exists|i: int|
            0 <= i < es.len() && (#[trigger] es[i]).0 == k && es[i].1 == JsonModel::Str(string_entries_map(es)[k]) by {
            if es[n].1 is Str && es[n].0 == k {
                assert(es[n].0 == k);
            } else {
                assert(m.contains_key(k));
                let i = choose|i: int| 0 <= i < d.len() && (#[trigger] d[i]).0 == k && d[i].1 == JsonModel::Str(m[k]);
                assert(es[i] == d[i]);
            }
        }
    }
}

/// The slot assignments of a config are the string entries of its `parts`
/// object: a slot whose last string entry there is `v` is assigned `v`, and
/// every assigned slot has a string entry holding its part; entries of other
/// kinds assign nothing, and without a `parts` object nothing is assigned.
pub proof fn law_parts_are_string_entries(raw: JsonModel)
    ensures
        !(model_get(raw, "parts"@) matches Some(JsonModel::Object(_))) ==> parts_of(raw).dom().len() == 0,
        model_get(raw, "parts"@) matches Some(JsonModel::Object(es)) ==> {
            &&& forall|i: int|
                0 <= i < es.len() && (#[trigger] es[i]).1 is Str && (forall|j: int|
                    i < j < es.len() ==> !(es[j].0 == es[i].0 && es[j].1 is Str)) ==> parts_of(raw).contains_key(
                    es[i].0,
                ) && parts_of(raw)[es[i].0] == es[i].1->Str_0
            &&& forall|k: Seq<char>|
                #[trigger] parts_of(raw).contains_key(k) ==> exists|i: int|
                    0 <= i < es.len() && (#[trigger] es[i]).0 == k && es[i].1 == JsonModel::Str(parts_of(raw)[k])
        },
{
    match model_get(raw, "parts"@) {
        Some(JsonModel::Object(es)) => {
            lemma_string_entries(es);
        },
        _ => {
            assert(parts_of(raw).dom() =~= Set::empty());
        },
    }
}

/// The backup key of a config at `<dir>/<name>.<ext>` is `name`, when
/// `name` is not empty and neither `name` nor `ext` holds a separator or a
/// `.` (so `vehicles/pickup/base.pc` has the key `base`).
pub proof fn law_vehicle_key_is_file_stem(dir: Seq<char>, name: Seq<char>, ext: Seq<char>)
    requires
        name.len() > 0,
        forall|i: int| 0 <= i < name.len() ==> !crate::paths::is_sep(#[trigger] name[i]) && name[i] != '.',
        forall|i: int| 0 <= i < ext.len() ==> !crate::paths::is_sep(#[trigger] ext[i]) && ext[i] != '.',
    ensures
        (match file_stem(dir + seq!['/'] + name + seq!['.'] + ext) {
            Some(s) => s,
            None => "unknown"@,
        }) == name,
{
    crate::paths::law_file_stem_of_joined(dir, name, ext);
}

proof fn lemma_first_assigned(parts: Map<Seq<char>, Seq<char>>, names: Seq<Seq<char>>)
    ensures
        first_assigned(parts, names) matches Some(x) ==> exists|c: int|
            0 <= c < names.len() && #[trigger] names[c] == x && parts.contains_key(x) && forall|b: int|
                0 <= b < c ==> !parts.contains_key(#[trigger] names[b]),
        first_assigned(parts, names) is None ==> forall|c: int| 0 <= c < names.len() ==> !parts.contains_key(
            #[trigger] names[c],
        ),
    decreases names.len(),
{
    if names.len() > 0 && !parts.contains_key(names[0]) {
        let t = names.drop_first();
        lemma_first_assigned(parts, t);
        if let Some(x) = first_assigned(parts, t) {
            let c = choose|c: int|
                0 <= c < t.len() && #[trigger] t[c] == x && parts.contains_key(x) && forall|b: int|
                    0 <= b < c ==> !parts.contains_key(#[trigger] t[b]);
            assert(names[c + 1] == x);
            assert forall|b: int| 0 <= b < c + 1 implies !parts.contains_key(#[trigger] names[b]) by {
                if b > 0 {
                    assert(names[b] == t[b - 1]);
                }
            }
        } else {
            assert forall|c: int| 0 <= c < names.len() implies !parts.contains_key(#[trigger] names[c]) by {
                if c > 0 {
                    assert(names[c] == t[c - 1]);
                }
            }
        }
    } else if names.len() > 0 {
        assert(names[0] == first_assigned(parts, names)->0);
    }
}

proof fn lemma_first_engine_like(keys: Seq<Seq<char>>)
    ensures
        first_engine_like(keys) matches Some(x) ==> exists|c: int|
            0 <= c < keys.len() && #[trigger] keys[c] == x && contains(lower(x), "engine"@) && forall|b: int|
                0 <= b < c ==> !contains(lower(#[trigger] keys[b]), "engine"@),
        first_engine_like(keys) is None ==> forall|c: int| 0 <= c < keys.len() ==> !contains(
            lower(#[trigger] keys[c]),
            "engine"@,
        ),
    decreases keys.len(),
{
    if keys.len() > 0 && !contains(lower(keys[0]), "engine"@) {
        let t = keys.drop_first();
        lemma_first_engine_like(t);
        if let Some(x) = first_engine_like(t) {
            let c = choose|c: int|
                0 <= c < t.len() && #[trigger] t[c] == x && contains(lower(x), "engine"@) && forall|b: int|
                    0 <= b < c ==> !contains(lower(#[trigger] t[b]), "engine"@);
            assert(keys[c + 1] == x);
            assert forall|b: int| 0 <= b < c + 1 implies !contains(lower(#[trigger] keys[b]), "engine"@) by {
                if b > 0 {
                    assert(keys[b] == t[b - 1]);
                }
            }
        } else {
            assert forall|c: int| 0 <= c < keys.len() implies !contains(lower(#[trigger] keys[c]), "engine"@) by {
                if c > 0 {
                    assert(keys[c] == t[c - 1]);
                }
            }
        }
    } else if keys.len() > 0 {
        assert(keys[0] == first_engine_like(keys)->0);
    }
}

/// The engine slot of a config is the first of `mainEngine`, `engine`,
/// `main_engine`, `engineMain`, `engineSlot` that it assigns; when it
/// assigns none of them, the first of its slots (in the order given) whose
/// lowercased name contains `engine`; none when there is no such slot.
pub proof fn law_engine_slot(parts: Map<Seq<char>, Seq<char>>, keys: Seq<Seq<char>>)
    ensures
        forall|c: int|
            0 <= c < 5 && parts.contains_key(#[trigger] engine_slot_names()[c]) && (forall|b: int|
                0 <= b < c ==> !parts.contains_key(#[trigger] engine_slot_names()[b])) ==> engine_slot_of(parts, keys)
                == Some(engine_slot_names()[c]),
        (forall|c: int| 0 <= c < 5 ==> !parts.contains_key(#[trigger] engine_slot_names()[c])) ==> forall|c: int|
            0 <= c < keys.len() && contains(lower(#[trigger] keys[c]), "engine"@) && (forall|b: int|
                0 <= b < c ==> !contains(lower(#[trigger] keys[b]), "engine"@)) ==> engine_slot_of(parts, keys) == Some(
                keys[c],
            ),
        engine_slot_of(parts, keys) is None <==> (forall|c: int|
            0 <= c < 5 ==> !parts.contains_key(#[trigger] engine_slot_names()[c])) && (forall|c: int|
            0 <= c < keys.len() ==> !contains(lower(#[trigger] keys[c]), "engine"@)),
{
    let names = engine_slot_names();
    lemma_first_assigned(parts, names);
    lemma_first_engine_like(keys);
    assert forall|c: int|
        0 <= c < 5 && parts.contains_key(#[trigger] names[c]) && (forall|b: int|
            0 <= b < c ==> !parts.contains_key(#[trigger] names[b])) implies engine_slot_of(parts, keys) == Some(
        names[c],
    ) by {
        if let Some(x) = first_assigned(parts, names) {
            let c2 = choose|c2: int|
                0 <= c2 < names.len() && #[trigger] names[c2] == x && parts.contains_key(x) && forall|b: int|
                    0 <= b < c2 ==> !parts.contains_key(#[trigger] names[b]);
            if c2 < c {
                assert(!parts.contains_key(names[c2]));
            } else if c2 > c {
                assert(!parts.contains_key(names[c]));
            }
        }
    }
    assert forall|c: int|
        0 <= c < keys.len() && contains(lower(#[trigger] keys[c]), "engine"@) && (forall|b: int|
            0 <= b < c ==> !contains(lower(#[trigger] keys[b]), "engine"@)) && (forall|c3: int|
            0 <= c3 < 5 ==> !parts.contains_key(#[trigger] names[c3])) implies engine_slot_of(parts, keys) == Some(
        keys[c],
    ) by {
        if let Some(x) = first_assigned(parts, names) {
            let c2 = choose|c2: int|
                0 <= c2 < names.len() && #[trigger] names[c2] == x && parts.contains_key(x) && forall|b: int|
                    0 <= b < c2 ==> !parts.contains_key(#[trigger] names[b]);
            assert(!parts.contains_key(names[c2]));
        }
        if let Some(x) = first_engine_like(keys) {
            let c2 = choose|c2: int|
                0 <= c2 < keys.len() && #[trigger] keys[c2] == x && contains(lower(x), "engine"@) && forall|b: int|
                    0 <= b < c2 ==> !contains(lower(#[trigger] keys[b]), "engine"@);
            if c2 < c {
                assert(!contains(lower(keys[c2]), "engine"@));
            } else if c2 > c {
                assert(!contains(lower(keys[c]), "engine"@));
            }
        }
    }
    if engine_slot_of(parts, keys) is None {
        assert(first_assigned(parts, names) is None);
    } else {
        if let Some(x) = first_assigned(parts, names) {
            let c2 = choose|c2: int|
                0 <= c2 < names.len() && #[trigger] names[c2] == x && parts.contains_key(x) && forall|b: int|
                    0 <= b < c2 ==> !parts.contains_key(#[trigger] names[b]);
            assert(parts.contains_key(names[c2]));
        } else if let Some(x) = first_engine_like(keys) {
            let c2 = choose|c2: int|
                0 <= c2 < keys.len() && #[trigger] keys[c2] == x && contains(lower(x), "engine"@) && forall|b: int|
                    0 <= b < c2 ==> !contains(lower(#[trigger] keys[b]), "engine"@);
            assert(contains(lower(keys[c2]), "engine"@));
        }
    }
}

/// No key occurs twice among object entries.
pub open spec fn keys_unique(es: Seq<(Seq<char>, JsonModel)>) -> bool {
    forall|i: int, j: int| 0 <= i < j < es.len() ==> (#[trigger] es[i]).0 != (#[trigger] es[j]).0
}

proof fn lemma_entries_set_shape(es: Seq<(Seq<char>, JsonModel)>, k: Seq<char>, v: JsonModel) -> (i: int)
    ensures
        0 <= i <= es.len(),
        i < es.len() ==> es[i].0 == k && entries_set(es, k, v) == es.update(i, (k, v)),
        i == es.len() ==> (forall|j: int| 0 <= j < es.len() ==> (#[trigger] es[j]).0 != k) && entries_set(es, k, v)
            == es.push((k, v)),
    decreases es.len(),
{
    if es.len() == 0 {
        assert(entries_set(es, k, v) =~= es.push((k, v)));
        0
    } else if es[0].0 == k {
        0
    } else {
        let t = es.drop_first();
        let j = lemma_entries_set_shape(t, k, v);
        if j < t.len() {
            assert(entries_set(es, k, v) =~= es.update(j + 1, (k, v)));
        } else {
            assert(entries_set(es, k, v) =~= es.push((k, v)));
            assert forall|m: int| 0 <= m < es.len() implies (#[trigger] es[m]).0 != k by {
                if m > 0 {
                    assert(es[m] == t[m - 1]);
                }
            }
        }
        j + 1
    }
}

proof fn lemma_entries_get_set(es: Seq<(Seq<char>, JsonModel)>, k: Seq<char>, v: JsonModel)
    ensures
        entries_get(entries_set(es, k, v), k) == Some(v),
    decreases es.len(),
{
    if es.len() > 0 && es[0].0 != k {
        lemma_entries_get_set(es.drop_first(), k, v);
        let r = entries_set(es, k, v);
        assert(r.drop_first() == entries_set(es.drop_first(), k, v));
    }
}

proof fn lemma_string_entries_unique(es: Seq<(Seq<char>, JsonModel)>)
    requires
        keys_unique(es),
    ensures
        forall|i: int|
            0 <= i < es.len() && (#[trigger] es[i]).1 is Str ==> string_entries_map(es).contains_key(es[i].0)
                && string_entries_map(es)[es[i].0] == es[i].1->Str_0,
        forall|k: Seq<char>|
            #[trigger] string_entries_map(es).contains_key(k) ==> exists|i: int|
                0 <= i < es.len() && (#[trigger] es[i]).0 == k && es[i].1 == JsonModel::Str(string_entries_map(es)[k]),
{
    lemma_string_entries(es);
    assert forall|i: int| 0 <= i < es.len() && (#[trigger] es[i]).1 is Str implies string_entries_map(es).contains_key(
        es[i].0,
    ) && string_entries_map(es)[es[i].0] == es[i].1->Str_0 by {
        assert forall|j: int| i < j < es.len() implies !(es[j].0 == es[i].0 && es[j].1 is Str) by {
            assert(es[i].0 != es[j].0);
        }
    }
}

/// Assigning a part to a slot is read back from the document: in a config
/// document that is an object (its entries, and those of its `parts` object,
/// under distinct keys), the document after the assignment assigns that
/// part to that slot. With a `parts` object every other slot keeps its
/// assignment; without one the new `parts` object assigns exactly the
/// config's assignments `all`, which hold the new one.
pub proof fn law_set_part_read_back(raw: JsonModel, slot: Seq<char>, part: Seq<char>, all: Seq<(Seq<char>, Seq<char>)>)
    requires
        raw is Object,
        keys_unique(raw->Object_0),
        model_get(raw, "parts"@) matches Some(JsonModel::Object(pes)) ==> keys_unique(pes),
        keys_sorted(all),
        pairs_map(all).contains_key(slot),
        pairs_map(all)[slot] == part,
    ensures
        parts_of(raw_with_part(raw, slot, part, all)).contains_key(slot),
        parts_of(raw_with_part(raw, slot, part, all))[slot] == part,
        model_get(raw, "parts"@) matches Some(JsonModel::Object(_)) ==> forall|k: Seq<char>|
            k != slot ==> (#[trigger] parts_of(raw_with_part(raw, slot, part, all)).contains_key(k)
                <==> parts_of(raw).contains_key(k)) && (parts_of(raw).contains_key(k) ==> parts_of(
                raw_with_part(raw, slot, part, all),
            )[k] == parts_of(raw)[k]),
        !(model_get(raw, "parts"@) matches Some(JsonModel::Object(_))) ==> parts_of(raw_with_part(raw, slot, part, all))
            == pairs_map(all),
{
    let es = raw->Object_0;
    let new = raw_with_part(raw, slot, part, all);
    match entries_get(es, "parts"@) {
        Some(JsonModel::Object(pes)) => {
            let np = entries_set(pes, slot, JsonModel::Str(part));
            lemma_entries_get_set(es, "parts"@, JsonModel::Object(np));
            assert(parts_of(new) == string_entries_map(np));
            let i = lemma_entries_set_shape(pes, slot, JsonModel::Str(part));
            assert(keys_unique(np)) by {
                assert forall|a: int, b: int| 0 <= a < b < np.len() implies (#[trigger] np[a]).0 != (#[trigger] np[b]).0 by {
                    if i < pes.len() {
                        assert(np[a].0 == pes[a].0 && np[b].0 == pes[b].0);
                    } else if b < pes.len() {
                        assert(np[a] == pes[a] && np[b] == pes[b]);
                    } else {
                        assert(np[a] == pes[a]);
                    }
                }
            }
            lemma_string_entries_unique(pes);
            lemma_string_entries_unique(np);
            let m0 = string_entries_map(pes);
            let m1 = string_entries_map(np);
            assert(np[i] == (slot, JsonModel::Str(part)));
            assert(m1.contains_key(slot) && m1[slot] == part);
            assert forall|k: Seq<char>| k != slot implies (#[trigger] m1.contains_key(k) <==> m0.contains_key(k)) && (
            m0.contains_key(k) ==> m1[k] == m0[k]) by {
                if m1.contains_key(k) {
                    let a = choose|a: int| 0 <= a < np.len() && (#[trigger] np[a]).0 == k && np[a].1 == JsonModel::Str(m1[k]);
                    assert(a != i);
                    assert(np[a] == pes[a]);
                }
                if m0.contains_key(k) {
                    let a = choose|a: int| 0 <= a < pes.len() && (#[trigger] pes[a]).0 == k && pes[a].1 == JsonModel::Str(m0[k]);
                    assert(a != i);
                    assert(np[a] == pes[a]);
                }
            }
        },
        _ => {
            let pe = parts_entries(all);
            lemma_entries_get_set(es, "parts"@, parts_object(all));
            assert(parts_of(new) == string_entries_map(pe));
            assert(keys_unique(pe)) by {
                assert forall|a: int, b: int| 0 <= a < b < pe.len() implies (#[trigger] pe[a]).0 != (#[trigger] pe[b]).0 by {
                    assert(seq_lt(all[a].0, all[b].0));
                    crate::text::lemma_seq_lt_irreflexive(all[a].0);
                }
            }
            lemma_string_entries_unique(pe);
            let m1 = string_entries_map(pe);
            assert forall|k: Seq<char>| #[trigger] m1.contains_key(k) <==> pairs_map(all).contains_key(k) by {
                if m1.contains_key(k) {
                    let a = choose|a: int| 0 <= a < pe.len() && (#[trigger] pe[a]).0 == k && pe[a].1 == JsonModel::Str(m1[k]);
                    assert(all[a].0 == k);
                }
                if pairs_map(all).contains_key(k) {
                    let a = choose|a: int| 0 <= a < all.len() && all[a].0 == k;
                    assert(pe[a] == (all[a].0, JsonModel::Str(all[a].1)));
                }
            }
            assert forall|k: Seq<char>| #[trigger] m1.contains_key(k) implies m1[k] == pairs_map(all)[k] by {
                let a = choose|a: int| 0 <= a < pe.len() && (#[trigger] pe[a]).0 == k && pe[a].1 == JsonModel::Str(m1[k]);
                assert(pe[a] == (all[a].0, JsonModel::Str(all[a].1)));
                crate::slots::lemma_lookup_at(all, a);
            }
            assert(m1 =~= pairs_map(all));
        },
    }
}

/// A diff of assignments with themselves lists nothing.
pub proof fn law_diff_with_itself_is_empty(d: Seq<(Seq<char>, Seq<char>, Seq<char>)>, a: Map<Seq<char>, Seq<char>>)
    requires
        is_parts_diff(d, a, a),
    ensures
        d.len() == 0,
{
    if d.len() > 0 {
        let k = d[0].0;
        assert(d[0].1 == value_or_empty(a, k) && d[0].2 == value_or_empty(a, k));
    }
}

/// The (slot, old part, new part) views of a diff.
pub open spec fn diff_views(d: Seq<(String, String, String)>) -> Seq<(Seq<char>, Seq<char>, Seq<char>)> {
    d.map_values(|e: (String, String, String)| (e.0@, e.1@, e.2@))
}

/// What a diff between two assignment maps lists: every slot assigned in
/// either whose part differs (an absent slot counting as the empty part),
/// once, in increasing slot order, with its part on each side.
pub open spec fn is_parts_diff(
    d: Seq<(Seq<char>, Seq<char>, Seq<char>)>,
    a: Map<Seq<char>, Seq<char>>,
    b: Map<Seq<char>, Seq<char>>,
) -> bool {
    &&& forall|i: int, j: int| 0 <= i < j < d.len() ==> seq_lt(#[trigger] d[i].0, #[trigger] d[j].0)
    &&& forall|i: int|
        0 <= i < d.len() ==> (a.contains_key(#[trigger] d[i].0) || b.contains_key(d[i].0)) && d[i].1
            == value_or_empty(a, d[i].0) && d[i].2 == value_or_empty(b, d[i].0) && d[i].1 != d[i].2
    &&& forall|k: Seq<char>|
        (a.contains_key(k) || b.contains_key(k)) && value_or_empty(a, k) != value_or_empty(b, k) ==> exists|
            i: int,
        |
            0 <= i < d.len() && (#[trigger] d[i]).0 == k
}

/// Adds the keys of `m` to a strictly sorted key list.
fn add_keys(keys: &mut Vec<String>, m: &SlotMap)
    requires
        strictly_sorted(views(old(keys)@)),
    ensures
        strictly_sorted(views(final(keys)@)),
        views(final(keys)@).to_set() == views(old(keys)@).to_set().union(m.map().dom()),
{
    m.reveal_sorted();
    let n = m.len();
    let mut i: usize = 0;
    while i < n
        invariant
            n == m.pairs().len(),
            i <= n,
            keys_sorted(m.pairs()),
            strictly_sorted(views(keys@)),
            views(keys@).to_set() == views(old(keys)@).to_set().union(
                Set::new(|k: Seq<char>| exists|j: int| 0 <= j < i && m.pairs()[j].0 == k),
            ),
        decreases n - i,
    {
        let (k, _v) = m.entry_at(i);
        let ghost before = views(keys@).to_set();
        insert_sorted_unique(keys, k.clone());
        proof {
            assert(views(keys@).to_set() =~= views(old(keys)@).to_set().union(
                Set::new(|x: Seq<char>| exists|j: int| 0 <= j < i + 1 && m.pairs()[j].0 == x),
            )) by {
                assert forall|x: Seq<char>| #[trigger] views(keys@).to_set().contains(x) implies views(
                    old(keys)@,
                ).to_set().union(
                    Set::new(|x: Seq<char>| exists|j: int| 0 <= j < i + 1 && m.pairs()[j].0 == x),
                ).contains(x) by {
                    if x == k@ {
                        assert(m.pairs()[i as int].0 == x);
                    } else {
                        assert(before.contains(x));
                        if !views(old(keys)@).to_set().contains(x) {
                            let j = choose|j: int| 0 <= j < i && m.pairs()[j].0 == x;
                            assert(0 <= j < i + 1 && m.pairs()[j].0 == x);
                        }
                    }
                }
                assert forall|x: Seq<char>| views(old(keys)@).to_set().union(
                    Set::new(|x: Seq<char>| exists|j: int| 0 <= j < i + 1 && m.pairs()[j].0 == x),
                ).contains(x) implies #[trigger] views(keys@).to_set().contains(x) by {
                    if !views(old(keys)@).to_set().contains(x) {
                        let j = choose|j: int| 0 <= j < i + 1 && m.pairs()[j].0 == x;
                        if j < i {
                            assert(before.contains(x));
                        } else {
                            assert(x == k@);
                        }
                    } else {
                        assert(before.contains(x));
                    }
                }
            }
        }
        i = i + 1;
    }
    proof {
        assert(Set::new(|k: Seq<char>| exists|j: int| 0 <= j < n && m.pairs()[j].0 == k) =~= m.map().dom());
    }
}

/// The part a map gives a slot, or the empty string.
fn value_or_empty_exec(m: &SlotMap, key: &str) -> (r: String)
    ensures
        r@ == value_or_empty(m.map(), key@),
{
    match m.get(key) {
        Some(v) => v.clone(),
        None => String::new(),
    }
}

impl VehicleConfig {
    /// The slots whose parts differ between this config and `other`, with
    /// the part on each side, in slot order.
    pub fn diff_summary(&self, other: &VehicleConfig) -> (r: Vec<(String, String, String)>)
        ensures
            is_parts_diff(diff_views(r@), self.parts.map(), other.parts.map()),
    {
        let mut keys: Vec<String> = Vec::new();
        add_keys(&mut keys, &self.parts);
        add_keys(&mut keys, &other.parts);
        let ghost kv = views(keys@);
        let ghost a = self.parts.map();
        let ghost b = other.parts.map();
        assert(kv.to_set() =~= a.dom().union(b.dom()));
        let mut out: Vec<(String, String, String)> = Vec::new();
        let ghost mut idxs: Seq<int> = Seq::empty();
        let mut i: usize = 0;
        while i < keys.len()
            invariant
                i <= keys@.len(),
                kv == views(keys@),
                strictly_sorted(kv),
                kv.to_set() == a.dom().union(b.dom()),
                a == self.parts.map(),
                b == other.parts.map(),
                idxs.len() == out@.len(),
                forall|x: int, y: int| 0 <= x < y < idxs.len() ==> idxs[x] < idxs[y],
                forall|x: int| 0 <= x < idxs.len() ==> 0 <= #[trigger] idxs[x] < i,
                forall|x: int| 0 <= x < idxs.len() ==> (#[trigger] diff_views(out@)[x]).0 == kv[idxs[x]],
                forall|x: int|
                    0 <= x < out@.len() ==> (#[trigger] diff_views(out@)[x]).1 == value_or_empty(
                        a,
                        diff_views(out@)[x].0,
                    ) && diff_views(out@)[x].2 == value_or_empty(b, diff_views(out@)[x].0) && diff_views(
                        out@,
                    )[x].1 != diff_views(out@)[x].2,
                forall|j: int|
                    0 <= j < i && value_or_empty(a, #[trigger] kv[j]) != value_or_empty(b, kv[j]) ==> exists|
                        x: int,
                    |
                        0 <= x < idxs.len() && idxs[x] == j,
            decreases keys@.len() - i,
        {
            let key = &keys[i];
            let va = value_or_empty_exec(&self.parts, key.as_str());
            let vb = value_or_empty_exec(&other.parts, key.as_str());
            if !str_eq(va.as_str(), vb.as_str()) {
                let ghost before = diff_views(out@);
                out.push((key.clone(), va, vb));
                let ghost old_idxs = idxs;
                proof {
                    idxs = idxs.push(i as int);
                    assert forall|x: int| 0 <= x < out@.len() - 1 implies #[trigger] diff_views(out@)[x]
                        == before[x] by {}
                    assert(diff_views(out@)[out@.len() - 1] == (kv[i as int], value_or_empty(a, kv[i as int]), value_or_empty(b, kv[i as int])));
                    assert forall|j: int|
                        0 <= j < i + 1 && value_or_empty(a, #[trigger] kv[j]) != value_or_empty(b, kv[j]) implies exists|
                            x: int,
                        |
                            0 <= x < idxs.len() && idxs[x] == j by {
                        if j == i {
                            assert(idxs[idxs.len() - 1] == j);
                        } else {
                            let x = choose|x: int| 0 <= x < old_idxs.len() && old_idxs[x] == j;
                            assert(idxs[x] == j);
                        }
                    }
                }
            } else {
                proof {
                    assert forall|j: int|
                        0 <= j < i + 1 && value_or_empty(a, #[trigger] kv[j]) != value_or_empty(b, kv[j]) implies exists|
                            x: int,
                        |
                            0 <= x < idxs.len() && idxs[x] == j by {
                        if j == i {
                            assert(kv[j] == key@);
                        }
                    }
                }
            }
            i = i + 1;
        }
        proof {
            let d = diff_views(out@);
            assert forall|x: int, y: int| 0 <= x < y < d.len() implies seq_lt(#[trigger] d[x].0, #[trigger] d[y].0) by {
                assert(kv[idxs[x]] == d[x].0);
                assert(kv[idxs[y]] == d[y].0);
            }
            assert forall|x: int| 0 <= x < d.len() implies (a.contains_key(#[trigger] d[x].0) || b.contains_key(d[x].0)) by {
                assert(kv[idxs[x]] == d[x].0);
                assert(kv.to_set().contains(kv[idxs[x]]));
            }
            assert forall|k: Seq<char>|
                (a.contains_key(k) || b.contains_key(k)) && value_or_empty(a, k) != value_or_empty(b, k) implies exists|
                    x: int,
                |
                    0 <= x < d.len() && (#[trigger] d[x]).0 == k by {
                assert(kv.to_set().contains(k));
                let j = choose|j: int| 0 <= j < kv.len() && kv[j] == k;
                let x = choose|x: int| 0 <= x < idxs.len() && idxs[x] == j;
                assert(d[x].0 == k);
            }
        }
        out
    }
}

/// Position of the first entry named `key`, or the number of entries.
fn find_entry(es: &Vec<(String, JsonValue)>, key: &str) -> (i: usize)
    ensures
        i <= es@.len(),
        forall|k: int| 0 <= k < i ==> #[trigger] es@[k].0@ != key@,
        i < es@.len() ==> es@[i as int].0@ == key@,
{
    let mut i: usize = 0;
    while i < es.len() && !str_eq(es[i].0.as_str(), key)
        invariant
            i <= es@.len(),
            forall|k: int| 0 <= k < i ==> #[trigger] es@[k].0@ != key@,
        decreases es@.len() - i,
    {
        i = i + 1;
    }
    i
}

/// A `parts` object listing a config's assignments in slot order.
fn parts_json(parts: &SlotMap) -> (r: JsonValue)
    ensures
        r.model() == parts_object(parts.pairs()),
{
    let mut out: Vec<(String, JsonValue)> = Vec::new();
    let n = parts.len();
    let mut i: usize = 0;
    while i < n
        invariant
            n == parts.pairs().len(),
            i <= n,
            out@.len() == i,
            forall|k: int|
                0 <= k < i ==> (#[trigger] out@[k]).0@ == parts.pairs()[k].0 && out@[k].1.model()
                    == JsonModel::Str(parts.pairs()[k].1),
        decreases n - i,
    {
        let (k, v) = parts.entry_at(i);
        out.push((k.clone(), JsonValue::Str(v.clone())));
        i = i + 1;
    }
    let r = JsonValue::Object(out);
    proof {
        lemma_model_object(r);
        assert(entry_models(out@) =~= parts.pairs().map_values(
            |p: (Seq<char>, Seq<char>)| (p.0, JsonModel::Str(p.1)),
        ));
    }
    r
}

} // verus!
