//! Parts declared by `.jbeam` documents, and the index the editor builds of
//! them: which parts fit a slot, which are engines, which mods bring
//! engines, and how slots are labelled.
use vstd::prelude::*;

use crate::config::{engine_slot_name, engine_slot_names};
use crate::error::AppError;
use crate::json::{entry_models, lemma_model_object, model_get, model_get_str, JsonModel, JsonValue};
use crate::json_util::join;
use crate::paths::file_name;
use crate::scanner::or_default;
use crate::seen::SeenIds;
use crate::settings::{AppSettings, DirProbe};
use crate::text::{
    concat, contains, eq_ci, eq_ignore_case, has_prefix, is_ws, is_ws_exec, lower, replace_char,
    replace_char_str, seq_lt, starts_with, str_contains, str_eq, str_lt, to_lower, trim, trim_str,
    unicode_upper, unicode_upper_of, views,
};

verus! {

/// The dropdown value that stands for a custom part id.
pub const CUSTOM_OPTION: &'static str = "__custom__";

/// A part found in a `.jbeam` document.
#[derive(Debug)]
pub struct PartEntry {
    pub id: String,
    pub name: String,
    pub slot_type: String,
    pub mod_name: String,
    pub is_engine: bool,
    pub source_file: String,
}

/// The mathematical form of a part.
pub struct PartView {
    pub id: Seq<char>,
    pub name: Seq<char>,
    pub slot_type: Seq<char>,
    pub mod_name: Seq<char>,
    pub is_engine: bool,
    pub source_file: Seq<char>,
}

impl View for PartEntry {
    type V = PartView;

    open spec fn view(&self) -> PartView {
        PartView {
            id: self.id@,
            name: self.name@,
            slot_type: self.slot_type@,
            mod_name: self.mod_name@,
            is_engine: self.is_engine,
            source_file: self.source_file@,
        }
    }
}

impl PartEntry {
    /// A copy of the part.
    pub fn copy(&self) -> (r: PartEntry)
        ensures
            r@ == self@,
    {
        PartEntry {
            id: self.id.clone(),
            name: self.name.clone(),
            slot_type: self.slot_type.clone(),
            mod_name: self.mod_name.clone(),
            is_engine: self.is_engine,
            source_file: self.source_file.clone(),
        }
    }
}

/// The views of parts.
pub open spec fn part_views(v: Seq<PartEntry>) -> Seq<PartView> {
    v.map_values(|p: PartEntry| p@)
}

/// The views of borrowed parts.
pub open spec fn part_ref_views(v: Seq<&PartEntry>) -> Seq<PartView> {
    v.map_values(|p: &PartEntry| p@)
}

/// A mod that brings engines.
#[derive(Debug)]
pub struct EngineModInfo {
    pub mod_name: String,
    pub engine_count: usize,
    pub is_engine_only_mod: bool,
}

/// The mathematical form of an engine mod.
pub struct EngineModView {
    pub mod_name: Seq<char>,
    pub engine_count: nat,
    pub is_engine_only_mod: bool,
}

impl View for EngineModInfo {
    type V = EngineModView;

    open spec fn view(&self) -> EngineModView {
        EngineModView {
            mod_name: self.mod_name@,
            engine_count: self.engine_count as nat,
            is_engine_only_mod: self.is_engine_only_mod,
        }
    }
}

/// What a parts scan reports.
#[derive(Debug)]
pub enum PartsScanMessage {
    Progress { scanned: usize, message: String },
    Part(PartEntry),
    Finished { total: usize },
    Error(String),
}

// ---------------------------------------------------------------------------
// Slot names
// ---------------------------------------------------------------------------

/// Whether some name of `names`, lowercased, occurs in `l`.
pub open spec fn mentions_any(l: Seq<char>, names: Seq<Seq<char>>) -> bool
    decreases names.len(),
{
    names.len() > 0 && (contains(l, lower(names.last())) || mentions_any(l, names.drop_last()))
}

/// Whether a slot is an engine slot: its lowercased name holds a known
/// engine slot name (lowercased) or `engine`.
pub open spec fn engine_slot_name_spec(slot: Seq<char>) -> bool {
    mentions_any(lower(slot), engine_slot_names()) || contains(lower(slot), "engine"@)
}

/// Whether a slot is an engine slot.
pub fn is_engine_slot_name(slot: &str) -> (r: bool)
    ensures
        r == engine_slot_name_spec(slot@),
{
    let l = to_lower(slot);
    let mut found = false;
    let mut i: usize = 0;
    while i < 5
        invariant
            i <= 5,
            l@ == lower(slot@),
            found == mentions_any(l@, engine_slot_names().take(i as int)),
        decreases 5 - i,
    {
        proof {
            assert(engine_slot_names().take(i + 1).drop_last() =~= engine_slot_names().take(i as int));
        }
        let n = to_lower(engine_slot_name(i));
        if str_contains(l.as_str(), n.as_str()) {
            found = true;
        }
        i = i + 1;
    }
    assert(engine_slot_names().take(5) =~= engine_slot_names());
    found || str_contains(l.as_str(), "engine")
}

/// The words of a text: its maximal runs of non-whitespace characters.
pub open spec fn words(s: Seq<char>) -> Seq<Seq<char>>
    decreases s.len(),
{
    if s.len() == 0 {
        Seq::empty()
    } else {
        let w = words(s.drop_last());
        let c = s.last();
        if is_ws(c) {
            w
        } else if s.len() >= 2 && !is_ws(s[s.len() - 2]) && w.len() > 0 {
            w.update(w.len() - 1, w.last().push(c))
        } else {
            w.push(seq![c])
        }
    }
}

/// A word with its first character in uppercase.
pub open spec fn capitalized(w: Seq<char>) -> Seq<char> {
    if w.len() == 0 {
        Seq::empty()
    } else {
        unicode_upper_of(w[0]) + w.drop_first()
    }
}

/// A word with its first character in uppercase.
pub fn capitalize_word(word: &str) -> (r: String)
    ensures
        r@ == capitalized(word@),
{
    let v = crate::text::chars_of(word);
    if v.len() == 0 {
        return String::new();
    }
    let mut r = unicode_upper(v[0]);
    let mut i: usize = 1;
    while i < v.len()
        invariant
            1 <= i <= v@.len(),
            v@ == word@,
            r@ == unicode_upper_of(word@[0]) + word@.subrange(1, i as int),
        decreases v@.len() - i,
    {
        r.push(v[i]);
        i = i + 1;
        assert(r@ =~= unicode_upper_of(word@[0]) + word@.subrange(1, i as int));
    }
    assert(word@.subrange(1, word@.len() as int) =~= word@.drop_first());
    r
}

fn words_exec(s: &str) -> (r: Vec<String>)
    ensures
        views(r@) == words(s@),
{
    let v = crate::text::chars_of(s);
    let mut out: Vec<String> = Vec::new();
    let mut cur = String::new();
    let mut in_word = false;
    let mut i: usize = 0;
    while i < v.len()
        invariant
            i <= v@.len(),
            v@ == s@,
            in_word == (i > 0 && !is_ws(s@[i - 1])),
            in_word ==> cur@.len() > 0 && views(out@).push(cur@) == words(s@.take(i as int)),
            !in_word ==> views(out@) == words(s@.take(i as int)),
        decreases v@.len() - i,
    {
        let c = v[i];
        let ghost t = s@.take(i + 1);
        proof {
            assert(t.drop_last() =~= s@.take(i as int));
            assert(t.last() == c);
            if i > 0 {
                assert(t[i - 1] == s@[i - 1]);
            }
        }
        if is_ws_exec(c) {
            if in_word {
                let done = cur;
                let ghost o0 = views(out@);
                out.push(done);
                assert(views(out@) =~= o0.push(done@));
                cur = String::new();
            }
            in_word = false;
        } else {
            let ghost cur0 = cur@;
            let ghost o0 = views(out@);
            if in_word {
                cur.push(c);
                assert(views(out@).push(cur@) =~= o0.push(cur0).update(o0.len() as int, cur0.push(c)));
            } else {
                cur = String::new();
                cur.push(c);
                assert(cur@ =~= seq![c]);
            }
            in_word = true;
        }
        i = i + 1;
    }
    assert(s@.take(v@.len() as int) =~= s@);
    if in_word {
        let ghost o0 = views(out@);
        out.push(cur);
        assert(views(out@) =~= o0.push(out@.last()@));
    }
    out
}

/// The label shown for a slot: its words (with `_` as a space) capitalized
/// and joined with single spaces, marked with a gear when it names an
/// engine slot.
pub open spec fn slot_label(slot: Seq<char>) -> Seq<char> {
    let ws = words(replace_char(slot, '_', ' '));
    let cleaned = join(ws.map_values(|w: Seq<char>| capitalized(w)), seq![' ']);
    if contains(lower(cleaned), "engine"@) {
        "⚙ "@ + cleaned
    } else {
        cleaned
    }
}

/// The label shown for a slot.
pub fn friendly_slot_label(slot: &str) -> (r: String)
    ensures
        r@ == slot_label(slot@),
{
    let spaced = replace_char_str(slot, '_', ' ');
    let ws = words_exec(spaced.as_str());
    let ghost wv = views(ws@);
    let ghost caps = wv.map_values(|w: Seq<char>| capitalized(w));
    let mut cleaned = String::new();
    let mut i: usize = 0;
    while i < ws.len()
        invariant
            i <= ws@.len(),
            wv == views(ws@),
            caps == wv.map_values(|w: Seq<char>| capitalized(w)),
            cleaned@ == join(caps.take(i as int), seq![' ']),
        decreases ws@.len() - i,
    {
        let w = capitalize_word(ws[i].as_str());
        proof {
            assert(caps.take(i + 1).drop_last() =~= caps.take(i as int));
            assert(caps.take(i + 1).last() == w@);
        }
        if i > 0 {
            cleaned.push(' ');
        } else {
            assert(caps.take(0) =~= Seq::<Seq<char>>::empty());
        }
        cleaned.append(w.as_str());
        proof {
            if i > 0 {
                assert(cleaned@ =~= join(caps.take(i as int), seq![' ']) + seq![' '] + w@);
            } else {
                assert(caps.take(1) =~= seq![w@]);
                assert(cleaned@ =~= w@);
            }
        }
        i = i + 1;
    }
    assert(caps.take(ws@.len() as int) =~= caps);
    let lc = to_lower(cleaned.as_str());
    if str_contains(lc.as_str(), "engine") {
        concat("⚙ ", cleaned.as_str())
    } else {
        cleaned
    }
}

// ---------------------------------------------------------------------------
// Parts of a document
// ---------------------------------------------------------------------------

/// The part declared as `id` by `part` in a document of mod `mod_name` read
/// from `source`, when it is one: ids starting with `__` and values that are
/// not objects are skipped, and so are parts with no slot type that are not
/// engines. A part without slot type is filed under `engine`.
pub open spec fn part_entry(id: Seq<char>, part: JsonModel, mod_name: Seq<char>, source: Seq<char>) -> Option<
    PartView,
> {
    if has_prefix(id, "__"@) || !(part is Object) {
        None
    } else {
        let slot_type = or_default(model_get_str(part, "slotType"@), Seq::empty());
        let name = or_default(
            match model_get(part, "information"@) {
                Some(info) => model_get_str(info, "name"@),
                None => None,
            },
            id,
        );
        let is_engine = engine_slot_name_spec(slot_type) || contains(lower(id), "engine"@) || contains(
            lower(name),
            "engine"@,
        );
        if slot_type.len() == 0 && !is_engine {
            None
        } else {
            Some(
                PartView {
                    id,
                    name,
                    slot_type: if slot_type.len() == 0 {
                        "engine"@
                    } else {
                        slot_type
                    },
                    mod_name,
                    is_engine,
                    source_file: source,
                },
            )
        }
    }
}

/// The parts declared by the entries of a document, in order.
pub open spec fn parts_in(es: Seq<(Seq<char>, JsonModel)>, mod_name: Seq<char>, source: Seq<char>) -> Seq<
    PartView,
>
    decreases es.len(),
{
    if es.len() == 0 {
        Seq::empty()
    } else {
        let r = parts_in(es.drop_last(), mod_name, source);
        match part_entry(es.last().0, es.last().1, mod_name, source) {
            Some(p) => r.push(p),
            None => r,
        }
    }
}

/// The parts of a `.jbeam` document (none unless it is an object).
pub open spec fn jbeam_parts(doc: JsonModel, mod_name: Seq<char>, source: Seq<char>) -> Seq<PartView> {
    match doc {
        JsonModel::Object(es) => parts_in(es, mod_name, source),
        _ => Seq::empty(),
    }
}

proof fn lemma_parts_in_has(es: Seq<(Seq<char>, JsonModel)>, mod_name: Seq<char>, source: Seq<char>, k: int)
    requires
        0 <= k < es.len(),
        part_entry(es[k].0, es[k].1, mod_name, source) is Some,
    ensures
        parts_in(es, mod_name, source).contains(part_entry(es[k].0, es[k].1, mod_name, source)->0),
    decreases es.len(),
{
    let r = parts_in(es.drop_last(), mod_name, source);
    let x = part_entry(es[k].0, es[k].1, mod_name, source)->0;
    if k == es.len() - 1 {
        assert(parts_in(es, mod_name, source) == r.push(x));
        assert(parts_in(es, mod_name, source)[r.len() as int] == x);
    } else {
        assert(es.drop_last()[k] == es[k]);
        lemma_parts_in_has(es.drop_last(), mod_name, source, k);
        let j = choose|j: int| 0 <= j < r.len() && r[j] == x;
        assert(0 <= j < r.len() && r[j] == x);
        match part_entry(es.last().0, es.last().1, mod_name, source) {
            Some(p) => {
                assert(parts_in(es, mod_name, source) == r.push(p));
                assert(parts_in(es, mod_name, source)[j] == x);
            },
            None => {},
        }
    }
}

/// Every entry of a `.jbeam` document that declares a part is listed: an
/// object under a key that does not start with `__` and that names a slot
/// type gives a part with the key as id, that slot type, the given mod and
/// file, and as name the string under `information.name` when there is
/// one, else the key.
pub proof fn law_jbeam_parts_listed(es: Seq<(Seq<char>, JsonModel)>, mod_name: Seq<char>, source: Seq<char>, k: int)
    requires
        0 <= k < es.len(),
        !has_prefix(es[k].0, "__"@),
        es[k].1 is Object,
        model_get_str(es[k].1, "slotType"@) is Some,
        model_get_str(es[k].1, "slotType"@)->0.len() > 0,
    ensures
        exists|j: int|
            0 <= j < jbeam_parts(JsonModel::Object(es), mod_name, source).len() && {
                let p = #[trigger] jbeam_parts(JsonModel::Object(es), mod_name, source)[j];
                &&& p.id == es[k].0
                &&& p.slot_type == model_get_str(es[k].1, "slotType"@)->0
                &&& p.mod_name == mod_name
                &&& p.source_file == source
                &&& p.name == match model_get(es[k].1, "information"@) {
                    Some(info) => match model_get_str(info, "name"@) {
                        Some(n) => n,
                        None => es[k].0,
                    },
                    None => es[k].0,
                }
            },
{
    lemma_parts_in_has(es, mod_name, source, k);
    let r = parts_in(es, mod_name, source);
    let x = part_entry(es[k].0, es[k].1, mod_name, source)->0;
    let j = choose|j: int| 0 <= j < r.len() && r[j] == x;
    assert(0 <= j < r.len() && r[j] == x);
    assert(jbeam_parts(JsonModel::Object(es), mod_name, source)[j] == x);
}

proof fn lemma_parts_in_from(es: Seq<(Seq<char>, JsonModel)>, mod_name: Seq<char>, source: Seq<char>)
    ensures
        forall|j: int|
            0 <= j < parts_in(es, mod_name, source).len() ==> exists|k: int|
                0 <= k < es.len() && part_entry(es[k].0, es[k].1, mod_name, source) == Some(
                    #[trigger] parts_in(es, mod_name, source)[j],
                ),
    decreases es.len(),
{
    if es.len() > 0 {
        let d = es.drop_last();
        lemma_parts_in_from(d, mod_name, source);
        let r = parts_in(d, mod_name, source);
        let o = parts_in(es, mod_name, source);
        assert forall|j: int| 0 <= j < o.len() implies exists|k: int|
            0 <= k < es.len() && part_entry(es[k].0, es[k].1, mod_name, source) == Some(#[trigger] o[j]) by {
            if j < r.len() {
                assert(o[j] == r[j]);
                let k = choose|k: int| 0 <= k < d.len() && part_entry(d[k].0, d[k].1, mod_name, source) == Some(
                    #[trigger] r[j],
                );
                assert(es[k] == d[k]);
            } else {
                let n = es.len() - 1;
                assert(es[n] == es.last());
            }
        }
    }
}

/// Every part listed for a `.jbeam` document comes from one of its
/// entries: an object under a key that does not start with `__`, with that
/// key as id, the given mod and file, a name that is the entry's
/// `information.name` or the key, and its `slotType`, or `engine` for an
/// engine part without one.
pub proof fn law_jbeam_parts_sources(es: Seq<(Seq<char>, JsonModel)>, mod_name: Seq<char>, source: Seq<char>)
    ensures
        forall|j: int|
            0 <= j < jbeam_parts(JsonModel::Object(es), mod_name, source).len() ==> exists|k: int|
                0 <= k < es.len() && {
                    let p = #[trigger] jbeam_parts(JsonModel::Object(es), mod_name, source)[j];
                    &&& p.id == (#[trigger] es[k]).0
                    &&& !has_prefix(es[k].0, "__"@)
                    &&& es[k].1 is Object
                    &&& p.mod_name == mod_name
                    &&& p.source_file == source
                    &&& p.name == match model_get(es[k].1, "information"@) {
                        Some(info) => match model_get_str(info, "name"@) {
                            Some(n) => n,
                            None => es[k].0,
                        },
                        None => es[k].0,
                    }
                    &&& p.slot_type == match model_get_str(es[k].1, "slotType"@) {
                        Some(t) => if t.len() > 0 {
                            t
                        } else {
                            "engine"@
                        },
                        None => "engine"@,
                    }
                },
{
    lemma_parts_in_from(es, mod_name, source);
}

fn part_entry_exec(id: &String, part: &JsonValue, mod_name: &str, source: &str) -> (r: Option<PartEntry>)
    ensures
        match r {
            Some(p) => part_entry(id@, part.model(), mod_name@, source@) == Some(p@),
            None => part_entry(id@, part.model(), mod_name@, source@) is None,
        },
{
    if starts_with(id.as_str(), "__") || !part.is_object() {
        return None;
    }
    let slot_type = match part.get_str("slotType") {
        Some(t) => t.clone(),
        None => String::new(),
    };
    let name = match part.get("information") {
        Some(info) => match info.get_str("name") {
            Some(n) => n.clone(),
            None => id.clone(),
        },
        None => id.clone(),
    };
    let lid = to_lower(id.as_str());
    let lname = to_lower(name.as_str());
    let is_engine = is_engine_slot_name(slot_type.as_str()) || str_contains(lid.as_str(), "engine")
        || str_contains(lname.as_str(), "engine");
    let empty_type = crate::text::is_empty_str(slot_type.as_str());
    if empty_type && !is_engine {
        return None;
    }
    Some(
        PartEntry {
            id: id.clone(),
            name,
            slot_type: if empty_type {
                "engine".to_owned()
            } else {
                slot_type
            },
            mod_name: mod_name.to_owned(),
            is_engine,
            source_file: source.to_owned(),
        },
    )
}

/// The parts a `.jbeam` document of mod `mod_name`, read from `source`,
/// declares.
pub fn parse_jbeam_text(doc: &JsonValue, mod_name: &str, source: &str) -> (r: Vec<PartEntry>)
    ensures
        part_views(r@) == jbeam_parts(doc.model(), mod_name@, source@),
{
    let mut out: Vec<PartEntry> = Vec::new();
    match doc {
        JsonValue::Object(es) => {
            proof {
                lemma_model_object(*doc);
            }
            let ghost ms = entry_models(es@);
            let mut i: usize = 0;
            while i < es.len()
                invariant
                    i <= es@.len(),
                    ms == entry_models(es@),
                    doc.model() == JsonModel::Object(ms),
                    part_views(out@) == parts_in(ms.take(i as int), mod_name@, source@),
                decreases es@.len() - i,
            {
                proof {
                    assert(ms.take(i + 1).drop_last() =~= ms.take(i as int));
                    assert(ms.take(i + 1).last() == ms[i as int]);
                    assert(ms[i as int] == (es@[i as int].0@, es@[i as int].1.model()));
                }
                let ghost prev = part_views(out@);
                match part_entry_exec(&es[i].0, &es[i].1, mod_name, source) {
                    Some(p) => {
                        out.push(p);
                        assert(part_views(out@) =~= prev.push(out@.last()@));
                    },
                    None => {},
                }
                i = i + 1;
            }
            assert(ms.take(es@.len() as int) =~= ms);
        },
        _ => {},
    }
    out
}

/// The parts a `.jbeam` file at `path` of mod `mod_name` declares.
pub fn parse_jbeam_parts(doc: &JsonValue, path: &str, mod_name: &str) -> (r: Vec<PartEntry>)
    ensures
        part_views(r@) == jbeam_parts(doc.model(), mod_name@, path@),
{
    parse_jbeam_text(doc, mod_name, path)
}

/// The mod a file below `root` belongs to (`unknown` when none).
pub fn infer_mod_name(root: &str, path: &str) -> (r: String)
    ensures
        r@ == crate::engine::mod_of_file(root@, path@),
{
    crate::engine::file_mod_name(root, path)
}

// ---------------------------------------------------------------------------
// Ordering parts
// ---------------------------------------------------------------------------

/// Part order: by name, then (when `with_id`) by id.
pub open spec fn part_lt(a: PartView, b: PartView, with_id: bool) -> bool {
    seq_lt(a.name, b.name) || (with_id && a.name == b.name && seq_lt(a.id, b.id))
}

/// `x` inserted before the first part that follows it.
pub open spec fn insert_part(s: Seq<PartView>, x: PartView, with_id: bool) -> Seq<PartView>
    decreases s.len(),
{
    if s.len() == 0 {
        seq![x]
    } else if part_lt(x, s[0], with_id) {
        seq![x] + s
    } else {
        seq![s[0]] + insert_part(s.drop_first(), x, with_id)
    }
}

/// The parts in order (stable: parts that compare equal keep their order).
pub open spec fn sort_parts(s: Seq<PartView>, with_id: bool) -> Seq<PartView>
    decreases s.len(),
{
    if s.len() == 0 {
        s
    } else {
        insert_part(sort_parts(s.drop_last(), with_id), s.last(), with_id)
    }
}

proof fn lemma_insert_part_at(s: Seq<PartView>, x: PartView, with_id: bool, j: int)
    requires
        0 <= j <= s.len(),
        forall|k: int| 0 <= k < j ==> !part_lt(x, #[trigger] s[k], with_id),
        j < s.len() ==> part_lt(x, s[j], with_id),
    ensures
        insert_part(s, x, with_id) == s.insert(j, x),
    decreases j,
{
    if j > 0 {
        let t = s.drop_first();
        assert forall|k: int| 0 <= k < j - 1 implies !part_lt(x, #[trigger] t[k], with_id) by {
            assert(t[k] == s[k + 1]);
        }
        if j < s.len() {
            assert(t[j - 1] == s[j]);
        }
        lemma_insert_part_at(t, x, with_id, j - 1);
        assert(insert_part(s, x, with_id) =~= s.insert(j, x));
    } else {
        assert(insert_part(s, x, with_id) =~= s.insert(0, x));
    }
}

fn part_lt_exec(a: &PartEntry, b: &PartEntry, with_id: bool) -> (r: bool)
    ensures
        r == part_lt(a@, b@, with_id),
{
    str_lt(a.name.as_str(), b.name.as_str()) || (with_id && str_eq(a.name.as_str(), b.name.as_str()) && str_lt(
        a.id.as_str(),
        b.id.as_str(),
    ))
}

/// Sorts parts by name (and id when `with_id`), keeping the order of equal ones.
pub fn sort_parts_vec(v: Vec<PartEntry>, with_id: bool) -> (r: Vec<PartEntry>)
    ensures
        part_views(r@) == sort_parts(part_views(v@), with_id),
{
    let ghost orig = part_views(v@);
    let mut out: Vec<PartEntry> = Vec::new();
    let mut i: usize = 0;
    while i < v.len()
        invariant
            i <= v@.len(),
            orig == part_views(v@),
            part_views(out@) == sort_parts(orig.take(i as int), with_id),
        decreases v@.len() - i,
    {
        let x = v[i].copy();
        proof {
            assert(orig.take(i + 1).drop_last() =~= orig.take(i as int));
            assert(orig.take(i + 1).last() == x@);
        }
        let mut j: usize = 0;
        while j < out.len() && !part_lt_exec(&x, &out[j], with_id)
            invariant
                j <= out@.len(),
                forall|k: int| 0 <= k < j ==> !part_lt(x@, #[trigger] out@[k]@, with_id),
            decreases out@.len() - j,
        {
            j = j + 1;
        }
        let ghost before = part_views(out@);
        proof {
            assert forall|k: int| 0 <= k < j implies !part_lt(x@, #[trigger] before[k], with_id) by {
                assert(before[k] == out@[k]@);
            }
            if j < out@.len() {
                assert(before[j as int] == out@[j as int]@);
            }
            lemma_insert_part_at(before, x@, with_id, j as int);
        }
        let ghost xv = x@;
        out.insert(j, x);
        assert(part_views(out@) =~= before.insert(j as int, xv));
        i = i + 1;
    }
    assert(orig.take(v@.len() as int) =~= orig);
    out
}

fn copy_parts(v: &Vec<PartEntry>) -> (r: Vec<PartEntry>)
    ensures
        part_views(r@) == part_views(v@),
{
    let mut out: Vec<PartEntry> = Vec::new();
    let mut i: usize = 0;
    while i < v.len()
        invariant
            i <= v@.len(),
            part_views(out@) == part_views(v@).take(i as int),
        decreases v@.len() - i,
    {
        let ghost prev = part_views(out@);
        out.push(v[i].copy());
        proof {
            assert(part_views(out@) =~= prev.push(v@[i as int]@));
            assert(part_views(v@).take(i + 1) =~= part_views(v@).take(i as int).push(v@[i as int]@));
        }
        i = i + 1;
    }
    assert(part_views(v@).take(v@.len() as int) =~= part_views(v@));
    out
}

// ---------------------------------------------------------------------------
// The index
// ---------------------------------------------------------------------------

/// Position of the first entry keyed `k`, or the number of entries.
pub open spec fn key_pos<V>(g: Seq<(Seq<char>, V)>, k: Seq<char>) -> int
    decreases g.len(),
{
    if g.len() == 0 {
        0
    } else if g[0].0 == k {
        0
    } else {
        1 + key_pos(g.drop_first(), k)
    }
}

pub proof fn lemma_key_pos<V>(g: Seq<(Seq<char>, V)>, k: Seq<char>)
    ensures
        0 <= key_pos(g, k) <= g.len(),
        forall|j: int| 0 <= j < key_pos(g, k) ==> #[trigger] g[j].0 != k,
        key_pos(g, k) < g.len() ==> g[key_pos(g, k)].0 == k,
    decreases g.len(),
{
    if g.len() > 0 && g[0].0 != k {
        lemma_key_pos(g.drop_first(), k);
        assert forall|j: int| 0 <= j < key_pos(g, k) implies #[trigger] g[j].0 != k by {
            if j > 0 {
                assert(g[j] == g.drop_first()[j - 1]);
            }
        }
    }
}

/// The index of every part found.
#[derive(Debug)]
pub struct PartsIndex {
    /// Parts per slot type, each list by name.
    pub by_slot_type: Vec<(String, Vec<PartEntry>)>,
    /// The engine parts, by name.
    pub engines: Vec<PartEntry>,
    /// The mods that bring engines.
    pub engine_mods: Vec<EngineModInfo>,
    /// Parts by id.
    pub all_by_id: Vec<(String, PartEntry)>,
}

/// The views of a per-slot table.
pub open spec fn group_views(v: Seq<(String, Vec<PartEntry>)>) -> Seq<(Seq<char>, Seq<PartView>)> {
    v.map_values(|e: (String, Vec<PartEntry>)| (e.0@, part_views(e.1@)))
}

/// The views of a per-id table.
pub open spec fn id_views(v: Seq<(String, PartEntry)>) -> Seq<(Seq<char>, PartView)> {
    v.map_values(|e: (String, PartEntry)| (e.0@, e.1@))
}

/// The views of engine mods.
pub open spec fn mod_views(v: Seq<EngineModInfo>) -> Seq<EngineModView> {
    v.map_values(|m: EngineModInfo| m@)
}

/// The engine parts among some parts, in order.
pub open spec fn engines_of(ps: Seq<PartView>) -> Seq<PartView>
    decreases ps.len(),
{
    if ps.len() == 0 {
        Seq::empty()
    } else if ps.last().is_engine {
        engines_of(ps.drop_last()).push(ps.last())
    } else {
        engines_of(ps.drop_last())
    }
}

/// Each id with the last part that has it, ids in order of first appearance.
pub open spec fn id_table(ps: Seq<PartView>) -> Seq<(Seq<char>, PartView)>
    decreases ps.len(),
{
    if ps.len() == 0 {
        Seq::empty()
    } else {
        let g = id_table(ps.drop_last());
        let p = ps.last();
        let k = key_pos(g, p.id);
        if k < g.len() {
            g.update(k, (p.id, p))
        } else {
            g.push((p.id, p))
        }
    }
}

/// Each slot type with its parts in order, slot types in order of first appearance.
pub open spec fn slot_table(ps: Seq<PartView>) -> Seq<(Seq<char>, Seq<PartView>)>
    decreases ps.len(),
{
    if ps.len() == 0 {
        Seq::empty()
    } else {
        let g = slot_table(ps.drop_last());
        let p = ps.last();
        let k = key_pos(g, p.slot_type);
        if k < g.len() {
            g.update(k, (p.slot_type, g[k].1.push(p)))
        } else {
            g.push((p.slot_type, seq![p]))
        }
    }
}

/// Each mod with its engine count and part count, mods in order of first appearance.
pub open spec fn mod_table(ps: Seq<PartView>) -> Seq<(Seq<char>, (nat, nat))>
    decreases ps.len(),
{
    if ps.len() == 0 {
        Seq::empty()
    } else {
        let g = mod_table(ps.drop_last());
        let p = ps.last();
        let k = key_pos(g, p.mod_name);
        let e: nat = if p.is_engine {
            1
        } else {
            0
        };
        if k < g.len() {
            g.update(k, (p.mod_name, (g[k].1.0 + e, g[k].1.1 + 1)))
        } else {
            g.push((p.mod_name, (e, 1nat)))
        }
    }
}

/// The engine mod of a mod's counts, when it qualifies: it has an engine,
/// and either two or more or at most five parts in all. It is an engine-only
/// mod when its name mentions `engine` or `motor`, or at least two of its
/// parts and at least half of them are engines.
pub open spec fn engine_mod_of(name: Seq<char>, engines: nat, total: nat) -> Option<EngineModView> {
    if engines > 0 && (engines >= 2 || total <= 5) {
        Some(
            EngineModView {
                mod_name: name,
                engine_count: engines,
                is_engine_only_mod: contains(lower(name), "engine"@) || contains(lower(name), "motor"@) || (
                engines >= 2 && engines * 2 >= total),
            },
        )
    } else {
        None
    }
}

/// The engine mods of a mod table, in order.
pub open spec fn engine_mods_of(t: Seq<(Seq<char>, (nat, nat))>) -> Seq<EngineModView>
    decreases t.len(),
{
    if t.len() == 0 {
        Seq::empty()
    } else {
        match engine_mod_of(t.last().0, t.last().1.0, t.last().1.1) {
            Some(m) => engine_mods_of(t.drop_last()).push(m),
            None => engine_mods_of(t.drop_last()),
        }
    }
}

/// A per-slot table with each list sorted by name.
pub open spec fn sorted_slot_table(t: Seq<(Seq<char>, Seq<PartView>)>) -> Seq<(Seq<char>, Seq<PartView>)> {
    t.map_values(|e: (Seq<char>, Seq<PartView>)| (e.0, sort_parts(e.1, false)))
}

proof fn lemma_mod_table_bound(ps: Seq<PartView>)
    ensures
        mod_table(ps).len() <= ps.len(),
        forall|k: int| 0 <= k < mod_table(ps).len() ==> #[trigger] mod_table(ps)[k].1.0 <= mod_table(ps)[k].1.1
            <= ps.len(),
    decreases ps.len(),
{
    if ps.len() > 0 {
        lemma_mod_table_bound(ps.drop_last());
        lemma_key_pos(mod_table(ps.drop_last()), ps.last().mod_name);
    }
}

proof fn lemma_slot_table_bound(ps: Seq<PartView>)
    ensures
        slot_table(ps).len() <= ps.len(),
    decreases ps.len(),
{
    if ps.len() > 0 {
        lemma_slot_table_bound(ps.drop_last());
        lemma_key_pos(slot_table(ps.drop_last()), ps.last().slot_type);
    }
}

impl PartsIndex {
    /// An empty index.
    pub fn new() -> (r: PartsIndex)
        ensures
            r.by_slot_type@.len() == 0,
            r.engines@.len() == 0,
            r.engine_mods@.len() == 0,
            r.all_by_id@.len() == 0,
    {
        PartsIndex { by_slot_type: Vec::new(), engines: Vec::new(), engine_mods: Vec::new(), all_by_id: Vec::new() }
    }

    /// The index of some parts: engines by name; each id with the last
    /// part that has it; each slot type with its parts by name; the mods
    /// that qualify as engine mods.
    pub fn finalize_from_parts(parts: Vec<PartEntry>) -> (r: PartsIndex)
        ensures
            part_views(r.engines@) == sort_parts(engines_of(part_views(parts@)), false),
            id_views(r.all_by_id@) == id_table(part_views(parts@)),
            group_views(r.by_slot_type@) == sorted_slot_table(slot_table(part_views(parts@))),
            mod_views(r.engine_mods@) == engine_mods_of(mod_table(part_views(parts@))),
    {
        let ghost pv = part_views(parts@);
        let mut engines: Vec<PartEntry> = Vec::new();
        let mut ids: Vec<(String, PartEntry)> = Vec::new();
        let mut slots: Vec<(String, Vec<PartEntry>)> = Vec::new();
        let mut mods: Vec<(String, usize, usize)> = Vec::new();
        let mut i: usize = 0;
        while i < parts.len()
            invariant
                i <= parts@.len(),
                pv == part_views(parts@),
                part_views(engines@) == engines_of(pv.take(i as int)),
                id_views(ids@) == id_table(pv.take(i as int)),
                group_views(slots@) == slot_table(pv.take(i as int)),
                mods@.map_values(|m: (String, usize, usize)| (m.0@, (m.1 as nat, m.2 as nat))) == mod_table(
                    pv.take(i as int),
                ),
            decreases parts@.len() - i,
        {
            let p = &parts[i];
            let ghost t = pv.take(i + 1);
            proof {
                assert(t.drop_last() =~= pv.take(i as int));
                assert(t.last() == p@);
            }
            // engines
            if p.is_engine {
                let ghost e0 = part_views(engines@);
                engines.push(p.copy());
                assert(part_views(engines@) =~= e0.push(p@));
            }
            // ids
            let ghost gi = id_table(pv.take(i as int));
            proof {
                lemma_key_pos(gi, p.id@);
            }
            let mut k: usize = 0;
            while k < ids.len() && !str_eq(ids[k].0.as_str(), p.id.as_str())
                invariant
                    k <= ids@.len(),
                    id_views(ids@) == gi,
                    forall|j: int| 0 <= j < k ==> #[trigger] gi[j].0 != p.id@,
                decreases ids@.len() - k,
            {
                assert(gi[k as int].0 == ids@[k as int].0@);
                k = k + 1;
            }
            proof {
                if k < ids@.len() {
                    assert(gi[k as int].0 == ids@[k as int].0@);
                }
                assert(k == key_pos(gi, p.id@)) by {
                    if k < key_pos(gi, p.id@) {
                        assert(gi[k as int].0 != p.id@);
                    } else if k > key_pos(gi, p.id@) {
                        assert(gi[key_pos(gi, p.id@)].0 != p.id@);
                    }
                }
            }
            if k < ids.len() {
                ids.set(k, (p.id.clone(), p.copy()));
                assert(id_views(ids@) =~= gi.update(k as int, (p.id@, p@)));
            } else {
                ids.push((p.id.clone(), p.copy()));
                assert(id_views(ids@) =~= gi.push((p.id@, p@)));
            }
            // slot types
            let ghost gs = slot_table(pv.take(i as int));
            proof {
                lemma_key_pos(gs, p.slot_type@);
            }
            let mut k2: usize = 0;
            while k2 < slots.len() && !str_eq(slots[k2].0.as_str(), p.slot_type.as_str())
                invariant
                    k2 <= slots@.len(),
                    group_views(slots@) == gs,
                    forall|j: int| 0 <= j < k2 ==> #[trigger] gs[j].0 != p.slot_type@,
                decreases slots@.len() - k2,
            {
                assert(gs[k2 as int].0 == slots@[k2 as int].0@);
                k2 = k2 + 1;
            }
            proof {
                if k2 < slots@.len() {
                    assert(gs[k2 as int].0 == slots@[k2 as int].0@);
                }
                assert(k2 == key_pos(gs, p.slot_type@)) by {
                    if k2 < key_pos(gs, p.slot_type@) {
                        assert(gs[k2 as int].0 != p.slot_type@);
                    } else if k2 > key_pos(gs, p.slot_type@) {
                        assert(gs[key_pos(gs, p.slot_type@)].0 != p.slot_type@);
                    }
                }
            }
            if k2 < slots.len() {
                let mut list = copy_parts(&slots[k2].1);
                let ghost l0 = part_views(list@);
                list.push(p.copy());
                assert(part_views(list@) =~= l0.push(p@));
                assert(l0 == gs[k2 as int].1);
                let key = slots[k2].0.clone();
                slots.set(k2, (key, list));
                assert(group_views(slots@) =~= gs.update(k2 as int, (p.slot_type@, gs[k2 as int].1.push(p@))));
            } else {
                let mut list: Vec<PartEntry> = Vec::new();
                list.push(p.copy());
                assert(part_views(list@) =~= seq![p@]);
                slots.push((p.slot_type.clone(), list));
                assert(group_views(slots@) =~= gs.push((p.slot_type@, seq![p@])));
            }
            // mods
            let ghost gm = mod_table(pv.take(i as int));
            proof {
                lemma_key_pos(gm, p.mod_name@);
                lemma_mod_table_bound(pv.take(i as int));
            }
            let ghost mv = mods@.map_values(|m: (String, usize, usize)| (m.0@, (m.1 as nat, m.2 as nat)));
            let mut k3: usize = 0;
            while k3 < mods.len() && !str_eq(mods[k3].0.as_str(), p.mod_name.as_str())
                invariant
                    k3 <= mods@.len(),
                    mv == mods@.map_values(|m: (String, usize, usize)| (m.0@, (m.1 as nat, m.2 as nat))),
                    mv == gm,
                    forall|j: int| 0 <= j < k3 ==> #[trigger] gm[j].0 != p.mod_name@,
                decreases mods@.len() - k3,
            {
                assert(gm[k3 as int].0 == mods@[k3 as int].0@);
                k3 = k3 + 1;
            }
            proof {
                if k3 < mods@.len() {
                    assert(gm[k3 as int].0 == mods@[k3 as int].0@);
                }
                assert(k3 == key_pos(gm, p.mod_name@)) by {
                    if k3 < key_pos(gm, p.mod_name@) {
                        assert(gm[k3 as int].0 != p.mod_name@);
                    } else if k3 > key_pos(gm, p.mod_name@) {
                        assert(gm[key_pos(gm, p.mod_name@)].0 != p.mod_name@);
                    }
                }
            }
            let e: usize = if p.is_engine {
                1
            } else {
                0
            };
            if k3 < mods.len() {
                let (name, eng, total) = (mods[k3].0.clone(), mods[k3].1, mods[k3].2);
                assert(gm[k3 as int].1.1 <= i) by {
                    assert(gm[k3 as int].1.1 <= pv.take(i as int).len());
                }
                assert(eng == gm[k3 as int].1.0);
                assert(total == gm[k3 as int].1.1);
                mods.set(k3, (name, eng + e, total + 1));
                assert(mods@.map_values(|m: (String, usize, usize)| (m.0@, (m.1 as nat, m.2 as nat))) =~= gm.update(
                    k3 as int,
                    (p.mod_name@, ((gm[k3 as int].1.0 + e) as nat, gm[k3 as int].1.1 + 1)),
                ));
            } else {
                mods.push((p.mod_name.clone(), e, 1));
                assert(mods@.map_values(|m: (String, usize, usize)| (m.0@, (m.1 as nat, m.2 as nat))) =~= gm.push(
                    (p.mod_name@, (e as nat, 1nat)),
                ));
            }
            i = i + 1;
        }
        assert(pv.take(parts@.len() as int) =~= pv);
        // sort the per-slot lists
        let ghost st = slot_table(pv);
        let mut sorted_slots: Vec<(String, Vec<PartEntry>)> = Vec::new();
        let mut s: usize = 0;
        while s < slots.len()
            invariant
                s <= slots@.len(),
                group_views(slots@) == st,
                group_views(sorted_slots@) == sorted_slot_table(st).take(s as int),
            decreases slots@.len() - s,
        {
            let list = copy_parts(&slots[s].1);
            let sorted = sort_parts_vec(list, false);
            let ghost prev = group_views(sorted_slots@);
            sorted_slots.push((slots[s].0.clone(), sorted));
            proof {
                assert(st[s as int] == (slots@[s as int].0@, part_views(slots@[s as int].1@)));
                assert(group_views(sorted_slots@) =~= prev.push(
                    (slots@[s as int].0@, sort_parts(part_views(slots@[s as int].1@), false)),
                ));
                assert(sorted_slot_table(st)[s as int] == (st[s as int].0, sort_parts(st[s as int].1, false)));
                assert(sorted_slot_table(st).take(s + 1) =~= sorted_slot_table(st).take(s as int).push(
                    sorted_slot_table(st)[s as int],
                ));
            }
            s = s + 1;
        }
        assert(sorted_slot_table(st).take(slots@.len() as int) =~= sorted_slot_table(st));
        // engine mods
        let ghost mt = mod_table(pv);
        let mut engine_mods: Vec<EngineModInfo> = Vec::new();
        let mut m: usize = 0;
        proof {
            lemma_mod_table_bound(pv);
        }
        while m < mods.len()
            invariant
                m <= mods@.len(),
                mods@.map_values(|x: (String, usize, usize)| (x.0@, (x.1 as nat, x.2 as nat))) == mt,
                mod_views(engine_mods@) == engine_mods_of(mt.take(m as int)),
                forall|k: int| 0 <= k < mt.len() ==> #[trigger] mt[k].1.0 <= mt[k].1.1 <= pv.len(),
                pv.len() == parts@.len(),
            decreases mods@.len() - m,
        {
            let name = &mods[m].0;
            let eng = mods[m].1;
            let total = mods[m].2;
            proof {
                assert(mt[m as int] == (name@, (eng as nat, total as nat)));
                assert(mt[m as int].1.0 <= mt[m as int].1.1 <= pv.len());
                assert(mt.take(m + 1).drop_last() =~= mt.take(m as int));
                assert(mt.take(m + 1).last() == mt[m as int]);
                assert(total <= parts@.len());
            }
            if eng > 0 && (eng >= 2 || total <= 5) {
                let lname = to_lower(name.as_str());
                let only = str_contains(lname.as_str(), "engine") || str_contains(lname.as_str(), "motor") || (eng
                    >= 2 && eng <= total && eng >= total - eng);
                proof {
                    assert(eng <= total);
                }
                let ghost prev = mod_views(engine_mods@);
                engine_mods.push(EngineModInfo { mod_name: name.clone(), engine_count: eng, is_engine_only_mod: only });
                assert(mod_views(engine_mods@) =~= prev.push(engine_mod_of(name@, eng as nat, total as nat)->0));
            }
            m = m + 1;
        }
        assert(mt.take(mods@.len() as int) =~= mt);
        let sorted_engines = sort_parts_vec(engines, false);
        PartsIndex { by_slot_type: sorted_slots, engines: sorted_engines, engine_mods, all_by_id: ids }
    }
}

// ---------------------------------------------------------------------------
// Dropdown options
// ---------------------------------------------------------------------------

/// The parts listed for slot type `slot` (none when it has no entry).
pub open spec fn group_of(t: Seq<(Seq<char>, Seq<PartView>)>, slot: Seq<char>) -> Seq<PartView> {
    let k = key_pos(t, slot);
    if k < t.len() {
        t[k].1
    } else {
        Seq::empty()
    }
}

/// Whether another slot type is related to `slot`: one holds the other
/// (ASCII case ignored), or both mention `engine`.
pub open spec fn related_slot(key: Seq<char>, slot: Seq<char>) -> bool {
    key != slot && (contains(lower(key), lower(slot)) || contains(lower(slot), lower(key)) || (contains(
        lower(slot),
        "engine"@,
    ) && contains(lower(key), "engine"@)))
}

/// The parts of the slot types related to `slot`, table order.
pub open spec fn related_parts(t: Seq<(Seq<char>, Seq<PartView>)>, slot: Seq<char>) -> Seq<PartView>
    decreases t.len(),
{
    if t.len() == 0 {
        Seq::empty()
    } else if related_slot(t.last().0, slot) {
        related_parts(t.drop_last(), slot) + t.last().1
    } else {
        related_parts(t.drop_last(), slot)
    }
}

/// The currently installed part: the indexed part with id `current`, or a
/// stand-in named `Current: <id>` from mod `installed`; none when `current`
/// is empty.
pub open spec fn current_part(ids: Seq<(Seq<char>, PartView)>, slot: Seq<char>, current: Seq<char>) -> Seq<
    PartView,
> {
    if current.len() == 0 {
        Seq::empty()
    } else {
        let k = key_pos(ids, current);
        if k < ids.len() {
            seq![ids[k].1]
        } else {
            seq![
                PartView {
                    id: current,
                    name: "Current: "@ + current,
                    slot_type: slot,
                    mod_name: "installed"@,
                    is_engine: engine_slot_name_spec(slot),
                    source_file: Seq::empty(),
                },
            ]
        }
    }
}

/// The ids of some parts.
pub open spec fn ids_of(s: Seq<PartView>) -> Seq<Seq<char>> {
    s.map_values(|p: PartView| p.id)
}

/// The parts with the first one of each id kept, in order.
pub open spec fn first_by_id(s: Seq<PartView>) -> Seq<PartView>
    decreases s.len(),
{
    if s.len() == 0 {
        s
    } else {
        let d = first_by_id(s.drop_last());
        if ids_of(d).contains(s.last().id) {
            d
        } else {
            d.push(s.last())
        }
    }
}

/// The options offered for a slot holding `current`: the slot's own parts,
/// those of related slot types, all engines for an engine slot, and the
/// current part; the first of each id kept; sorted by name, then id.
pub open spec fn dropdown(
    t: Seq<(Seq<char>, Seq<PartView>)>,
    engines: Seq<PartView>,
    ids: Seq<(Seq<char>, PartView)>,
    slot: Seq<char>,
    current: Seq<char>,
) -> Seq<PartView> {
    let cands = group_of(t, slot) + related_parts(t, slot) + (if engine_slot_name_spec(slot) {
        engines
    } else {
        Seq::empty()
    }) + current_part(ids, slot, current);
    sort_parts(first_by_id(cands), true)
}

proof fn lemma_related_parts_has(t: Seq<(Seq<char>, Seq<PartView>)>, slot: Seq<char>, i: int, j: int)
    requires
        0 <= i < t.len(),
        related_slot(t[i].0, slot),
        0 <= j < t[i].1.len(),
    ensures
        related_parts(t, slot).contains(t[i].1[j]),
    decreases t.len(),
{
    let d = t.drop_last();
    let r = related_parts(d, slot);
    if i == t.len() - 1 {
        assert(related_parts(t, slot) == r + t.last().1);
        assert(related_parts(t, slot)[r.len() + j] == t[i].1[j]);
    } else {
        assert(d[i] == t[i]);
        lemma_related_parts_has(d, slot, i, j);
        let k = choose|k: int| 0 <= k < r.len() && r[k] == t[i].1[j];
        assert(0 <= k < r.len() && r[k] == t[i].1[j]);
        if related_slot(t.last().0, slot) {
            assert(related_parts(t, slot) == r + t.last().1);
            assert(related_parts(t, slot)[k] == t[i].1[j]);
        }
    }
}

proof fn lemma_first_by_id_keeps_ids(s: Seq<PartView>, p: PartView)
    requires
        s.contains(p),
    ensures
        ids_of(first_by_id(s)).contains(p.id),
    decreases s.len(),
{
    let d = first_by_id(s.drop_last());
    assert(ids_of(d.push(s.last())) =~= ids_of(d).push(s.last().id));
    if p == s.last() {
        if !ids_of(d).contains(p.id) {
            assert(ids_of(first_by_id(s))[ids_of(d).len() as int] == p.id);
        }
    } else {
        let i = choose|i: int| 0 <= i < s.len() && s[i] == p;
        assert(0 <= i < s.len() && s[i] == p);
        assert(s.drop_last()[i] == p);
        lemma_first_by_id_keeps_ids(s.drop_last(), p);
        let k = choose|k: int| 0 <= k < ids_of(d).len() && ids_of(d)[k] == p.id;
        assert(0 <= k < ids_of(d).len() && ids_of(d)[k] == p.id);
        if !ids_of(d).contains(s.last().id) {
            assert(ids_of(first_by_id(s))[k] == p.id);
        }
    }
}

proof fn lemma_insert_part_has(s: Seq<PartView>, x: PartView, with_id: bool, y: PartView)
    requires
        s.contains(y) || y == x,
    ensures
        insert_part(s, x, with_id).contains(y),
    decreases s.len(),
{
    let r = insert_part(s, x, with_id);
    if s.len() == 0 {
        assert(r[0] == y);
    } else if part_lt(x, s[0], with_id) {
        if y == x {
            assert(r[0] == y);
        } else {
            let i = choose|i: int| 0 <= i < s.len() && s[i] == y;
            assert(0 <= i < s.len() && s[i] == y);
            assert(r[i + 1] == y);
        }
    } else {
        let t = s.drop_first();
        if y == s[0] {
            assert(r[0] == y);
        } else {
            if y != x {
                let i = choose|i: int| 0 <= i < s.len() && s[i] == y;
                assert(0 <= i < s.len() && s[i] == y);
                assert(t[i - 1] == y);
            }
            lemma_insert_part_has(t, x, with_id, y);
            let rt = insert_part(t, x, with_id);
            let k = choose|k: int| 0 <= k < rt.len() && rt[k] == y;
            assert(0 <= k < rt.len() && rt[k] == y);
            assert(r[k + 1] == y);
        }
    }
}

proof fn lemma_sort_parts_has(s: Seq<PartView>, with_id: bool, y: PartView)
    requires
        s.contains(y),
    ensures
        sort_parts(s, with_id).contains(y),
    decreases s.len(),
{
    let d = s.drop_last();
    if y != s.last() {
        let i = choose|i: int| 0 <= i < s.len() && s[i] == y;
        assert(0 <= i < s.len() && s[i] == y);
        assert(d[i] == y);
        lemma_sort_parts_has(d, with_id, y);
    }
    lemma_insert_part_has(sort_parts(d, with_id), s.last(), with_id, y);
}

proof fn lemma_part_lt_transitive(a: PartView, b: PartView, c: PartView, with_id: bool)
    requires
        part_lt(a, b, with_id),
        part_lt(b, c, with_id),
    ensures
        part_lt(a, c, with_id),
{
    if seq_lt(a.name, b.name) && seq_lt(b.name, c.name) {
        crate::text::lemma_seq_lt_transitive(a.name, b.name, c.name);
    } else if with_id && a.name == b.name && b.name == c.name && seq_lt(a.id, b.id) && seq_lt(b.id, c.id) {
        crate::text::lemma_seq_lt_transitive(a.id, b.id, c.id);
    }
}

proof fn lemma_part_lt_asymmetric(a: PartView, b: PartView, with_id: bool)
    requires
        part_lt(a, b, with_id),
    ensures
        !part_lt(b, a, with_id),
{
    if part_lt(b, a, with_id) {
        lemma_part_lt_transitive(a, b, a, with_id);
        crate::text::lemma_seq_lt_irreflexive(a.name);
        crate::text::lemma_seq_lt_irreflexive(a.id);
    }
}

/// Parts in order: none is before an earlier one.
pub open spec fn parts_in_order(s: Seq<PartView>, with_id: bool) -> bool {
    forall|i: int, j: int| 0 <= i < j < s.len() ==> !part_lt(#[trigger] s[j], #[trigger] s[i], with_id)
}

/// No two parts share an id.
pub open spec fn ids_distinct(s: Seq<PartView>) -> bool {
    forall|i: int, j: int| 0 <= i < j < s.len() ==> (#[trigger] s[i]).id != (#[trigger] s[j]).id
}

proof fn lemma_insert_part_members(s: Seq<PartView>, x: PartView, with_id: bool)
    ensures
        insert_part(s, x, with_id).len() == s.len() + 1,
        forall|k: int|
            0 <= k < insert_part(s, x, with_id).len() ==> #[trigger] insert_part(s, x, with_id)[k] == x || s.contains(
                insert_part(s, x, with_id)[k],
            ),
    decreases s.len(),
{
    let r = insert_part(s, x, with_id);
    if s.len() > 0 {
        if part_lt(x, s[0], with_id) {
            assert forall|k: int| 0 <= k < r.len() implies #[trigger] r[k] == x || s.contains(r[k]) by {
                if k > 0 {
                    assert(s[k - 1] == r[k]);
                }
            }
        } else {
            let t = s.drop_first();
            lemma_insert_part_members(t, x, with_id);
            let rt = insert_part(t, x, with_id);
            assert forall|k: int| 0 <= k < r.len() implies #[trigger] r[k] == x || s.contains(r[k]) by {
                if k == 0 {
                    assert(s[0] == r[k]);
                } else {
                    assert(r[k] == rt[k - 1]);
                    if rt[k - 1] != x {
                        let i = choose|i: int| 0 <= i < t.len() && t[i] == rt[k - 1];
                        assert(0 <= i < t.len() && t[i] == rt[k - 1]);
                        assert(s[i + 1] == r[k]);
                    }
                }
            }
        }
    }
}

proof fn lemma_insert_part_ordered(s: Seq<PartView>, x: PartView, with_id: bool)
    requires
        parts_in_order(s, with_id),
    ensures
        parts_in_order(insert_part(s, x, with_id), with_id),
    decreases s.len(),
{
    let r = insert_part(s, x, with_id);
    lemma_insert_part_members(s, x, with_id);
    if s.len() > 0 {
        if part_lt(x, s[0], with_id) {
            assert forall|i: int, j: int| 0 <= i < j < r.len() implies !part_lt(#[trigger] r[j], #[trigger] r[i], with_id) by {
                assert(r[j] == s[j - 1]);
                if i == 0 {
                    if part_lt(s[j - 1], x, with_id) {
                        lemma_part_lt_transitive(s[j - 1], x, s[0], with_id);
                        if j - 1 == 0 {
                            lemma_part_lt_asymmetric(s[0], s[0], with_id);
                        }
                    }
                } else {
                    assert(r[i] == s[i - 1]);
                }
            }
        } else {
            let t = s.drop_first();
            assert forall|i: int, j: int| 0 <= i < j < t.len() implies !part_lt(#[trigger] t[j], #[trigger] t[i], with_id) by {
                assert(t[j] == s[j + 1] && t[i] == s[i + 1]);
            }
            lemma_insert_part_ordered(t, x, with_id);
            lemma_insert_part_members(t, x, with_id);
            let rt = insert_part(t, x, with_id);
            assert forall|i: int, j: int| 0 <= i < j < r.len() implies !part_lt(#[trigger] r[j], #[trigger] r[i], with_id) by {
                assert(r[j] == rt[j - 1]);
                if i == 0 {
                    assert(r[0] == s[0]);
                    if rt[j - 1] != x {
                        let k = choose|k: int| 0 <= k < t.len() && t[k] == rt[j - 1];
                        assert(0 <= k < t.len() && t[k] == rt[j - 1]);
                        assert(s[k + 1] == t[k]);
                    }
                } else {
                    assert(r[i] == rt[i - 1]);
                }
            }
        }
    }
}

proof fn lemma_sort_parts_facts(s: Seq<PartView>, with_id: bool)
    ensures
        sort_parts(s, with_id).len() == s.len(),
        parts_in_order(sort_parts(s, with_id), with_id),
        forall|k: int| 0 <= k < s.len() ==> #[trigger] s.contains(sort_parts(s, with_id)[k]),
        ids_distinct(s) ==> ids_distinct(sort_parts(s, with_id)),
    decreases s.len(),
{
    if s.len() > 0 {
        let d = s.drop_last();
        lemma_sort_parts_facts(d, with_id);
        let sd = sort_parts(d, with_id);
        lemma_insert_part_ordered(sd, s.last(), with_id);
        lemma_insert_part_members(sd, s.last(), with_id);
        let r = sort_parts(s, with_id);
        assert forall|k: int| 0 <= k < s.len() implies #[trigger] s.contains(r[k]) by {
            if r[k] == s.last() {
                assert(s[s.len() - 1] == r[k]);
            } else {
                let i = choose|i: int| 0 <= i < sd.len() && sd[i] == r[k];
                assert(0 <= i < sd.len() && sd[i] == r[k]);
                assert(d.contains(sd[i]));
                let m = choose|m: int| 0 <= m < d.len() && d[m] == sd[i];
                assert(0 <= m < d.len() && d[m] == sd[i]);
                assert(s[m] == r[k]);
            }
        }
        if ids_distinct(s) {
            assert forall|i: int, j: int| 0 <= i < j < d.len() implies (#[trigger] d[i]).id != (#[trigger] d[j]).id by {
                assert(d[i] == s[i] && d[j] == s[j]);
            }
            assert forall|k: int| 0 <= k < sd.len() implies (#[trigger] sd[k]).id != s.last().id by {
                assert(d.contains(sd[k]));
                let m = choose|m: int| 0 <= m < d.len() && d[m] == sd[k];
                assert(0 <= m < d.len() && d[m] == sd[k]);
                assert(s[m] == sd[k]);
                assert(s[m].id != s[s.len() - 1].id);
            }
            let j = lemma_insert_part_is_insert(sd, s.last(), with_id);
            lemma_insert_distinct(sd, s.last(), j);
        }
    }
}

proof fn lemma_insert_part_is_insert(s: Seq<PartView>, x: PartView, with_id: bool) -> (j: int)
    ensures
        0 <= j <= s.len(),
        insert_part(s, x, with_id) == s.insert(j, x),
    decreases s.len(),
{
    if s.len() == 0 {
        assert(insert_part(s, x, with_id) =~= s.insert(0, x));
        0
    } else if part_lt(x, s[0], with_id) {
        assert(insert_part(s, x, with_id) =~= s.insert(0, x));
        0
    } else {
        let t = s.drop_first();
        let j = lemma_insert_part_is_insert(t, x, with_id);
        assert(insert_part(s, x, with_id) =~= s.insert(j + 1, x));
        j + 1
    }
}

proof fn lemma_insert_distinct(s: Seq<PartView>, x: PartView, j: int)
    requires
        0 <= j <= s.len(),
        ids_distinct(s),
        forall|k: int| 0 <= k < s.len() ==> (#[trigger] s[k]).id != x.id,
    ensures
        ids_distinct(s.insert(j, x)),
{
    let r = s.insert(j, x);
    assert forall|a: int, b: int| 0 <= a < b < r.len() implies (#[trigger] r[a]).id != (#[trigger] r[b]).id by {
        if a < j {
            assert(r[a] == s[a]);
        } else if a > j {
            assert(r[a] == s[a - 1]);
        }
        if b < j {
            assert(r[b] == s[b]);
        } else if b > j {
            assert(r[b] == s[b - 1]);
        }
    }
}

proof fn lemma_first_by_id_facts(s: Seq<PartView>)
    ensures
        ids_distinct(first_by_id(s)),
        forall|k: int| 0 <= k < first_by_id(s).len() ==> s.contains(#[trigger] first_by_id(s)[k]),
    decreases s.len(),
{
    if s.len() > 0 {
        let d = first_by_id(s.drop_last());
        lemma_first_by_id_facts(s.drop_last());
        let f = first_by_id(s);
        assert forall|k: int| 0 <= k < f.len() implies s.contains(#[trigger] f[k]) by {
            if k < d.len() {
                assert(f[k] == d[k]);
                assert(s.drop_last().contains(d[k]));
                let m = choose|m: int| 0 <= m < s.drop_last().len() && s.drop_last()[m] == d[k];
                assert(0 <= m < s.drop_last().len() && s.drop_last()[m] == d[k]);
                assert(s[m] == f[k]);
            } else {
                assert(f[k] == s[s.len() - 1]);
            }
        }
        if !ids_of(d).contains(s.last().id) {
            assert forall|a: int, b: int| 0 <= a < b < f.len() implies (#[trigger] f[a]).id != (#[trigger] f[b]).id by {
                if b == d.len() {
                    assert(ids_of(d)[a] == d[a].id);
                }
            }
        }
    }
}

proof fn lemma_related_parts_from(t: Seq<(Seq<char>, Seq<PartView>)>, slot: Seq<char>, y: PartView)
    requires
        related_parts(t, slot).contains(y),
    ensures
        exists|i: int, j: int|
            0 <= i < t.len() && 0 <= j < t[i].1.len() && #[trigger] t[i].1[j] == y && related_slot(t[i].0, slot),
    decreases t.len(),
{
    let d = t.drop_last();
    let r = related_parts(d, slot);
    let k = choose|k: int| 0 <= k < related_parts(t, slot).len() && related_parts(t, slot)[k] == y;
    assert(0 <= k < related_parts(t, slot).len() && related_parts(t, slot)[k] == y);
    if k < r.len() {
        if related_slot(t.last().0, slot) {
            assert(related_parts(t, slot)[k] == r[k]);
        }
        assert(r.contains(y));
        lemma_related_parts_from(d, slot, y);
        let (i, j) = choose|i: int, j: int|
            0 <= i < d.len() && 0 <= j < d[i].1.len() && #[trigger] d[i].1[j] == y && related_slot(d[i].0, slot);
        assert(t[i] == d[i]);
        assert(t[i].1[j] == y);
    } else {
        let i = t.len() - 1;
        assert(t[i].1[k - r.len()] == y);
    }
}

proof fn lemma_engines_of_filter(ps: Seq<PartView>)
    ensures
        engines_of(ps) == ps.filter(|p: PartView| p.is_engine),
    decreases ps.len(),
{
    reveal(Seq::filter);
    if ps.len() > 0 {
        lemma_engines_of_filter(ps.drop_last());
    }
}

/// The engine list of an index built from some parts holds exactly the
/// engine parts among them, ordered by name.
pub proof fn law_index_engines(ps: Seq<PartView>)
    ensures
        forall|k: int|
            0 <= k < sort_parts(engines_of(ps), false).len() ==> (#[trigger] sort_parts(engines_of(ps), false)[k]).is_engine
                && ps.contains(sort_parts(engines_of(ps), false)[k]),
        forall|i: int| 0 <= i < ps.len() && (#[trigger] ps[i]).is_engine ==> sort_parts(engines_of(ps), false).contains(ps[i]),
        forall|i: int, j: int|
            0 <= i < j < sort_parts(engines_of(ps), false).len() ==> !seq_lt(
                (#[trigger] sort_parts(engines_of(ps), false)[j]).name,
                (#[trigger] sort_parts(engines_of(ps), false)[i]).name,
            ),
{
    let e = engines_of(ps);
    let pred = |p: PartView| p.is_engine;
    lemma_engines_of_filter(ps);
    crate::text::lemma_filter_members(ps, pred);
    lemma_sort_parts_facts(e, false);
    let o = sort_parts(e, false);
    assert forall|k: int| 0 <= k < o.len() implies (#[trigger] o[k]).is_engine && ps.contains(o[k]) by {
        assert(e.contains(o[k]));
    }
    assert forall|i: int| 0 <= i < ps.len() && (#[trigger] ps[i]).is_engine implies o.contains(ps[i]) by {
        assert(ps.contains(ps[i]));
        assert(e.contains(ps[i]));
        lemma_sort_parts_has(e, false, ps[i]);
    }
    assert forall|i: int, j: int| 0 <= i < j < o.len() implies !seq_lt((#[trigger] o[j]).name, (#[trigger] o[i]).name) by {
        assert(!part_lt(o[j], o[i], false));
    }
}

proof fn lemma_slot_table(ps: Seq<PartView>)
    ensures
        forall|i: int, j: int|
            0 <= i < slot_table(ps).len() && 0 <= j < slot_table(ps)[i].1.len() ==> (#[trigger] slot_table(
                ps,
            )[i].1[j]).slot_type == slot_table(ps)[i].0 && ps.contains(slot_table(ps)[i].1[j]),
        forall|m: int|
            0 <= m < ps.len() ==> exists|i: int|
                0 <= i < slot_table(ps).len() && (#[trigger] slot_table(ps)[i]).0 == (#[trigger] ps[m]).slot_type
                    && slot_table(ps)[i].1.contains(ps[m]),
        forall|a: int, b: int|
            0 <= a < b < slot_table(ps).len() ==> (#[trigger] slot_table(ps)[a]).0 != (#[trigger] slot_table(ps)[b]).0,
    decreases ps.len(),
{
    if ps.len() > 0 {
        let d = ps.drop_last();
        lemma_slot_table(d);
        let g = slot_table(d);
        let p = ps.last();
        let k = key_pos(g, p.slot_type);
        lemma_key_pos(g, p.slot_type);
        let t = slot_table(ps);
        assert forall|x: PartView| d.contains(x) implies ps.contains(x) by {
            let m = choose|m: int| 0 <= m < d.len() && d[m] == x;
            assert(ps[m] == x);
        }
        assert(ps.contains(p)) by {
            assert(ps[ps.len() - 1] == p);
        }
        assert forall|i: int, j: int| 0 <= i < t.len() && 0 <= j < t[i].1.len() implies (#[trigger] t[i].1[j]).slot_type
            == t[i].0 && ps.contains(t[i].1[j]) by {
            if i < g.len() && i != k {
                assert(t[i] == g[i]);
                assert(d.contains(g[i].1[j]));
            } else if j < t[i].1.len() - 1 {
                assert(t[i].1[j] == g[i].1[j]);
                assert(d.contains(g[i].1[j]));
            }
        }
        assert forall|m: int| 0 <= m < ps.len() implies exists|i: int|
            0 <= i < t.len() && (#[trigger] t[i]).0 == (#[trigger] ps[m]).slot_type && t[i].1.contains(ps[m]) by {
            if m == ps.len() - 1 {
                assert(t[k].1[t[k].1.len() - 1] == p);
                assert(t[k].0 == p.slot_type);
            } else {
                assert(d[m] == ps[m]);
                let i = choose|i: int| 0 <= i < g.len() && (#[trigger] g[i]).0 == (#[trigger] d[m]).slot_type
                    && g[i].1.contains(d[m]);
                let j = choose|j: int| 0 <= j < g[i].1.len() && g[i].1[j] == d[m];
                assert(0 <= j < g[i].1.len() && g[i].1[j] == d[m]);
                if i == k && k < g.len() {
                    assert(t[i].1[j] == d[m]);
                } else {
                    assert(t[i] == g[i]);
                }
                assert(t[i].1.contains(ps[m]));
            }
        }
        assert forall|a: int, b: int| 0 <= a < b < t.len() implies (#[trigger] t[a]).0 != (#[trigger] t[b]).0 by {
            if b < g.len() {
                assert(t[a].0 == g[a].0 && t[b].0 == g[b].0);
            } else {
                assert(t[a].0 == g[a].0);
            }
        }
    }
}

/// The slot table of an index built from some parts lists every part under
/// its slot type, and only there: each slot type once, each of its parts of
/// that slot type and one of the parts given, each list ordered by name.
pub proof fn law_index_slot_table(ps: Seq<PartView>)
    ensures
        forall|i: int, j: int|
            0 <= i < sorted_slot_table(slot_table(ps)).len() && 0 <= j < sorted_slot_table(slot_table(ps))[i].1.len()
                ==> (#[trigger] sorted_slot_table(slot_table(ps))[i].1[j]).slot_type == sorted_slot_table(
                slot_table(ps),
            )[i].0 && ps.contains(sorted_slot_table(slot_table(ps))[i].1[j]),
        forall|m: int|
            0 <= m < ps.len() ==> exists|i: int|
                0 <= i < sorted_slot_table(slot_table(ps)).len() && (#[trigger] sorted_slot_table(slot_table(ps))[i]).0
                    == (#[trigger] ps[m]).slot_type && sorted_slot_table(slot_table(ps))[i].1.contains(ps[m]),
        forall|a: int, b: int|
            0 <= a < b < sorted_slot_table(slot_table(ps)).len() ==> (#[trigger] sorted_slot_table(slot_table(ps))[a]).0
                != (#[trigger] sorted_slot_table(slot_table(ps))[b]).0,
        forall|i: int, a: int, b: int|
            0 <= i < sorted_slot_table(slot_table(ps)).len() && 0 <= a < b < sorted_slot_table(slot_table(ps))[i].1.len()
                ==> !seq_lt(
                (#[trigger] sorted_slot_table(slot_table(ps))[i].1[b]).name,
                (#[trigger] sorted_slot_table(slot_table(ps))[i].1[a]).name,
            ),
{
    let g = slot_table(ps);
    let t = sorted_slot_table(g);
    lemma_slot_table(ps);
    assert forall|i: int| 0 <= i < t.len() implies #[trigger] t[i] == (g[i].0, sort_parts(g[i].1, false)) by {}
    assert forall|i: int, j: int| 0 <= i < t.len() && 0 <= j < t[i].1.len() implies (#[trigger] t[i].1[j]).slot_type
        == t[i].0 && ps.contains(t[i].1[j]) by {
        assert(t[i] == (g[i].0, sort_parts(g[i].1, false)));
        lemma_sort_parts_facts(g[i].1, false);
        assert(g[i].1.contains(t[i].1[j]));
        let k = choose|k: int| 0 <= k < g[i].1.len() && g[i].1[k] == t[i].1[j];
        assert(0 <= k < g[i].1.len() && g[i].1[k] == t[i].1[j]);
    }
    assert forall|m: int| 0 <= m < ps.len() implies exists|i: int|
        0 <= i < t.len() && (#[trigger] t[i]).0 == (#[trigger] ps[m]).slot_type && t[i].1.contains(ps[m]) by {
        let i = choose|i: int| 0 <= i < g.len() && (#[trigger] g[i]).0 == (#[trigger] ps[m]).slot_type
            && g[i].1.contains(ps[m]);
        assert(t[i] == (g[i].0, sort_parts(g[i].1, false)));
        lemma_sort_parts_has(g[i].1, false, ps[m]);
    }
    assert forall|a: int, b: int| 0 <= a < b < t.len() implies (#[trigger] t[a]).0 != (#[trigger] t[b]).0 by {
        assert(t[a].0 == g[a].0 && t[b].0 == g[b].0);
    }
    assert forall|i: int, a: int, b: int| 0 <= i < t.len() && 0 <= a < b < t[i].1.len() implies !seq_lt(
        (#[trigger] t[i].1[b]).name,
        (#[trigger] t[i].1[a]).name,
    ) by {
        assert(t[i] == (g[i].0, sort_parts(g[i].1, false)));
        lemma_sort_parts_facts(g[i].1, false);
        assert(!part_lt(t[i].1[b], t[i].1[a], false));
    }
}

proof fn lemma_dropdown_offers(
    t: Seq<(Seq<char>, Seq<PartView>)>,
    engines: Seq<PartView>,
    ids: Seq<(Seq<char>, PartView)>,
    slot: Seq<char>,
    current: Seq<char>,
    p: PartView,
)
    requires
        ({
            let extra = if engine_slot_name_spec(slot) {
                engines
            } else {
                Seq::empty()
            };
            (group_of(t, slot) + related_parts(t, slot) + extra + current_part(ids, slot, current)).contains(p)
        }),
    ensures
        ids_of(dropdown(t, engines, ids, slot, current)).contains(p.id),
{
    let extra = if engine_slot_name_spec(slot) {
        engines
    } else {
        Seq::empty()
    };
    let cands = group_of(t, slot) + related_parts(t, slot) + extra + current_part(ids, slot, current);
    lemma_first_by_id_keeps_ids(cands, p);
    let f = first_by_id(cands);
    let k = choose|k: int| 0 <= k < ids_of(f).len() && ids_of(f)[k] == p.id;
    assert(0 <= k < ids_of(f).len() && ids_of(f)[k] == p.id);
    assert(f.contains(f[k]));
    lemma_sort_parts_has(f, true, f[k]);
    let o = sort_parts(f, true);
    let m = choose|m: int| 0 <= m < o.len() && o[m] == f[k];
    assert(0 <= m < o.len() && o[m] == f[k]);
    assert(ids_of(o)[m] == p.id);
}

fn append_parts(out: &mut Vec<PartEntry>, v: &Vec<PartEntry>)
    ensures
        part_views(final(out)@) == part_views(old(out)@) + part_views(v@),
{
    let ghost base = part_views(out@);
    let mut i: usize = 0;
    while i < v.len()
        invariant
            i <= v@.len(),
            part_views(out@) == base + part_views(v@).take(i as int),
        decreases v@.len() - i,
    {
        let ghost prev = part_views(out@);
        out.push(v[i].copy());
        proof {
            assert(part_views(out@) =~= prev.push(v@[i as int]@));
            assert(part_views(v@).take(i + 1) =~= part_views(v@).take(i as int).push(v@[i as int]@));
        }
        i = i + 1;
    }
    assert(part_views(v@).take(v@.len() as int) =~= part_views(v@));
}

fn first_by_id_exec(v: &Vec<PartEntry>) -> (r: Vec<PartEntry>)
    ensures
        part_views(r@) == first_by_id(part_views(v@)),
{
    let ghost pv = part_views(v@);
    let mut seen = SeenIds::new();
    let mut out: Vec<PartEntry> = Vec::new();
    let mut i: usize = 0;
    while i < v.len()
        invariant
            i <= v@.len(),
            pv == part_views(v@),
            part_views(out@) == first_by_id(pv.take(i as int)),
            seen.set() == ids_of(part_views(out@)).to_set(),
        decreases v@.len() - i,
    {
        proof {
            assert(pv.take(i + 1).drop_last() =~= pv.take(i as int));
            assert(pv.take(i + 1).last() == v@[i as int]@);
        }
        let ghost o0 = part_views(out@);
        if seen.insert(v[i].id.clone()) {
            out.push(v[i].copy());
            proof {
                assert(part_views(out@) =~= o0.push(v@[i as int]@));
                assert(ids_of(part_views(out@)) =~= ids_of(o0).push(v@[i as int].id@));
                ids_of(o0).lemma_push_to_set_commute(v@[i as int].id@);
            }
        } else {
            proof {
                assert(ids_of(o0).to_set().insert(v@[i as int].id@) =~= ids_of(o0).to_set());
            }
        }
        i = i + 1;
    }
    assert(pv.take(v@.len() as int) =~= pv);
    out
}

impl PartsIndex {
    /// The options for a slot come one per id, ordered by name and then by
    /// id, and each is a part listed under the slot type itself or under a
    /// related one (another slot type whose lowercased name holds the
    /// lowercased slot name or is held in it, or one mentioning `engine`
    /// when the slot does too), an engine when the slot is an engine slot,
    /// or the current part: the part indexed under its id, or one with that
    /// id.
    pub proof fn law_dropdown_shape(self, slot: Seq<char>, current: Seq<char>)
        ensures
            ({
                let t = group_views(self.by_slot_type@);
                let o = dropdown(t, part_views(self.engines@), id_views(self.all_by_id@), slot, current);
                &&& forall|i: int, j: int| 0 <= i < j < o.len() ==> (#[trigger] o[i]).id != (#[trigger] o[j]).id
                &&& forall|i: int, j: int|
                    0 <= i < j < o.len() ==> !seq_lt((#[trigger] o[j]).name, (#[trigger] o[i]).name) && (o[j].name
                        == o[i].name ==> !seq_lt(o[j].id, o[i].id))
                &&& forall|k: int|
                    0 <= k < o.len() ==> {
                        ||| exists|i: int, j: int|
                            0 <= i < t.len() && 0 <= j < t[i].1.len() && #[trigger] t[i].1[j] == o[k] && (t[i].0
                                == slot || (contains(lower(t[i].0), lower(slot)) || contains(
                                lower(slot),
                                lower(t[i].0),
                            ) || (contains(lower(slot), "engine"@) && contains(lower(t[i].0), "engine"@))))
                        ||| engine_slot_name_spec(slot) && part_views(self.engines@).contains(o[k])
                        ||| current.len() > 0 && (o[k].id == current || id_views(self.all_by_id@).contains(
                            (current, o[k]),
                        ))
                    }
            }),
    {
        let t = group_views(self.by_slot_type@);
        let es = part_views(self.engines@);
        let ids = id_views(self.all_by_id@);
        let extra = if engine_slot_name_spec(slot) {
            es
        } else {
            Seq::empty()
        };
        let g = group_of(t, slot);
        let rp = related_parts(t, slot);
        let cp = current_part(ids, slot, current);
        let cands = g + rp + extra + cp;
        let f = first_by_id(cands);
        let o = sort_parts(f, true);
        assert(o == dropdown(t, es, ids, slot, current));
        lemma_first_by_id_facts(cands);
        lemma_sort_parts_facts(f, true);
        lemma_key_pos(t, slot);
        lemma_key_pos(ids, current);
        assert forall|i: int, j: int| 0 <= i < j < o.len() implies !seq_lt((#[trigger] o[j]).name, (#[trigger] o[i]).name)
            && (o[j].name == o[i].name ==> !seq_lt(o[j].id, o[i].id)) by {
            assert(!part_lt(o[j], o[i], true));
        }
        assert forall|k: int| 0 <= k < o.len() implies {
            ||| exists|i: int, j: int|
                0 <= i < t.len() && 0 <= j < t[i].1.len() && #[trigger] t[i].1[j] == o[k] && (t[i].0 == slot || (
                contains(lower(t[i].0), lower(slot)) || contains(lower(slot), lower(t[i].0)) || (contains(
                    lower(slot),
                    "engine"@,
                ) && contains(lower(t[i].0), "engine"@))))
            ||| engine_slot_name_spec(slot) && es.contains(o[k])
            ||| current.len() > 0 && (o[k].id == current || ids.contains((current, o[k])))
        } by {
            assert(f.contains(o[k]));
            let a = choose|a: int| 0 <= a < f.len() && f[a] == o[k];
            assert(0 <= a < f.len() && f[a] == o[k]);
            assert(cands.contains(f[a]));
            let c = choose|c: int| 0 <= c < cands.len() && cands[c] == o[k];
            assert(0 <= c < cands.len() && cands[c] == o[k]);
            if c < g.len() {
                let kp = key_pos(t, slot);
                assert(t[kp].1[c] == o[k]);
            } else if c < g.len() + rp.len() {
                assert(rp[c - g.len()] == o[k]);
                assert(rp.contains(o[k]));
                lemma_related_parts_from(t, slot, o[k]);
            } else if c < g.len() + rp.len() + extra.len() {
                assert(extra[c - g.len() - rp.len()] == o[k]);
                assert(es.contains(o[k]));
            } else {
                assert(cp[c - g.len() - rp.len() - extra.len()] == o[k]);
                let kc = key_pos(ids, current);
                if kc < ids.len() {
                    assert(ids[kc] == (current, o[k]));
                }
            }
        }
    }

    /// The options for a slot offer, by id, every part listed under a
    /// related slot type: another slot type whose lowercased name holds the
    /// lowercased slot name or is held in it, or another one mentioning
    /// `engine` (lowercased) when the slot does too; likewise every part of
    /// the slot type itself, and every engine when the slot is an engine
    /// slot.
    pub proof fn law_dropdown_offers_related(self, slot: Seq<char>, current: Seq<char>)
        ensures
            forall|i: int, j: int|
                0 <= i < self.by_slot_type@.len() && 0 <= j < self.by_slot_type@[i].1@.len() && ({
                    let key = self.by_slot_type@[i].0@;
                    key != slot && (contains(lower(key), lower(slot)) || contains(lower(slot), lower(key)) || (
                    contains(lower(slot), "engine"@) && contains(lower(key), "engine"@)))
                }) ==> ids_of(
                    dropdown(
                        group_views(self.by_slot_type@),
                        part_views(self.engines@),
                        id_views(self.all_by_id@),
                        slot,
                        current,
                    ),
                ).contains(#[trigger] self.by_slot_type@[i].1@[j].id@),
            forall|j: int|
                key_pos(group_views(self.by_slot_type@), slot) < self.by_slot_type@.len() && 0 <= j
                    < self.by_slot_type@[key_pos(group_views(self.by_slot_type@), slot)].1@.len() ==> ids_of(
                    dropdown(
                        group_views(self.by_slot_type@),
                        part_views(self.engines@),
                        id_views(self.all_by_id@),
                        slot,
                        current,
                    ),
                ).contains(
                    #[trigger] self.by_slot_type@[key_pos(group_views(self.by_slot_type@), slot)].1@[j].id@,
                ),
            engine_slot_name_spec(slot) ==> forall|j: int|
                0 <= j < self.engines@.len() ==> ids_of(
                    dropdown(
                        group_views(self.by_slot_type@),
                        part_views(self.engines@),
                        id_views(self.all_by_id@),
                        slot,
                        current,
                    ),
                ).contains(#[trigger] self.engines@[j].id@),
    {
        let t = group_views(self.by_slot_type@);
        let es = part_views(self.engines@);
        let ids = id_views(self.all_by_id@);
        let extra = if engine_slot_name_spec(slot) {
            es
        } else {
            Seq::empty()
        };
        let g = group_of(t, slot);
        let rp = related_parts(t, slot);
        let cp = current_part(ids, slot, current);
        let cands = g + rp + extra + cp;
        assert forall|i: int, j: int|
            0 <= i < self.by_slot_type@.len() && 0 <= j < self.by_slot_type@[i].1@.len() && ({
                let key = self.by_slot_type@[i].0@;
                key != slot && (contains(lower(key), lower(slot)) || contains(lower(slot), lower(key)) || (contains(
                    lower(slot),
                    "engine"@,
                ) && contains(lower(key), "engine"@)))
            }) implies ids_of(dropdown(t, es, ids, slot, current)).contains(
            #[trigger] self.by_slot_type@[i].1@[j].id@,
        ) by {
            assert(t[i] == (self.by_slot_type@[i].0@, part_views(self.by_slot_type@[i].1@)));
            assert(t[i].1[j] == self.by_slot_type@[i].1@[j]@);
            lemma_related_parts_has(t, slot, i, j);
            let k = choose|k: int| 0 <= k < rp.len() && rp[k] == t[i].1[j];
            assert(0 <= k < rp.len() && rp[k] == t[i].1[j]);
            assert(cands[g.len() + k] == t[i].1[j]);
            lemma_dropdown_offers(t, es, ids, slot, current, t[i].1[j]);
        }
        let kp = key_pos(t, slot);
        assert(t.len() == self.by_slot_type@.len());
        lemma_key_pos(t, slot);
        assert forall|j: int|
            kp < self.by_slot_type@.len() && 0 <= j < self.by_slot_type@[kp].1@.len() implies ids_of(
            dropdown(t, es, ids, slot, current),
        ).contains(#[trigger] self.by_slot_type@[kp].1@[j].id@) by {
            assert(t[kp] == (self.by_slot_type@[kp].0@, part_views(self.by_slot_type@[kp].1@)));
            assert(g[j] == self.by_slot_type@[kp].1@[j]@);
            assert(cands[j] == g[j]);
            lemma_dropdown_offers(t, es, ids, slot, current, g[j]);
        }
        if engine_slot_name_spec(slot) {
            assert forall|j: int| 0 <= j < self.engines@.len() implies ids_of(
                dropdown(t, es, ids, slot, current),
            ).contains(#[trigger] self.engines@[j].id@) by {
                assert(es[j] == self.engines@[j]@);
                assert(cands[g.len() + rp.len() + j] == es[j]);
                lemma_dropdown_offers(t, es, ids, slot, current, es[j]);
            }
        }
    }

    /// The options offered for `slot`, which now holds `current` (see [`dropdown`]).
    pub fn dropdown_options(&self, slot: &str, current: &str) -> (r: Vec<PartEntry>)
        ensures
            part_views(r@) == dropdown(
                group_views(self.by_slot_type@),
                part_views(self.engines@),
                id_views(self.all_by_id@),
                slot@,
                current@,
            ),
    {
        let ghost t = group_views(self.by_slot_type@);
        let mut cands: Vec<PartEntry> = Vec::new();
        // the slot's own parts
        proof {
            lemma_key_pos(t, slot@);
        }
        let mut k: usize = 0;
        while k < self.by_slot_type.len() && !str_eq(self.by_slot_type[k].0.as_str(), slot)
            invariant
                k <= self.by_slot_type@.len(),
                t == group_views(self.by_slot_type@),
                forall|j: int| 0 <= j < k ==> #[trigger] t[j].0 != slot@,
            decreases self.by_slot_type@.len() - k,
        {
            assert(t[k as int].0 == self.by_slot_type@[k as int].0@);
            k = k + 1;
        }
        proof {
            if k < self.by_slot_type@.len() {
                assert(t[k as int].0 == self.by_slot_type@[k as int].0@);
            }
            assert(k == key_pos(t, slot@)) by {
                if k < key_pos(t, slot@) {
                    assert(t[k as int].0 != slot@);
                } else if k > key_pos(t, slot@) {
                    assert(t[key_pos(t, slot@)].0 != slot@);
                }
            }
        }
        if k < self.by_slot_type.len() {
            append_parts(&mut cands, &self.by_slot_type[k].1);
            assert(part_views(cands@) =~= group_of(t, slot@));
        } else {
            assert(part_views(cands@) =~= group_of(t, slot@));
        }
        // related slot types
        let ghost own = part_views(cands@);
        let ls = to_lower(slot);
        let slot_engine = str_contains(ls.as_str(), "engine");
        let mut g: usize = 0;
        while g < self.by_slot_type.len()
            invariant
                g <= self.by_slot_type@.len(),
                t == group_views(self.by_slot_type@),
                ls@ == lower(slot@),
                slot_engine == contains(lower(slot@), "engine"@),
                part_views(cands@) == own + related_parts(t.take(g as int), slot@),
            decreases self.by_slot_type@.len() - g,
        {
            let key = &self.by_slot_type[g].0;
            proof {
                assert(t.take(g + 1).drop_last() =~= t.take(g as int));
                assert(t.take(g + 1).last() == t[g as int]);
                assert(t[g as int] == (key@, part_views(self.by_slot_type@[g as int].1@)));
            }
            let lk = to_lower(key.as_str());
            let rel = !str_eq(key.as_str(), slot) && (str_contains(lk.as_str(), ls.as_str()) || str_contains(
                ls.as_str(),
                lk.as_str(),
            ) || (slot_engine && str_contains(lk.as_str(), "engine")));
            if rel {
                let ghost c0 = part_views(cands@);
                append_parts(&mut cands, &self.by_slot_type[g].1);
                assert(part_views(cands@) =~= own + related_parts(t.take(g + 1), slot@));
            }
            g = g + 1;
        }
        assert(t.take(self.by_slot_type@.len() as int) =~= t);
        // engines for an engine slot
        let ghost before_engines = part_views(cands@);
        let engine_slot = is_engine_slot_name(slot);
        if engine_slot {
            append_parts(&mut cands, &self.engines);
        } else {
            assert(part_views(cands@) =~= before_engines + Seq::<PartView>::empty());
        }
        // the current part
        let ghost before_current = part_views(cands@);
        let ghost ids = id_views(self.all_by_id@);
        if !crate::text::is_empty_str(current) {
            proof {
                lemma_key_pos(ids, current@);
            }
            let mut c: usize = 0;
            while c < self.all_by_id.len() && !str_eq(self.all_by_id[c].0.as_str(), current)
                invariant
                    c <= self.all_by_id@.len(),
                    ids == id_views(self.all_by_id@),
                    forall|j: int| 0 <= j < c ==> #[trigger] ids[j].0 != current@,
                decreases self.all_by_id@.len() - c,
            {
                assert(ids[c as int].0 == self.all_by_id@[c as int].0@);
                c = c + 1;
            }
            proof {
                if c < self.all_by_id@.len() {
                    assert(ids[c as int].0 == self.all_by_id@[c as int].0@);
                }
                assert(c == key_pos(ids, current@)) by {
                    if c < key_pos(ids, current@) {
                        assert(ids[c as int].0 != current@);
                    } else if c > key_pos(ids, current@) {
                        assert(ids[key_pos(ids, current@)].0 != current@);
                    }
                }
            }
            if c < self.all_by_id.len() {
                cands.push(self.all_by_id[c].1.copy());
                assert(part_views(cands@) =~= before_current + current_part(ids, slot@, current@));
            } else {
                let stub = PartEntry {
                    id: current.to_owned(),
                    name: concat("Current: ", current),
                    slot_type: slot.to_owned(),
                    mod_name: "installed".to_owned(),
                    is_engine: engine_slot,
                    source_file: String::new(),
                };
                cands.push(stub);
                assert(part_views(cands@) =~= before_current + current_part(ids, slot@, current@));
            }
        } else {
            assert(part_views(cands@) =~= before_current + current_part(ids, slot@, current@));
        }
        let opts = first_by_id_exec(&cands);
        sort_parts_vec(opts, true)
    }
}

// ---------------------------------------------------------------------------
// Engine mods and engine lists
// ---------------------------------------------------------------------------

/// Engine mod order: engine-only mods first, then more engines first, then by name.
pub open spec fn mod_before(a: EngineModView, b: EngineModView) -> bool {
    (a.is_engine_only_mod && !b.is_engine_only_mod) || (a.is_engine_only_mod == b.is_engine_only_mod && (
    a.engine_count > b.engine_count || (a.engine_count == b.engine_count && seq_lt(a.mod_name, b.mod_name))))
}

/// `x` inserted before the first mod that it goes before.
pub open spec fn insert_mod(s: Seq<EngineModView>, x: EngineModView) -> Seq<EngineModView>
    decreases s.len(),
{
    if s.len() == 0 {
        seq![x]
    } else if mod_before(x, s[0]) {
        seq![x] + s
    } else {
        seq![s[0]] + insert_mod(s.drop_first(), x)
    }
}

/// Engine mods in order (stable).
pub open spec fn sort_mods(s: Seq<EngineModView>) -> Seq<EngineModView>
    decreases s.len(),
{
    if s.len() == 0 {
        s
    } else {
        insert_mod(sort_mods(s.drop_last()), s.last())
    }
}

proof fn lemma_insert_mod_at(s: Seq<EngineModView>, x: EngineModView, j: int)
    requires
        0 <= j <= s.len(),
        forall|k: int| 0 <= k < j ==> !mod_before(x, #[trigger] s[k]),
        j < s.len() ==> mod_before(x, s[j]),
    ensures
        insert_mod(s, x) == s.insert(j, x),
    decreases j,
{
    if j > 0 {
        let t = s.drop_first();
        assert forall|k: int| 0 <= k < j - 1 implies !mod_before(x, #[trigger] t[k]) by {
            assert(t[k] == s[k + 1]);
        }
        if j < s.len() {
            assert(t[j - 1] == s[j]);
        }
        lemma_insert_mod_at(t, x, j - 1);
        assert(insert_mod(s, x) =~= s.insert(j, x));
    } else {
        assert(insert_mod(s, x) =~= s.insert(0, x));
    }
}

/// The views of borrowed engine mods.
pub open spec fn mod_ref_views(v: Seq<&EngineModInfo>) -> Seq<EngineModView> {
    v.map_values(|m: &EngineModInfo| m@)
}

fn mod_before_exec(a: &EngineModInfo, b: &EngineModInfo) -> (r: bool)
    ensures
        r == mod_before(a@, b@),
{
    (a.is_engine_only_mod && !b.is_engine_only_mod) || (a.is_engine_only_mod == b.is_engine_only_mod && (
    a.engine_count > b.engine_count || (a.engine_count == b.engine_count && str_lt(
        a.mod_name.as_str(),
        b.mod_name.as_str(),
    ))))
}

/// The engine mods of an index in display order (see [`mod_before`]).
pub fn engine_mods_sorted(index: &PartsIndex) -> (r: Vec<&EngineModInfo>)
    ensures
        mod_ref_views(r@) == sort_mods(mod_views(index.engine_mods@)),
{
    let ghost orig = mod_views(index.engine_mods@);
    let mut out: Vec<&EngineModInfo> = Vec::new();
    let mut i: usize = 0;
    while i < index.engine_mods.len()
        invariant
            i <= index.engine_mods@.len(),
            orig == mod_views(index.engine_mods@),
            mod_ref_views(out@) == sort_mods(orig.take(i as int)),
        decreases index.engine_mods@.len() - i,
    {
        let x = &index.engine_mods[i];
        proof {
            assert(orig.take(i + 1).drop_last() =~= orig.take(i as int));
            assert(orig.take(i + 1).last() == x@);
        }
        let mut j: usize = 0;
        while j < out.len() && !mod_before_exec(x, out[j])
            invariant
                j <= out@.len(),
                forall|k: int| 0 <= k < j ==> !mod_before(x@, #[trigger] out@[k]@),
            decreases out@.len() - j,
        {
            j = j + 1;
        }
        let ghost before = mod_ref_views(out@);
        proof {
            assert forall|k: int| 0 <= k < j implies !mod_before(x@, #[trigger] before[k]) by {
                assert(before[k] == out@[k]@);
            }
            if j < out@.len() {
                assert(before[j as int] == out@[j as int]@);
            }
            lemma_insert_mod_at(before, x@, j as int);
        }
        out.insert(j, x);
        assert(mod_ref_views(out@) =~= before.insert(j as int, x@));
        i = i + 1;
    }
    assert(orig.take(index.engine_mods@.len() as int) =~= orig);
    out
}

/// Whether an engine belongs to a mod entry and matches a query `q`
/// (already trimmed and lowercased): its mod is that mod (ASCII case
/// ignored) or its file's path mentions the mod's name, and `q` is empty or
/// in its lowercased id or name.
pub open spec fn part_of_mod(p: PartView, mod_name: Seq<char>, q: Seq<char>) -> bool {
    (eq_ci(p.mod_name, mod_name) || contains(lower(p.source_file), lower(mod_name))) && (q.len() == 0 || contains(
        lower(p.id),
        q,
    ) || contains(lower(p.name), q))
}

/// The engines of a mod entry matching a query, in order.
pub open spec fn parts_of_mod(es: Seq<PartView>, mod_name: Seq<char>, q: Seq<char>) -> Seq<PartView>
    decreases es.len(),
{
    if es.len() == 0 {
        Seq::empty()
    } else if part_of_mod(es.last(), mod_name, q) {
        parts_of_mod(es.drop_last(), mod_name, q).push(es.last())
    } else {
        parts_of_mod(es.drop_last(), mod_name, q)
    }
}

proof fn lemma_parts_of_mod_filter(es: Seq<PartView>, mod_name: Seq<char>, q: Seq<char>)
    ensures
        parts_of_mod(es, mod_name, q) == es.filter(|p: PartView| part_of_mod(p, mod_name, q)),
    decreases es.len(),
{
    reveal(Seq::filter);
    if es.len() > 0 {
        lemma_parts_of_mod_filter(es.drop_last(), mod_name, q);
    }
}

/// The engines shown for a mod are exactly the engines that belong to it
/// (its name equals their mod name, ASCII case ignored, or occurs in their
/// lowercased source file) and, for a non-empty query (trimmed,
/// lowercased), hold the query in their lowercased id or name; they keep
/// the order of the index.
pub proof fn law_mod_engines(es: Seq<PartView>, mod_name: Seq<char>, query: Seq<char>)
    ensures
        forall|p: PartView|
            #[trigger] parts_of_mod(es, mod_name, lower(trim(query))).contains(p) <==> es.contains(p) && (eq_ci(
                p.mod_name,
                mod_name,
            ) || contains(lower(p.source_file), lower(mod_name))) && (lower(trim(query)).len() == 0 || contains(
                lower(p.id),
                lower(trim(query)),
            ) || contains(lower(p.name), lower(trim(query)))),
        parts_of_mod(es, mod_name, lower(trim(query))) == es.filter(
            |p: PartView|
                (eq_ci(p.mod_name, mod_name) || contains(lower(p.source_file), lower(mod_name))) && (lower(
                    trim(query),
                ).len() == 0 || contains(lower(p.id), lower(trim(query))) || contains(lower(p.name), lower(trim(query)))),
        ),
{
    let q = lower(trim(query));
    lemma_parts_of_mod_filter(es, mod_name, q);
    let pred = |p: PartView| part_of_mod(p, mod_name, q);
    crate::text::lemma_filter_members(es, pred);
    let direct = |p: PartView|
        (eq_ci(p.mod_name, mod_name) || contains(lower(p.source_file), lower(mod_name))) && (q.len() == 0 || contains(
            lower(p.id),
            q,
        ) || contains(lower(p.name), q));
    assert(pred =~= direct);
}

/// The engines of a mod entry matching a query (trimmed, ASCII case ignored).
pub fn filter_parts_for_mod_entry<'a>(index: &'a PartsIndex, mod_name: &str, query: &str) -> (r: Vec<
    &'a PartEntry,
>)
    ensures
        part_ref_views(r@) == parts_of_mod(part_views(index.engines@), mod_name@, lower(trim(query@))),
{
    let t = trim_str(query);
    let q = to_lower(t.as_str());
    let name_lower = to_lower(mod_name);
    let ghost es = part_views(index.engines@);
    let mut out: Vec<&PartEntry> = Vec::new();
    let mut i: usize = 0;
    while i < index.engines.len()
        invariant
            i <= index.engines@.len(),
            es == part_views(index.engines@),
            q@ == lower(trim(query@)),
            name_lower@ == lower(mod_name@),
            part_ref_views(out@) == parts_of_mod(es.take(i as int), mod_name@, q@),
        decreases index.engines@.len() - i,
    {
        let e = &index.engines[i];
        proof {
            assert(es.take(i + 1).drop_last() =~= es.take(i as int));
            assert(es.take(i + 1).last() == e@);
        }
        let ls = to_lower(e.source_file.as_str());
        let in_mod = eq_ignore_case(e.mod_name.as_str(), mod_name) || str_contains(ls.as_str(), name_lower.as_str());
        let keep = in_mod && (crate::text::is_empty_str(q.as_str()) || {
            let lid = to_lower(e.id.as_str());
            str_contains(lid.as_str(), q.as_str())
        } || {
            let ln = to_lower(e.name.as_str());
            str_contains(ln.as_str(), q.as_str())
        });
        if keep {
            let ghost prev = part_ref_views(out@);
            out.push(e);
            assert(part_ref_views(out@) =~= prev.push(e@));
        }
        i = i + 1;
    }
    assert(es.take(index.engines@.len() as int) =~= es);
    out
}

// ---------------------------------------------------------------------------
// Scanning
// ---------------------------------------------------------------------------

/// What a parts scan covers: folders walked for `.jbeam` files (each with
/// the mod label of its files), and the stock packs folder.
#[derive(Debug)]
pub struct PartsScanPlan {
    pub roots: Vec<(String, String)>,
    pub stock_dir: Option<String>,
}

/// The label of the parts found directly under a scanned folder: its name,
/// `mod` when it has none.
pub open spec fn root_label(root: Seq<char>) -> Seq<char> {
    or_default(file_name(root), "mod"@)
}

/// Scans parts.
pub struct PartsScanner;

impl PartsScanner {
    /// What a parts scan covers: the mods folder and the game's loose
    /// vehicles (each when it exists), and the stock packs; refused when
    /// there is none of them.
    pub fn scan(settings: &AppSettings, fs: &DirProbe) -> (r: Result<PartsScanPlan, AppError>)
        ensures
            ({
                let m = settings.spec_mods_dir(*fs);
                let g = settings.spec_game_loose_vehicles_dir(*fs);
                let st = settings.spec_game_vehicles_dir(*fs);
                if m is None && g is None && st is None {
                    r matches Err(e) && e.message@ == "Set BeamNG user folder or BeamNG.exe in Settings"@
                } else {
                    r matches Ok(p) && p.roots@.map_values(|x: (String, String)| (x.0@, x.1@)) == (match m {
                        Some(d) => seq![(d, root_label(d))],
                        None => Seq::empty(),
                    }) + (match g {
                        Some(d) => seq![(d, root_label(d))],
                        None => Seq::empty(),
                    }) && crate::settings::opt_view(p.stock_dir) == st
                }
            }),
    {
        let mut roots: Vec<(String, String)> = Vec::new();
        match settings.mods_dir(fs) {
            Some(d) => {
                let label = match crate::paths::file_name_of(d.as_str()) {
                    Some(n) => n,
                    None => "mod".to_owned(),
                };
                roots.push((d, label));
            },
            None => {},
        }
        let ghost r1 = roots@.map_values(|x: (String, String)| (x.0@, x.1@));
        match settings.game_loose_vehicles_dir(fs) {
            Some(d) => {
                let label = match crate::paths::file_name_of(d.as_str()) {
                    Some(n) => n,
                    None => "mod".to_owned(),
                };
                roots.push((d, label));
            },
            None => {},
        }
        let stock_dir = settings.game_vehicles_dir(fs);
        if roots.len() == 0 && stock_dir.is_none() {
            return Err(AppError::msg("Set BeamNG user folder or BeamNG.exe in Settings".to_owned()));
        }
        let ghost m = settings.spec_mods_dir(*fs);
        let ghost g = settings.spec_game_loose_vehicles_dir(*fs);
        assert(roots@.map_values(|x: (String, String)| (x.0@, x.1@)) =~= (match m {
            Some(d) => seq![(d, root_label(d))],
            None => Seq::empty(),
        }) + (match g {
            Some(d) => seq![(d, root_label(d))],
            None => Seq::empty(),
        }));
        Ok(PartsScanPlan { roots, stock_dir })
    }
}

} // verus!
