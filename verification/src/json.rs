//! A JSON document model: what the editor reads and writes of `.pc`,
//! `.jbeam` and side-car JSON files.
//!
//! Numbers are kept in their textual form; object entries keep the order in
//! which the document lists them.
use vstd::prelude::*;

use crate::text::{str_eq, views};

verus! {

/// A JSON value.
#[derive(Debug)]
pub enum JsonValue {
    Null,
    Bool(bool),
    Number(String),
    Str(String),
    Array(Vec<JsonValue>),
    Object(Vec<(String, JsonValue)>),
}

/// The mathematical form of a JSON value.
pub enum JsonModel {
    Null,
    Bool(bool),
    Number(Seq<char>),
    Str(Seq<char>),
    Array(Seq<JsonModel>),
    Object(Seq<(Seq<char>, JsonModel)>),
}

/// The value stored under `key` in a list of object entries (the first one).
pub open spec fn entries_get(es: Seq<(Seq<char>, JsonModel)>, key: Seq<char>) -> Option<JsonModel>
    decreases es.len(),
{
    if es.len() == 0 {
        None
    } else if es[0].0 == key {
        Some(es[0].1)
    } else {
        entries_get(es.drop_first(), key)
    }
}

/// The value of `key` when `m` is an object.
pub open spec fn model_get(m: JsonModel, key: Seq<char>) -> Option<JsonModel> {
    match m {
        JsonModel::Object(es) => entries_get(es, key),
        _ => None,
    }
}

/// The string when `m` is a string.
pub open spec fn model_str(m: JsonModel) -> Option<Seq<char>> {
    match m {
        JsonModel::Str(s) => Some(s),
        _ => None,
    }
}

/// The string found under `key` of an object.
pub open spec fn model_get_str(m: JsonModel, key: Seq<char>) -> Option<Seq<char>> {
    match model_get(m, key) {
        Some(v) => model_str(v),
        None => None,
    }
}

/// Entries with `key` set to `v`: replaced in place when present, appended otherwise.
pub open spec fn entries_set(es: Seq<(Seq<char>, JsonModel)>, key: Seq<char>, v: JsonModel) -> Seq<
    (Seq<char>, JsonModel),
>
    decreases es.len(),
{
    if es.len() == 0 {
        seq![(key, v)]
    } else if es[0].0 == key {
        es.update(0, (key, v))
    } else {
        seq![es[0]] + entries_set(es.drop_first(), key, v)
    }
}

/// The strings of an array, skipping elements that are not strings.
pub open spec fn array_strings(items: Seq<JsonModel>) -> Seq<Seq<char>>
    decreases items.len(),
{
    if items.len() == 0 {
        Seq::empty()
    } else {
        let rest = array_strings(items.drop_last());
        match items.last() {
            JsonModel::Str(s) => rest.push(s),
            _ => rest,
        }
    }
}

/// The models of object entries.
pub open spec fn entry_models(es: Seq<(String, JsonValue)>) -> Seq<(Seq<char>, JsonModel)> {
    Seq::new(es.len(), |i: int| (es[i].0@, es[i].1.model()))
}

/// The models of array items.
pub open spec fn item_models(v: Seq<JsonValue>) -> Seq<JsonModel> {
    Seq::new(v.len(), |i: int| v[i].model())
}

/// The model of an object is the list of its entries' models.
pub proof fn lemma_model_object(x: JsonValue)
    requires
        x is Object,
    ensures
        x.model() == JsonModel::Object(entry_models(x->Object_0@)),
{
    if let JsonValue::Object(es) = x {
        if let JsonModel::Object(a) = x.model() {
            assert(a =~= entry_models(es@));
        }
    }
}

/// The model of an array is the list of its items' models.
pub proof fn lemma_model_array(x: JsonValue)
    requires
        x is Array,
    ensures
        x.model() == JsonModel::Array(item_models(x->Array_0@)),
{
    if let JsonValue::Array(v) = x {
        if let JsonModel::Array(a) = x.model() {
            assert(a =~= item_models(v@));
        }
    }
}

impl JsonValue {
    /// The model of this value.
    pub open spec fn model(self) -> JsonModel
        decreases self,
    {
        match self {
            JsonValue::Null => JsonModel::Null,
            JsonValue::Bool(b) => JsonModel::Bool(b),
            JsonValue::Number(n) => JsonModel::Number(n@),
            JsonValue::Str(s) => JsonModel::Str(s@),
            JsonValue::Array(v) => JsonModel::Array(
                Seq::new(
                    v@.len(),
                    |i: int|
                        if 0 <= i < v@.len() {
                            v@[i].model()
                        } else {
                            JsonModel::Null
                        },
                ),
            ),
            JsonValue::Object(es) => JsonModel::Object(
                Seq::new(
                    es@.len(),
                    |i: int|
                        if 0 <= i < es@.len() {
                            (es@[i].0@, es@[i].1.model())
                        } else {
                            (Seq::empty(), JsonModel::Null)
                        },
                ),
            ),
        }
    }

    /// A copy of this value.
    pub fn deep_clone(&self) -> (r: JsonValue)
        ensures
            r.model() == self.model(),
        decreases self,
    {
        match self {
            JsonValue::Null => JsonValue::Null,
            JsonValue::Bool(b) => JsonValue::Bool(*b),
            JsonValue::Number(n) => JsonValue::Number(n.clone()),
            JsonValue::Str(s) => JsonValue::Str(s.clone()),
            JsonValue::Array(v) => {
                assert(decreases_to!(*self => *v));
                assert forall|k: int| 0 <= k < v@.len() implies decreases_to!(
                    *self => #[trigger] v@[k]
                ) by {
                    assert(decreases_to!(*v => v@[k]));
                }
                let mut out: Vec<JsonValue> = Vec::new();
                let mut i: usize = 0;
                while i < v.len()
                    invariant
                        i <= v@.len(),
                        out@.len() == i,
                        forall|k: int| 0 <= k < v@.len() ==> decreases_to!(*self => #[trigger] v@[k]),
                        forall|k: int| 0 <= k < i ==> #[trigger] out@[k].model() == v@[k].model(),
                    decreases v@.len() - i,
                {
                    let c = v[i].deep_clone();
                    out.push(c);
                    i = i + 1;
                }
                let r = JsonValue::Array(out);
                proof {
                    lemma_model_array(r);
                    lemma_model_array(*self);
                    assert(item_models(out@) =~= item_models(v@));
                }
                r
            },
            JsonValue::Object(es) => {
                assert(decreases_to!(*self => *es));
                assert forall|k: int| 0 <= k < es@.len() implies decreases_to!(
                    *self => #[trigger] es@[k].1
                ) by {
                    assert(decreases_to!(*es => es@[k]));
                    assert(decreases_to!(es@[k] => es@[k].1));
                }
                let mut out: Vec<(String, JsonValue)> = Vec::new();
                let mut i: usize = 0;
                while i < es.len()
                    invariant
                        i <= es@.len(),
                        out@.len() == i,
                        forall|k: int| 0 <= k < es@.len() ==> decreases_to!(*self => #[trigger] es@[k].1),
                        forall|k: int|
                            0 <= k < i ==> #[trigger] out@[k].1.model() == es@[k].1.model()
                                && out@[k].0@ == es@[k].0@,
                    decreases es@.len() - i,
                {
                    let c = es[i].1.deep_clone();
                    let k = es[i].0.clone();
                    out.push((k, c));
                    i = i + 1;
                }
                let r = JsonValue::Object(out);
                proof {
                    lemma_model_object(r);
                    lemma_model_object(*self);
                    assert(entry_models(out@) =~= entry_models(es@));
                }
                r
            },
        }
    }

    /// Whether two documents are equal (same models).
    pub fn same_as(&self, other: &JsonValue) -> (r: bool)
        ensures
            r == (self.model() == other.model()),
        decreases self,
    {
        match (self, other) {
            (JsonValue::Null, JsonValue::Null) => true,
            (JsonValue::Bool(a), JsonValue::Bool(b)) => *a == *b,
            (JsonValue::Number(a), JsonValue::Number(b)) => str_eq(a.as_str(), b.as_str()),
            (JsonValue::Str(a), JsonValue::Str(b)) => str_eq(a.as_str(), b.as_str()),
            (JsonValue::Array(v), JsonValue::Array(w)) => {
                proof {
                    lemma_model_array(*self);
                    lemma_model_array(*other);
                }
                if v.len() != w.len() {
                    assert(item_models(v@).len() != item_models(w@).len());
                    return false;
                }
                assert(decreases_to!(*self => *v));
                assert forall|k: int| 0 <= k < v@.len() implies decreases_to!(
                    *self => #[trigger] v@[k]
                ) by {
                    assert(decreases_to!(*v => v@[k]));
                }
                let mut i: usize = 0;
                while i < v.len()
                    invariant
                        i <= v@.len(),
                        v@.len() == w@.len(),
                        self.model() == JsonModel::Array(item_models(v@)),
                        other.model() == JsonModel::Array(item_models(w@)),
                        forall|k: int| 0 <= k < v@.len() ==> decreases_to!(*self => #[trigger] v@[k]),
                        forall|k: int| 0 <= k < i ==> #[trigger] v@[k].model() == w@[k].model(),
                    decreases v@.len() - i,
                {
                    if !v[i].same_as(&w[i]) {
                        assert(item_models(v@)[i as int] != item_models(w@)[i as int]);
                        return false;
                    }
                    i = i + 1;
                }
                assert(item_models(v@) =~= item_models(w@));
                true
            },
            (JsonValue::Object(es), JsonValue::Object(fs)) => {
                proof {
                    lemma_model_object(*self);
                    lemma_model_object(*other);
                }
                if es.len() != fs.len() {
                    assert(entry_models(es@).len() != entry_models(fs@).len());
                    return false;
                }
                assert(decreases_to!(*self => *es));
                assert forall|k: int| 0 <= k < es@.len() implies decreases_to!(
                    *self => #[trigger] es@[k].1
                ) by {
                    assert(decreases_to!(*es => es@[k]));
                    assert(decreases_to!(es@[k] => es@[k].1));
                }
                let mut i: usize = 0;
                while i < es.len()
                    invariant
                        i <= es@.len(),
                        es@.len() == fs@.len(),
                        self.model() == JsonModel::Object(entry_models(es@)),
                        other.model() == JsonModel::Object(entry_models(fs@)),
                        forall|k: int| 0 <= k < es@.len() ==> decreases_to!(*self => #[trigger] es@[k].1),
                        forall|k: int|
                            0 <= k < i ==> #[trigger] es@[k].1.model() == fs@[k].1.model() && es@[k].0@
                                == fs@[k].0@,
                    decreases es@.len() - i,
                {
                    if !str_eq(es[i].0.as_str(), fs[i].0.as_str()) {
                        assert(entry_models(es@)[i as int] != entry_models(fs@)[i as int]);
                        return false;
                    }
                    if !es[i].1.same_as(&fs[i].1) {
                        assert(entry_models(es@)[i as int] != entry_models(fs@)[i as int]);
                        return false;
                    }
                    i = i + 1;
                }
                assert(entry_models(es@) =~= entry_models(fs@));
                true
            },
            _ => false,
        }
    }

    /// Whether this value is an object.
    pub fn is_object(&self) -> (r: bool)
        ensures
            r == (self.model() is Object),
    {
        match self {
            JsonValue::Object(_) => true,
            _ => false,
        }
    }

    /// The string held by this value, if it is a string.
    pub fn as_str(&self) -> (r: Option<&String>)
        ensures
            match r {
                Some(s) => model_str(self.model()) == Some(s@),
                None => model_str(self.model()) is None,
            },
    {
        match self {
            JsonValue::Str(s) => Some(s),
            _ => None,
        }
    }

    /// The value stored under `key`, when this value is an object.
    pub fn get(&self, key: &str) -> (r: Option<&JsonValue>)
        ensures
            match r {
                Some(v) => model_get(self.model(), key@) == Some(v.model()),
                None => model_get(self.model(), key@) is None,
            },
    {
        match self {
            JsonValue::Object(es) => {
                let ghost ms = entry_models(es@);
                proof {
                    lemma_model_object(*self);
                }
                assert(ms.skip(0) =~= ms);
                let mut i: usize = 0;
                while i < es.len()
                    invariant
                        i <= es@.len(),
                        ms == entry_models(es@),
                        self.model() == JsonModel::Object(ms),
                        ms.len() == es@.len(),
                        forall|k: int|
                            0 <= k < es@.len() ==> #[trigger] ms[k] == (es@[k].0@, es@[k].1.model()),
                        entries_get(ms, key@) == entries_get(ms.skip(i as int), key@),
                    decreases es@.len() - i,
                {
                    if str_eq(es[i].0.as_str(), key) {
                        assert(ms.skip(i as int)[0] == ms[i as int]);
                        assert(ms[i as int] == (es@[i as int].0@, es@[i as int].1.model()));
                        assert(entries_get(ms.skip(i as int), key@) == Some(es@[i as int].1.model()));
                        return Some(&es[i].1);
                    }
                    assert(ms.skip(i as int).drop_first() =~= ms.skip(i + 1));
                    i = i + 1;
                }
                None
            },
            _ => None,
        }
    }

    /// The string stored under `key`, when this value is an object.
    pub fn get_str(&self, key: &str) -> (r: Option<&String>)
        ensures
            match r {
                Some(s) => model_get_str(self.model(), key@) == Some(s@),
                None => model_get_str(self.model(), key@) is None,
            },
    {
        match self.get(key) {
            Some(v) => v.as_str(),
            None => None,
        }
    }

    /// The strings of the array stored under `key` (non-string items are skipped);
    /// empty when there is no such array.
    pub fn get_string_array(&self, key: &str) -> (r: Vec<String>)
        ensures
            views(r@) == match model_get(self.model(), key@) {
                Some(JsonModel::Array(items)) => array_strings(items),
                _ => Seq::empty(),
            },
    {
        let mut out: Vec<String> = Vec::new();
        match self.get(key) {
            Some(JsonValue::Array(items)) => {
                let ghost ms = match model_get(self.model(), key@) {
                    Some(JsonModel::Array(ms)) => ms,
                    _ => Seq::empty(),
                };
                let mut i: usize = 0;
                while i < items.len()
                    invariant
                        i <= items@.len(),
                        ms.len() == items@.len(),
                        forall|k: int| 0 <= k < items@.len() ==> #[trigger] ms[k] == items@[k].model(),
                        views(out@) == array_strings(ms.take(i as int)),
                    decreases items@.len() - i,
                {
                    assert(ms.take(i + 1).drop_last() =~= ms.take(i as int));
                    match &items[i] {
                        JsonValue::Str(s) => {
                            out.push(s.clone());
                            assert(views(out@) =~= array_strings(ms.take(i + 1)));
                        },
                        _ => {
                            assert(views(out@) =~= array_strings(ms.take(i + 1)));
                        },
                    }
                    i = i + 1;
                }
                assert(ms.take(items@.len() as int) =~= ms);
                out
            },
            _ => {
                assert(views(out@) =~= Seq::<Seq<char>>::empty());
                out
            },
        }
    }
}

/// Sets `key` to `value` in a list of object entries.
pub fn entries_set_exec(es: &mut Vec<(String, JsonValue)>, key: String, value: JsonValue)
    ensures
        Seq::new(final(es)@.len(), |i: int| (final(es)@[i].0@, final(es)@[i].1.model()))
            == entries_set(
            Seq::new(old(es)@.len(), |i: int| (old(es)@[i].0@, old(es)@[i].1.model())),
            key@,
            value.model(),
        ),
{
    let ghost m0 = Seq::new(es@.len(), |i: int| (es@[i].0@, es@[i].1.model()));
    let mut i: usize = 0;
    while i < es.len() && !str_eq(es[i].0.as_str(), key.as_str())
        invariant
            i <= es@.len(),
            es@ == old(es)@,
            m0 == Seq::new(es@.len(), |k: int| (es@[k].0@, es@[k].1.model())),
            forall|k: int| 0 <= k < i ==> #[trigger] m0[k].0 != key@,
        decreases es@.len() - i,
    {
        i = i + 1;
    }
    proof {
        lemma_entries_set_at(m0, key@, value.model(), i as int);
    }
    if i < es.len() {
        let ghost kv = key@;
        let ghost vm = value.model();
        es.set(i, (key, value));
        assert(Seq::new(es@.len(), |k: int| (es@[k].0@, es@[k].1.model())) =~= m0.update(
            i as int,
            (kv, vm),
        ));
    } else {
        let ghost kv = key@;
        let ghost vm = value.model();
        es.push((key, value));
        assert(Seq::new(es@.len(), |k: int| (es@[k].0@, es@[k].1.model())) =~= m0.push((kv, vm)));
    }
}

/// Where `entries_set` puts the value: at the first entry with the key, or at the end.
pub proof fn lemma_entries_set_at(es: Seq<(Seq<char>, JsonModel)>, key: Seq<char>, v: JsonModel, i: int)
    requires
        0 <= i <= es.len(),
        forall|k: int| 0 <= k < i ==> #[trigger] es[k].0 != key,
        i < es.len() ==> es[i].0 == key,
    ensures
        i < es.len() ==> entries_set(es, key, v) == es.update(i, (key, v)),
        i == es.len() ==> entries_set(es, key, v) == es.push((key, v)),
    decreases i,
{
    if i > 0 {
        let t = es.drop_first();
        assert forall|k: int| 0 <= k < i - 1 implies #[trigger] t[k].0 != key by {
            assert(t[k] == es[k + 1]);
        }
        lemma_entries_set_at(t, key, v, i - 1);
        if i < es.len() {
            assert(entries_set(es, key, v) =~= es.update(i, (key, v)));
        } else {
            assert(entries_set(es, key, v) =~= es.push((key, v)));
        }
    } else if es.len() > 0 {
        assert(entries_set(es, key, v) =~= es.update(0, (key, v)));
    } else {
        assert(entries_set(es, key, v) =~= es.push((key, v)));
    }
}

/// `entries_get` finds the first entry with the key.
pub proof fn lemma_entries_get_at(es: Seq<(Seq<char>, JsonModel)>, key: Seq<char>, i: int)
    requires
        0 <= i <= es.len(),
        forall|k: int| 0 <= k < i ==> #[trigger] es[k].0 != key,
        i < es.len() ==> es[i].0 == key,
    ensures
        i < es.len() ==> entries_get(es, key) == Some(es[i].1),
        i == es.len() ==> entries_get(es, key) is None,
    decreases i,
{
    if i > 0 {
        let t = es.drop_first();
        assert forall|k: int| 0 <= k < i - 1 implies #[trigger] t[k].0 != key by {
            assert(t[k] == es[k + 1]);
        }
        lemma_entries_get_at(t, key, i - 1);
    }
}

/// `entries_get` after `entries_set` of the same key yields the value set.
pub proof fn lemma_entries_get_set(es: Seq<(Seq<char>, JsonModel)>, key: Seq<char>, v: JsonModel, k2: Seq<char>)
    ensures
        entries_get(entries_set(es, key, v), k2) == if k2 == key {
            Some(v)
        } else {
            entries_get(es, k2)
        },
    decreases es.len(),
{
    if es.len() > 0 && es[0].0 != key {
        lemma_entries_get_set(es.drop_first(), key, v, k2);
        let t = seq![es[0]] + entries_set(es.drop_first(), key, v);
        assert(t.drop_first() =~= entries_set(es.drop_first(), key, v));
        assert(t[0] == es[0]);
        assert(entries_set(es, key, v) == t);
        if es[0].0 == k2 {
            assert(entries_get(t, k2) == Some(es[0].1));
            assert(entries_get(es, k2) == Some(es[0].1));
        } else {
            assert(entries_get(t, k2) == entries_get(t.drop_first(), k2));
            assert(entries_get(es, k2) == entries_get(es.drop_first(), k2));
        }
    } else if es.len() > 0 {
        let t = es.update(0, (key, v));
        assert(t.drop_first() =~= es.drop_first());
        assert(t[0] == (key, v));
        assert(entries_set(es, key, v) == t);
        if k2 != key {
            assert(entries_get(t, k2) == entries_get(t.drop_first(), k2));
            assert(entries_get(es, k2) == entries_get(es.drop_first(), k2));
        }
    } else {
        let t = seq![(key, v)];
        assert(t.drop_first() =~= Seq::<(Seq<char>, JsonModel)>::empty());
        assert(entries_set(es, key, v) == t);
        assert(t[0] == (key, v));
        if k2 != key {
            assert(entries_get(t, k2) == entries_get(t.drop_first(), k2));
        }
    }
}

/// Setting a key twice keeps the second value only.
pub proof fn lemma_entries_set_twice(es: Seq<(Seq<char>, JsonModel)>, key: Seq<char>, v1: JsonModel, v2: JsonModel)
    ensures
        entries_set(entries_set(es, key, v1), key, v2) == entries_set(es, key, v2),
    decreases es.len(),
{
    if es.len() == 0 {
        assert(entries_set(seq![(key, v1)], key, v2) =~= seq![(key, v2)]);
    } else if es[0].0 == key {
        let t = es.update(0, (key, v1));
        assert(t[0].0 == key);
        assert(entries_set(t, key, v2) =~= es.update(0, (key, v2)));
    } else {
        lemma_entries_set_twice(es.drop_first(), key, v1, v2);
        let t = seq![es[0]] + entries_set(es.drop_first(), key, v1);
        assert(t[0] == es[0]);
        assert(t.drop_first() =~= entries_set(es.drop_first(), key, v1));
        assert(entries_set(t, key, v2) =~= seq![es[0]] + entries_set(es.drop_first(), key, v2));
    }
}

/// Setting a key to the value it has changes nothing.
pub proof fn lemma_entries_set_same(es: Seq<(Seq<char>, JsonModel)>, key: Seq<char>, v: JsonModel)
    requires
        entries_get(es, key) == Some(v),
    ensures
        entries_set(es, key, v) == es,
    decreases es.len(),
{
    if es[0].0 == key {
        assert(es.update(0, (key, v)) =~= es);
    } else {
        lemma_entries_set_same(es.drop_first(), key, v);
        assert(seq![es[0]] + es.drop_first() =~= es);
    }
}

} // verus!
