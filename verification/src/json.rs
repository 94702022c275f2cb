//! JSON values as plain data, and objects as maps ordered by key.
use crate::entries::has_key;
use crate::entries::keys_increasing;
use crate::entries::lemma_increasing_distinct;
use crate::entries::lemma_map_of_entry;
use crate::entries::lemma_map_of_insert;
use crate::entries::lemma_map_of_len;
use crate::entries::lemma_map_of_remove;
use crate::entries::lemma_map_of_update;
use crate::entries::map_of;
use crate::entries::place_of;
use crate::number::number_model;
use crate::number::NumberModel;
use crate::order::key_less;
use crate::order::lemma_key_less_irreflexive;
use crate::order::lemma_key_less_total;
use crate::order::lemma_key_less_transitive;
use crate::order::str_less;
use vstd::prelude::*;

verus! {

/// The mathematical value of a JSON document.
pub enum JsonModel {
    Null,
    Bool(bool),
    Number(NumberModel),
    String(Seq<char>),
    Array(Seq<JsonModel>),
    Object(Map<Seq<char>, JsonModel>),
}

/// A JSON value.
#[derive(Debug, PartialEq)]
pub enum JsonValue {
    Null,
    Bool(bool),
    Number(serde_json::Number),
    String(String),
    Array(Vec<JsonValue>),
    Object(JsonObject),
}

/// A JSON object: a finite map from keys to values, with its entries kept in
/// strictly increasing key order, so that equal maps are equal entry by entry.
#[derive(Debug, PartialEq)]
pub struct JsonObject {
    entries: Vec<(String, JsonValue)>,
}

/// The model of a value.
pub open spec fn model_of(v: JsonValue) -> JsonModel
    decreases v,
{
    match v {
        JsonValue::Null => JsonModel::Null,
        JsonValue::Bool(b) => JsonModel::Bool(b),
        JsonValue::Number(n) => JsonModel::Number(number_model(n)),
        JsonValue::String(s) => JsonModel::String(s@),
        JsonValue::Array(items) => JsonModel::Array(
            Seq::new(
                items@.len(),
                |i: int|
                    if 0 <= i < items@.len() {
                        model_of(items@[i])
                    } else {
                        JsonModel::Null
                    },
            ),
        ),
        JsonValue::Object(o) => JsonModel::Object(map_of(entries_model(o))),
    }
}

/// The entries of an object in stored order, each key with the model of the
/// value stored under it.
pub closed spec fn entries_model(o: JsonObject) -> Seq<(Seq<char>, JsonModel)>
    decreases o,
{
    Seq::new(
        o.entries@.len(),
        |i: int|
            if 0 <= i < o.entries@.len() {
                (o.entries@[i].0@, model_of(o.entries@[i].1))
            } else {
                (Seq::empty(), JsonModel::Null)
            },
    )
}

impl View for JsonValue {
    type V = JsonModel;

    open spec fn view(&self) -> JsonModel {
        model_of(*self)
    }
}

impl View for JsonObject {
    type V = Map<Seq<char>, JsonModel>;

    /// The map that sends each key to the model of the value stored under it.
    open spec fn view(&self) -> Map<Seq<char>, JsonModel> {
        map_of(entries_model(*self))
    }
}

impl JsonObject {
    /// The keys are strictly increasing.
    #[verifier::type_invariant]
    spec fn sorted(&self) -> bool {
        keys_increasing(entries_model(*self))
    }

    /// An object without entries.
    pub fn new() -> (out: JsonObject)
        ensures
            out@ == Map::<Seq<char>, JsonModel>::empty(),
    {
        let out = JsonObject { entries: Vec::new() };
        assert(out@ =~= Map::<Seq<char>, JsonModel>::empty());
        out
    }

    /// The number of entries.
    pub fn len(&self) -> (out: usize)
        ensures
            out == self@.len(),
            self@.dom().finite(),
    {
        proof {
            use_type_invariant(self);
            lemma_increasing_distinct(entries_model(*self));
            lemma_map_of_len(entries_model(*self));
        }
        self.entries.len()
    }

    /// Whether the object has no entries.
    pub fn is_empty(&self) -> (out: bool)
        ensures
            out == (self@ == Map::<Seq<char>, JsonModel>::empty()),
    {
        proof {
            use_type_invariant(self);
            lemma_increasing_distinct(entries_model(*self));
            if self.entries@.len() > 0 {
                lemma_map_of_entry(entries_model(*self), 0);
            } else {
                assert(self@ =~= Map::<Seq<char>, JsonModel>::empty());
            }
        }
        self.entries.len() == 0
    }

    /// The entries, in strictly increasing key order: each key of the map
    /// once, with the value stored under it.
    pub fn entries(&self) -> (out: &[(String, JsonValue)])
        ensures
            self@.dom().finite(),
            out@.len() == self@.len(),
            forall|i: int, j: int|
                0 <= i < j < out@.len() ==> key_less(
                    (#[trigger] out@[i]).0@,
                    (#[trigger] out@[j]).0@,
                ),
            forall|i: int|
                0 <= i < out@.len() ==> self@.contains_key((#[trigger] out@[i]).0@)
                    && self@[out@[i].0@] == out@[i].1@,
            forall|key: Seq<char>| #[trigger]
                self@.contains_key(key) ==> exists|i: int|
                    0 <= i < out@.len() && (#[trigger] out@[i]).0@ == key,
    {
        proof {
            use_type_invariant(self);
            let model = entries_model(*self);
            lemma_increasing_distinct(model);
            lemma_map_of_len(model);
            assert forall|i: int, j: int| 0 <= i < j < self.entries@.len() implies key_less(
                (#[trigger] self.entries@[i]).0@,
                (#[trigger] self.entries@[j]).0@,
            ) by {
                assert(key_less(model[i].0, model[j].0));
            }
            assert forall|i: int| 0 <= i < self.entries@.len() implies self@.contains_key(
                (#[trigger] self.entries@[i]).0@,
            ) && self@[self.entries@[i].0@] == self.entries@[i].1@ by {
                lemma_map_of_entry(model, i);
            }
            assert forall|key: Seq<char>| #[trigger] self@.contains_key(key) implies exists|i: int|
                0 <= i < self.entries@.len() && (#[trigger] self.entries@[i]).0@ == key by {
                let i = place_of(model, key);
                assert(self.entries@[i].0@ == key);
            }
        }
        self.entries.as_slice()
    }

    /// The first place whose key does not come before `key`.
    fn lower_bound(&self, key: &str) -> (out: usize)
        ensures
            out <= self.entries@.len(),
            forall|j: int| 0 <= j < out ==> key_less((#[trigger] entries_model(*self)[j]).0, key@),
            forall|j: int|
                out <= j < self.entries@.len() ==> !key_less(
                    (#[trigger] entries_model(*self)[j]).0,
                    key@,
                ),
    {
        proof {
            use_type_invariant(self);
        }
        let ghost model = entries_model(*self);
        let mut lo: usize = 0;
        let mut hi: usize = self.entries.len();
        while lo < hi
            invariant
                lo <= hi <= self.entries@.len(),
                model == entries_model(*self),
                keys_increasing(model),
                forall|j: int| 0 <= j < lo ==> key_less((#[trigger] model[j]).0, key@),
                forall|j: int| hi <= j < model.len() ==> !key_less((#[trigger] model[j]).0, key@),
            decreases hi - lo,
        {
            let mid = lo + (hi - lo) / 2;
            assert(model[mid as int].0 == self.entries@[mid as int].0@);
            if str_less(self.entries[mid].0.as_str(), key) {
                assert forall|j: int| 0 <= j < mid + 1 implies key_less(
                    (#[trigger] model[j]).0,
                    key@,
                ) by {
                    if j < mid {
                        lemma_key_less_transitive(model[j].0, model[mid as int].0, key@);
                    }
                }
                lo = mid + 1;
            } else {
                assert forall|j: int| mid <= j < model.len() implies !key_less(
                    (#[trigger] model[j]).0,
                    key@,
                ) by {
                    if j > mid && key_less(model[j].0, key@) {
                        lemma_key_less_transitive(model[mid as int].0, model[j].0, key@);
                    }
                }
                hi = mid;
            }
        }
        lo
    }

    /// Whether the entry at `at`, the lower bound of `key`, has the key `key`.
    fn holds_at(&self, at: usize, key: &str) -> (out: bool)
        requires
            at <= self.entries@.len(),
            forall|j: int| 0 <= j < at ==> key_less((#[trigger] entries_model(*self)[j]).0, key@),
            forall|j: int|
                at <= j < self.entries@.len() ==> !key_less(
                    (#[trigger] entries_model(*self)[j]).0,
                    key@,
                ),
        ensures
            out == self@.contains_key(key@),
            out ==> at < self.entries@.len() && entries_model(*self)[at as int].0 == key@,
            !out ==> !has_key(entries_model(*self), key@),
            !out ==> forall|j: int|
                at <= j < self.entries@.len() ==> key_less(
                    key@,
                    (#[trigger] entries_model(*self)[j]).0,
                ),
    {
        proof {
            use_type_invariant(self);
        }
        let ghost model = entries_model(*self);
        if at < self.entries.len() && !str_less(key, self.entries[at].0.as_str()) {
            proof {
                assert(model[at as int].0 == self.entries@[at as int].0@);
                lemma_key_less_total(model[at as int].0, key@);
            }
            true
        } else {
            proof {
                lemma_key_less_irreflexive(key@);
                if at < model.len() {
                    assert(model[at as int].0 == self.entries@[at as int].0@);
                }
                assert forall|j: int| at <= j < model.len() implies key_less(
                    key@,
                    (#[trigger] model[j]).0,
                ) by {
                    if j > at {
                        lemma_key_less_transitive(key@, model[at as int].0, model[j].0);
                    }
                }
                assert forall|j: int| 0 <= j < model.len() implies (#[trigger] model[j]).0
                    != key@ by {}
            }
            false
        }
    }

    /// The value stored under `key`, if there is one.
    pub fn get(&self, key: &str) -> (out: Option<&JsonValue>)
        ensures
            match out {
                Some(v) => self@.contains_key(key@) && v@ == self@[key@],
                None => !self@.contains_key(key@),
            },
    {
        proof {
            use_type_invariant(self);
            lemma_increasing_distinct(entries_model(*self));
        }
        let i = self.lower_bound(key);
        if self.holds_at(i, key) {
            proof {
                lemma_map_of_entry(entries_model(*self), i as int);
            }
            Some(&self.entries[i].1)
        } else {
            None
        }
    }

    /// Whether there is an entry under `key`.
    pub fn contains_key(&self, key: &str) -> (out: bool)
        ensures
            out == self@.contains_key(key@),
    {
        let i = self.lower_bound(key);
        self.holds_at(i, key)
    }

    /// Puts `value` under `key`, and returns the value that was there before.
    pub fn insert(&mut self, key: String, value: JsonValue) -> (out: Option<JsonValue>)
        ensures
            final(self)@ == old(self)@.insert(key@, value@),
            match out {
                Some(v) => old(self)@.contains_key(key@) && v@ == old(self)@[key@],
                None => !old(self)@.contains_key(key@),
            },
    {
        proof {
            use_type_invariant(&*self);
            lemma_increasing_distinct(entries_model(*self));
        }
        let ghost before = entries_model(*self);
        let ghost entry = (key@, value@);
        let i = self.lower_bound(key.as_str());
        let found = self.holds_at(i, key.as_str());
        let mut entries: Vec<(String, JsonValue)> = Vec::new();
        std::mem::swap(&mut self.entries, &mut entries);
        if found {
            proof {
                lemma_map_of_entry(before, i as int);
                lemma_map_of_update(before, i as int, entry);
            }
            entries.push((key, value));
            let previous = entries.swap_remove(i);
            proof {
                let after = entries_model(JsonObject { entries });
                assert(after =~= before.update(i as int, entry));
                assert forall|a: int, b: int| 0 <= a < b < after.len() implies key_less(
                    (#[trigger] after[a]).0,
                    (#[trigger] after[b]).0,
                ) by {
                    assert(after[a].0 == before[a].0 && after[b].0 == before[b].0);
                }
            }
            self.entries = entries;
            Some(previous.1)
        } else {
            proof {
                lemma_map_of_insert(before, i as int, entry);
            }
            entries.insert(i, (key, value));
            proof {
                let after = entries_model(JsonObject { entries });
                assert(after =~= before.insert(i as int, entry));
                assert forall|a: int, b: int| 0 <= a < b < after.len() implies key_less(
                    (#[trigger] after[a]).0,
                    (#[trigger] after[b]).0,
                ) by {
                    let a0 = if a < i { a } else { a - 1 };
                    let b0 = if b < i { b } else { b - 1 };
                    if a != i {
                        assert(after[a] == before[a0]);
                    }
                    if b != i {
                        assert(after[b] == before[b0]);
                    }
                }
            }
            self.entries = entries;
            None
        }
    }

    /// Takes the entry under `key` out, and returns its value.
    pub fn remove(&mut self, key: &str) -> (out: Option<JsonValue>)
        ensures
            final(self)@ == old(self)@.remove(key@),
            match out {
                Some(v) => old(self)@.contains_key(key@) && v@ == old(self)@[key@],
                None => !old(self)@.contains_key(key@),
            },
    {
        proof {
            use_type_invariant(&*self);
            lemma_increasing_distinct(entries_model(*self));
        }
        let ghost before = entries_model(*self);
        let i = self.lower_bound(key);
        if self.holds_at(i, key) {
            proof {
                lemma_map_of_entry(before, i as int);
                lemma_map_of_remove(before, i as int);
            }
            let mut entries: Vec<(String, JsonValue)> = Vec::new();
            std::mem::swap(&mut self.entries, &mut entries);
            let previous = entries.remove(i);
            proof {
                let after = entries_model(JsonObject { entries });
                assert(after =~= before.remove(i as int));
                assert forall|a: int, b: int| 0 <= a < b < after.len() implies key_less(
                    (#[trigger] after[a]).0,
                    (#[trigger] after[b]).0,
                ) by {
                    let a0 = if a < i { a } else { a + 1 };
                    let b0 = if b < i { b } else { b + 1 };
                    assert(after[a] == before[a0]);
                    assert(after[b] == before[b0]);
                }
            }
            self.entries = entries;
            Some(previous.1)
        } else {
            proof {
                assert(self@ =~= self@.remove(key@));
            }
            None
        }
    }
}

impl Default for JsonObject {
    /// An object without entries.
    fn default() -> (out: JsonObject)
        ensures
            out@ == Map::<Seq<char>, JsonModel>::empty(),
    {
        JsonObject::new()
    }
}

impl Clone for JsonObject {
    fn clone(&self) -> (out: JsonObject)
        ensures
            out@ == self@,
        decreases self,
    {
        proof {
            use_type_invariant(self);
        }
        let mut entries: Vec<(String, JsonValue)> = Vec::new();
        let mut i: usize = 0;
        while i < self.entries.len()
            invariant
                i <= self.entries@.len(),
                entries@.len() == i,
                forall|j: int|
                    0 <= j < i ==> (#[trigger] entries@[j]).0@ == self.entries@[j].0@
                        && entries@[j].1@ == self.entries@[j].1@,
            decreases self.entries@.len() - i,
        {
            let key = self.entries[i].0.clone();
            let value = self.entries[i].1.clone();
            entries.push((key, value));
            i += 1;
        }
        assert(entries_model(JsonObject { entries }) =~= entries_model(*self));
        JsonObject { entries }
    }
}

/// Copies of the values of `items`, in the same order.
fn clone_items(items: &Vec<JsonValue>) -> (out: Vec<JsonValue>)
    ensures
        out@.len() == items@.len(),
        forall|j: int| 0 <= j < items@.len() ==> (#[trigger] out@[j])@ == items@[j]@,
    decreases items,
{
    let mut out: Vec<JsonValue> = Vec::new();
    let mut i: usize = 0;
    while i < items.len()
        invariant
            i <= items@.len(),
            out@.len() == i,
            forall|j: int| 0 <= j < i ==> (#[trigger] out@[j])@ == items@[j]@,
        decreases items@.len() - i,
    {
        let copy = items[i].clone();
        out.push(copy);
        i += 1;
    }
    out
}

impl Clone for JsonValue {
    fn clone(&self) -> (out: JsonValue)
        ensures
            out@ == self@,
        decreases self,
    {
        match self {
            JsonValue::Null => JsonValue::Null,
            JsonValue::Bool(b) => JsonValue::Bool(*b),
            JsonValue::Number(n) => JsonValue::Number(n.clone()),
            JsonValue::String(s) => JsonValue::String(s.clone()),
            JsonValue::Array(items) => {
                let out = JsonValue::Array(clone_items(items));
                assert(out@->Array_0 =~= self@->Array_0);
                out
            },
            JsonValue::Object(o) => JsonValue::Object(o.clone()),
        }
    }
}

} // verus!
