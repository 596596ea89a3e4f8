//! The properties that configure an element: JSON values by name.

use std::str::FromStr;
use vstd::prelude::*;

use serde_json::Value;

use crate::keyed::{keyed_view, keys_distinct, lemma_keyed_update};

verus! {

/// `serde_json`'s `Value`, declared so that JSON values can be held and
/// passed on; what a value holds is not visible to proofs.
#[verifier::external_type_specification]
#[verifier::external_body]
pub struct ExValue(serde_json::Value);

/// The JSON value that `serde_json` reads from `text`, or `None` where
/// `text` is not a JSON document.
pub uninterp spec fn parsed_json(text: Seq<char>) -> Option<Value>;

/// The JSON string value whose contents are `text`.
pub uninterp spec fn json_string(text: Seq<char>) -> Value;

/// Reads `text` as a JSON document with `serde_json`'s `Value::from_str`.
/// The contract names the value read as a function of the text alone; what
/// that value holds is left to `serde_json`.
#[verifier::external_body]
pub(crate) fn parse_json(text: &str) -> (r: Option<Value>)
    ensures
        r == parsed_json(text@),
{
    Value::from_str(text).ok()
}

/// The text of a JSON value that is a string, `None` for any other value,
/// as `serde_json`'s `Value::as_str` gives it.
pub uninterp spec fn json_as_str(v: Value) -> Option<Seq<char>>;

/// The number of a JSON value that is a non-negative integer that fits in
/// `u64`, `None` for any other value, as `serde_json`'s `Value::as_u64`
/// gives it.
pub uninterp spec fn json_as_u64(v: Value) -> Option<u64>;

/// The JSON string `Value::String(text)` of `serde_json`. The contract names
/// the value as a function of the text alone, and states what
/// `Value::as_str` shows of such a value: it gives the text back.
#[verifier::external_body]
fn string_value(text: String) -> (r: Value)
    ensures
        r == json_string(text@),
        json_as_str(r) == Some(text@),
{
    Value::String(text)
}

/// `serde_json`'s `Value::as_str`: the text of a string value. The contract
/// names the result as a function of the value alone.
#[verifier::external_body]
fn value_as_str(v: &Value) -> (r: Option<&str>)
    ensures
        match r {
            Some(t) => json_as_str(*v) == Some(t@),
            None => json_as_str(*v) is None,
        },
{
    v.as_str()
}

/// `serde_json`'s `Value::as_u64`: the number of a value that is a
/// non-negative integer within `u64`. The contract names the result as a
/// function of the value alone.
#[verifier::external_body]
fn value_as_u64(v: &Value) -> (r: Option<u64>)
    ensures
        r == json_as_u64(*v),
{
    v.as_u64()
}

/// The value a property written as `raw` takes: what `parsed` holds where
/// the text was read as JSON, else the text itself as a JSON string.
pub open spec fn property_value_of(parsed: Option<Value>, raw: Seq<char>) -> Value {
    match parsed {
        Some(v) => v,
        None => json_string(raw),
    }
}

/// The value of a property written as `raw`, given what reading its text as
/// JSON gave.
pub fn property_value(parsed: Option<Value>, raw: String) -> (r: Value)
    ensures
        r == property_value_of(parsed, raw@),
        parsed is None ==> json_as_str(r) == Some(raw@),
{
    match parsed {
        Some(v) => v,
        None => string_value(raw),
    }
}

/// The name of a (name, value) entry, as a key.
pub open spec fn entry_key() -> spec_fn((String, Value)) -> Seq<char> {
    |e: (String, Value)| e.0@
}

/// The value of a (name, value) entry.
pub open spec fn entry_value() -> spec_fn((String, Value)) -> Value {
    |e: (String, Value)| e.1
}

/// The values of `s` by name, where no name occurs twice.
pub open spec fn entries_view(s: Seq<(String, Value)>) -> Map<Seq<char>, Value> {
    keyed_view(s, entry_key(), entry_value())
}

/// No name occurs twice in `s`.
pub open spec fn keys_unique(s: Seq<(String, Value)>) -> bool {
    keys_distinct(s, entry_key())
}

/// An element's properties: values by name, no name twice.
pub struct Properties {
    entries: Vec<(String, Value)>,
}

impl Properties {
    /// The properties by name.
    pub closed spec fn view(&self) -> Map<Seq<char>, Value> {
        entries_view(self.entries@)
    }

    /// No name occurs twice.
    #[verifier::type_invariant]
    closed spec fn wf(&self) -> bool {
        keys_unique(self.entries@)
    }

    /// No properties.
    pub fn new() -> (r: Self)
        ensures
            r.view() == Map::<Seq<char>, Value>::empty(),
    {
        let r = Properties { entries: Vec::new() };
        assert(r.view() =~= Map::<Seq<char>, Value>::empty());
        r
    }

    fn position(entries: &Vec<(String, Value)>, name: &str) -> (r: Option<usize>)
        ensures
            match r {
                Some(i) => i < entries@.len() && entries@[i as int].0@ == name@,
                None => forall|i: int| 0 <= i < entries@.len() ==> entries@[i].0@ != name@,
            },
    {
        let mut i: usize = 0;
        while i < entries.len()
            invariant
                i <= entries@.len(),
                forall|m: int| 0 <= m < i ==> entries@[m].0@ != name@,
            decreases entries@.len() - i,
        {
            if crate::text::str_eq(entries[i].0.as_str(), name) {
                return Some(i);
            }
            i = i + 1;
        }
        None
    }

    /// Sets the property `name` to `value`, in place of any value it had.
    pub fn insert(&mut self, name: String, value: Value)
        ensures
            final(self).view() == old(self).view().insert(name@, value),
    {
        proof {
            use_type_invariant(&*self);
        }
        let mut entries = Vec::new();
        std::mem::swap(&mut entries, &mut self.entries);
        let ghost old_entries = entries@;
        let found = Self::position(&entries, name.as_str());
        let ghost nm = name;
        match found {
            Some(i) => {
                entries.set(i, (name, value));
                proof {
                    lemma_keyed_update(old_entries, entries@, i as int, (nm, value), entry_key(), entry_value());
                }
            },
            None => {
                entries.push((name, value));
                proof {
                    lemma_keyed_update(old_entries, entries@, old_entries.len() as int, (nm, value), entry_key(), entry_value());
                }
            },
        }
        self.entries = entries;
    }

    /// The value of the property `name`, if it is set.
    pub fn get(&self, name: &str) -> (r: Option<&Value>)
        ensures
            match r {
                Some(v) => self.view().contains_key(name@) && *v == self.view()[name@],
                None => !self.view().contains_key(name@),
            },
    {
        proof {
            use_type_invariant(self);
        }
        match Self::position(&self.entries, name) {
            Some(i) => {
                proof {
                    let w = choose|m: int| 0 <= m < self.entries@.len() && self.entries@[m].0@ == name@;
                    assert(w == i);
                }
                Some(&self.entries[i].1)
            },
            None => None,
        }
    }

    /// The property `name` as a `u64`, where it is set to one.
    pub fn get_u64(&self, name: &str) -> (r: Option<u64>)
        ensures
            r == u64_property(self.view(), name@),
    {
        match self.get(name) {
            Some(v) => value_as_u64(v),
            None => None,
        }
    }

    /// The property `name` as text, where it is set to a string.
    pub fn get_str(&self, name: &str) -> (r: Option<&str>)
        ensures
            match r {
                Some(t) => str_property(self.view(), name@) == Some(t@),
                None => str_property(self.view(), name@) is None,
            },
    {
        match self.get(name) {
            Some(v) => value_as_str(v),
            None => None,
        }
    }

    /// The (name, value) pairs, each name once.
    pub fn into_entries(self) -> (r: Vec<(String, Value)>)
        ensures
            forall|i: int| 0 <= i < r@.len() ==> #[trigger] self.view().contains_key(r@[i].0@)
                && self.view()[r@[i].0@] == r@[i].1,
            forall|k: Seq<char>| #[trigger] self.view().contains_key(k) ==> exists|i: int| 0 <= i < r@.len() && r@[i].0@ == k,
            keys_unique(r@),
    {
        proof {
            use_type_invariant(&self);
        }
        assert forall|i: int| 0 <= i < self.entries@.len() implies #[trigger] self.view().contains_key(
            self.entries@[i].0@,
        ) && self.view()[self.entries@[i].0@] == self.entries@[i].1 by {
            let w = choose|m: int| 0 <= m < self.entries@.len() && self.entries@[m].0@ == self.entries@[i].0@;
            assert(w == i);
        }
        self.entries
    }
}

/// The property `name` of `props` as a `u64`, where it is set to one.
pub open spec fn u64_property(props: Map<Seq<char>, Value>, name: Seq<char>) -> Option<u64> {
    if props.contains_key(name) {
        json_as_u64(props[name])
    } else {
        None
    }
}

/// The property `name` of `props` as text, where it is set to a string.
pub open spec fn str_property(props: Map<Seq<char>, Value>, name: Seq<char>) -> Option<Seq<char>> {
    if props.contains_key(name) {
        json_as_str(props[name])
    } else {
        None
    }
}

} // verus!
