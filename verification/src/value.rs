//! Runtime values: what an expression of a schema evaluates to.

use indexmap::IndexMap;
use vstd::prelude::*;

verus! {

/// A map from names to values that keeps the order in which the names were
/// first inserted.
#[verifier::external_body]
#[derive(Debug, PartialEq)]
pub struct BamlMap {
    inner: IndexMap<String, BamlValue>,
}

/// A runtime value.
#[derive(Debug, PartialEq)]
pub enum BamlValue {
    Null,
    Bool(bool),
    Int(i64),
    /// A floating-point number, as the literal that denotes it.
    Float(String),
    String(String),
    List(Vec<BamlValue>),
    Mapping(BamlMap),
}

/// The mathematical content of a runtime value.
pub enum ValueModel {
    Null,
    Bool(bool),
    Int(i64),
    Float(Seq<char>),
    String(Seq<char>),
    List(Seq<ValueModel>),
    /// Names and values in insertion order; no name stands twice.
    Mapping(Seq<(Seq<char>, ValueModel)>),
}

/// The entries of the map in their order: each name with its value.
pub uninterp spec fn map_entries(m: BamlMap) -> Seq<(Seq<char>, BamlValue)>;

/// The position of the entry with the given name.
pub open spec fn key_position<V>(entries: Seq<(Seq<char>, V)>, key: Seq<char>) -> Option<int>
    decreases entries.len(),
{
    if entries.len() == 0 {
        None
    } else {
        match key_position(entries.drop_last(), key) {
            Some(i) => Some(i),
            None => if entries.last().0 == key {
                Some(entries.len() - 1)
            } else {
                None
            },
        }
    }
}

/// The entries after `key` was given `value`: an entry with that name keeps
/// its place and takes the value; a new name goes to the end.
pub open spec fn put<V>(entries: Seq<(Seq<char>, V)>, key: Seq<char>, value: V) -> Seq<
    (Seq<char>, V),
> {
    match key_position(entries, key) {
        Some(i) => entries.update(i, (key, value)),
        None => entries.push((key, value)),
    }
}

/// The value has the given mathematical content.
pub open spec fn models(v: BamlValue, m: ValueModel) -> bool
    decreases m,
{
    match m {
        ValueModel::Null => v is Null,
        ValueModel::Bool(b) => v == BamlValue::Bool(b),
        ValueModel::Int(i) => v == BamlValue::Int(i),
        ValueModel::Float(t) => v matches BamlValue::Float(s) && s@ == t,
        ValueModel::String(t) => v matches BamlValue::String(s) && s@ == t,
        ValueModel::List(ms) => {
            &&& v matches BamlValue::List(vs)
            &&& vs@.len() == ms.len()
            &&& forall|i: int| 0 <= i < ms.len() ==> models(vs@[i], #[trigger] ms[i])
        },
        ValueModel::Mapping(es) => {
            &&& v matches BamlValue::Mapping(map)
            &&& entries_model(map_entries(map), es)
        },
    }
}

/// The entries have the given names, in order, and values with the given
/// contents.
pub open spec fn entries_model(
    entries: Seq<(Seq<char>, BamlValue)>,
    es: Seq<(Seq<char>, ValueModel)>,
) -> bool
    decreases es,
{
    &&& entries.len() == es.len()
    &&& forall|i: int|
        0 <= i < es.len() ==> entries[i].0 == (#[trigger] es[i]).0 && models(
            entries[i].1,
            es[i].1,
        )
}

/// Makes an empty map with `IndexMap::new`.
#[verifier::external_body]
fn map_new() -> (m: BamlMap)
    ensures
        map_entries(m) == Seq::<(Seq<char>, BamlValue)>::empty(),
{
    BamlMap { inner: IndexMap::new() }
}

/// Calls `IndexMap::insert`: a key that is present keeps its place and has
/// its value replaced, a new key is put last.
#[verifier::external_body]
fn map_insert(m: &mut BamlMap, key: String, value: BamlValue)
    ensures
        map_entries(*final(m)) == put(map_entries(*old(m)), key@, value),
{
    m.inner.insert(key, value);
}

/// Calls `IndexMap::len`: the number of entries.
#[verifier::external_body]
fn map_len(m: &BamlMap) -> (n: usize)
    ensures
        n == map_entries(*m).len(),
{
    m.inner.len()
}

/// Calls `IndexMap::get_index`: the entry at a position, if there is one.
#[verifier::external_body]
fn map_get_index(m: &BamlMap, i: usize) -> (r: Option<(&String, &BamlValue)>)
    ensures
        match r {
            Some(entry) => i < map_entries(*m).len() && entry.0@ == map_entries(*m)[i as int].0
                && *entry.1 == map_entries(*m)[i as int].1,
            None => i >= map_entries(*m).len(),
        },
{
    m.inner.get_index(i)
}

/// Calls `IndexMap::get_index_of`: the position of the entry with the key.
#[verifier::external_body]
fn map_get_index_of(m: &BamlMap, key: &str) -> (r: Option<usize>)
    ensures
        match r {
            Some(i) => key_position(map_entries(*m), key@) == Some(i as int),
            None => key_position(map_entries(*m), key@) is None,
        },
{
    m.inner.get_index_of(key)
}

/// A position that `key_position` reports holds the key.
pub proof fn lemma_key_position_holds<V>(entries: Seq<(Seq<char>, V)>, key: Seq<char>)
    ensures
        key_position(entries, key) matches Some(i) ==> 0 <= i < entries.len() && entries[i].0
            == key,
    decreases entries.len(),
{
    if entries.len() > 0 {
        lemma_key_position_holds(entries.drop_last(), key);
    }
}

/// Two lists with the same names find a name at the same position.
pub proof fn lemma_key_position_by_names<A, B>(
    entries: Seq<(Seq<char>, A)>,
    es: Seq<(Seq<char>, B)>,
    key: Seq<char>,
)
    requires
        entries.len() == es.len(),
        forall|i: int| 0 <= i < es.len() ==> entries[i].0 == (#[trigger] es[i]).0,
    ensures
        key_position(entries, key) == key_position(es, key),
    decreases entries.len(),
{
    if entries.len() > 0 {
        assert(entries.last().0 == es[es.len() - 1].0);
        assert forall|i: int| 0 <= i < es.drop_last().len() implies entries.drop_last()[i].0 == (
        #[trigger] es.drop_last()[i]).0 by {
            assert(entries[i].0 == es[i].0);
        }
        lemma_key_position_by_names(entries.drop_last(), es.drop_last(), key);
    }
}

/// Putting a value into a map and its content into the map's contents keeps
/// the two in step.
pub proof fn lemma_put_models(
    entries: Seq<(Seq<char>, BamlValue)>,
    es: Seq<(Seq<char>, ValueModel)>,
    key: Seq<char>,
    v: BamlValue,
    m: ValueModel,
)
    requires
        entries_model(entries, es),
        models(v, m),
    ensures
        entries_model(put(entries, key, v), put(es, key, m)),
{
    lemma_key_position_by_names(entries, es, key);
    lemma_key_position_holds(entries, key);
    let after = put(entries, key, v);
    let after_model = put(es, key, m);
    assert forall|i: int| 0 <= i < after_model.len() implies after[i].0 == (
    #[trigger] after_model[i]).0 && models(after[i].1, after_model[i].1) by {
        if i < es.len() {
            assert(entries[i].0 == es[i].0 && models(entries[i].1, es[i].1));
        }
    }
}

impl BamlMap {
    /// An empty map.
    pub fn new() -> (m: BamlMap)
        ensures
            map_entries(m) == Seq::<(Seq<char>, BamlValue)>::empty(),
    {
        map_new()
    }

    /// Gives `key` the value `value`. A key that is present keeps its place;
    /// a new key goes to the end.
    pub fn insert(&mut self, key: String, value: BamlValue)
        ensures
            map_entries(*final(self)) == put(map_entries(*old(self)), key@, value),
    {
        map_insert(self, key, value)
    }

    /// The number of entries.
    pub fn len(&self) -> (n: usize)
        ensures
            n == map_entries(*self).len(),
    {
        map_len(self)
    }

    /// The entry at position `i`.
    pub fn get_index(&self, i: usize) -> (r: Option<(&String, &BamlValue)>)
        ensures
            match r {
                Some(entry) => i < map_entries(*self).len() && entry.0@ == map_entries(
                    *self,
                )[i as int].0 && *entry.1 == map_entries(*self)[i as int].1,
                None => i >= map_entries(*self).len(),
            },
    {
        map_get_index(self, i)
    }

    /// The value stored under `key`.
    pub fn get(&self, key: &str) -> (r: Option<&BamlValue>)
        ensures
            match key_position(map_entries(*self), key@) {
                Some(i) => 0 <= i < map_entries(*self).len() && r == Some(
                    &map_entries(*self)[i].1,
                ),
                None => r is None,
            },
    {
        proof {
            lemma_key_position_holds(map_entries(*self), key@);
        }
        match map_get_index_of(self, key) {
            Some(i) => match map_get_index(self, i) {
                Some(entry) => Some(entry.1),
                None => None,
            },
            None => None,
        }
    }
}

} // verus!
