//! JSON values as `serde_json` holds them, their mathematical model, and the
//! laws of JSON objects.

use serde_json::Value;
use vstd::prelude::*;

verus! {

/// A JSON value, held as the outside crate gives it.
#[verifier::external_type_specification]
#[verifier::external_body]
pub struct ExJsonValue(serde_json::Value);

/// A JSON object: a map from keys to JSON values that keeps the order in
/// which its keys were inserted.
#[verifier::external_type_specification]
#[verifier::external_body]
#[verifier::reject_recursive_types(K)]
#[verifier::reject_recursive_types(V)]
pub struct ExJsonMap<K, V>(serde_json::Map<K, V>);

/// The mathematical model of a JSON value: a null, a boolean, a number as
/// the text that stands for it, a string, an array of values, or an object
/// of entries in insertion order.
pub ghost enum JsonModel {
    Null,
    Bool(bool),
    Number(Seq<char>),
    String(Seq<char>),
    Array(Seq<JsonModel>),
    Object(Seq<(Seq<char>, JsonModel)>),
}

/// The entries of a JSON object: keys with their values, in insertion order.
pub type JsonEntries = Seq<(Seq<char>, JsonModel)>;

/// What a JSON value holds: its kind and its content.
pub uninterp spec fn json_model(value: Value) -> JsonModel;

/// What a JSON object holds: its keys with the models of their values, in the
/// order in which the map hands them out.
pub uninterp spec fn map_entries(map: serde_json::Map<String, Value>) -> JsonEntries;

/// The models of a list of values, in the same order.
pub open spec fn values_model(values: Seq<Value>) -> Seq<JsonModel> {
    Seq::new(values.len(), |i: int| json_model(values[i]))
}

/// Some entry is stored under `key`.
pub open spec fn holds_key(entries: JsonEntries, key: Seq<char>) -> bool {
    exists|i: int| 0 <= i < entries.len() && (#[trigger] entries[i]).0 == key
}

/// `i` is the position of the first entry stored under `key`.
pub open spec fn first_with_key(entries: JsonEntries, key: Seq<char>, i: int) -> bool {
    &&& 0 <= i < entries.len()
    &&& entries[i].0 == key
    &&& forall|j: int| 0 <= j < i ==> (#[trigger] entries[j]).0 != key
}

/// The entries after storing `value` under `key`: a key that is already
/// present keeps its position and takes the new value, a new key goes last.
pub open spec fn put(entries: JsonEntries, key: Seq<char>, value: JsonModel) -> JsonEntries {
    if holds_key(entries, key) {
        entries.update(choose|i: int| first_with_key(entries, key, i), (key, value))
    } else {
        entries.push((key, value))
    }
}

/// The entries after storing each pair in turn.
pub open spec fn put_all(entries: JsonEntries, pairs: JsonEntries) -> JsonEntries
    decreases pairs.len(),
{
    if pairs.len() == 0 {
        entries
    } else {
        put(put_all(entries, pairs.drop_last()), pairs.last().0, pairs.last().1)
    }
}

/// No two entries share a key.
pub open spec fn distinct_keys(entries: JsonEntries) -> bool {
    forall|i: int, j: int|
        0 <= i < j < entries.len() ==> (#[trigger] entries[i]).0 != (#[trigger] entries[j]).0
}

/// The keys of the entries, in order.
pub open spec fn keys_of(entries: JsonEntries) -> Seq<Seq<char>> {
    Seq::new(entries.len(), |i: int| entries[i].0)
}

/// The entries of the object built from nothing by storing each pair in turn.
pub open spec fn object_of(pairs: JsonEntries) -> JsonEntries {
    put_all(Seq::empty(), pairs)
}

/// The keys of a list without their repetitions: each key at the place where
/// it first occurs.
pub open spec fn first_occurrences(keys: Seq<Seq<char>>) -> Seq<Seq<char>>
    decreases keys.len(),
{
    if keys.len() == 0 {
        Seq::empty()
    } else if keys.drop_last().contains(keys.last()) {
        first_occurrences(keys.drop_last())
    } else {
        first_occurrences(keys.drop_last()).push(keys.last())
    }
}

/// No key occurs twice in the list.
pub open spec fn no_repetition(keys: Seq<Seq<char>>) -> bool {
    forall|i: int, j: int| 0 <= i < j < keys.len() ==> keys[i] != keys[j]
}

/// Keys paired with values position by position, up to the shorter of the two.
pub open spec fn zip_entries(keys: Seq<Seq<char>>, values: Seq<JsonModel>) -> JsonEntries {
    Seq::new(
        if keys.len() <= values.len() {
            keys.len()
        } else {
            values.len()
        },
        |i: int| (keys[i], values[i]),
    )
}

impl JsonModel {
    /// Every object inside the value, at any depth, has distinct keys.
    pub open spec fn well_formed(self) -> bool
        decreases self,
    {
        match self {
            JsonModel::Null => true,
            JsonModel::Bool(_) => true,
            JsonModel::Number(_) => true,
            JsonModel::String(_) => true,
            JsonModel::Array(items) => forall|i: int|
                0 <= i < items.len() ==> (#[trigger] items[i]).well_formed(),
            JsonModel::Object(entries) => {
                &&& distinct_keys(entries)
                &&& forall|i: int|
                    0 <= i < entries.len() ==> (#[trigger] entries[i]).1.well_formed()
            },
        }
    }
}

/// Storing the pairs of two lists one after the other is storing the pairs
/// of their concatenation.
pub proof fn lemma_put_all_append(entries: JsonEntries, first: JsonEntries, second: JsonEntries)
    ensures
        put_all(put_all(entries, first), second) == put_all(entries, first + second),
    decreases second.len(),
{
    if second.len() == 0 {
        assert(first + second =~= first);
    } else {
        lemma_put_all_append(entries, first, second.drop_last());
        assert((first + second).drop_last() =~= first + second.drop_last());
        assert((first + second).last() == second.last());
    }
}

/// Storing under a key keeps the keys distinct.
pub proof fn lemma_put_distinct(entries: JsonEntries, key: Seq<char>, value: JsonModel)
    requires
        distinct_keys(entries),
    ensures
        distinct_keys(put(entries, key, value)),
{
    if holds_key(entries, key) {
        let w = choose|i: int| 0 <= i < entries.len() && (#[trigger] entries[i]).0 == key;
        lemma_first_exists(entries, key, w);
    }
}

/// Storing under a key that is present leaves the keys as they are; storing
/// under a new key appends it.
pub proof fn lemma_put_keys(entries: JsonEntries, key: Seq<char>, value: JsonModel)
    ensures
        holds_key(entries, key) ==> keys_of(put(entries, key, value)) == keys_of(entries),
        !holds_key(entries, key) ==> keys_of(put(entries, key, value)) == keys_of(entries).push(
            key,
        ),
        holds_key(entries, key) <==> keys_of(entries).contains(key),
{
    if holds_key(entries, key) {
        let w = choose|i: int| 0 <= i < entries.len() && (#[trigger] entries[i]).0 == key;
        lemma_first_exists(entries, key, w);
        assert(keys_of(put(entries, key, value)) =~= keys_of(entries));
        assert(keys_of(entries)[w] == key);
    } else {
        assert(keys_of(put(entries, key, value)) =~= keys_of(entries).push(key));
        if keys_of(entries).contains(key) {
            let i = choose|i: int| 0 <= i < keys_of(entries).len() && keys_of(entries)[i] == key;
            assert(entries[i].0 == key);
        }
    }
}

/// The keys of an object are the keys of the pairs it was built from, each
/// at the place where it first occurs: storing keeps the order of insertion.
pub proof fn lemma_object_keys(pairs: JsonEntries)
    ensures
        keys_of(object_of(pairs)) == first_occurrences(keys_of(pairs)),
        forall|key: Seq<char>|
            keys_of(object_of(pairs)).contains(key) <==> keys_of(pairs).contains(key),
    decreases pairs.len(),
{
    if pairs.len() > 0 {
        let rest = pairs.drop_last();
        let built = object_of(rest);
        let (key, value) = pairs.last();
        lemma_object_keys(rest);
        lemma_put_keys(built, key, value);
        assert(keys_of(pairs).drop_last() =~= keys_of(rest));
        assert(keys_of(pairs).last() == key);
        assert(keys_of(pairs) =~= keys_of(rest).push(key));
        assert forall|other: Seq<char>|
            keys_of(object_of(pairs)).contains(other) <==> keys_of(pairs).contains(other) by {
            lemma_push_contains(keys_of(rest), key, other);
            lemma_push_contains(keys_of(built), key, other);
        }
    }
}

/// A list with one more item holds what the list held, and the item.
proof fn lemma_push_contains(keys: Seq<Seq<char>>, last: Seq<char>, key: Seq<char>)
    ensures
        keys.push(last).contains(key) <==> keys.contains(key) || key == last,
{
    let longer = keys.push(last);
    if longer.contains(key) {
        let i = choose|i: int| 0 <= i < longer.len() && longer[i] == key;
        if i < keys.len() {
            assert(keys[i] == key);
        }
    }
    if keys.contains(key) {
        let i = choose|i: int| 0 <= i < keys.len() && keys[i] == key;
        assert(longer[i] == key);
    }
    if key == last {
        assert(longer[keys.len() as int] == key);
    }
}

/// Storing pairs keeps the keys distinct.
pub proof fn lemma_put_all_distinct(entries: JsonEntries, pairs: JsonEntries)
    requires
        distinct_keys(entries),
    ensures
        distinct_keys(put_all(entries, pairs)),
    decreases pairs.len(),
{
    if pairs.len() > 0 {
        lemma_put_all_distinct(entries, pairs.drop_last());
        lemma_put_distinct(put_all(entries, pairs.drop_last()), pairs.last().0, pairs.last().1);
    }
}

/// Pairs whose keys differ from one another are stored as they are: the
/// object holds exactly the pairs, in their order.
pub proof fn lemma_object_of_distinct(pairs: JsonEntries)
    requires
        no_repetition(keys_of(pairs)),
    ensures
        object_of(pairs) == pairs,
    decreases pairs.len(),
{
    if pairs.len() == 0 {
        assert(object_of(pairs) =~= pairs);
    } else {
        let rest = pairs.drop_last();
        assert forall|i: int, j: int| 0 <= i < j < keys_of(rest).len() implies keys_of(rest)[i]
            != keys_of(rest)[j] by {
            assert(keys_of(pairs)[i] != keys_of(pairs)[j]);
        }
        lemma_object_of_distinct(rest);
        if holds_key(rest, pairs.last().0) {
            let i = choose|i: int| 0 <= i < rest.len() && (#[trigger] rest[i]).0 == pairs.last().0;
            assert(keys_of(pairs)[i] != keys_of(pairs)[pairs.len() - 1]);
        }
        assert(rest.push(pairs.last()) =~= pairs);
    }
}

/// Every entry of an object is one of the pairs it was built from.
pub proof fn lemma_object_entries(entries: JsonEntries, pairs: JsonEntries)
    ensures
        forall|i: int|
            0 <= i < put_all(entries, pairs).len() ==> entries.contains(
                #[trigger] put_all(entries, pairs)[i],
            ) || pairs.contains(put_all(entries, pairs)[i]),
    decreases pairs.len(),
{
    if pairs.len() > 0 {
        let rest = pairs.drop_last();
        let built = put_all(entries, rest);
        let (key, value) = pairs.last();
        lemma_object_entries(entries, rest);
        if holds_key(built, key) {
            let w = choose|i: int| 0 <= i < built.len() && (#[trigger] built[i]).0 == key;
            lemma_first_exists(built, key, w);
        }
        assert forall|i: int| 0 <= i < put_all(entries, pairs).len() implies entries.contains(
            #[trigger] put_all(entries, pairs)[i],
        ) || pairs.contains(put_all(entries, pairs)[i]) by {
            let entry = put_all(entries, pairs)[i];
            if entry == pairs.last() {
                assert(pairs[pairs.len() - 1] == entry);
            } else {
                assert(entry == built[i]);
                if !entries.contains(entry) {
                    let j = choose|j: int| 0 <= j < rest.len() && rest[j] == entry;
                    assert(pairs[j] == entry);
                }
            }
        }
    }
}

/// Below any position that holds `key` there is a first one.
proof fn lemma_first_exists(entries: JsonEntries, key: Seq<char>, w: int)
    requires
        0 <= w < entries.len(),
        entries[w].0 == key,
    ensures
        exists|i: int| first_with_key(entries, key, i),
    decreases w,
{
    if forall|j: int| 0 <= j < w ==> (#[trigger] entries[j]).0 != key {
        assert(first_with_key(entries, key, w));
    } else {
        let j = choose|j: int| 0 <= j < w && (#[trigger] entries[j]).0 == key;
        lemma_first_exists(entries, key, j);
    }
}

/// Calls `Value::from` on a `bool`. The contract claims that the value holds
/// that boolean.
#[verifier::external_body]
pub(crate) fn json_bool(b: bool) -> (value: Value)
    ensures
        json_model(value) == JsonModel::Bool(b),
{
    Value::from(b)
}

/// Calls `Value::from` on a `String`. The contract claims that the value
/// holds that string.
#[verifier::external_body]
pub(crate) fn json_string(s: String) -> (value: Value)
    ensures
        json_model(value) == JsonModel::String(s@),
{
    Value::from(s)
}

/// Calls `Value::from` on a `Vec<Value>`. The contract claims that the value
/// holds the array of those values, in their order.
#[verifier::external_body]
pub(crate) fn json_array(items: Vec<Value>) -> (value: Value)
    ensures
        json_model(value) == JsonModel::Array(values_model(items@)),
{
    Value::from(items)
}

/// Calls `Value::from` on a `Map<String, Value>`. The contract claims that
/// the value holds the object of the map's entries.
#[verifier::external_body]
pub(crate) fn json_object(map: serde_json::Map<String, Value>) -> (value: Value)
    ensures
        json_model(value) == JsonModel::Object(map_entries(map)),
{
    Value::from(map)
}

/// Calls `Map::new`. The contract claims that the map holds no entry.
#[verifier::external_body]
pub(crate) fn map_new() -> (map: serde_json::Map<String, Value>)
    ensures
        map_entries(map) == Seq::<(Seq<char>, JsonModel)>::empty(),
{
    serde_json::Map::new()
}

/// Calls `Map::insert`, in the crate's order-preserving form, and drops the
/// value that it hands back. The contract claims that a key which is already
/// present keeps its position and takes the new value, and that a new key
/// goes behind all others.
#[verifier::external_body]
pub(crate) fn map_insert(map: &mut serde_json::Map<String, Value>, key: String, value: Value)
    ensures
        map_entries(*final(map)) == put(map_entries(*old(map)), key@, json_model(value)),
{
    map.insert(key, value);
}

} // verus!
