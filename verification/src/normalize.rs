//! Normalization: the conversion of a decoded value into a JSON value.

use serde_json::Value;
use vstd::prelude::*;
use vstd::slice::slice_subrange;

use crate::json::{
    distinct_keys, first_occurrences, json_array, json_bool, json_model, json_object, json_string,
    keys_of, lemma_object_entries, lemma_object_keys, lemma_object_of_distinct,
    lemma_put_all_distinct, map_entries, map_insert, map_new, no_repetition, object_of, put_all,
    values_model, zip_entries, JsonEntries, JsonModel,
};
use crate::text::{
    address_checksum_text, address_to_text, base64_bytes, base64_encode, base64_text,
    decimal_text, function_to_text, int_to_decimal, lemma_base64_round_trip, prefixed_hex_text,
    signed_decimal_text, uint_to_decimal,
};
use crate::value::{
    array_bytes, decoded_models, lemma_models, strings_model, DecodedModel, DecodedValue,
};

verus! {

/// The JSON value of a decoded value.
///
/// Booleans stay booleans. Integers become their base-10 text, byte arrays
/// the base64 text of their bytes, addresses and function references their
/// textual form, strings stay as they are. Arrays and tuples become arrays of
/// their normalized items, in order. A named struct becomes the object that
/// stores each normalized value under its field name; the struct's own name
/// is dropped.
pub open spec fn normalized(v: DecodedModel) -> JsonModel
    decreases v,
{
    match v {
        DecodedModel::Bool(b) => JsonModel::Bool(b),
        DecodedModel::Int(value, _) => JsonModel::String(signed_decimal_text(value)),
        DecodedModel::Uint(value, _) => JsonModel::String(decimal_text(value)),
        DecodedModel::FixedBytes(word, size) => JsonModel::String(
            base64_text(array_bytes(word, size)),
        ),
        DecodedModel::Address(address) => JsonModel::String(address_checksum_text(address)),
        DecodedModel::Function(function) => JsonModel::String(prefixed_hex_text(function)),
        DecodedModel::Bytes(bytes) => JsonModel::String(base64_text(bytes)),
        DecodedModel::String(s) => JsonModel::String(s),
        DecodedModel::Array(items)
        | DecodedModel::FixedArray(items)
        | DecodedModel::Tuple(items) => JsonModel::Array(normalized_all(items)),
        DecodedModel::CustomStruct { name, prop_names, tuple } => JsonModel::Object(
            object_of(zip_entries(prop_names, normalized_all(tuple))),
        ),
    }
}

/// The JSON values of a list of decoded values, in the same order.
pub open spec fn normalized_all(items: Seq<DecodedModel>) -> Seq<JsonModel>
    decreases items,
{
    Seq::new(
        items.len(),
        |i: int|
            if 0 <= i < items.len() {
                normalized(items[i])
            } else {
                JsonModel::Bool(false)
            },
    )
}

/// The items of a decoded value that is an array, a fixed array or a tuple.
pub open spec fn sequence_items(v: DecodedModel) -> Option<Seq<DecodedModel>> {
    match v {
        DecodedModel::Array(items)
        | DecodedModel::FixedArray(items)
        | DecodedModel::Tuple(items) => Some(items),
        _ => None,
    }
}

/// `json` is the array of the normalized items, in their order.
pub open spec fn is_array_of(json: JsonModel, items: Seq<DecodedModel>) -> bool {
    &&& json matches JsonModel::Array(values)
    &&& values.len() == items.len()
    &&& forall|i: int| 0 <= i < items.len() ==> values[i] == normalized(#[trigger] items[i])
}

/// Normalization is defined on every decoded value and gives each kind its
/// shape: a boolean stays that boolean, every other primitive becomes a
/// string, an array or a tuple becomes an array of as many items, each the
/// normalized item at its position, and a named struct becomes an object
/// whose keys are its field names in their order, without repetitions. No
/// value becomes a null or a number.
pub proof fn lemma_normalized_shape(v: DecodedModel)
    ensures
        !(normalized(v) is Null) && !(normalized(v) is Number),
        v matches DecodedModel::Bool(b) ==> normalized(v) == JsonModel::Bool(b),
        v is Int || v is Uint || v is FixedBytes || v is Address || v is Function || v is Bytes
            || v is String ==> normalized(v) is String,
        v matches DecodedModel::String(s) ==> normalized(v) == JsonModel::String(s),
        sequence_items(v) matches Some(items) ==> is_array_of(normalized(v), items),
        v matches DecodedModel::CustomStruct { name, prop_names, tuple } ==> {
            &&& normalized(v) matches JsonModel::Object(entries)
            &&& distinct_keys(entries)
            &&& prop_names.len() == tuple.len() ==> keys_of(entries) == first_occurrences(
                prop_names,
            )
        },
{
    match v {
        DecodedModel::CustomStruct { name, prop_names, tuple } => {
            let pairs = zip_entries(prop_names, normalized_all(tuple));
            lemma_put_all_distinct(Seq::empty(), pairs);
            lemma_object_keys(pairs);
            if prop_names.len() == tuple.len() {
                assert(keys_of(pairs) =~= prop_names);
            }
        },
        _ => {},
    }
}

/// A named struct whose field names differ from one another and are as many
/// as its values becomes the object that holds, in order, each field name
/// with the normalized value at its position.
pub proof fn lemma_struct_alignment(
    name: Seq<char>,
    prop_names: Seq<Seq<char>>,
    tuple: Seq<DecodedModel>,
)
    requires
        prop_names.len() == tuple.len(),
        no_repetition(prop_names),
    ensures
        normalized(DecodedModel::CustomStruct { name, prop_names, tuple }) == JsonModel::Object(
            Seq::new(prop_names.len(), |i: int| (prop_names[i], normalized(tuple[i]))),
        ),
{
    let pairs = zip_entries(prop_names, normalized_all(tuple));
    assert(keys_of(pairs) =~= prop_names);
    lemma_object_of_distinct(pairs);
    assert(pairs =~= Seq::new(prop_names.len(), |i: int| (prop_names[i], normalized(tuple[i]))));
}

/// The text that a byte array normalizes to decodes back to the bytes of the
/// array: all bytes of a dynamic one, the first `size` bytes of the word of a
/// fixed-size one.
pub proof fn lemma_bytes_round_trip(v: DecodedModel)
    requires
        v is Bytes || v is FixedBytes,
    ensures
        normalized(v) is String,
        v matches DecodedModel::Bytes(bytes) ==> base64_bytes(normalized(v)->String_0) == bytes,
        v matches DecodedModel::FixedBytes(word, size) ==> base64_bytes(normalized(v)->String_0)
            == array_bytes(word, size),
{
    match v {
        DecodedModel::Bytes(bytes) => lemma_base64_round_trip(bytes),
        DecodedModel::FixedBytes(word, size) => lemma_base64_round_trip(array_bytes(word, size)),
        _ => {},
    }
}

/// Every object in a normalized value, at any depth, has distinct keys.
pub proof fn lemma_normalized_well_formed(v: DecodedModel)
    ensures
        normalized(v).well_formed(),
    decreases v,
{
    match v {
        DecodedModel::Array(items)
        | DecodedModel::FixedArray(items)
        | DecodedModel::Tuple(items) => {
            lemma_all_well_formed(items);
            assert(normalized(v) == JsonModel::Array(normalized_all(items)));
            assert(normalized_all(items).len() == items.len());
        },
        DecodedModel::CustomStruct { name, prop_names, tuple } => {
            let pairs = zip_entries(prop_names, normalized_all(tuple));
            lemma_all_well_formed(tuple);
            lemma_stored_well_formed(pairs);
        },
        _ => {},
    }
}

/// Each normalized value of a list is well formed.
pub proof fn lemma_all_well_formed(items: Seq<DecodedModel>)
    ensures
        forall|i: int|
            0 <= i < items.len() ==> (#[trigger] normalized_all(items)[i]).well_formed(),
    decreases items,
{
    assert forall|i: int| 0 <= i < items.len() implies (#[trigger] normalized_all(
        items,
    )[i]).well_formed() by {
        lemma_normalized_well_formed(items[i]);
    }
}

/// The object built from pairs with well-formed values is well formed.
pub proof fn lemma_stored_well_formed(pairs: JsonEntries)
    requires
        forall|i: int| 0 <= i < pairs.len() ==> (#[trigger] pairs[i]).1.well_formed(),
    ensures
        JsonModel::Object(object_of(pairs)).well_formed(),
{
    let entries = object_of(pairs);
    lemma_put_all_distinct(Seq::empty(), pairs);
    lemma_object_entries(Seq::empty(), pairs);
    assert forall|i: int| 0 <= i < entries.len() implies (#[trigger] entries[i]).1.well_formed(
    ) by {
        assert(pairs.contains(entries[i]));
        let j = choose|j: int| 0 <= j < pairs.len() && pairs[j] == entries[i];
        assert(pairs[j].1.well_formed());
    }
}

/// Converts a decoded value into its JSON value.
pub fn dyn_sol_to_json(val: DecodedValue) -> (json: Value)
    ensures
        json_model(json) == normalized(val@),
{
    normalize(&val)
}

/// Converts a decoded value, read in place, into its JSON value.
pub fn normalize(val: &DecodedValue) -> (json: Value)
    ensures
        json_model(json) == normalized(val@),
    decreases val,
{
    match val {
        DecodedValue::Bool(b) => json_bool(*b),
        DecodedValue::Int(word, _) => json_string(int_to_decimal(word)),
        DecodedValue::Uint(word, _) => json_string(uint_to_decimal(word)),
        DecodedValue::FixedBytes(word, size) => {
            let length: usize = if *size <= 32 {
                *size
            } else {
                32
            };
            let bytes = slice_subrange(word.as_slice(), 0, length);
            assert(bytes@ =~= array_bytes(word@, *size as nat));
            json_string(base64_encode(bytes))
        },
        DecodedValue::Address(address) => json_string(address_to_text(address)),
        DecodedValue::Function(function) => json_string(function_to_text(function)),
        DecodedValue::Bytes(bytes) => json_string(base64_encode(bytes.as_slice())),
        DecodedValue::String(s) => json_string(s.clone()),
        DecodedValue::Array(items)
        | DecodedValue::FixedArray(items)
        | DecodedValue::Tuple(items) => {
            proof {
                lemma_models(items);
            }
            json_array(normalize_all(items))
        },
        DecodedValue::CustomStruct { name: _, prop_names, tuple } => {
            let mut map = map_new();
            store_members(&mut map, prop_names, tuple);
            proof {
                lemma_models(tuple);
            }
            json_object(map)
        },
    }
}

/// Converts each value of a list, in order.
pub fn normalize_all(items: &Vec<DecodedValue>) -> (values: Vec<Value>)
    ensures
        values_model(values@) == normalized_all(decoded_models(items@)),
    decreases items,
{
    let mut values: Vec<Value> = Vec::new();
    let mut i: usize = 0;
    while i < items.len()
        invariant
            i <= items.len(),
            values.len() == i,
            forall|j: int|
                0 <= j < i ==> json_model(#[trigger] values[j]) == normalized(items[j]@),
        decreases items.len() - i,
    {
        let value = normalize(&items[i]);
        values.push(value);
        i += 1;
    }
    assert(values_model(values@) =~= normalized_all(decoded_models(items@)));
    values
}

/// Stores the normalized value of each decoded value under the key at the
/// same position, in order, for as many positions as both lists have.
pub fn store_members(
    map: &mut serde_json::Map<String, Value>,
    keys: &Vec<String>,
    values: &Vec<DecodedValue>,
)
    ensures
        map_entries(*final(map)) == put_all(
            map_entries(*old(map)),
            zip_entries(strings_model(keys@), normalized_all(decoded_models(values@))),
        ),
    decreases values,
{
    let ghost pairs = zip_entries(strings_model(keys@), normalized_all(decoded_models(values@)));
    let ghost start = map_entries(*map);
    let mut i: usize = 0;
    while i < keys.len() && i < values.len()
        invariant
            i <= keys.len(),
            i <= values.len(),
            pairs == zip_entries(strings_model(keys@), normalized_all(decoded_models(values@))),
            map_entries(*map) == put_all(start, pairs.take(i as int)),
        decreases values.len() - i,
    {
        let value = normalize(&values[i]);
        proof {
            assert(pairs.take(i + 1).drop_last() =~= pairs.take(i as int));
            assert(pairs.take(i + 1).last() == (keys[i as int]@, json_model(value)));
        }
        map_insert(map, keys[i].clone(), value);
        i += 1;
    }
    assert(pairs.take(i as int) =~= pairs);
}

} // verus!
