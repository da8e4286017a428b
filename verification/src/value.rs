//! Decoded ABI values: one variant per type category of the contract ABI.

use vstd::prelude::*;

use crate::text::{signed_value, unsigned_value};

verus! {

/// A value decoded from a log, tagged by its ABI type category.
///
/// Integers are held as the 32-byte big-endian word of the ABI encoding
/// (two's complement for signed ones) together with their declared bit width.
#[derive(Debug, PartialEq, Eq)]
pub enum DecodedValue {
    /// A boolean.
    Bool(bool),
    /// A signed integer: its word and its width in bits.
    Int([u8; 32], usize),
    /// An unsigned integer: its word and its width in bits.
    Uint([u8; 32], usize),
    /// A fixed-size byte array: the word that holds its bytes at the front,
    /// and its length in bytes.
    FixedBytes([u8; 32], usize),
    /// An address.
    Address([u8; 20]),
    /// A function reference: an address followed by a four-byte selector.
    Function([u8; 24]),
    /// A dynamic byte array.
    Bytes(Vec<u8>),
    /// A UTF-8 string.
    String(String),
    /// A dynamically sized array.
    Array(Vec<DecodedValue>),
    /// A fixed-size array.
    FixedArray(Vec<DecodedValue>),
    /// A tuple.
    Tuple(Vec<DecodedValue>),
    /// A named struct: its field names aligned with the values of its tuple.
    CustomStruct { name: String, prop_names: Vec<String>, tuple: Vec<DecodedValue> },
}

/// The mathematical model of a [`DecodedValue`].
pub ghost enum DecodedModel {
    Bool(bool),
    /// The integer's value and its width in bits.
    Int(int, nat),
    /// The integer's value and its width in bits.
    Uint(nat, nat),
    /// The bytes of the word and the array's length.
    FixedBytes(Seq<u8>, nat),
    Address(Seq<u8>),
    Function(Seq<u8>),
    Bytes(Seq<u8>),
    String(Seq<char>),
    Array(Seq<DecodedModel>),
    FixedArray(Seq<DecodedModel>),
    Tuple(Seq<DecodedModel>),
    CustomStruct { name: Seq<char>, prop_names: Seq<Seq<char>>, tuple: Seq<DecodedModel> },
}

/// The bytes of a fixed-size byte array: the first `size` bytes of the word
/// that holds it, and the whole word where `size` exceeds the word's length.
pub open spec fn array_bytes(word: Seq<u8>, size: nat) -> Seq<u8> {
    if size <= word.len() {
        word.take(size as int)
    } else {
        word
    }
}

/// The views of a list of strings, in the same order.
pub open spec fn strings_model(strings: Seq<String>) -> Seq<Seq<char>> {
    Seq::new(strings.len(), |i: int| strings[i]@)
}

/// The models of a list of decoded values, in the same order.
pub open spec fn decoded_models(values: Seq<DecodedValue>) -> Seq<DecodedModel> {
    Seq::new(values.len(), |i: int| values[i]@)
}

impl DecodedValue {
    /// The value as its mathematical model.
    pub open spec fn model(&self) -> DecodedModel
        decreases self,
    {
        match self {
            DecodedValue::Bool(b) => DecodedModel::Bool(*b),
            DecodedValue::Int(word, bits) => DecodedModel::Int(signed_value(word@), *bits as nat),
            DecodedValue::Uint(word, bits) => DecodedModel::Uint(
                unsigned_value(word@),
                *bits as nat,
            ),
            DecodedValue::FixedBytes(word, size) => DecodedModel::FixedBytes(word@, *size as nat),
            DecodedValue::Address(bytes) => DecodedModel::Address(bytes@),
            DecodedValue::Function(bytes) => DecodedModel::Function(bytes@),
            DecodedValue::Bytes(bytes) => DecodedModel::Bytes(bytes@),
            DecodedValue::String(s) => DecodedModel::String(s@),
            DecodedValue::Array(items) => DecodedModel::Array(Self::models(items)),
            DecodedValue::FixedArray(items) => DecodedModel::FixedArray(Self::models(items)),
            DecodedValue::Tuple(items) => DecodedModel::Tuple(Self::models(items)),
            DecodedValue::CustomStruct { name, prop_names, tuple } => DecodedModel::CustomStruct {
                name: name@,
                prop_names: strings_model(prop_names@),
                tuple: Self::models(tuple),
            },
        }
    }

    /// The models of the values of a list, in the same order.
    pub open spec fn models(items: &Vec<DecodedValue>) -> Seq<DecodedModel>
        decreases items,
    {
        Seq::new(
            items.len() as nat,
            |i: int|
                if 0 <= i < items.len() {
                    items[i].model()
                } else {
                    DecodedModel::Bool(false)
                },
        )
    }
}

impl View for DecodedValue {
    type V = DecodedModel;

    open spec fn view(&self) -> DecodedModel {
        self.model()
    }
}

/// The models of the values of a list are the models of the list's view.
pub proof fn lemma_models(items: &Vec<DecodedValue>)
    ensures
        DecodedValue::models(items) == decoded_models(items@),
{
    assert(DecodedValue::models(items) =~= decoded_models(items@));
}

} // verus!
