//! The interface description as the parser reads it: the event definitions of
//! a contract ABI, their selectors, and the decoding of a log against one of them.

use alloy_dyn_abi::{DynSolValue, EventExt};
use alloy_json_abi::{EventParam, JsonAbi};
use alloy_primitives::B256;
use vstd::prelude::*;

use crate::value::{decoded_models, DecodedModel, DecodedValue};

verus! {

/// The interface description of a contract, held as the outside crate gives it.
#[verifier::external_type_specification]
#[verifier::external_body]
pub struct ExJsonAbi(alloy_json_abi::JsonAbi);

/// The diagnostic of a failed decoding.
#[verifier::external_type_specification]
#[verifier::external_body]
pub struct ExDecodeError(alloy_dyn_abi::Error);

/// A decoded value as the decoder returns it.
#[verifier::external_type_specification]
#[verifier::external_body]
pub struct ExDynSolValue(alloy_dyn_abi::DynSolValue);

/// One parameter of an event: its name and whether it is indexed.
#[derive(Debug, PartialEq, Eq)]
pub struct EventParameter {
    pub name: String,
    pub indexed: bool,
}

/// What the parser reads of an event definition besides its selector: the
/// event's name and its parameters in declaration order.
#[derive(Debug, PartialEq, Eq)]
pub struct EventDefinition {
    pub name: String,
    pub inputs: Vec<EventParameter>,
}

/// The mathematical model of an [`EventParameter`].
pub ghost struct ParameterModel {
    pub name: Seq<char>,
    pub indexed: bool,
}

/// The mathematical model of an event definition of an interface description.
pub ghost struct EventModel {
    pub name: Seq<char>,
    pub selector: Seq<u8>,
    pub inputs: Seq<ParameterModel>,
}

impl View for EventParameter {
    type V = ParameterModel;

    open spec fn view(&self) -> ParameterModel {
        ParameterModel { name: self.name@, indexed: self.indexed }
    }
}

/// The models of a list of parameters, in the same order.
pub open spec fn parameters_model(inputs: Seq<EventParameter>) -> Seq<ParameterModel> {
    Seq::new(inputs.len(), |i: int| inputs[i]@)
}

/// The names of the parameters whose `indexed` flag is `indexed`, in
/// declaration order.
pub open spec fn names_where(inputs: Seq<ParameterModel>, indexed: bool) -> Seq<Seq<char>>
    decreases inputs.len(),
{
    if inputs.len() == 0 {
        Seq::empty()
    } else if inputs.last().indexed == indexed {
        names_where(inputs.drop_last(), indexed).push(inputs.last().name)
    } else {
        names_where(inputs.drop_last(), indexed)
    }
}

/// The names of all parameters as a record holds them: those of the indexed
/// parameters first, then those of the body parameters.
pub open spec fn declared_names(inputs: Seq<ParameterModel>) -> Seq<Seq<char>> {
    names_where(inputs, true) + names_where(inputs, false)
}

/// The values decoded from one log: those of the indexed parameters and
/// those of the body parameters, each in declaration order.
#[derive(Debug, PartialEq, Eq)]
pub struct DecodedLog {
    pub indexed: Vec<DecodedValue>,
    pub body: Vec<DecodedValue>,
}

/// The mathematical model of a [`DecodedLog`].
pub ghost struct DecodedLogModel {
    pub indexed: Seq<DecodedModel>,
    pub body: Seq<DecodedModel>,
}

impl View for DecodedLog {
    type V = DecodedLogModel;

    open spec fn view(&self) -> DecodedLogModel {
        DecodedLogModel {
            indexed: decoded_models(self.indexed@),
            body: decoded_models(self.body@),
        }
    }
}

/// The views of a list of 32-byte words, in the same order.
pub open spec fn words_model(words: Seq<[u8; 32]>) -> Seq<Seq<u8>> {
    Seq::new(words.len(), |i: int| words[i]@)
}

/// The model of the outcome of a decoding.
pub open spec fn decoding_model(
    outcome: Result<DecodedLog, alloy_dyn_abi::Error>,
) -> Result<DecodedLogModel, alloy_dyn_abi::Error> {
    match outcome {
        Ok(decoded) => Ok(decoded@),
        Err(error) => Err(error),
    }
}

/// The decoded values are one for each indexed parameter and one for each
/// body parameter.
pub open spec fn counts_match(inputs: Seq<ParameterModel>, decoded: DecodedLogModel) -> bool {
    &&& decoded.indexed.len() == names_where(inputs, true).len()
    &&& decoded.body.len() == names_where(inputs, false).len()
}

/// What the decoder gives of the number of values: one indexed value for
/// each indexed parameter, and either one body value for each body parameter
/// or no body value at all, which is its answer where every body parameter
/// is of a type without content.
pub open spec fn counts_decoded(inputs: Seq<ParameterModel>, decoded: DecodedLogModel) -> bool {
    &&& decoded.indexed.len() == names_where(inputs, true).len()
    &&& decoded.body.len() == names_where(inputs, false).len() || decoded.body.len() == 0
}

/// The event definitions that an interface description holds, in the order
/// in which it hands them out.
pub uninterp spec fn abi_events(abi: JsonAbi) -> Seq<EventModel>;

/// The outcome of decoding a log's topics and data against the event
/// definition at a position of an interface description. The decoder holds
/// the topics to the definition: their number, and the selector in the first.
pub uninterp spec fn log_decoding(
    abi: JsonAbi,
    index: int,
    topics: Seq<Seq<u8>>,
    data: Seq<u8>,
) -> Result<DecodedLogModel, alloy_dyn_abi::Error>;

/// The selectors of a list of event definitions, in the same order.
pub open spec fn selectors_of(events: Seq<EventModel>) -> Seq<Seq<u8>> {
    Seq::new(events.len(), |i: int| events[i].selector)
}

/// Calls `JsonAbi::events` and, on each event in the order of that iterator,
/// `Event::selector`. The contract claims that the words are the selectors
/// of the description's event definitions, position by position.
#[verifier::external_body]
pub(crate) fn event_selectors(abi: &JsonAbi) -> (selectors: Vec<[u8; 32]>)
    ensures
        words_model(selectors@) == selectors_of(abi_events(*abi)),
{
    abi.events().map(|event| event.selector().0).collect()
}

/// Reads the event at a position of `JsonAbi::events` and copies its name
/// and the name and `indexed` flag of each of its inputs. The contract claims
/// that these are the name and the parameters of the event definition at
/// that position.
#[verifier::external_body]
pub(crate) fn event_definition(abi: &JsonAbi, index: usize) -> (definition: EventDefinition)
    requires
        index < abi_events(*abi).len(),
    ensures
        definition.name@ == abi_events(*abi)[index as int].name,
        parameters_model(definition.inputs@) == abi_events(*abi)[index as int].inputs,
{
    let event = abi.events().nth(index).unwrap();
    let parameter = |input: &EventParam| EventParameter {
        name: input.name.clone(),
        indexed: input.indexed,
    };
    let inputs = event.inputs.iter().map(parameter).collect();
    EventDefinition { name: event.name.clone(), inputs }
}

/// Calls `EventExt::decode_log_parts` on the event at a position of
/// `JsonAbi::events`, and converts each decoded value with
/// `from_decoder_value`. The contract names the outcome and claims that it
/// depends on the description, the position, the topics and the data alone.
/// Of a successful decoding it claims that it holds one indexed value for
/// each indexed parameter, and either one body value for each body parameter
/// or none. The decoder answers malformed data with an error: it checks the
/// sums and products that it forms from lengths read in the data.
#[verifier::external_body]
pub(crate) fn decode_log(
    abi: &JsonAbi,
    index: usize,
    topics: &Vec<[u8; 32]>,
    data: &Vec<u8>,
) -> (outcome: Result<DecodedLog, alloy_dyn_abi::Error>)
    requires
        index < abi_events(*abi).len(),
    ensures
        decoding_model(outcome) == log_decoding(*abi, index as int, words_model(topics@), data@),
        outcome matches Ok(decoded) ==> counts_decoded(
            abi_events(*abi)[index as int].inputs,
            decoded@,
        ),
{
    let event = abi.events().nth(index).unwrap();
    let words = topics.iter().map(|topic| B256::from(*topic));
    let decoded = event.decode_log_parts(words, data)?;
    Ok(DecodedLog {
        indexed: decoded.indexed.into_iter().map(from_decoder_value).collect(),
        body: decoded.body.into_iter().map(from_decoder_value).collect(),
    })
}

/// Takes a `DynSolValue` apart, variant by variant, into the library's own
/// value. Nothing is claimed of the result.
#[verifier::external_body]
pub(crate) fn from_decoder_value(value: DynSolValue) -> DecodedValue {
    match value {
        DynSolValue::Bool(b) => DecodedValue::Bool(b),
        DynSolValue::Int(i, bits) => DecodedValue::Int(i.to_be_bytes(), bits),
        DynSolValue::Uint(u, bits) => DecodedValue::Uint(u.to_be_bytes(), bits),
        DynSolValue::FixedBytes(word, size) => DecodedValue::FixedBytes(word.0, size),
        DynSolValue::Address(address) => DecodedValue::Address(address.0.0),
        DynSolValue::Function(function) => DecodedValue::Function(function.0.0),
        DynSolValue::Bytes(bytes) => DecodedValue::Bytes(bytes),
        DynSolValue::String(s) => DecodedValue::String(s),
        other => from_decoder_sequence(other),
    }
}

/// Takes a `DynSolValue` that holds other values apart, converting each of
/// them in turn. Nothing is claimed of the result.
#[verifier::external_body]
pub(crate) fn from_decoder_sequence(value: DynSolValue) -> DecodedValue {
    let each = |items: Vec<DynSolValue>| items.into_iter().map(from_decoder_value).collect();
    match value {
        DynSolValue::Array(items) => DecodedValue::Array(each(items)),
        DynSolValue::FixedArray(items) => DecodedValue::FixedArray(each(items)),
        DynSolValue::Tuple(items) => DecodedValue::Tuple(each(items)),
        DynSolValue::CustomStruct { name, prop_names, tuple } => {
            DecodedValue::CustomStruct { name, prop_names, tuple: each(tuple) }
        },
        other => from_decoder_value(other),
    }
}

} // verus!
