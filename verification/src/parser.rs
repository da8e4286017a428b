//! The event parser: from an interface description and a raw log to a named
//! event record, or to a classified failure.

use alloy_json_abi::JsonAbi;
use serde_json::Value;
use vstd::prelude::*;

use crate::abi::{
    abi_events, counts_decoded, counts_match, decode_log, declared_names, event_definition,
    event_selectors, log_decoding, names_where, parameters_model, selectors_of, words_model,
    DecodedLog, DecodedLogModel, EventDefinition, EventModel, EventParameter, ParameterModel,
};
use crate::json::{
    first_occurrences, json_model, json_object, keys_of, lemma_object_keys,
    lemma_object_of_distinct, lemma_put_all_append, map_new, no_repetition, object_of,
    zip_entries, JsonEntries, JsonModel,
};
use crate::normalize::{
    lemma_all_well_formed, lemma_stored_well_formed, normalized_all, store_members,
};
use crate::value::strings_model;

verus! {

/// A raw log: its topics, the first of which is the event's selector, and
/// its data, the ABI encoding of the body parameters.
#[derive(Debug, PartialEq, Eq)]
pub struct RawLog {
    pub topics: Vec<[u8; 32]>,
    pub data: Vec<u8>,
}

/// A decoded event which is self-describing through its string keys.
#[derive(Debug, PartialEq, Eq)]
pub struct KeyedEvent {
    /// The name of the event.
    name: String,
    /// The data of the emitted event, both indexed and body: an object that
    /// holds each normalized value under its parameter's name.
    data: Value,
}

/// The mathematical model of a [`KeyedEvent`].
pub ghost struct KeyedEventModel {
    pub name: Seq<char>,
    pub data: JsonModel,
}

impl View for KeyedEvent {
    type V = KeyedEventModel;

    closed spec fn view(&self) -> KeyedEventModel {
        KeyedEventModel { name: self.name@, data: json_model(self.data) }
    }
}

/// Why a log could not be parsed.
#[derive(Debug, PartialEq)]
pub enum ParsingError {
    /// No event definition of the interface description has the log's
    /// selector. This might indicate an ABI mismatch.
    UnknownEvent { selector: [u8; 32] },
    /// An event definition has the log's selector, yet decoding failed. This
    /// might indicate an out-of-date ABI.
    DecodingError(alloy_dyn_abi::Error),
}

/// Each parameter paired with its decoded value: the indexed parameters
/// first, then the body parameters, each group in declaration order.
pub open spec fn named_values(
    inputs: Seq<ParameterModel>,
    decoded: DecodedLogModel,
) -> JsonEntries {
    zip_entries(names_where(inputs, true), normalized_all(decoded.indexed)) + zip_entries(
        names_where(inputs, false),
        normalized_all(decoded.body),
    )
}

/// The record of an event: its name, and the object that stores each
/// normalized value under its parameter's name.
pub open spec fn assembled(
    name: Seq<char>,
    inputs: Seq<ParameterModel>,
    decoded: DecodedLogModel,
) -> KeyedEventModel {
    KeyedEventModel { name, data: JsonModel::Object(object_of(named_values(inputs, decoded))) }
}

/// The keys of a record's data, in the order in which the object holds them.
pub open spec fn record_keys(event: KeyedEventModel) -> Seq<Seq<char>> {
    keys_of(event.data->Object_0)
}

/// The keys of an event's record are the names of its parameters, those of
/// the indexed parameters first and those of the body parameters after them,
/// each group in declaration order. A name that is declared more than once
/// is held once, at the place of its first occurrence; names that differ
/// from one another are held exactly as declared.
pub proof fn lemma_record_keys(
    name: Seq<char>,
    inputs: Seq<ParameterModel>,
    decoded: DecodedLogModel,
)
    requires
        counts_match(inputs, decoded),
    ensures
        assembled(name, inputs, decoded).data is Object,
        record_keys(assembled(name, inputs, decoded)) == first_occurrences(declared_names(inputs)),
        no_repetition(declared_names(inputs)) ==> record_keys(assembled(name, inputs, decoded))
            == declared_names(inputs),
        forall|key: Seq<char>|
            record_keys(assembled(name, inputs, decoded)).contains(key) <==> declared_names(
                inputs,
            ).contains(key),
{
    let pairs = named_values(inputs, decoded);
    assert(keys_of(pairs) =~= declared_names(inputs));
    lemma_object_keys(pairs);
    if no_repetition(declared_names(inputs)) {
        lemma_object_of_distinct(pairs);
    }
}

/// Where the decoder gave no body value, the keys of an event's record are
/// the names of its indexed parameters alone.
pub proof fn lemma_record_keys_without_body(
    name: Seq<char>,
    inputs: Seq<ParameterModel>,
    decoded: DecodedLogModel,
)
    requires
        decoded.indexed.len() == names_where(inputs, true).len(),
        decoded.body.len() == 0,
    ensures
        record_keys(assembled(name, inputs, decoded)) == first_occurrences(
            names_where(inputs, true),
        ),
{
    let pairs = named_values(inputs, decoded);
    assert(keys_of(pairs) =~= names_where(inputs, true));
    lemma_object_keys(pairs);
}

/// The data of an event's record is well formed: neither the record nor any
/// object inside it holds a key twice.
pub proof fn lemma_record_well_formed(
    name: Seq<char>,
    inputs: Seq<ParameterModel>,
    decoded: DecodedLogModel,
)
    ensures
        assembled(name, inputs, decoded).data.well_formed(),
{
    let pairs = named_values(inputs, decoded);
    lemma_all_well_formed(decoded.indexed);
    lemma_all_well_formed(decoded.body);
    lemma_stored_well_formed(pairs);
}

/// Some selector of the list is the given one.
pub open spec fn has_match(selectors: Seq<Seq<u8>>, selector: Seq<u8>) -> bool {
    exists|i: int| 0 <= i < selectors.len() && #[trigger] selectors[i] == selector
}

/// `i` is the first position at which the list holds the given selector.
pub open spec fn is_first_match(selectors: Seq<Seq<u8>>, selector: Seq<u8>, i: int) -> bool {
    &&& 0 <= i < selectors.len()
    &&& selectors[i] == selector
    &&& forall|j: int| 0 <= j < i ==> #[trigger] selectors[j] != selector
}

/// The first position at which the list holds the given selector, if it
/// holds it at all.
pub open spec fn first_match(selectors: Seq<Seq<u8>>, selector: Seq<u8>) -> Option<int> {
    if has_match(selectors, selector) {
        Some(choose|i: int| is_first_match(selectors, selector, i))
    } else {
        None
    }
}

/// The position of the first event definition that has the selector, if any has it.
pub open spec fn matching_event(events: Seq<EventModel>, selector: Seq<u8>) -> Option<int> {
    first_match(selectors_of(events), selector)
}

/// `result` is what parsing gives for a log whose selector matched `event`
/// and whose decoding against it had the outcome `decoding`.
pub open spec fn parsed_with(
    event: EventModel,
    decoding: Result<DecodedLogModel, alloy_dyn_abi::Error>,
    result: Result<KeyedEvent, ParsingError>,
) -> bool {
    match decoding {
        Err(error) => result == Err::<KeyedEvent, ParsingError>(
            ParsingError::DecodingError(error),
        ),
        Ok(decoded) => result is Ok && result->Ok_0@ == assembled(
            event.name,
            event.inputs,
            decoded,
        ),
    }
}

/// Whether two 32-byte words hold the same bytes.
pub fn words_equal(a: &[u8; 32], b: &[u8; 32]) -> (equal: bool)
    ensures
        equal == (a@ == b@),
{
    let mut i: usize = 0;
    while i < 32
        invariant
            i <= 32,
            forall|j: int| 0 <= j < i ==> a@[j] == b@[j],
        decreases 32 - i,
    {
        if a[i] != b[i] {
            return false;
        }
        i += 1;
    }
    assert(a@ =~= b@);
    true
}

/// Looks a selector up in a list of selectors, byte for byte: the first
/// position that holds it, or nothing where none does.
pub fn position_of(selectors: &Vec<[u8; 32]>, selector: &[u8; 32]) -> (found: Option<usize>)
    ensures
        found is Some <==> has_match(words_model(selectors@), selector@),
        found matches Some(i) ==> is_first_match(words_model(selectors@), selector@, i as int),
        match found {
            Some(i) => first_match(words_model(selectors@), selector@) == Some(i as int),
            None => first_match(words_model(selectors@), selector@) is None,
        },
{
    let ghost words = words_model(selectors@);
    let mut i: usize = 0;
    while i < selectors.len()
        invariant
            i <= selectors.len(),
            words == words_model(selectors@),
            forall|j: int| 0 <= j < i ==> #[trigger] words[j] != selector@,
        decreases selectors.len() - i,
    {
        if words_equal(&selectors[i], selector) {
            proof {
                assert(is_first_match(words, selector@, i as int));
                let c = choose|c: int| is_first_match(words, selector@, c);
                assert(c == i);
            }
            return Some(i);
        }
        i += 1;
    }
    None
}

/// The names of the parameters whose `indexed` flag is `indexed`, in
/// declaration order.
pub fn parameter_names(inputs: &Vec<EventParameter>, indexed: bool) -> (names: Vec<String>)
    ensures
        strings_model(names@) == names_where(parameters_model(inputs@), indexed),
{
    let ghost all = parameters_model(inputs@);
    let mut names: Vec<String> = Vec::new();
    let mut i: usize = 0;
    assert(strings_model(names@) =~= names_where(all.take(0), indexed));
    while i < inputs.len()
        invariant
            i <= inputs.len(),
            all == parameters_model(inputs@),
            strings_model(names@) == names_where(all.take(i as int), indexed),
        decreases inputs.len() - i,
    {
        let ghost before = strings_model(names@);
        proof {
            assert(all.take(i + 1).drop_last() =~= all.take(i as int));
            assert(all.take(i + 1).last() == inputs[i as int]@);
        }
        if inputs[i].indexed == indexed {
            names.push(inputs[i].name.clone());
            assert(strings_model(names@) =~= before.push(inputs[i as int].name@));
        }
        i += 1;
    }
    assert(all.take(i as int) =~= all);
    names
}

/// Builds the record of an event from its definition and its decoded values.
///
/// Each indexed parameter is paired with the indexed value at its position
/// among the indexed parameters, each body parameter with the body value at
/// its position among the body parameters. The pairs are stored indexed
/// first, each value normalized, under the parameter's name.
pub fn assemble_event(definition: &EventDefinition, decoded: &DecodedLog) -> (event: KeyedEvent)
    ensures
        event@ == assembled(definition.name@, parameters_model(definition.inputs@), decoded@),
{
    let indexed_names = parameter_names(&definition.inputs, true);
    let body_names = parameter_names(&definition.inputs, false);
    let mut map = map_new();
    store_members(&mut map, &indexed_names, &decoded.indexed);
    store_members(&mut map, &body_names, &decoded.body);
    proof {
        let inputs = parameters_model(definition.inputs@);
        lemma_put_all_append(
            Seq::empty(),
            zip_entries(names_where(inputs, true), normalized_all(decoded@.indexed)),
            zip_entries(names_where(inputs, false), normalized_all(decoded@.body)),
        );
    }
    KeyedEvent { name: definition.name.clone(), data: json_object(map) }
}

/// Concludes the parsing of a log from the outcome of its decoding against
/// the definition that its selector matched: the decoder's failure becomes a
/// decoding error that carries it, its values become the event's record.
pub fn event_from_decoding(
    definition: &EventDefinition,
    outcome: Result<DecodedLog, alloy_dyn_abi::Error>,
) -> (result: Result<KeyedEvent, ParsingError>)
    ensures
        match outcome {
            Err(error) => result == Err::<KeyedEvent, ParsingError>(
                ParsingError::DecodingError(error),
            ),
            Ok(decoded) => result is Ok && result->Ok_0@ == assembled(
                definition.name@,
                parameters_model(definition.inputs@),
                decoded@,
            ),
        },
{
    match outcome {
        Err(error) => Err(ParsingError::DecodingError(error)),
        Ok(decoded) => Ok(assemble_event(&definition, &decoded)),
    }
}

impl KeyedEvent {
    /// A record of the given name and data.
    pub fn new(name: String, data: Value) -> (event: Self)
        ensures
            event@ == (KeyedEventModel { name: name@, data: json_model(data) }),
    {
        Self { name, data }
    }

    /// The name of the event.
    pub fn name(&self) -> (name: &String)
        ensures
            name@ == self@.name,
    {
        &self.name
    }

    /// The data of the event.
    pub fn data(&self) -> (data: &Value)
        ensures
            json_model(*data) == self@.data,
    {
        &self.data
    }
}

/// A parser of the logs of one contract, over the contract's interface description.
pub struct Parser<'a> {
    abi: &'a JsonAbi,
}

impl<'a> Parser<'a> {
    /// The interface description that the parser reads.
    pub closed spec fn description(&self) -> JsonAbi {
        *self.abi
    }

    /// The event definitions of the parser's interface description.
    pub open spec fn events(&self) -> Seq<EventModel> {
        abi_events(self.description())
    }

    /// A parser over an interface description, which it borrows.
    pub fn new(abi: &'a JsonAbi) -> (parser: Self)
        ensures
            parser.description() == *abi,
    {
        Self { abi }
    }

    /// The position of the first event definition that has the selector.
    pub fn find_event(&self, selector: &[u8; 32]) -> (found: Option<usize>)
        ensures
            found matches Some(i) ==> i < self.events().len(),
            match found {
                Some(i) => matching_event(self.events(), selector@) == Some(i as int),
                None => matching_event(self.events(), selector@) is None,
            },
    {
        let selectors = event_selectors(self.abi);
        position_of(&selectors, selector)
    }

    /// The outcome of decoding a log against the event definition at a
    /// position of the parser's interface description.
    pub open spec fn decoding(
        &self,
        log: &RawLog,
        i: int,
    ) -> Result<DecodedLogModel, alloy_dyn_abi::Error> {
        log_decoding(self.description(), i, words_model(log.topics@), log.data@)
    }

    /// Parses a log into the record of the event that it carries.
    ///
    /// The log's first topic selects the event definition. Without a
    /// definition of that selector the log is an unknown event, and the error
    /// carries the selector. With one, the log is decoded against the first
    /// such definition: a failure of the decoder is returned as it is, and
    /// success gives the event's record.
    ///
    /// The record's data is well formed. Its keys are the names of the
    /// indexed parameters and then those of the body parameters, each at its
    /// first occurrence, where the decoder gave a value for each of them, and
    /// the names of the indexed parameters alone where it gave no body value.
    /// One of the two is always the case.
    pub fn parse(&self, log: &RawLog) -> (result: Result<KeyedEvent, ParsingError>)
        requires
            log.topics@.len() >= 1,
        ensures
            match matching_event(self.events(), log.topics@[0]@) {
                None => result == Err::<KeyedEvent, ParsingError>(
                    ParsingError::UnknownEvent { selector: log.topics@[0] },
                ),
                Some(i) => parsed_with(self.events()[i], self.decoding(log, i), result),
            },
            result matches Ok(event) ==> {
                &&& matching_event(self.events(), log.topics@[0]@) matches Some(i)
                &&& self.decoding(log, i) matches Ok(decoded)
                &&& event@.name == self.events()[i].name
                &&& event@.data.well_formed()
                &&& counts_decoded(self.events()[i].inputs, decoded)
                &&& counts_match(self.events()[i].inputs, decoded) ==> record_keys(event@)
                    == first_occurrences(declared_names(self.events()[i].inputs))
                &&& counts_match(self.events()[i].inputs, decoded) && no_repetition(
                    declared_names(self.events()[i].inputs),
                ) ==> record_keys(event@) == declared_names(self.events()[i].inputs)
                &&& decoded.body.len() == 0 ==> record_keys(event@) == first_occurrences(
                    names_where(self.events()[i].inputs, true),
                )
            },
    {
        let selector = log.topics[0];
        match self.find_event(&selector) {
            None => Err(ParsingError::UnknownEvent { selector }),
            Some(index) => {
                let definition = event_definition(self.abi, index);
                let outcome = decode_log(self.abi, index, &log.topics, &log.data);
                proof {
                    if outcome is Ok {
                        let event = self.events()[index as int];
                        let decoded = outcome->Ok_0@;
                        lemma_record_well_formed(event.name, event.inputs, decoded);
                        if counts_match(event.inputs, decoded) {
                            lemma_record_keys(event.name, event.inputs, decoded);
                        }
                        if decoded.body.len() == 0 {
                            lemma_record_keys_without_body(event.name, event.inputs, decoded);
                        }
                    }
                }
                event_from_decoding(&definition, outcome)
            },
        }
    }
}

} // verus!
