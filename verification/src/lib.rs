//! Decoding of contract event logs into self-describing, name-keyed records.
//!
//! A raw log (topics plus data) is matched against the event definitions of an
//! interface description, decoded, and every decoded value is normalized into
//! a JSON-like value keyed by its parameter name.

pub mod abi;
pub mod json;
pub mod normalize;
pub mod parser;
pub mod text;
pub mod value;

pub use json::JsonModel;
pub use normalize::dyn_sol_to_json;
pub use parser::{KeyedEvent, Parser, ParsingError, RawLog};
pub use value::{DecodedModel, DecodedValue};
