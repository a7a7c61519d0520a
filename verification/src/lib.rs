//! A parser for the message (`BO_`) and signal (`SG_`) records of the CAN-bus
//! DBC text format.
//!
//! The crate works on raw bytes and is a pure function of them: a call takes
//! the input at the start of a record and hands back the record and the input
//! behind it, or the failure of the first step that failed.
//!
//! * [`primitives`] holds the leaf recognizers and [`number`] the decimal
//!   numbers;
//! * [`grammar`] composes them into the two-line record;
//! * [`model`] holds the record and [`error`] the failures;
//! * [`layout`] says how a record is written, and [`laws`] proves that the
//!   parser reads exactly what is written that way.
pub mod error;
pub mod grammar;
pub mod laws;
pub mod layout;
pub mod model;
pub mod number;
pub mod primitives;

pub use error::{ErrorKind, ErrorKindView};
pub use grammar::parse_message;
pub use model::{ByteOrder, Definition, DefinitionView, Sign};
