//! The data of a record: the message with its signal, and the two closed
//! sets that describe how a signal is laid out.
use crate::grammar::COLON;
use crate::number::is_decimal;
use crate::primitives::{free_of, same_bytes, LINE_FEED};
use vstd::prelude::*;

verus! {

/// Whether a signal's raw value is read as a signed or an unsigned integer.
#[derive(Debug, Clone, Copy, PartialEq, Eq, Structural, PartialOrd, Ord, Hash)]
pub enum Sign {
    Signed,
    Unsigned,
}

/// The bit-numbering convention of a signal: `@1` is little-endian and `@0`
/// is big-endian in the format's own notation.
#[derive(Debug, Clone, Copy, PartialEq, Eq, Structural, PartialOrd, Ord, Hash)]
pub enum ByteOrder {
    LittleEndian,
    BigEndian,
}

impl View for Sign {
    type V = Sign;

    open spec fn view(&self) -> Sign {
        *self
    }
}

impl Default for Sign {
    fn default() -> (sign: Sign)
        ensures
            sign == Sign::Signed,
    {
        Sign::Signed
    }
}

impl Default for ByteOrder {
    fn default() -> (order: ByteOrder)
        ensures
            order == ByteOrder::LittleEndian,
    {
        ByteOrder::LittleEndian
    }
}

/// One message record with its signal.
///
/// All text fields hold the bytes of the input verbatim.
#[derive(Debug, Eq, PartialOrd, Ord)]
pub struct Definition {
    /// The message name: not empty, without `:`.
    pub name: Vec<u8>,
    /// The message identifier as its decimal digits.
    pub id: Vec<u8>,
    /// The declared payload length in bytes.
    pub bytes: u32,
    /// The name of the transmitting node: without a line feed.
    pub sender: Vec<u8>,
    /// The signedness of the signal.
    pub signed: Sign,
}

/// The mathematical value of a [`Definition`].
pub struct DefinitionView {
    pub name: Seq<u8>,
    pub id: Seq<u8>,
    pub bytes: u32,
    pub sender: Seq<u8>,
    pub signed: Sign,
}

impl DefinitionView {
    /// What holds of every record that the parser hands out: the name is not
    /// empty and has no `:`, the identifier is a decimal number, the sender
    /// has no line feed.
    pub open spec fn well_formed(self) -> bool {
        &&& self.name.len() > 0
        &&& free_of(self.name, COLON)
        &&& is_decimal(self.id)
        &&& free_of(self.sender, LINE_FEED)
    }
}

impl View for Definition {
    type V = DefinitionView;

    open spec fn view(&self) -> DefinitionView {
        DefinitionView {
            name: self.name@,
            id: self.id@,
            bytes: self.bytes,
            sender: self.sender@,
            signed: self.signed,
        }
    }
}

impl PartialEq for Definition {
    /// Records are equal where all their fields are.
    fn eq(&self, other: &Definition) -> (equal: bool) {
        same_bytes(self.name.as_slice(), other.name.as_slice()) && same_bytes(
            self.id.as_slice(),
            other.id.as_slice(),
        ) && self.bytes == other.bytes && same_bytes(self.sender.as_slice(), other.sender.as_slice())
            && self.signed == other.signed
    }
}

impl vstd::std_specs::cmp::PartialEqSpecImpl for Definition {
    open spec fn obeys_eq_spec() -> bool {
        true
    }

    open spec fn eq_spec(&self, other: &Definition) -> bool {
        self@ == other@
    }
}

} // verus!
