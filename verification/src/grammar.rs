//! The record grammar: one `BO_` line followed by one `SG_` line.
//!
//! ```text
//! record := "BO_" " " digits " " name ":" " " length " " sender "\n"
//!           " " "SG_" " " name "_" suffix " : " rest-of-line
//! ```
//!
//! Each field has a recognizer of its own, which consumes the field together
//! with the punctuation behind it. A recognizer is a function of the input at
//! the cursor; the first one that fails ends the parse with its failure.
use crate::error::{result_view, ErrorKind, ErrorKindView};
use crate::laws::{lemma_accepted_is_record, lemma_accepts_exactly_records};
use crate::layout::written_as;
use crate::model::{Definition, DefinitionView, Sign};
use crate::number::{digit, is_ascii_digit, parse_decimal, spec_parse_decimal};
use crate::primitives::{
    expect_literal, newline, spec_expect_literal, spec_newline, spec_take_until, spec_take_while,
    take_until, take_while, LINE_FEED,
};
use vstd::prelude::*;
use vstd::slice::slice_to_vec;
use vstd::string::StringSliceAdditionalSpecFns;

verus! {

/// The byte `:`, which ends a message name.
pub const COLON: u8 = 0x3a;

/// The byte ` `, which ends a payload length.
pub const SPACE: u8 = 0x20;

/// The bytes of a literal of the grammar.
pub open spec fn text(literal: &str) -> Seq<u8> {
    literal.spec_bytes()
}

/// The predicate "is not a line feed" as a value.
pub open spec fn not_line_feed() -> spec_fn(u8) -> bool {
    |b: u8| b != LINE_FEED
}

/// `literal " "`: a keyword and the space behind it.
pub open spec fn spec_keyword(literal: Seq<u8>, input: Seq<u8>) -> Result<
    (Seq<u8>, ()),
    ErrorKindView,
> {
    match spec_expect_literal(literal, input) {
        Err(e) => Err(e),
        Ok((rest, _)) => spec_expect_literal(text(" "), rest),
    }
}

/// `digits " "`: the message identifier, one digit or more, kept as text.
/// Without a digit at the cursor the identifier is no number.
pub open spec fn spec_message_id(input: Seq<u8>) -> Result<(Seq<u8>, Seq<u8>), ErrorKindView> {
    let (rest, id) = spec_take_while(digit(), input);
    if id.len() == 0 {
        Err(ErrorKindView::InvalidNumber(id))
    } else {
        match spec_expect_literal(text(" "), rest) {
            Err(e) => Err(e),
            Ok((rest, _)) => Ok((rest, id)),
        }
    }
}

/// `name ":" " "`: the message name, the bytes before the next `:`. A name
/// must not be empty: where the `:` stands at the cursor, the name that the
/// grammar requires there is missing.
pub open spec fn spec_message_name(input: Seq<u8>) -> Result<(Seq<u8>, Seq<u8>), ErrorKindView> {
    match spec_take_until(text(":"), input) {
        Err(e) => Err(e),
        Ok((rest, name)) => if name.len() == 0 {
            Err(ErrorKindView::ExpectedLiteral(name))
        } else {
            match spec_keyword(text(":"), rest) {
                Err(e) => Err(e),
                Ok((rest, _)) => Ok((rest, name)),
            }
        },
    }
}

/// `length " "`: the payload length, the bytes before the next space read as
/// a decimal number.
pub open spec fn spec_payload_length(input: Seq<u8>) -> Result<(Seq<u8>, u32), ErrorKindView> {
    match spec_take_until(text(" "), input) {
        Err(e) => Err(e),
        Ok((rest, token)) => match spec_parse_decimal(token) {
            Err(e) => Err(e),
            Ok(bytes) => match spec_expect_literal(text(" "), rest) {
                Err(e) => Err(e),
                Ok((rest, _)) => Ok((rest, bytes)),
            },
        },
    }
}

/// `sender "\n"`: the sending node, the bytes before the next line feed, and
/// that line feed.
pub open spec fn spec_message_sender(input: Seq<u8>) -> Result<(Seq<u8>, Seq<u8>), ErrorKindView> {
    let (rest, sender) = spec_take_while(not_line_feed(), input);
    match spec_newline(rest) {
        Err(e) => Err(e),
        Ok((rest, _)) => Ok((rest, sender)),
    }
}

/// `"test_signed" | "test_unsigned"`: the suffix of the signal name, tried in
/// this order, which says whether the signal is signed.
pub open spec fn spec_sign(input: Seq<u8>) -> Result<(Seq<u8>, Sign), ErrorKindView> {
    match spec_expect_literal(text("test_signed"), input) {
        Ok((rest, _)) => Ok((rest, Sign::Signed)),
        Err(_) => match spec_expect_literal(text("test_unsigned"), input) {
            Ok((rest, _)) => Ok((rest, Sign::Unsigned)),
            Err(_) => Err(ErrorKindView::NoAlternativeMatched),
        },
    }
}

/// The rest of the line: everything up to and including the next line feed,
/// or up to the end of the input where there is none.
pub open spec fn spec_rest_of_line(input: Seq<u8>) -> Seq<u8> {
    let (rest, _) = spec_take_while(not_line_feed(), input);
    match spec_newline(rest) {
        Ok((rest, _)) => rest,
        Err(_) => rest,
    }
}

/// What the `BO_` line holds.
pub struct MessageLine {
    pub id: Seq<u8>,
    pub name: Seq<u8>,
    pub bytes: u32,
    pub sender: Seq<u8>,
}

/// `"BO_" " " digits " " name ":" " " length " " sender "\n"`: the message
/// line.
pub open spec fn spec_message_line(input: Seq<u8>) -> Result<(Seq<u8>, MessageLine), ErrorKindView> {
    match spec_keyword(text("BO_"), input) {
        Err(e) => Err(e),
        Ok((rest, _)) => match spec_message_id(rest) {
            Err(e) => Err(e),
            Ok((rest, id)) => match spec_message_name(rest) {
                Err(e) => Err(e),
                Ok((rest, name)) => match spec_payload_length(rest) {
                    Err(e) => Err(e),
                    Ok((rest, bytes)) => match spec_message_sender(rest) {
                        Err(e) => Err(e),
                        Ok((rest, sender)) => Ok((rest, MessageLine { id, name, bytes, sender })),
                    },
                },
            },
        },
    }
}

/// `name "_"`: the message name again, verbatim, as the prefix of the signal
/// name.
pub open spec fn spec_signal_prefix(name: Seq<u8>, input: Seq<u8>) -> Result<
    (Seq<u8>, ()),
    ErrorKindView,
> {
    match spec_expect_literal(name, input) {
        Err(e) => Err(e),
        Ok((rest, _)) => spec_expect_literal(text("_"), rest),
    }
}

/// `" " "SG_" " " name "_" suffix " : " rest-of-line`: the signal line of the
/// message called `name`.
pub open spec fn spec_signal_line(name: Seq<u8>, input: Seq<u8>) -> Result<
    (Seq<u8>, Sign),
    ErrorKindView,
> {
    match spec_expect_literal(text(" "), input) {
        Err(e) => Err(e),
        Ok((rest, _)) => match spec_keyword(text("SG_"), rest) {
            Err(e) => Err(e),
            Ok((rest, _)) => match spec_signal_prefix(name, rest) {
                Err(e) => Err(e),
                Ok((rest, _)) => match spec_sign(rest) {
                    Err(e) => Err(e),
                    Ok((rest, signed)) => match spec_expect_literal(text(" : "), rest) {
                        Err(e) => Err(e),
                        Ok((rest, _)) => Ok((spec_rest_of_line(rest), signed)),
                    },
                },
            },
        },
    }
}

/// What [`parse_message`] returns on `input`: the record at its front and the
/// input behind the record, or the failure of the first step that fails.
pub open spec fn spec_parse_message(input: Seq<u8>) -> Result<
    (Seq<u8>, DefinitionView),
    ErrorKindView,
> {
    match spec_message_line(input) {
        Err(e) => Err(e),
        Ok((rest, line)) => match spec_signal_line(line.name, rest) {
            Err(e) => Err(e),
            Ok((rest, signed)) => Ok(
                (
                    rest,
                    DefinitionView {
                        name: line.name,
                        id: line.id,
                        bytes: line.bytes,
                        sender: line.sender,
                        signed,
                    },
                ),
            ),
        },
    }
}

/// Recognizes `literal " "`.
pub fn keyword<'a>(literal: &[u8], input: &'a [u8]) -> (res: Result<(&'a [u8], ()), ErrorKind>)
    ensures
        result_view(res) == spec_keyword(literal@, input@),
{
    let (rest, _) = expect_literal(literal, input)?;
    expect_literal(" ".as_bytes(), rest)
}

/// Recognizes the message identifier and the space behind it.
pub fn message_id<'a>(input: &'a [u8]) -> (res: Result<(&'a [u8], &'a [u8]), ErrorKind>)
    ensures
        result_view(res) == spec_message_id(input@),
{
    let (rest, id) = take_while(is_ascii_digit, input);
    if id.len() == 0 {
        return Err(ErrorKind::InvalidNumber(slice_to_vec(id)));
    }
    let (rest, _) = expect_literal(" ".as_bytes(), rest)?;
    Ok((rest, id))
}

/// Recognizes the message name and the `": "` behind it.
pub fn message_name<'a>(input: &'a [u8]) -> (res: Result<(&'a [u8], &'a [u8]), ErrorKind>)
    ensures
        result_view(res) == spec_message_name(input@),
{
    let (rest, name) = take_until(":".as_bytes(), input)?;
    if name.len() == 0 {
        return Err(ErrorKind::ExpectedLiteral(slice_to_vec(name)));
    }
    let (rest, _) = keyword(":".as_bytes(), rest)?;
    Ok((rest, name))
}

/// Recognizes the payload length and the space behind it.
pub fn payload_length<'a>(input: &'a [u8]) -> (res: Result<(&'a [u8], u32), ErrorKind>)
    ensures
        result_view(res) == spec_payload_length(input@),
{
    let (rest, token) = take_until(" ".as_bytes(), input)?;
    let bytes = parse_decimal(token)?;
    let (rest, _) = expect_literal(" ".as_bytes(), rest)?;
    Ok((rest, bytes))
}

/// Whether `b` is any byte but the line feed.
pub fn is_not_line_feed(b: u8) -> (r: bool)
    ensures
        r == (b != LINE_FEED),
{
    b != LINE_FEED
}

/// Recognizes the sending node and the line feed behind it.
pub fn message_sender<'a>(input: &'a [u8]) -> (res: Result<(&'a [u8], &'a [u8]), ErrorKind>)
    ensures
        result_view(res) == spec_message_sender(input@),
{
    let (rest, sender) = take_while(is_not_line_feed, input);
    let (rest, _) = newline(rest)?;
    Ok((rest, sender))
}

/// Recognizes the message name and the `_` behind it at the front of the
/// signal name.
pub fn signal_prefix<'a>(name: &[u8], input: &'a [u8]) -> (res: Result<(&'a [u8], ()), ErrorKind>)
    ensures
        result_view(res) == spec_signal_prefix(name@, input@),
{
    let (rest, _) = expect_literal(name, input)?;
    expect_literal("_".as_bytes(), rest)
}

/// Recognizes the suffix of the signal name and says which of the two it is.
pub fn sign<'a>(input: &'a [u8]) -> (res: Result<(&'a [u8], Sign), ErrorKind>)
    ensures
        result_view(res) == spec_sign(input@),
{
    match expect_literal("test_signed".as_bytes(), input) {
        Ok((rest, _)) => Ok((rest, Sign::Signed)),
        Err(_) => match expect_literal("test_unsigned".as_bytes(), input) {
            Ok((rest, _)) => Ok((rest, Sign::Unsigned)),
            Err(_) => Err(ErrorKind::NoAlternativeMatched),
        },
    }
}

/// Skips the rest of the line, its line feed included.
pub fn rest_of_line<'a>(input: &'a [u8]) -> (rest: &'a [u8])
    ensures
        rest@ == spec_rest_of_line(input@),
{
    let (rest, _) = take_while(is_not_line_feed, input);
    match newline(rest) {
        Ok((rest, _)) => rest,
        Err(_) => rest,
    }
}

/// Parses the record at the front of `input`: the message line and the signal
/// line behind it.
///
/// On success the result holds the input behind the record, so that the next
/// record can be parsed from there, and the record, whose text fields are the
/// bytes of the input verbatim. What follows `" : "` on the signal line is
/// skipped up to and including its line feed, or up to the end of the input.
///
/// The parse succeeds on exactly the inputs that begin with a record as text
/// ([`written_as`]). On every other input the first step that fails ends the
/// parse, and nothing but its failure is handed back:
///
/// * `ExpectedLiteral` with the literal, where `BO_`, `SG_`, a space, `_` or
///   `" : "` is missing; with the message name, where the signal name does not
///   begin with it; with the empty name, where the message line has none;
/// * `InvalidNumber` with the token, where the identifier has no digit, or the
///   length is not made of digits only or does not fit 32 bits;
/// * `DelimiterNotFound` with `:` or a space, where the input ends before the
///   name or the length does;
/// * `ExpectedNewline`, where the input ends on the message line;
/// * `NoAlternativeMatched`, where the suffix of the signal name is neither
///   `test_signed` nor `test_unsigned`.
pub fn parse_message<'a>(input: &'a [u8]) -> (res: Result<(&'a [u8], Definition), ErrorKind>)
    ensures
        result_view(res) == spec_parse_message(input@),
        res matches Ok((rest, record)) ==> record@.well_formed() && written_as(
            input@,
            record@,
            rest@,
        ),
        res is Err ==> forall|record: DefinitionView, rest: Seq<u8>|
            !written_as(input@, record, rest),
{
    proof {
        assert forall|record: DefinitionView, rest: Seq<u8>|
            spec_parse_message(input@) == Ok::<(Seq<u8>, DefinitionView), ErrorKindView>(
                (rest, record),
            ) <==> #[trigger] written_as(input@, record, rest) by {
            lemma_accepts_exactly_records(input@, record, rest);
        }
    }
    let (rest, _) = keyword("BO_".as_bytes(), input)?;
    let (rest, id) = message_id(rest)?;
    let (rest, name) = message_name(rest)?;
    let (rest, bytes) = payload_length(rest)?;
    let (rest, sender) = message_sender(rest)?;
    let (rest, _) = expect_literal(" ".as_bytes(), rest)?;
    let (rest, _) = keyword("SG_".as_bytes(), rest)?;
    let (rest, _) = signal_prefix(name, rest)?;
    let (rest, signed) = sign(rest)?;
    let (rest, _) = expect_literal(" : ".as_bytes(), rest)?;
    let rest = rest_of_line(rest);
    proof {
        lemma_accepted_is_record(input@);
    }
    Ok(
        (
            rest,
            Definition {
                name: slice_to_vec(name),
                id: slice_to_vec(id),
                bytes,
                sender: slice_to_vec(sender),
                signed,
            },
        ),
    )
}

} // verus!
