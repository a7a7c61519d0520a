//! How a record is written: the text of the two lines, given the fields.
use crate::grammar::{text, COLON, SPACE};
use crate::model::{DefinitionView, Sign};
use crate::number::{decimal_value, is_decimal};
use crate::primitives::{free_of, LINE_FEED};
use vstd::prelude::*;

verus! {

/// The suffix of the signal name that stands for `signed`.
pub open spec fn suffix(signed: Sign) -> Seq<u8> {
    match signed {
        Sign::Signed => text("test_signed"),
        Sign::Unsigned => text("test_unsigned"),
    }
}

/// The text of a message line with the given fields.
pub open spec fn message_line_text(
    id: Seq<u8>,
    name: Seq<u8>,
    length: Seq<u8>,
    sender: Seq<u8>,
) -> Seq<u8> {
    text("BO_") + text(" ") + id + text(" ") + name + text(":") + text(" ") + length + text(" ")
        + sender + text("\n")
}

/// The text of a signal line, without a line feed, for the message `name`:
/// `comment` is what follows `" : "`.
pub open spec fn signal_line_text(name: Seq<u8>, signed: Sign, comment: Seq<u8>) -> Seq<u8> {
    text(" ") + text("SG_") + text(" ") + name + text("_") + suffix(signed) + text(" : ") + comment
}

/// The front of a signal line for the message `name`, up to and including
/// the name.
pub open spec fn signal_line_front(name: Seq<u8>) -> Seq<u8> {
    text(" ") + text("SG_") + text(" ") + name
}

/// The text of a record, without the line feed of its second line.
pub open spec fn record_text(
    id: Seq<u8>,
    name: Seq<u8>,
    length: Seq<u8>,
    sender: Seq<u8>,
    signed: Sign,
    comment: Seq<u8>,
) -> Seq<u8> {
    message_line_text(id, name, length, sender) + signal_line_text(name, signed, comment)
}

/// The fields can be written into a record without one of them running into
/// the punctuation behind it: the identifier and the length are decimal
/// numbers, the length fits 32 bits, the name is not empty and has no `:`,
/// the sender and the comment have no line feed.
pub open spec fn fields_fit(
    id: Seq<u8>,
    name: Seq<u8>,
    length: Seq<u8>,
    sender: Seq<u8>,
    comment: Seq<u8>,
) -> bool {
    &&& is_decimal(id)
    &&& name.len() > 0
    &&& free_of(name, COLON)
    &&& is_decimal(length)
    &&& decimal_value(length) <= u32::MAX
    &&& free_of(sender, LINE_FEED)
    &&& free_of(comment, LINE_FEED)
}

/// The record that the fields describe.
pub open spec fn record_of(
    id: Seq<u8>,
    name: Seq<u8>,
    length: Seq<u8>,
    sender: Seq<u8>,
    signed: Sign,
) -> DefinitionView {
    DefinitionView { name, id, bytes: decimal_value(length) as u32, sender, signed }
}

/// `input` begins with `record` as text, and `rest` is what stands behind
/// that text: for some decimal number that writes the length of the record
/// and some comment, the fields fit, and `input` is the text of the record
/// and either nothing more, with `rest` empty, or a line feed and `rest`.
pub open spec fn written_as(input: Seq<u8>, record: DefinitionView, rest: Seq<u8>) -> bool {
    exists|length: Seq<u8>, comment: Seq<u8>|
        {
            let written = #[trigger] record_text(
                record.id,
                record.name,
                length,
                record.sender,
                record.signed,
                comment,
            );
            &&& fields_fit(record.id, record.name, length, record.sender, comment)
            &&& record.bytes == decimal_value(length)
            &&& {
                ||| input == written && rest.len() == 0
                ||| input == written + text("\n") + rest
            }
        }
}

/// The bytes of the literals of the grammar, as far as the laws need them.
pub proof fn lemma_literals()
    ensures
        text(" ") == seq![SPACE],
        text(":") == seq![COLON],
        text("\n") == seq![LINE_FEED],
        text("test_signed").len() == 11,
        text("test_unsigned").len() == 13,
        text("test_signed")[5] != text("test_unsigned")[5],
{
    broadcast use vstd::string::is_ascii_spec_bytes;

    reveal_strlit(" ");
    reveal_strlit(":");
    reveal_strlit("\n");
    reveal_strlit("test_signed");
    reveal_strlit("test_unsigned");
    assert(vstd::string::is_ascii(" "));
    assert(vstd::string::is_ascii(":"));
    assert(vstd::string::is_ascii("\n"));
    assert(vstd::string::is_ascii("test_signed"));
    assert(vstd::string::is_ascii("test_unsigned"));
}

/// Three pieces in a row are the first in front of the other two.
pub(crate) proof fn lemma_regroup_pair(a: Seq<u8>, b: Seq<u8>, c: Seq<u8>)
    ensures
        a + b + c == a + (b + c),
{
}

/// Four pieces in a row are the first in front of the other three.
pub(crate) proof fn lemma_regroup(a: Seq<u8>, b: Seq<u8>, c: Seq<u8>, d: Seq<u8>)
    ensures
        a + b + c + d == a + (b + c + d),
{
}

/// Five pieces in a row are the first in front of the other four.
pub(crate) proof fn lemma_regroup_five(a: Seq<u8>, b: Seq<u8>, c: Seq<u8>, d: Seq<u8>, e: Seq<u8>)
    ensures
        a + b + c + d + e == a + (b + c + d + e),
{
}

/// The text of a message line in front of `tail`, bracketed as the
/// recognizers take it apart.
pub(crate) proof fn lemma_message_line_text(
    id: Seq<u8>,
    name: Seq<u8>,
    length: Seq<u8>,
    sender: Seq<u8>,
    tail: Seq<u8>,
)
    ensures
        message_line_text(id, name, length, sender) + tail == text("BO_") + text(" ") + (id + text(
            " ",
        ) + (name + text(":") + text(" ") + (length + text(" ") + (sender + text("\n") + tail)))),
{
    let upto_id = text("BO_") + text(" ") + id + text(" ");
    let upto_name = upto_id + name + text(":") + text(" ");
    let upto_length = upto_name + length + text(" ");
    let after_length = sender + text("\n") + tail;
    let after_name = length + text(" ") + after_length;
    let after_id = name + text(":") + text(" ") + after_name;
    lemma_regroup(upto_length, sender, text("\n"), tail);
    lemma_regroup(upto_name, length, text(" "), after_length);
    lemma_regroup_five(upto_id, name, text(":"), text(" "), after_name);
    lemma_regroup(text("BO_") + text(" "), id, text(" "), after_id);
}

/// The text of a signal line, bracketed as the recognizers take it apart.
pub(crate) proof fn lemma_signal_line_text(name: Seq<u8>, signed: Sign, after: Seq<u8>)
    ensures
        signal_line_text(name, signed, after) == text(" ") + (text("SG_") + text(" ") + (name + (
        text("_") + (suffix(signed) + (text(" : ") + after))))),
{
    let upto_name = text(" ") + text("SG_") + text(" ") + name;
    let upto_prefix = upto_name + text("_");
    let upto_sign = upto_prefix + suffix(signed);
    let after_sign = text(" : ") + after;
    let after_prefix = suffix(signed) + after_sign;
    let after_name = text("_") + after_prefix;
    lemma_regroup_pair(upto_sign, text(" : "), after);
    lemma_regroup_pair(upto_prefix, suffix(signed), after_sign);
    lemma_regroup_pair(upto_name, text("_"), after_prefix);
    lemma_regroup_pair(text(" ") + text("SG_") + text(" "), name, after_name);
    lemma_regroup(text(" "), text("SG_"), text(" "), name + after_name);
}

/// The text of a signal line is its text without a comment, and the comment.
pub(crate) proof fn lemma_signal_line_comment(name: Seq<u8>, signed: Sign, comment: Seq<u8>)
    ensures
        signal_line_text(name, signed, comment) == signal_line_text(
            name,
            signed,
            Seq::<u8>::empty(),
        ) + comment,
{
    let front = text(" ") + text("SG_") + text(" ") + name + text("_") + suffix(signed) + text(
        " : ",
    );
    assert(front + Seq::<u8>::empty() =~= front);
}

} // verus!
