//! What holds of the grammar on all inputs.
//!
//! * What is written is read back: the text of a record whose fields fit
//!   parses to exactly these fields, and what stands behind the record is
//!   left untouched.
//! * What is read was written: an input is accepted only where it begins with
//!   the text of a record, and nothing but that text is consumed.
//! * The signal line repeats the message name, or the parse fails with the
//!   literal that was required.
use crate::error::ErrorKindView;
use crate::grammar::{
    not_line_feed, spec_keyword, spec_message_id, spec_message_line, spec_message_name,
    spec_message_sender, spec_parse_message, spec_payload_length, spec_rest_of_line, spec_sign,
    spec_signal_line, spec_signal_prefix, text, MessageLine, COLON, SPACE,
};
use crate::layout::{
    fields_fit, lemma_literals, lemma_message_line_text, lemma_regroup, lemma_regroup_five,
    lemma_signal_line_comment, lemma_signal_line_text, message_line_text, record_of, record_text,
    signal_line_front, signal_line_text, suffix, written_as,
};
use crate::model::{DefinitionView, Sign};
use crate::number::{decimal_value, digit, is_decimal, is_digit};
use crate::primitives::{
    free_of, lemma_expect_literal_front, lemma_expect_literal_split, lemma_newline_front,
    lemma_newline_split, lemma_take_until_front, lemma_take_until_split, lemma_take_while_front,
    lemma_take_while_split, spec_expect_literal, spec_newline, spec_take_until, spec_take_while,
    LINE_FEED,
};
use vstd::prelude::*;

verus! {

/// A keyword and its space, in front of anything, are recognized.
pub proof fn lemma_keyword_front(literal: Seq<u8>, tail: Seq<u8>)
    ensures
        spec_keyword(literal, literal + text(" ") + tail) == Ok::<(Seq<u8>, ()), ErrorKindView>(
            (tail, ()),
        ),
{
    assert(literal + text(" ") + tail =~= literal + (text(" ") + tail));
    lemma_expect_literal_front(literal, text(" ") + tail);
    lemma_expect_literal_front(text(" "), tail);
}

/// Digits and a space, in front of anything, are read as the identifier that
/// the digits write.
pub proof fn lemma_message_id_front(id: Seq<u8>, tail: Seq<u8>)
    requires
        is_decimal(id),
    ensures
        spec_message_id(id + text(" ") + tail) == Ok::<(Seq<u8>, Seq<u8>), ErrorKindView>(
            (tail, id),
        ),
{
    lemma_literals();
    let rest = text(" ") + tail;
    assert(id + text(" ") + tail =~= id + rest);
    assert(!digit()(rest[0]));
    assert forall|i: int| 0 <= i < id.len() implies digit()(#[trigger] id[i]) by {}
    lemma_take_while_front(digit(), id, rest);
    lemma_expect_literal_front(text(" "), tail);
}

/// A name without `:`, then `": "`, in front of anything, are read as that
/// name.
pub proof fn lemma_message_name_front(name: Seq<u8>, tail: Seq<u8>)
    requires
        name.len() > 0,
        free_of(name, COLON),
    ensures
        spec_message_name(name + text(":") + text(" ") + tail) == Ok::<
            (Seq<u8>, Seq<u8>),
            ErrorKindView,
        >((tail, name)),
{
    lemma_literals();
    let after = text(" ") + tail;
    assert(name + text(":") + text(" ") + tail =~= name + (seq![COLON] + after));
    lemma_take_until_front(COLON, name, after);
    assert(seq![COLON] + after =~= text(":") + text(" ") + tail);
    lemma_keyword_front(text(":"), tail);
}

/// A decimal number that fits 32 bits, then a space, in front of anything,
/// are read as the value of the number.
pub proof fn lemma_payload_length_front(length: Seq<u8>, tail: Seq<u8>)
    requires
        is_decimal(length),
        decimal_value(length) <= u32::MAX,
    ensures
        spec_payload_length(length + text(" ") + tail) == Ok::<(Seq<u8>, u32), ErrorKindView>(
            (tail, decimal_value(length) as u32),
        ),
{
    lemma_literals();
    assert(length + text(" ") + tail =~= length + (seq![SPACE] + tail));
    assert(free_of(length, SPACE)) by {
        assert forall|i: int| 0 <= i < length.len() implies #[trigger] length[i] != SPACE by {
            assert(is_digit(length[i]));
        }
    }
    lemma_take_until_front(SPACE, length, tail);
    lemma_expect_literal_front(text(" "), tail);
}

/// A sender without a line feed, then a line feed, in front of anything, are
/// read as that sender.
pub proof fn lemma_message_sender_front(sender: Seq<u8>, tail: Seq<u8>)
    requires
        free_of(sender, LINE_FEED),
    ensures
        spec_message_sender(sender + text("\n") + tail) == Ok::<(Seq<u8>, Seq<u8>), ErrorKindView>(
            (tail, sender),
        ),
{
    lemma_literals();
    let rest = seq![LINE_FEED] + tail;
    assert(sender + text("\n") + tail =~= sender + rest);
    assert(!not_line_feed()(rest[0]));
    assert forall|i: int| 0 <= i < sender.len() implies not_line_feed()(#[trigger] sender[i]) by {}
    lemma_take_while_front(not_line_feed(), sender, rest);
    lemma_newline_front(tail);
}

/// Each of the two suffixes, in front of anything, resolves to its own sign:
/// `test_signed` to `Signed`, `test_unsigned` to `Unsigned`.
pub proof fn lemma_sign_front(signed: Sign, tail: Seq<u8>)
    ensures
        spec_sign(suffix(signed) + tail) == Ok::<(Seq<u8>, Sign), ErrorKindView>((tail, signed)),
{
    lemma_literals();
    lemma_expect_literal_front(suffix(signed), tail);
    if signed == Sign::Unsigned {
        let input = text("test_unsigned") + tail;
        assert(input.subrange(0, 11)[5] == text("test_unsigned")[5]);
        assert(!text("test_signed").is_prefix_of(input));
    }
}

/// A line without a line feed is skipped whole: to the end of the input where
/// nothing follows it, through its line feed where one follows.
pub proof fn lemma_rest_of_line_front(line: Seq<u8>, tail: Seq<u8>)
    requires
        free_of(line, LINE_FEED),
    ensures
        spec_rest_of_line(line) == Seq::<u8>::empty(),
        spec_rest_of_line(line + text("\n") + tail) == tail,
{
    lemma_literals();
    assert forall|i: int| 0 <= i < line.len() implies not_line_feed()(#[trigger] line[i]) by {}
    lemma_take_while_front(not_line_feed(), line, Seq::<u8>::empty());
    assert(line + Seq::<u8>::empty() =~= line);
    let rest = seq![LINE_FEED] + tail;
    assert(line + text("\n") + tail =~= line + rest);
    assert(!not_line_feed()(rest[0]));
    lemma_take_while_front(not_line_feed(), line, rest);
    lemma_newline_front(tail);
}

/// The text of a message line, in front of anything, is read as its fields.
pub proof fn lemma_message_line_front(
    id: Seq<u8>,
    name: Seq<u8>,
    length: Seq<u8>,
    sender: Seq<u8>,
    tail: Seq<u8>,
)
    requires
        is_decimal(id),
        name.len() > 0,
        free_of(name, COLON),
        is_decimal(length),
        decimal_value(length) <= u32::MAX,
        free_of(sender, LINE_FEED),
    ensures
        spec_message_line(message_line_text(id, name, length, sender) + tail) == Ok::<
            (Seq<u8>, MessageLine),
            ErrorKindView,
        >((tail, MessageLine { id, name, bytes: decimal_value(length) as u32, sender })),
{
    let after_sender = tail;
    let after_length = sender + text("\n") + after_sender;
    let after_name = length + text(" ") + after_length;
    let after_id = name + text(":") + text(" ") + after_name;
    let after_keyword = id + text(" ") + after_id;
    lemma_message_line_text(id, name, length, sender, tail);
    lemma_keyword_front(text("BO_"), after_keyword);
    lemma_message_id_front(id, after_id);
    lemma_message_name_front(name, after_name);
    lemma_payload_length_front(length, after_length);
    lemma_message_sender_front(sender, after_sender);
}

/// The signal line up to `" : "`, in front of anything, is read as its sign,
/// and the rest of the line is skipped.
proof fn lemma_signal_line_upto_comment(name: Seq<u8>, signed: Sign, after: Seq<u8>)
    ensures
        spec_signal_line(name, signal_line_text(name, signed, after)) == Ok::<
            (Seq<u8>, Sign),
            ErrorKindView,
        >((spec_rest_of_line(after), signed)),
{
    lemma_signal_line_text(name, signed, after);
    lemma_signal_line_pieces(name, signed, after);
}

/// The pieces of a signal line, each in front of the next, are read as the
/// sign, and the rest of the line is skipped.
proof fn lemma_signal_line_pieces(name: Seq<u8>, signed: Sign, after: Seq<u8>)
    ensures
        spec_signal_line(
            name,
            text(" ") + (text("SG_") + text(" ") + (name + (text("_") + (suffix(signed) + (text(
                " : ",
            ) + after))))),
        ) == Ok::<(Seq<u8>, Sign), ErrorKindView>((spec_rest_of_line(after), signed)),
{
    let after_sign = text(" : ") + after;
    let after_prefix = suffix(signed) + after_sign;
    let after_keyword = name + (text("_") + after_prefix);
    let after_indent = text("SG_") + text(" ") + after_keyword;
    lemma_expect_literal_front(text(" "), after_indent);
    lemma_keyword_front(text("SG_"), after_keyword);
    lemma_expect_literal_front(name, text("_") + after_prefix);
    lemma_expect_literal_front(text("_"), after_prefix);
    lemma_sign_front(signed, after_sign);
    lemma_expect_literal_front(text(" : "), after);
}

/// The text of a signal line for the message `name`, in front of a line feed
/// and anything or at the end of the input, is read as its sign.
pub proof fn lemma_signal_line_front(name: Seq<u8>, signed: Sign, comment: Seq<u8>, tail: Seq<u8>)
    requires
        free_of(comment, LINE_FEED),
    ensures
        spec_signal_line(name, signal_line_text(name, signed, comment)) == Ok::<
            (Seq<u8>, Sign),
            ErrorKindView,
        >((Seq::<u8>::empty(), signed)),
        spec_signal_line(name, signal_line_text(name, signed, comment) + text("\n") + tail)
            == Ok::<(Seq<u8>, Sign), ErrorKindView>((tail, signed)),
{
    lemma_rest_of_line_front(comment, tail);
    lemma_signal_line_upto_comment(name, signed, comment);
    lemma_signal_line_upto_comment(name, signed, comment + text("\n") + tail);
    lemma_regroup(
        signal_line_text(name, signed, Seq::<u8>::empty()),
        comment,
        text("\n"),
        tail,
    );
    lemma_signal_line_comment(name, signed, comment);
    lemma_signal_line_comment(name, signed, comment + text("\n") + tail);
}

/// Round trip: the text of a record whose fields fit parses to exactly these
/// fields, the length as the number that its digits write. At the end of the
/// input nothing is left; in front of a line feed and more input, that input
/// is left, untouched.
pub proof fn lemma_record_round_trip(
    id: Seq<u8>,
    name: Seq<u8>,
    length: Seq<u8>,
    sender: Seq<u8>,
    signed: Sign,
    comment: Seq<u8>,
    trailing: Seq<u8>,
)
    requires
        fields_fit(id, name, length, sender, comment),
    ensures
        spec_parse_message(record_text(id, name, length, sender, signed, comment)) == Ok::<
            (Seq<u8>, DefinitionView),
            ErrorKindView,
        >((Seq::<u8>::empty(), record_of(id, name, length, sender, signed))),
        spec_parse_message(
            record_text(id, name, length, sender, signed, comment) + text("\n") + trailing,
        ) == Ok::<(Seq<u8>, DefinitionView), ErrorKindView>(
            (trailing, record_of(id, name, length, sender, signed)),
        ),
{
    let first = message_line_text(id, name, length, sender);
    let second = signal_line_text(name, signed, comment);
    lemma_message_line_front(id, name, length, sender, second);
    lemma_message_line_front(id, name, length, sender, second + text("\n") + trailing);
    lemma_signal_line_front(name, signed, comment, trailing);
    lemma_regroup(first, second, text("\n"), trailing);
}

/// Where a keyword and its space are recognized, the input is the keyword,
/// the space and what is left.
pub proof fn lemma_keyword_split(literal: Seq<u8>, input: Seq<u8>)
    requires
        spec_keyword(literal, input) is Ok,
    ensures
        input == literal + text(" ") + spec_keyword(literal, input)->Ok_0.0,
{
    lemma_expect_literal_split(literal, input);
    let rest = spec_expect_literal(literal, input)->Ok_0.0;
    lemma_expect_literal_split(text(" "), rest);
    let left = spec_expect_literal(text(" "), rest)->Ok_0.0;
    assert(literal + (text(" ") + left) =~= literal + text(" ") + left);
}

/// Where an identifier is read, the input is its digits, a space and what is
/// left.
pub proof fn lemma_message_id_split(input: Seq<u8>)
    requires
        spec_message_id(input) is Ok,
    ensures
        ({
            let (rest, id) = spec_message_id(input)->Ok_0;
            &&& input == id + text(" ") + rest
            &&& is_decimal(id)
        }),
{
    lemma_take_while_split(digit(), input);
    let (after, id) = spec_take_while(digit(), input);
    lemma_expect_literal_split(text(" "), after);
    let rest = spec_expect_literal(text(" "), after)->Ok_0.0;
    assert(id + (text(" ") + rest) =~= id + text(" ") + rest);
    assert forall|i: int| 0 <= i < id.len() implies is_digit(#[trigger] id[i]) by {
        assert(digit()(id[i]));
    }
}

/// Where a name is read, the input is the name, `": "` and what is left; the
/// name is not empty and has no `:`.
pub proof fn lemma_message_name_split(input: Seq<u8>)
    requires
        spec_message_name(input) is Ok,
    ensures
        ({
            let (rest, name) = spec_message_name(input)->Ok_0;
            &&& input == name + text(":") + text(" ") + rest
            &&& name.len() > 0
            &&& free_of(name, COLON)
        }),
{
    lemma_literals();
    lemma_take_until_split(COLON, input);
    let (after, name) = spec_take_until(text(":"), input)->Ok_0;
    lemma_keyword_split(text(":"), after);
    let rest = spec_keyword(text(":"), after)->Ok_0.0;
    assert(name + (text(":") + text(" ") + rest) =~= name + text(":") + text(" ") + rest);
}

/// Where a length is read, the input is a decimal number, a space and what is
/// left, and the length is the value of that number.
pub proof fn lemma_payload_length_split(input: Seq<u8>) -> (length: Seq<u8>)
    requires
        spec_payload_length(input) is Ok,
    ensures
        ({
            let (rest, bytes) = spec_payload_length(input)->Ok_0;
            &&& input == length + text(" ") + rest
            &&& is_decimal(length)
            &&& decimal_value(length) == bytes
        }),
{
    lemma_literals();
    lemma_take_until_split(SPACE, input);
    let (after, token) = spec_take_until(text(" "), input)->Ok_0;
    lemma_expect_literal_split(text(" "), after);
    let rest = spec_expect_literal(text(" "), after)->Ok_0.0;
    assert(token + (text(" ") + rest) =~= token + text(" ") + rest);
    token
}

/// Where a sender is read, the input is the sender, a line feed and what is
/// left; the sender has no line feed.
pub proof fn lemma_message_sender_split(input: Seq<u8>)
    requires
        spec_message_sender(input) is Ok,
    ensures
        ({
            let (rest, sender) = spec_message_sender(input)->Ok_0;
            &&& input == sender + text("\n") + rest
            &&& free_of(sender, LINE_FEED)
        }),
{
    lemma_literals();
    lemma_take_while_split(not_line_feed(), input);
    let (after, sender) = spec_take_while(not_line_feed(), input);
    lemma_newline_split(after);
    let rest = spec_newline(after)->Ok_0.0;
    assert(sender + (seq![LINE_FEED] + rest) =~= sender + text("\n") + rest);
    assert forall|i: int| 0 <= i < sender.len() implies #[trigger] sender[i] != LINE_FEED by {
        assert(not_line_feed()(sender[i]));
    }
}

/// Where a suffix is recognized, the input is the suffix of the sign that was
/// read and what is left.
pub proof fn lemma_sign_split(input: Seq<u8>)
    requires
        spec_sign(input) is Ok,
    ensures
        ({
            let (rest, signed) = spec_sign(input)->Ok_0;
            input == suffix(signed) + rest
        }),
{
    if spec_expect_literal(text("test_signed"), input) is Ok {
        lemma_expect_literal_split(text("test_signed"), input);
    } else {
        lemma_expect_literal_split(text("test_unsigned"), input);
    }
}

/// What is skipped as the rest of a line is a comment without a line feed
/// and, unless the input ends there, the line feed behind it.
pub proof fn lemma_rest_of_line_split(input: Seq<u8>) -> (comment: Seq<u8>)
    ensures
        free_of(comment, LINE_FEED),
        ({
            let rest = spec_rest_of_line(input);
            ||| input == comment && rest.len() == 0
            ||| input == comment + text("\n") + rest
        }),
{
    lemma_literals();
    lemma_take_while_split(not_line_feed(), input);
    let (after, comment) = spec_take_while(not_line_feed(), input);
    assert forall|i: int| 0 <= i < comment.len() implies #[trigger] comment[i] != LINE_FEED by {
        assert(not_line_feed()(comment[i]));
    }
    if after.len() > 0 {
        assert(!not_line_feed()(after[0]));
        lemma_newline_split(after);
        let rest = spec_newline(after)->Ok_0.0;
        assert(comment + (seq![LINE_FEED] + rest) =~= comment + text("\n") + rest);
    } else {
        assert(comment + after =~= comment);
    }
    comment
}

/// Where a message line is read, the input is the text of a message line
/// with the fields that were read, for some decimal number `length` whose
/// value is the length that was read, and what is left.
pub proof fn lemma_message_line_split(input: Seq<u8>) -> (length: Seq<u8>)
    requires
        spec_message_line(input) is Ok,
    ensures
        ({
            let (rest, line) = spec_message_line(input)->Ok_0;
            &&& input == message_line_text(line.id, line.name, length, line.sender) + rest
            &&& is_decimal(line.id)
            &&& line.name.len() > 0
            &&& free_of(line.name, COLON)
            &&& is_decimal(length)
            &&& decimal_value(length) == line.bytes
            &&& free_of(line.sender, LINE_FEED)
        }),
{
    lemma_keyword_split(text("BO_"), input);
    let after_keyword = spec_keyword(text("BO_"), input)->Ok_0.0;
    lemma_message_id_split(after_keyword);
    let (after_id, id) = spec_message_id(after_keyword)->Ok_0;
    lemma_message_name_split(after_id);
    let (after_name, name) = spec_message_name(after_id)->Ok_0;
    let length = lemma_payload_length_split(after_name);
    let (after_length, bytes) = spec_payload_length(after_name)->Ok_0;
    lemma_message_sender_split(after_length);
    let (rest, sender) = spec_message_sender(after_length)->Ok_0;
    lemma_message_line_text(id, name, length, sender, rest);
    length
}

/// Where a signal line is read for the message `name`, the input is the text
/// of a signal line for `name` with the sign that was read and some comment
/// without a line feed, and then either nothing, with nothing left, or a line
/// feed and what is left.
pub proof fn lemma_signal_line_split(name: Seq<u8>, input: Seq<u8>) -> (comment: Seq<u8>)
    requires
        spec_signal_line(name, input) is Ok,
    ensures
        free_of(comment, LINE_FEED),
        ({
            let (rest, signed) = spec_signal_line(name, input)->Ok_0;
            ||| input == signal_line_text(name, signed, comment) && rest.len() == 0
            ||| input == signal_line_text(name, signed, comment) + text("\n") + rest
        }),
{
    lemma_expect_literal_split(text(" "), input);
    let after_indent = spec_expect_literal(text(" "), input)->Ok_0.0;
    lemma_keyword_split(text("SG_"), after_indent);
    let after_keyword = spec_keyword(text("SG_"), after_indent)->Ok_0.0;
    lemma_expect_literal_split(name, after_keyword);
    let after_name = spec_expect_literal(name, after_keyword)->Ok_0.0;
    lemma_expect_literal_split(text("_"), after_name);
    let after_prefix = spec_expect_literal(text("_"), after_name)->Ok_0.0;
    lemma_sign_split(after_prefix);
    let (after_sign, signed) = spec_sign(after_prefix)->Ok_0;
    lemma_expect_literal_split(text(" : "), after_sign);
    let after = spec_expect_literal(text(" : "), after_sign)->Ok_0.0;
    let comment = lemma_rest_of_line_split(after);
    lemma_signal_line_text(name, signed, after);
    lemma_signal_line_comment(name, signed, after);
    lemma_signal_line_comment(name, signed, comment);
    let rest = spec_rest_of_line(after);
    if after != comment {
        lemma_regroup(signal_line_text(name, signed, Seq::<u8>::empty()), comment, text("\n"), rest);
    }
    comment
}

/// What is accepted is a record: where the parse succeeds, the input is the
/// text of a record with exactly the fields that were read, for some decimal
/// number `length` whose value is the length that was read and some comment
/// without a line feed; behind it the input either ends, and nothing is left,
/// or goes on with a line feed and what is left. The fields of the record
/// fit.
pub proof fn lemma_accepted_is_record(input: Seq<u8>) -> (written: (Seq<u8>, Seq<u8>))
    requires
        spec_parse_message(input) is Ok,
    ensures
        ({
            let (rest, record) = spec_parse_message(input)->Ok_0;
            let (length, comment) = written;
            let text_of_record = record_text(
                record.id,
                record.name,
                length,
                record.sender,
                record.signed,
                comment,
            );
            &&& fields_fit(record.id, record.name, length, record.sender, comment)
            &&& record.bytes == decimal_value(length)
            &&& {
                ||| input == text_of_record && rest.len() == 0
                ||| input == text_of_record + text("\n") + rest
            }
        }),
{
    let length = lemma_message_line_split(input);
    let (after_line, line) = spec_message_line(input)->Ok_0;
    let comment = lemma_signal_line_split(line.name, after_line);
    let (rest, signed) = spec_signal_line(line.name, after_line)->Ok_0;
    let first = message_line_text(line.id, line.name, length, line.sender);
    let second = signal_line_text(line.name, signed, comment);
    if after_line != second {
        lemma_regroup(first, second, text("\n"), rest);
    }
    (length, comment)
}

/// The parser accepts exactly what is written as a record: the parse of
/// `input` succeeds with `record` and `rest` if and only if `input` begins
/// with `record` as text and `rest` stands behind that text.
pub proof fn lemma_accepts_exactly_records(input: Seq<u8>, record: DefinitionView, rest: Seq<u8>)
    ensures
        spec_parse_message(input) == Ok::<(Seq<u8>, DefinitionView), ErrorKindView>((rest, record))
            <==> written_as(input, record, rest),
{
    if spec_parse_message(input) == Ok::<(Seq<u8>, DefinitionView), ErrorKindView>((rest, record)) {
        let (length, comment) = lemma_accepted_is_record(input);
        let written = record_text(
            record.id,
            record.name,
            length,
            record.sender,
            record.signed,
            comment,
        );
        assert(written_as(input, record, rest));
    }
    if written_as(input, record, rest) {
        let (length, comment) = choose|length: Seq<u8>, comment: Seq<u8>|
            {
                let written = #[trigger] record_text(
                    record.id,
                    record.name,
                    length,
                    record.sender,
                    record.signed,
                    comment,
                );
                &&& fields_fit(record.id, record.name, length, record.sender, comment)
                &&& record.bytes == decimal_value(length)
                &&& {
                    ||| input == written && rest.len() == 0
                    ||| input == written + text("\n") + rest
                }
            };
        lemma_record_round_trip(
            record.id,
            record.name,
            length,
            record.sender,
            record.signed,
            comment,
            rest,
        );
        assert(rest.len() == 0 ==> rest =~= Seq::<u8>::empty());
    }
}

/// Name consistency: behind a message line for `name`, a signal line whose
/// signal name does not begin with `name` is refused, and the failure names
/// `name` as the literal that was required.
pub proof fn lemma_name_mismatch(
    id: Seq<u8>,
    name: Seq<u8>,
    length: Seq<u8>,
    sender: Seq<u8>,
    signal_name: Seq<u8>,
)
    requires
        is_decimal(id),
        name.len() > 0,
        free_of(name, COLON),
        is_decimal(length),
        decimal_value(length) <= u32::MAX,
        free_of(sender, LINE_FEED),
        !name.is_prefix_of(signal_name),
    ensures
        spec_parse_message(
            message_line_text(id, name, length, sender) + text(" ") + text("SG_") + text(" ")
                + signal_name,
        ) == Err::<(Seq<u8>, DefinitionView), ErrorKindView>(ErrorKindView::ExpectedLiteral(name)),
{
    let first = message_line_text(id, name, length, sender);
    let after_indent = text("SG_") + text(" ") + signal_name;
    let second = text(" ") + after_indent;
    lemma_regroup_five(first, text(" "), text("SG_"), text(" "), signal_name);
    lemma_regroup(text(" "), text("SG_"), text(" "), signal_name);
    lemma_message_line_front(id, name, length, sender, second);
    lemma_expect_literal_front(text(" "), after_indent);
    lemma_keyword_front(text("SG_"), signal_name);
}

/// Name consistency on every input with a message line: unless the input
/// goes on behind that line with the front of a signal line for the name
/// that the line holds, the parse fails, and the failure is a literal that
/// was required.
pub proof fn lemma_name_required(input: Seq<u8>)
    requires
        spec_message_line(input) is Ok,
        ({
            let (rest, line) = spec_message_line(input)->Ok_0;
            !signal_line_front(line.name).is_prefix_of(rest)
        }),
    ensures
        spec_parse_message(input) is Err,
        spec_parse_message(input)->Err_0 is ExpectedLiteral,
{
    let (rest, line) = spec_message_line(input)->Ok_0;
    if spec_expect_literal(text(" "), rest) is Ok {
        lemma_expect_literal_split(text(" "), rest);
        let after_indent = spec_expect_literal(text(" "), rest)->Ok_0.0;
        if spec_expect_literal(text("SG_"), after_indent) is Ok {
            lemma_expect_literal_split(text("SG_"), after_indent);
            let after_keyword = spec_expect_literal(text("SG_"), after_indent)->Ok_0.0;
            if spec_expect_literal(text(" "), after_keyword) is Ok {
                lemma_expect_literal_split(text(" "), after_keyword);
                let after_space = spec_expect_literal(text(" "), after_keyword)->Ok_0.0;
                if spec_expect_literal(line.name, after_space) is Ok {
                    lemma_expect_literal_split(line.name, after_space);
                    let left = spec_expect_literal(line.name, after_space)->Ok_0.0;
                    let front = signal_line_front(line.name);
                    assert(rest =~= front + left);
                    assert(rest.subrange(0, front.len() as int) =~= front);
                }
            }
        }
    }
}

} // verus!
