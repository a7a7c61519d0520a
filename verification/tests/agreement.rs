use dbc_parser::number::is_ascii_digit;
use dbc_parser::primitives::{expect_literal, newline, take_until, take_while};
use nom::error::Error;
use nom::IResult;

const INPUTS: [&str; 14] = [
    "",
    " ",
    "\n",
    "\n\n",
    ":",
    "BO_",
    "BO_ 500 IO_DEBUG: 4 IO\n",
    " SG_ IO_DEBUG_test_unsigned : 0|8@1+ (1,0) [0|0] \"\" DBG",
    "500 IO_DEBUG",
    "500",
    "IO_DEBUG: 4 IO\n",
    "test_signed : ",
    "test_unsigned : ",
    "aaab: : :",
];

const LITERALS: [&str; 12] = [
    "", " ", ":", "\n", "_", "BO_", "SG_", " : ", "test_signed", "test_unsigned", "aab", "500",
];

fn nom_tag<'a>(lit: &[u8], input: &'a [u8]) -> Option<&'a [u8]> {
    let res: IResult<&[u8], &[u8], Error<&[u8]>> = nom::bytes::complete::tag(lit)(input);
    res.ok().map(|(rest, _)| rest)
}

fn nom_take_until<'a>(delimiter: &[u8], input: &'a [u8]) -> Option<(&'a [u8], &'a [u8])> {
    let res: IResult<&[u8], &[u8], Error<&[u8]>> =
        nom::bytes::complete::take_until(delimiter)(input);
    res.ok()
}

fn nom_take_while<'a>(pred: fn(u8) -> bool, input: &'a [u8]) -> (&'a [u8], &'a [u8]) {
    let res: IResult<&[u8], &[u8], Error<&[u8]>> = nom::bytes::complete::take_while(pred)(input);
    res.unwrap()
}

fn nom_newline(input: &[u8]) -> Option<&[u8]> {
    let res: IResult<&[u8], char, Error<&[u8]>> = nom::character::complete::newline(input);
    res.ok().map(|(rest, _)| rest)
}

fn not_line_feed(b: u8) -> bool {
    b != 0x0a
}

#[test]
fn expect_literal_agrees_with_nom_tag() {
    for input in INPUTS {
        for lit in LITERALS {
            let ours = expect_literal(lit.as_bytes(), input.as_bytes())
                .ok()
                .map(|(rest, _)| rest);
            assert_eq!(ours, nom_tag(lit.as_bytes(), input.as_bytes()), "{:?} {:?}", lit, input);
        }
    }
}

#[test]
fn take_until_agrees_with_nom_take_until() {
    for input in INPUTS {
        for delimiter in LITERALS {
            let ours = take_until(delimiter.as_bytes(), input.as_bytes()).ok();
            assert_eq!(
                ours,
                nom_take_until(delimiter.as_bytes(), input.as_bytes()),
                "{:?} {:?}",
                delimiter,
                input
            );
        }
    }
}

#[test]
fn take_while_agrees_with_nom_take_while() {
    for input in INPUTS {
        assert_eq!(
            take_while(is_ascii_digit, input.as_bytes()),
            nom_take_while(is_ascii_digit, input.as_bytes()),
            "{:?}",
            input
        );
        assert_eq!(
            take_while(not_line_feed, input.as_bytes()),
            nom_take_while(not_line_feed, input.as_bytes()),
            "{:?}",
            input
        );
    }
}

#[test]
fn newline_agrees_with_nom_newline() {
    for input in INPUTS {
        let ours = newline(input.as_bytes()).ok().map(|(rest, _)| rest);
        assert_eq!(ours, nom_newline(input.as_bytes()), "{:?}", input);
    }
}
