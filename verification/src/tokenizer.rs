//! The lexer: turns bytes into JSON tokens.
//!
//! Tokens are produced one at a time, on demand, from a byte slice and a
//! running position.  The number grammar is an explicit finite-state
//! machine enforcing RFC 8259 exactly; strings are read escape-aware,
//! preserving the source form of every character unit.

use vstd::prelude::*;

use crate::is_json_ws;

verus! {

/// One JSON token.
#[derive(Clone, Debug, Eq, Hash, Ord, PartialEq, PartialOrd)]
pub enum JsonToken {
    OpeningBracket,
    ClosingBracket,
    OpeningBrace,
    ClosingBrace,
    Colon,
    Comma,
    String(Vec<JsonChar>),
    Number(Vec<u8>),
    Null,
    False,
    True,
}

/// One logical unit of a JSON string's content, as written in the
/// source: a raw (unescaped) byte, one of the eight fixed single-character
/// escapes, or a 16-bit Unicode escape value.
#[derive(Clone, Copy, Debug, Eq, Hash, Ord, PartialEq, PartialOrd)]
pub enum JsonChar {
    Byte(u8),
    EscapedQuote,
    EscapedBackslash,
    EscapedSlash,
    EscapedBackspace,
    EscapedFormFeed,
    EscapedLineFeed,
    EscapedCarriageReturn,
    EscapedTab,
    UnicodeEscape(u16),
}

/// Why tokenization or string decoding failed.
#[derive(Clone, Debug, Eq, Hash, Ord, PartialEq, PartialOrd)]
pub enum Error {
    UnexpectedEndOfInput,
    UnknownEscape(u8),
    InvalidUnicodeEscape([u8; 4]),
    InvalidNumberCharacter(u8),
    InvalidBarewordBeginning(String),
    InvalidUtf8Sequence(Vec<JsonChar>),
    Utf8SequenceProducedSurrogate(u32),
    InvalidUtf16SurrogateSequence(Vec<JsonChar>),
}

/// Mathematical model of a [`JsonToken`]: payloads become sequences.
pub enum TokenModel {
    OpeningBracket,
    ClosingBracket,
    OpeningBrace,
    ClosingBrace,
    Colon,
    Comma,
    String(Seq<JsonChar>),
    Number(Seq<u8>),
    Null,
    False,
    True,
}

/// Mathematical model of an [`Error`]: payloads become sequences.
pub enum ErrorModel {
    UnexpectedEndOfInput,
    UnknownEscape(u8),
    InvalidUnicodeEscape(Seq<u8>),
    InvalidNumberCharacter(u8),
    InvalidBarewordBeginning(Seq<char>),
    InvalidUtf8Sequence(Seq<JsonChar>),
    Utf8SequenceProducedSurrogate(u32),
    InvalidUtf16SurrogateSequence(Seq<JsonChar>),
}

impl View for JsonToken {
    type V = TokenModel;

    open spec fn view(&self) -> TokenModel {
        match self {
            JsonToken::OpeningBracket => TokenModel::OpeningBracket,
            JsonToken::ClosingBracket => TokenModel::ClosingBracket,
            JsonToken::OpeningBrace => TokenModel::OpeningBrace,
            JsonToken::ClosingBrace => TokenModel::ClosingBrace,
            JsonToken::Colon => TokenModel::Colon,
            JsonToken::Comma => TokenModel::Comma,
            JsonToken::String(chars) => TokenModel::String(chars@),
            JsonToken::Number(bytes) => TokenModel::Number(bytes@),
            JsonToken::Null => TokenModel::Null,
            JsonToken::False => TokenModel::False,
            JsonToken::True => TokenModel::True,
        }
    }
}

impl View for Error {
    type V = ErrorModel;

    open spec fn view(&self) -> ErrorModel {
        match self {
            Error::UnexpectedEndOfInput => ErrorModel::UnexpectedEndOfInput,
            Error::UnknownEscape(b) => ErrorModel::UnknownEscape(*b),
            Error::InvalidUnicodeEscape(bs) => ErrorModel::InvalidUnicodeEscape(bs@),
            Error::InvalidNumberCharacter(b) => ErrorModel::InvalidNumberCharacter(*b),
            Error::InvalidBarewordBeginning(s) => ErrorModel::InvalidBarewordBeginning(s@),
            Error::InvalidUtf8Sequence(cs) => ErrorModel::InvalidUtf8Sequence(cs@),
            Error::Utf8SequenceProducedSurrogate(v) => ErrorModel::Utf8SequenceProducedSurrogate(
                *v,
            ),
            Error::InvalidUtf16SurrogateSequence(cs) => ErrorModel::InvalidUtf16SurrogateSequence(
                cs@,
            ),
        }
    }
}

/// The position reached from `pos` by skipping JSON whitespace.
pub open spec fn spec_skip_ws(s: Seq<u8>, pos: int) -> int
    decreases s.len() - pos,
{
    if 0 <= pos < s.len() && is_json_ws(s[pos]) {
        spec_skip_ws(s, pos + 1)
    } else {
        pos
    }
}

pub(crate) proof fn lemma_skip_ws_bounds(s: Seq<u8>, pos: int)
    requires
        0 <= pos <= s.len(),
    ensures
        pos <= spec_skip_ws(s, pos) <= s.len(),
    decreases s.len() - pos,
{
    if pos < s.len() && is_json_ws(s[pos]) {
        lemma_skip_ws_bounds(s, pos + 1);
    }
}

/// Whether a byte is JSON whitespace.
fn is_ws_byte(b: u8) -> (r: bool)
    ensures
        r == is_json_ws(b),
{
    b == 0x20 || b == 0x09 || b == 0x0A || b == 0x0D
}

/// Advances past any run of JSON whitespace bytes.
pub fn skip_whitespace(input: &[u8], pos: usize) -> (r: usize)
    requires
        pos <= input@.len(),
    ensures
        r == spec_skip_ws(input@, pos as int),
        pos <= r <= input@.len(),
{
    let mut cur = pos;
    while cur < input.len() && is_ws_byte(input[cur])
        invariant
            pos <= cur <= input@.len(),
            spec_skip_ws(input@, pos as int) == spec_skip_ws(input@, cur as int),
        decreases input@.len() - cur,
    {
        cur = cur + 1;
    }
    proof {
        lemma_skip_ws_bounds(input@, pos as int);
    }
    cur
}

/// Whether a byte is an ASCII hexadecimal digit.
pub open spec fn is_hex_digit(b: u8) -> bool {
    (0x30 <= b <= 0x39) || (0x41 <= b <= 0x46) || (0x61 <= b <= 0x66)
}

/// The numeric value of an ASCII hexadecimal digit.
pub open spec fn hex_digit_value(b: u8) -> u16 {
    if 0x30 <= b <= 0x39 {
        (b - 0x30) as u16
    } else if 0x41 <= b <= 0x46 {
        (b - 0x41 + 10) as u16
    } else if 0x61 <= b <= 0x66 {
        (b - 0x61 + 10) as u16
    } else {
        0
    }
}

/// The value of a four-digit hexadecimal escape starting at `pos`.
pub open spec fn hex4_value(s: Seq<u8>, pos: int) -> u16 {
    (hex_digit_value(s[pos]) * 0x1000 + hex_digit_value(s[pos + 1]) * 0x100 + hex_digit_value(
        s[pos + 2],
    ) * 0x10 + hex_digit_value(s[pos + 3])) as u16
}

/// The string-body grammar: reads character units from `pos` (just past
/// the opening quote), accumulating them onto `acc`, until the closing
/// quote.  Returns the units and the position just past the closing
/// quote, or the first error.
pub open spec fn spec_string_body(s: Seq<u8>, pos: int, acc: Seq<JsonChar>) -> Result<
    (Seq<JsonChar>, int),
    ErrorModel,
>
    decreases s.len() - pos,
{
    if !(0 <= pos < s.len()) {
        Err(ErrorModel::UnexpectedEndOfInput)
    } else {
        let b = s[pos];
        if b == 0x22 {
            Ok((acc, pos + 1))
        } else if b == 0x5C {
            if !(pos + 1 < s.len()) {
                Err(ErrorModel::UnexpectedEndOfInput)
            } else {
                let e = s[pos + 1];
                if e == 0x22 {
                    spec_string_body(s, pos + 2, acc.push(JsonChar::EscapedQuote))
                } else if e == 0x5C {
                    spec_string_body(s, pos + 2, acc.push(JsonChar::EscapedBackslash))
                } else if e == 0x2F {
                    spec_string_body(s, pos + 2, acc.push(JsonChar::EscapedSlash))
                } else if e == 0x62 {
                    spec_string_body(s, pos + 2, acc.push(JsonChar::EscapedBackspace))
                } else if e == 0x66 {
                    spec_string_body(s, pos + 2, acc.push(JsonChar::EscapedFormFeed))
                } else if e == 0x6E {
                    spec_string_body(s, pos + 2, acc.push(JsonChar::EscapedLineFeed))
                } else if e == 0x72 {
                    spec_string_body(s, pos + 2, acc.push(JsonChar::EscapedCarriageReturn))
                } else if e == 0x74 {
                    spec_string_body(s, pos + 2, acc.push(JsonChar::EscapedTab))
                } else if e == 0x75 {
                    if pos + 6 > s.len() {
                        Err(ErrorModel::UnexpectedEndOfInput)
                    } else if is_hex_digit(s[pos + 2]) && is_hex_digit(s[pos + 3]) && is_hex_digit(
                        s[pos + 4],
                    ) && is_hex_digit(s[pos + 5]) {
                        spec_string_body(
                            s,
                            pos + 6,
                            acc.push(JsonChar::UnicodeEscape(hex4_value(s, pos + 2))),
                        )
                    } else {
                        Err(ErrorModel::InvalidUnicodeEscape(s.subrange(pos + 2, pos + 6)))
                    }
                } else {
                    Err(ErrorModel::UnknownEscape(e))
                }
            }
        } else {
            spec_string_body(s, pos + 1, acc.push(JsonChar::Byte(b)))
        }
    }
}

/// The string grammar from the opening quote at `pos`.
pub open spec fn spec_read_string(s: Seq<u8>, pos: int) -> Result<(Seq<JsonChar>, int), ErrorModel> {
    spec_string_body(s, pos + 1, Seq::empty())
}

proof fn lemma_string_body_bounds(s: Seq<u8>, pos: int, acc: Seq<JsonChar>)
    ensures
        spec_string_body(s, pos, acc) matches Ok((cs, p2)) ==> pos < p2 <= s.len(),
    decreases s.len() - pos,
{
    if 0 <= pos < s.len() {
        let b = s[pos];
        if b == 0x22 {
        } else if b == 0x5C && pos + 1 < s.len() {
            let e = s[pos + 1];
            if e == 0x75 {
                if pos + 6 <= s.len() {
                    lemma_string_body_bounds(
                        s,
                        pos + 6,
                        acc.push(JsonChar::UnicodeEscape(hex4_value(s, pos + 2))),
                    );
                }
            } else {
                lemma_string_body_bounds(s, pos + 2, acc.push(JsonChar::EscapedQuote));
                lemma_string_body_bounds(s, pos + 2, acc.push(JsonChar::EscapedBackslash));
                lemma_string_body_bounds(s, pos + 2, acc.push(JsonChar::EscapedSlash));
                lemma_string_body_bounds(s, pos + 2, acc.push(JsonChar::EscapedBackspace));
                lemma_string_body_bounds(s, pos + 2, acc.push(JsonChar::EscapedFormFeed));
                lemma_string_body_bounds(s, pos + 2, acc.push(JsonChar::EscapedLineFeed));
                lemma_string_body_bounds(s, pos + 2, acc.push(JsonChar::EscapedCarriageReturn));
                lemma_string_body_bounds(s, pos + 2, acc.push(JsonChar::EscapedTab));
            }
        } else if b != 0x5C {
            lemma_string_body_bounds(s, pos + 1, acc.push(JsonChar::Byte(b)));
        }
    }
}

/// Whether a byte is an ASCII hexadecimal digit.
fn is_hex_digit_byte(b: u8) -> (r: bool)
    ensures
        r == is_hex_digit(b),
{
    (b >= 0x30 && b <= 0x39) || (b >= 0x41 && b <= 0x46) || (b >= 0x61 && b <= 0x66)
}

/// The numeric value of an ASCII hexadecimal digit.
fn hex_digit_value_byte(b: u8) -> (r: u16)
    requires
        is_hex_digit(b),
    ensures
        r == hex_digit_value(b),
{
    if b >= 0x30 && b <= 0x39 {
        (b - 0x30) as u16
    } else if b >= 0x41 && b <= 0x46 {
        (b - 0x41) as u16 + 10
    } else {
        (b - 0x61) as u16 + 10
    }
}

/// Reads a string token.  `pos` must sit on the opening quote; on
/// success the returned position sits just past the closing quote.
#[verifier::rlimit(100)]
pub fn read_string(input: &[u8], pos: usize) -> (r: Result<(Vec<JsonChar>, usize), Error>)
    requires
        pos < input@.len(),
        input@[pos as int] == 0x22,
    ensures
        match r {
            Ok((chars, p2)) => spec_read_string(input@, pos as int) == Ok::<
                (Seq<JsonChar>, int),
                ErrorModel,
            >((chars@, p2 as int)) && pos < p2 <= input@.len(),
            Err(e) => spec_read_string(input@, pos as int) == Err::<
                (Seq<JsonChar>, int),
                ErrorModel,
            >(e@),
        },
{
    let ghost s = input@;
    let n = input.len();
    let mut cur: usize = pos + 1;
    let mut string: Vec<JsonChar> = Vec::new();
    loop
        invariant
            pos < cur <= s.len(),
            s == input@,
            spec_read_string(s, pos as int) == spec_string_body(s, cur as int, string@),
        decreases s.len() - cur,
    {
        if cur >= input.len() {
            return Err(Error::UnexpectedEndOfInput);
        }
        let b = input[cur];
        if b == 0x22 {
            proof {
                lemma_string_body_bounds(s, pos as int + 1, Seq::empty());
            }
            return Ok((string, cur + 1));
        } else if b == 0x5C {
            if cur + 1 >= input.len() {
                return Err(Error::UnexpectedEndOfInput);
            }
            let e = input[cur + 1];
            if e == 0x22 {
                string.push(JsonChar::EscapedQuote);
            } else if e == 0x5C {
                string.push(JsonChar::EscapedBackslash);
            } else if e == 0x2F {
                string.push(JsonChar::EscapedSlash);
            } else if e == 0x62 {
                string.push(JsonChar::EscapedBackspace);
            } else if e == 0x66 {
                string.push(JsonChar::EscapedFormFeed);
            } else if e == 0x6E {
                string.push(JsonChar::EscapedLineFeed);
            } else if e == 0x72 {
                string.push(JsonChar::EscapedCarriageReturn);
            } else if e == 0x74 {
                string.push(JsonChar::EscapedTab);
            } else if e == 0x75 {
                if input.len() - cur < 6 {
                    return Err(Error::UnexpectedEndOfInput);
                }
                let h0 = input[cur + 2];
                let h1 = input[cur + 3];
                let h2 = input[cur + 4];
                let h3 = input[cur + 5];
                if is_hex_digit_byte(h0) && is_hex_digit_byte(h1) && is_hex_digit_byte(h2)
                    && is_hex_digit_byte(h3) {
                    let value = hex_digit_value_byte(h0) * 0x1000 + hex_digit_value_byte(h1) * 0x100
                        + hex_digit_value_byte(h2) * 0x10 + hex_digit_value_byte(h3);
                    string.push(JsonChar::UnicodeEscape(value));
                    cur = cur + 6;
                    continue ;
                } else {
                    proof {
                        assert(s.subrange(cur as int + 2, cur as int + 6) =~= seq![h0, h1, h2, h3]);
                    }
                    return Err(Error::InvalidUnicodeEscape([h0, h1, h2, h3]));
                }
            } else {
                return Err(Error::UnknownEscape(e));
            }
            cur = cur + 2;
        } else {
            string.push(JsonChar::Byte(b));
            cur = cur + 1;
        }
    }
}

/// The states of the RFC 8259 number grammar.  States whose name holds
/// an alternative with `Expect...Or...` tolerate end of input (the
/// accumulated bytes already form a complete number); the others demand
/// one more byte.
#[derive(Clone, Copy, Debug, PartialEq, Eq, Structural)]
pub enum NumberState {
    ExpectMinusOrZeroOrInitialMantissa,
    ExpectInitialMantissa,
    ExpectDotOrE,
    ExpectMantissaOrDotOrE,
    ExpectFractional,
    ExpectFractionalOrE,
    ExpectEPlusMinusOrInitialExponent,
    ExpectInitialExponent,
    ExpectExponent,
}

/// Whether a byte is an ASCII decimal digit.
pub open spec fn is_digit(b: u8) -> bool {
    0x30 <= b <= 0x39
}

/// The number grammar as a finite-state machine over the bytes from
/// `pos`, with `acc` the bytes matched so far.  States that require a
/// byte fail on end of input or on a byte outside the grammar; states
/// where a byte is optional return the accumulated bytes the moment the
/// next byte does not extend the number.
pub open spec fn spec_number_fsm(s: Seq<u8>, pos: int, state: NumberState, acc: Seq<u8>) -> Result<
    (Seq<u8>, int),
    ErrorModel,
>
    decreases s.len() - pos,
{
    match state {
        NumberState::ExpectMinusOrZeroOrInitialMantissa => {
            if !(0 <= pos < s.len()) {
                Err(ErrorModel::UnexpectedEndOfInput)
            } else {
                let b = s[pos];
                if b == 0x2D {
                    spec_number_fsm(s, pos + 1, NumberState::ExpectInitialMantissa, acc.push(b))
                } else if b == 0x30 {
                    spec_number_fsm(s, pos + 1, NumberState::ExpectDotOrE, acc.push(b))
                } else if 0x31 <= b <= 0x39 {
                    spec_number_fsm(s, pos + 1, NumberState::ExpectMantissaOrDotOrE, acc.push(b))
                } else {
                    Err(ErrorModel::InvalidNumberCharacter(b))
                }
            }
        },
        NumberState::ExpectInitialMantissa => {
            if !(0 <= pos < s.len()) {
                Err(ErrorModel::UnexpectedEndOfInput)
            } else {
                let b = s[pos];
                if b == 0x30 {
                    spec_number_fsm(s, pos + 1, NumberState::ExpectDotOrE, acc.push(b))
                } else if 0x31 <= b <= 0x39 {
                    spec_number_fsm(s, pos + 1, NumberState::ExpectMantissaOrDotOrE, acc.push(b))
                } else {
                    Err(ErrorModel::InvalidNumberCharacter(b))
                }
            }
        },
        NumberState::ExpectDotOrE => {
            if !(0 <= pos < s.len()) {
                Ok((acc, pos))
            } else {
                let b = s[pos];
                if b == 0x2E {
                    spec_number_fsm(s, pos + 1, NumberState::ExpectFractional, acc.push(b))
                } else if b == 0x45 || b == 0x65 {
                    spec_number_fsm(
                        s,
                        pos + 1,
                        NumberState::ExpectEPlusMinusOrInitialExponent,
                        acc.push(b),
                    )
                } else {
                    Ok((acc, pos))
                }
            }
        },
        NumberState::ExpectMantissaOrDotOrE => {
            if !(0 <= pos < s.len()) {
                Ok((acc, pos))
            } else {
                let b = s[pos];
                if is_digit(b) {
                    spec_number_fsm(s, pos + 1, NumberState::ExpectMantissaOrDotOrE, acc.push(b))
                } else if b == 0x2E {
                    spec_number_fsm(s, pos + 1, NumberState::ExpectFractional, acc.push(b))
                } else if b == 0x45 || b == 0x65 {
                    spec_number_fsm(
                        s,
                        pos + 1,
                        NumberState::ExpectEPlusMinusOrInitialExponent,
                        acc.push(b),
                    )
                } else {
                    Ok((acc, pos))
                }
            }
        },
        NumberState::ExpectFractional => {
            if !(0 <= pos < s.len()) {
                Err(ErrorModel::UnexpectedEndOfInput)
            } else {
                let b = s[pos];
                if is_digit(b) {
                    spec_number_fsm(s, pos + 1, NumberState::ExpectFractionalOrE, acc.push(b))
                } else {
                    Err(ErrorModel::InvalidNumberCharacter(b))
                }
            }
        },
        NumberState::ExpectFractionalOrE => {
            if !(0 <= pos < s.len()) {
                Ok((acc, pos))
            } else {
                let b = s[pos];
                if is_digit(b) {
                    spec_number_fsm(s, pos + 1, NumberState::ExpectFractionalOrE, acc.push(b))
                } else if b == 0x45 || b == 0x65 {
                    spec_number_fsm(
                        s,
                        pos + 1,
                        NumberState::ExpectEPlusMinusOrInitialExponent,
                        acc.push(b),
                    )
                } else {
                    Ok((acc, pos))
                }
            }
        },
        NumberState::ExpectEPlusMinusOrInitialExponent => {
            if !(0 <= pos < s.len()) {
                Err(ErrorModel::UnexpectedEndOfInput)
            } else {
                let b = s[pos];
                if b == 0x2B || b == 0x2D {
                    spec_number_fsm(s, pos + 1, NumberState::ExpectInitialExponent, acc.push(b))
                } else if is_digit(b) {
                    spec_number_fsm(s, pos + 1, NumberState::ExpectExponent, acc.push(b))
                } else {
                    Err(ErrorModel::InvalidNumberCharacter(b))
                }
            }
        },
        NumberState::ExpectInitialExponent => {
            if !(0 <= pos < s.len()) {
                Err(ErrorModel::UnexpectedEndOfInput)
            } else {
                let b = s[pos];
                if is_digit(b) {
                    spec_number_fsm(s, pos + 1, NumberState::ExpectExponent, acc.push(b))
                } else {
                    Err(ErrorModel::InvalidNumberCharacter(b))
                }
            }
        },
        NumberState::ExpectExponent => {
            if !(0 <= pos < s.len()) {
                Ok((acc, pos))
            } else {
                let b = s[pos];
                if is_digit(b) {
                    spec_number_fsm(s, pos + 1, NumberState::ExpectExponent, acc.push(b))
                } else {
                    Ok((acc, pos))
                }
            }
        },
    }
}

/// The whole number grammar, from its first byte at `pos`.
pub open spec fn spec_read_number(s: Seq<u8>, pos: int) -> Result<(Seq<u8>, int), ErrorModel> {
    spec_number_fsm(s, pos, NumberState::ExpectMinusOrZeroOrInitialMantissa, Seq::empty())
}

proof fn lemma_number_fsm_bounds(s: Seq<u8>, pos: int, state: NumberState, acc: Seq<u8>)
    requires
        0 <= pos <= s.len(),
    ensures
        spec_number_fsm(s, pos, state, acc) matches Ok((bs, p2)) ==> pos <= p2 <= s.len(),
    decreases s.len() - pos,
{
    if pos < s.len() {
        let b = s[pos];
        lemma_number_fsm_bounds(s, pos + 1, NumberState::ExpectInitialMantissa, acc.push(b));
        lemma_number_fsm_bounds(s, pos + 1, NumberState::ExpectDotOrE, acc.push(b));
        lemma_number_fsm_bounds(s, pos + 1, NumberState::ExpectMantissaOrDotOrE, acc.push(b));
        lemma_number_fsm_bounds(s, pos + 1, NumberState::ExpectFractional, acc.push(b));
        lemma_number_fsm_bounds(s, pos + 1, NumberState::ExpectFractionalOrE, acc.push(b));
        lemma_number_fsm_bounds(
            s,
            pos + 1,
            NumberState::ExpectEPlusMinusOrInitialExponent,
            acc.push(b),
        );
        lemma_number_fsm_bounds(s, pos + 1, NumberState::ExpectInitialExponent, acc.push(b));
        lemma_number_fsm_bounds(s, pos + 1, NumberState::ExpectExponent, acc.push(b));
    }
}

/// When the machine starts in its initial state and succeeds, it has
/// consumed at least one byte.
proof fn lemma_read_number_advances(s: Seq<u8>, pos: int)
    requires
        0 <= pos <= s.len(),
    ensures
        spec_read_number(s, pos) matches Ok((bs, p2)) ==> pos < p2 <= s.len(),
{
    if pos < s.len() {
        let b = s[pos];
        lemma_number_fsm_bounds(s, pos + 1, NumberState::ExpectInitialMantissa, seq![b]);
        lemma_number_fsm_bounds(s, pos + 1, NumberState::ExpectDotOrE, seq![b]);
        lemma_number_fsm_bounds(s, pos + 1, NumberState::ExpectMantissaOrDotOrE, seq![b]);
    }
}

/// Reads a number token, enforcing the RFC 8259 number grammar.
#[verifier::rlimit(100)]
pub fn read_number_string(input: &[u8], pos: usize) -> (r: Result<(Vec<u8>, usize), Error>)
    requires
        pos <= input@.len(),
    ensures
        match r {
            Ok((bytes, p2)) => spec_read_number(input@, pos as int) == Ok::<
                (Seq<u8>, int),
                ErrorModel,
            >((bytes@, p2 as int)) && pos <= p2 <= input@.len(),
            Err(e) => spec_read_number(input@, pos as int) == Err::<
                (Seq<u8>, int),
                ErrorModel,
            >(e@),
        },
{
    let ghost s = input@;
    let mut state = NumberState::ExpectMinusOrZeroOrInitialMantissa;
    let mut number_buf: Vec<u8> = Vec::new();
    let mut cur = pos;
    loop
        invariant
            pos <= cur <= s.len(),
            s == input@,
            spec_read_number(s, pos as int) == spec_number_fsm(s, cur as int, state, number_buf@),
        decreases s.len() - cur,
    {
        match state {
            NumberState::ExpectMinusOrZeroOrInitialMantissa => {
                if cur >= input.len() {
                    return Err(Error::UnexpectedEndOfInput);
                }
                let b = input[cur];
                if b == 0x2D {
                    number_buf.push(b);
                    state = NumberState::ExpectInitialMantissa;
                } else if b == 0x30 {
                    number_buf.push(b);
                    state = NumberState::ExpectDotOrE;
                } else if b >= 0x31 && b <= 0x39 {
                    number_buf.push(b);
                    state = NumberState::ExpectMantissaOrDotOrE;
                } else {
                    return Err(Error::InvalidNumberCharacter(b));
                }
                cur = cur + 1;
            },
            NumberState::ExpectInitialMantissa => {
                if cur >= input.len() {
                    return Err(Error::UnexpectedEndOfInput);
                }
                let b = input[cur];
                if b == 0x30 {
                    number_buf.push(b);
                    state = NumberState::ExpectDotOrE;
                } else if b >= 0x31 && b <= 0x39 {
                    number_buf.push(b);
                    state = NumberState::ExpectMantissaOrDotOrE;
                } else {
                    return Err(Error::InvalidNumberCharacter(b));
                }
                cur = cur + 1;
            },
            NumberState::ExpectDotOrE => {
                if cur >= input.len() {
                    return Ok((number_buf, cur));
                }
                let b = input[cur];
                if b == 0x2E {
                    number_buf.push(b);
                    state = NumberState::ExpectFractional;
                } else if b == 0x45 || b == 0x65 {
                    number_buf.push(b);
                    state = NumberState::ExpectEPlusMinusOrInitialExponent;
                } else {
                    return Ok((number_buf, cur));
                }
                cur = cur + 1;
            },
            NumberState::ExpectMantissaOrDotOrE => {
                if cur >= input.len() {
                    return Ok((number_buf, cur));
                }
                let b = input[cur];
                if b >= 0x30 && b <= 0x39 {
                    number_buf.push(b);
                } else if b == 0x2E {
                    number_buf.push(b);
                    state = NumberState::ExpectFractional;
                } else if b == 0x45 || b == 0x65 {
                    number_buf.push(b);
                    state = NumberState::ExpectEPlusMinusOrInitialExponent;
                } else {
                    return Ok((number_buf, cur));
                }
                cur = cur + 1;
            },
            NumberState::ExpectFractional => {
                if cur >= input.len() {
                    return Err(Error::UnexpectedEndOfInput);
                }
                let b = input[cur];
                if b >= 0x30 && b <= 0x39 {
                    number_buf.push(b);
                    state = NumberState::ExpectFractionalOrE;
                } else {
                    return Err(Error::InvalidNumberCharacter(b));
                }
                cur = cur + 1;
            },
            NumberState::ExpectFractionalOrE => {
                if cur >= input.len() {
                    return Ok((number_buf, cur));
                }
                let b = input[cur];
                if b >= 0x30 && b <= 0x39 {
                    number_buf.push(b);
                } else if b == 0x45 || b == 0x65 {
                    number_buf.push(b);
                    state = NumberState::ExpectEPlusMinusOrInitialExponent;
                } else {
                    return Ok((number_buf, cur));
                }
                cur = cur + 1;
            },
            NumberState::ExpectEPlusMinusOrInitialExponent => {
                if cur >= input.len() {
                    return Err(Error::UnexpectedEndOfInput);
                }
                let b = input[cur];
                if b == 0x2B || b == 0x2D {
                    number_buf.push(b);
                    state = NumberState::ExpectInitialExponent;
                } else if b >= 0x30 && b <= 0x39 {
                    number_buf.push(b);
                    state = NumberState::ExpectExponent;
                } else {
                    return Err(Error::InvalidNumberCharacter(b));
                }
                cur = cur + 1;
            },
            NumberState::ExpectInitialExponent => {
                if cur >= input.len() {
                    return Err(Error::UnexpectedEndOfInput);
                }
                let b = input[cur];
                if b >= 0x30 && b <= 0x39 {
                    number_buf.push(b);
                    state = NumberState::ExpectExponent;
                } else {
                    return Err(Error::InvalidNumberCharacter(b));
                }
                cur = cur + 1;
            },
            NumberState::ExpectExponent => {
                if cur >= input.len() {
                    return Ok((number_buf, cur));
                }
                let b = input[cur];
                if b >= 0x30 && b <= 0x39 {
                    number_buf.push(b);
                } else {
                    return Ok((number_buf, cur));
                }
                cur = cur + 1;
            },
        }
    }
}

/// The token, if any, standing for a single structural byte.
pub open spec fn spec_simple_token(b: u8) -> Option<TokenModel> {
    if b == 0x5B {
        Some(TokenModel::OpeningBracket)
    } else if b == 0x5D {
        Some(TokenModel::ClosingBracket)
    } else if b == 0x7B {
        Some(TokenModel::OpeningBrace)
    } else if b == 0x7D {
        Some(TokenModel::ClosingBrace)
    } else if b == 0x3A {
        Some(TokenModel::Colon)
    } else if b == 0x2C {
        Some(TokenModel::Comma)
    } else {
        None
    }
}

/// The next token of the input from `pos`, with the position just past
/// it: whitespace is skipped, then the first byte decides between a
/// structural token, a string, a number and a bareword.  `Ok(None)`
/// stands for clean end of input.
pub open spec fn spec_next_token(s: Seq<u8>, pos: int) -> Result<
    Option<(TokenModel, int)>,
    ErrorModel,
> {
    let p = spec_skip_ws(s, pos);
    if !(p < s.len()) {
        Ok(None)
    } else {
        let b = s[p];
        if spec_simple_token(b) is Some {
            Ok(Some((spec_simple_token(b).unwrap(), p + 1)))
        } else if b == 0x22 {
            match spec_read_string(s, p) {
                Ok((cs, p2)) => Ok(Some((TokenModel::String(cs), p2))),
                Err(e) => Err(e),
            }
        } else if b == 0x2D || is_digit(b) {
            match spec_read_number(s, p) {
                Ok((bs, p2)) => Ok(Some((TokenModel::Number(bs), p2))),
                Err(e) => Err(e),
            }
        } else if p + 4 > s.len() {
            Err(ErrorModel::UnexpectedEndOfInput)
        } else if s[p] == 0x74 && s[p + 1] == 0x72 && s[p + 2] == 0x75 && s[p + 3] == 0x65 {
            Ok(Some((TokenModel::True, p + 4)))
        } else if s[p] == 0x6E && s[p + 1] == 0x75 && s[p + 2] == 0x6C && s[p + 3] == 0x6C {
            Ok(Some((TokenModel::Null, p + 4)))
        } else if s[p] == 0x66 && s[p + 1] == 0x61 && s[p + 2] == 0x6C && s[p + 3] == 0x73 {
            if p + 5 > s.len() {
                Err(ErrorModel::UnexpectedEndOfInput)
            } else if s[p + 4] == 0x65 {
                Ok(Some((TokenModel::False, p + 5)))
            } else {
                Err(
                    ErrorModel::InvalidBarewordBeginning(
                        seq!['f', 'a', 'l', 's', s[p + 4] as char],
                    ),
                )
            }
        } else {
            Err(ErrorModel::InvalidBarewordBeginning(Seq::new(4, |i| s[p + i] as char)))
        }
    }
}

/// A successfully read token always stands strictly past the position
/// it was read from, and never past the end of the input.
pub proof fn lemma_next_token_advances(s: Seq<u8>, pos: int)
    requires
        0 <= pos <= s.len(),
    ensures
        spec_next_token(s, pos) matches Ok(Some((t, p2))) ==> pos < p2 <= s.len(),
{
    lemma_skip_ws_bounds(s, pos);
    let p = spec_skip_ws(s, pos);
    if p < s.len() {
        lemma_string_body_bounds(s, p + 1, Seq::empty());
        lemma_read_number_advances(s, p);
    }
}

/// The structural token matching the given byte, if any.
fn get_simple_token(b: u8) -> (r: Option<JsonToken>)
    ensures
        match r {
            Some(t) => spec_simple_token(b) == Some(t@),
            None => spec_simple_token(b) is None,
        },
{
    match b {
        0x5B => Some(JsonToken::OpeningBracket),
        0x5D => Some(JsonToken::ClosingBracket),
        0x7B => Some(JsonToken::OpeningBrace),
        0x7D => Some(JsonToken::ClosingBrace),
        0x3A => Some(JsonToken::Colon),
        0x2C => Some(JsonToken::Comma),
        _ => None,
    }
}

/// Relies on `String::from_iter` through `collect`: the collected string
/// holds exactly the characters of the vector, in order.
#[verifier::external_body]
pub(crate) fn chars_to_string(chars: Vec<char>) -> (r: String)
    ensures
        r@ == chars@,
{
    chars.into_iter().collect()
}

/// Reads the next token from `pos`, returning it with the position just
/// past it, `Ok(None)` at clean end of input, or the first lexical
/// error.
#[verifier::rlimit(100)]
pub fn read_next_token(input: &[u8], pos: usize) -> (r: Result<Option<(JsonToken, usize)>, Error>)
    requires
        pos <= input@.len(),
    ensures
        match r {
            Ok(Some((t, p2))) => spec_next_token(input@, pos as int) == Ok::<
                Option<(TokenModel, int)>,
                ErrorModel,
            >(Some((t@, p2 as int))) && pos < p2 <= input@.len(),
            Ok(None) => spec_next_token(input@, pos as int) == Ok::<
                Option<(TokenModel, int)>,
                ErrorModel,
            >(None),
            Err(e) => spec_next_token(input@, pos as int) == Err::<
                Option<(TokenModel, int)>,
                ErrorModel,
            >(e@),
        },
{
    let ghost s = input@;
    let p = skip_whitespace(input, pos);
    if p >= input.len() {
        return Ok(None);
    }
    let b = input[p];

    if let Some(simple_token) = get_simple_token(b) {
        return Ok(Some((simple_token, p + 1)));
    }

    if b == 0x22 {
        // a string begins
        return match read_string(input, p) {
            Ok((string, p2)) => Ok(Some((JsonToken::String(string), p2))),
            Err(e) => Err(e),
        };
    }

    // a number always begins with either a minus or a decimal digit
    if b == 0x2D || (b >= 0x30 && b <= 0x39) {
        return match read_number_string(input, p) {
            Ok((number, p2)) => {
                proof {
                    lemma_read_number_advances(s, p as int);
                }
                Ok(Some((JsonToken::Number(number), p2)))
            },
            Err(e) => Err(e),
        };
    }

    // otherwise, it must be a bareword; the shortest barewords are 4
    // bytes long (true or null)
    if input.len() - p < 4 {
        return Err(Error::UnexpectedEndOfInput);
    }
    let b0 = input[p];
    let b1 = input[p + 1];
    let b2 = input[p + 2];
    let b3 = input[p + 3];
    if b0 == 0x74 && b1 == 0x72 && b2 == 0x75 && b3 == 0x65 {
        Ok(Some((JsonToken::True, p + 4)))
    } else if b0 == 0x6E && b1 == 0x75 && b2 == 0x6C && b3 == 0x6C {
        Ok(Some((JsonToken::Null, p + 4)))
    } else if b0 == 0x66 && b1 == 0x61 && b2 == 0x6C && b3 == 0x73 {
        if input.len() - p < 5 {
            return Err(Error::UnexpectedEndOfInput);
        }
        let b4 = input[p + 4];
        if b4 == 0x65 {
            return Ok(Some((JsonToken::False, p + 5)));
        }

        // e.g. "falsx"
        let mut bareword_begin: Vec<char> = Vec::new();
        bareword_begin.push('f');
        bareword_begin.push('a');
        bareword_begin.push('l');
        bareword_begin.push('s');
        bareword_begin.push(b4 as char);
        proof {
            assert(bareword_begin@ =~= seq!['f', 'a', 'l', 's', s[p + 4] as char]);
        }
        Err(Error::InvalidBarewordBeginning(chars_to_string(bareword_begin)))
    } else {
        // some completely different bareword or sequence of symbols
        let mut bareword_begin: Vec<char> = Vec::new();
        bareword_begin.push(b0 as char);
        bareword_begin.push(b1 as char);
        bareword_begin.push(b2 as char);
        bareword_begin.push(b3 as char);
        proof {
            assert(bareword_begin@ =~= Seq::new(4, |i| s[p + i] as char));
        }
        Err(Error::InvalidBarewordBeginning(chars_to_string(bareword_begin)))
    }
}

} // verus!
