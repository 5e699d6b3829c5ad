//! The string codec: decodes a string token's character units into
//! canonical text.
//!
//! Raw bytes are reassembled as UTF-8; Unicode escapes are interpreted
//! as UTF-16 code units, combining surrogate pairs.  The decoded text is
//! what duplicate-key comparison works on, so that differently escaped
//! spellings of the same key compare equal.

use vstd::prelude::*;

use crate::tokenizer::{chars_to_string, Error, ErrorModel, JsonChar};

verus! {

/// Whether a value is a Unicode scalar value: a code point outside the
/// surrogate range.  Exactly these values exist as `char`s.
pub open spec fn is_unicode_scalar(v: u32) -> bool {
    v < 0xD800 || (0xE000 <= v && v <= 0x10FFFF)
}

/// Relies on `char::from_u32`: returns `Some` exactly for Unicode
/// scalar values, and the resulting character has the given value.
pub assume_specification[ char::from_u32 ](v: u32) -> (r: Option<char>)
    ensures
        r is Some <==> is_unicode_scalar(v),
        r matches Some(c) ==> c as u32 == v,
;

/// Whether a character unit is a raw byte of UTF-8 continuation shape.
pub open spec fn is_utf8_cont(c: JsonChar) -> bool {
    match c {
        JsonChar::Byte(b) => 0x80 <= b <= 0xBF,
        _ => false,
    }
}

/// The six payload bits of a UTF-8 continuation byte unit.
pub open spec fn cont_val(c: JsonChar) -> u32 {
    match c {
        JsonChar::Byte(b) => (b - 0x80) as u32,
        _ => 0,
    }
}

/// Decodes the single logical character starting at unit `i`: one raw
/// UTF-8 sequence of one to four bytes, one fixed escape, or one
/// Unicode escape (two units for a surrogate pair).  Returns the
/// decoded character and the index of the next undecoded unit.
pub open spec fn spec_decode_one(cs: Seq<JsonChar>, i: int) -> Result<(char, int), ErrorModel> {
    match cs[i] {
        JsonChar::Byte(b) => {
            if b < 0x80 {
                Ok((b as char, i + 1))
            } else if 0xC0 <= b <= 0xDF {
                if !(i + 1 < cs.len()) {
                    Err(ErrorModel::InvalidUtf8Sequence(seq![cs[i]]))
                } else if !is_utf8_cont(cs[i + 1]) {
                    Err(ErrorModel::InvalidUtf8Sequence(seq![cs[i], cs[i + 1]]))
                } else {
                    let v = (((b - 0xC0) * 0x40) as u32 + cont_val(cs[i + 1])) as u32;
                    if is_unicode_scalar(v) {
                        Ok((v as char, i + 2))
                    } else {
                        Err(ErrorModel::Utf8SequenceProducedSurrogate(v))
                    }
                }
            } else if 0xE0 <= b <= 0xEF {
                if !(i + 1 < cs.len()) {
                    Err(ErrorModel::InvalidUtf8Sequence(seq![cs[i]]))
                } else if !is_utf8_cont(cs[i + 1]) {
                    Err(ErrorModel::InvalidUtf8Sequence(seq![cs[i], cs[i + 1]]))
                } else if !(i + 2 < cs.len()) {
                    Err(ErrorModel::InvalidUtf8Sequence(seq![cs[i], cs[i + 1]]))
                } else if !is_utf8_cont(cs[i + 2]) {
                    Err(ErrorModel::InvalidUtf8Sequence(seq![cs[i], cs[i + 1], cs[i + 2]]))
                } else {
                    let v = (((b - 0xE0) * 0x1000) as u32 + cont_val(cs[i + 1]) * 0x40 + cont_val(
                        cs[i + 2],
                    )) as u32;
                    if is_unicode_scalar(v) {
                        Ok((v as char, i + 3))
                    } else {
                        Err(ErrorModel::Utf8SequenceProducedSurrogate(v))
                    }
                }
            } else if 0xF0 <= b <= 0xF7 {
                if !(i + 1 < cs.len()) {
                    Err(ErrorModel::InvalidUtf8Sequence(seq![cs[i]]))
                } else if !is_utf8_cont(cs[i + 1]) {
                    Err(ErrorModel::InvalidUtf8Sequence(seq![cs[i], cs[i + 1]]))
                } else if !(i + 2 < cs.len()) {
                    Err(ErrorModel::InvalidUtf8Sequence(seq![cs[i], cs[i + 1]]))
                } else if !is_utf8_cont(cs[i + 2]) {
                    Err(ErrorModel::InvalidUtf8Sequence(seq![cs[i], cs[i + 1], cs[i + 2]]))
                } else if !(i + 3 < cs.len()) {
                    Err(ErrorModel::InvalidUtf8Sequence(seq![cs[i], cs[i + 1], cs[i + 2]]))
                } else if !is_utf8_cont(cs[i + 3]) {
                    Err(
                        ErrorModel::InvalidUtf8Sequence(
                            seq![cs[i], cs[i + 1], cs[i + 2], cs[i + 3]],
                        ),
                    )
                } else {
                    let v = (((b - 0xF0) * 0x40000) as u32 + cont_val(cs[i + 1]) * 0x1000 + cont_val(
                        cs[i + 2],
                    ) * 0x40 + cont_val(cs[i + 3])) as u32;
                    if is_unicode_scalar(v) {
                        Ok((v as char, i + 4))
                    } else {
                        Err(ErrorModel::Utf8SequenceProducedSurrogate(v))
                    }
                }
            } else {
                Err(ErrorModel::InvalidUtf8Sequence(seq![cs[i]]))
            }
        },
        JsonChar::EscapedQuote => Ok(('"', i + 1)),
        JsonChar::EscapedBackslash => Ok(('\\', i + 1)),
        JsonChar::EscapedSlash => Ok(('/', i + 1)),
        JsonChar::EscapedBackspace => Ok(('\u{08}', i + 1)),
        JsonChar::EscapedFormFeed => Ok(('\u{0C}', i + 1)),
        JsonChar::EscapedLineFeed => Ok(('\n', i + 1)),
        JsonChar::EscapedCarriageReturn => Ok(('\r', i + 1)),
        JsonChar::EscapedTab => Ok(('\t', i + 1)),
        JsonChar::UnicodeEscape(u) => {
            if 0xD800 <= u <= 0xDBFF {
                // leading surrogate; a trailing surrogate escape must follow
                if !(i + 1 < cs.len()) {
                    Err(ErrorModel::InvalidUtf16SurrogateSequence(seq![cs[i]]))
                } else {
                    match cs[i + 1] {
                        JsonChar::UnicodeEscape(u2) => {
                            if 0xDC00 <= u2 <= 0xDFFF {
                                let v = (0x10000 + (u - 0xD800) * 0x400 + (u2 - 0xDC00)) as u32;
                                Ok((v as char, i + 2))
                            } else {
                                Err(
                                    ErrorModel::InvalidUtf16SurrogateSequence(
                                        seq![cs[i], cs[i + 1]],
                                    ),
                                )
                            }
                        },
                        _ => Err(ErrorModel::InvalidUtf16SurrogateSequence(seq![cs[i], cs[i + 1]])),
                    }
                }
            } else if 0xDC00 <= u <= 0xDFFF {
                // trailing surrogate without a leading surrogate
                Err(ErrorModel::InvalidUtf16SurrogateSequence(seq![cs[i]]))
            } else {
                // non-surrogate BMP escape
                Ok(((u as u32) as char, i + 1))
            }
        },
    }
}

/// The canonical decoding of the units from `i` on, appended to `acc`,
/// or the first decoding error.
pub open spec fn spec_interpret_from(cs: Seq<JsonChar>, i: int, acc: Seq<char>) -> Result<
    Seq<char>,
    ErrorModel,
>
    decreases cs.len() - i when 0 <= i via spec_interpret_from_dec
{
    if !(i < cs.len()) {
        Ok(acc)
    } else {
        match spec_decode_one(cs, i) {
            Ok((c, j)) => spec_interpret_from(cs, j, acc.push(c)),
            Err(e) => Err(e),
        }
    }
}

/// Decoding one unit always consumes at least one unit and never runs
/// past the end.
proof fn lemma_decode_one_bounds(cs: Seq<JsonChar>, i: int)
    requires
        0 <= i < cs.len(),
    ensures
        spec_decode_one(cs, i) matches Ok((c, j)) ==> i < j <= cs.len(),
{
}

#[via_fn]
proof fn spec_interpret_from_dec(cs: Seq<JsonChar>, i: int, acc: Seq<char>) {
    if i < cs.len() {
        lemma_decode_one_bounds(cs, i);
    }
}

/// The canonical decoding of a whole character-unit sequence.
pub open spec fn spec_interpret_string(cs: Seq<JsonChar>) -> Result<Seq<char>, ErrorModel> {
    spec_interpret_from(cs, 0, Seq::empty())
}

/// An invalid-UTF-8 error naming one offending unit.
fn utf8_err1(c0: JsonChar) -> (r: Error)
    ensures
        r@ == ErrorModel::InvalidUtf8Sequence(seq![c0]),
{
    let mut payload: Vec<JsonChar> = Vec::new();
    payload.push(c0);
    proof {
        assert(payload@ =~= seq![c0]);
    }
    Error::InvalidUtf8Sequence(payload)
}

/// An invalid-UTF-8 error naming two offending units.
fn utf8_err2(c0: JsonChar, c1: JsonChar) -> (r: Error)
    ensures
        r@ == ErrorModel::InvalidUtf8Sequence(seq![c0, c1]),
{
    let mut payload: Vec<JsonChar> = Vec::new();
    payload.push(c0);
    payload.push(c1);
    proof {
        assert(payload@ =~= seq![c0, c1]);
    }
    Error::InvalidUtf8Sequence(payload)
}

/// An invalid-UTF-8 error naming three offending units.
fn utf8_err3(c0: JsonChar, c1: JsonChar, c2: JsonChar) -> (r: Error)
    ensures
        r@ == ErrorModel::InvalidUtf8Sequence(seq![c0, c1, c2]),
{
    let mut payload: Vec<JsonChar> = Vec::new();
    payload.push(c0);
    payload.push(c1);
    payload.push(c2);
    proof {
        assert(payload@ =~= seq![c0, c1, c2]);
    }
    Error::InvalidUtf8Sequence(payload)
}

/// An invalid-UTF-8 error naming four offending units.
fn utf8_err4(c0: JsonChar, c1: JsonChar, c2: JsonChar, c3: JsonChar) -> (r: Error)
    ensures
        r@ == ErrorModel::InvalidUtf8Sequence(seq![c0, c1, c2, c3]),
{
    let mut payload: Vec<JsonChar> = Vec::new();
    payload.push(c0);
    payload.push(c1);
    payload.push(c2);
    payload.push(c3);
    proof {
        assert(payload@ =~= seq![c0, c1, c2, c3]);
    }
    Error::InvalidUtf8Sequence(payload)
}

/// An invalid-surrogate error naming one offending unit.
fn surrogate_err1(c0: JsonChar) -> (r: Error)
    ensures
        r@ == ErrorModel::InvalidUtf16SurrogateSequence(seq![c0]),
{
    let mut payload: Vec<JsonChar> = Vec::new();
    payload.push(c0);
    proof {
        assert(payload@ =~= seq![c0]);
    }
    Error::InvalidUtf16SurrogateSequence(payload)
}

/// An invalid-surrogate error naming two offending units.
fn surrogate_err2(c0: JsonChar, c1: JsonChar) -> (r: Error)
    ensures
        r@ == ErrorModel::InvalidUtf16SurrogateSequence(seq![c0, c1]),
{
    let mut payload: Vec<JsonChar> = Vec::new();
    payload.push(c0);
    payload.push(c1);
    proof {
        assert(payload@ =~= seq![c0, c1]);
    }
    Error::InvalidUtf16SurrogateSequence(payload)
}

/// Decodes the single logical character starting at unit `i`.
#[verifier::rlimit(100)]
fn decode_one(json_chars: &[JsonChar], i: usize) -> (r: Result<(char, usize), Error>)
    requires
        i < json_chars@.len(),
    ensures
        match r {
            Ok((c, j)) => spec_decode_one(json_chars@, i as int) == Ok::<(char, int), ErrorModel>(
                (c, j as int),
            ) && i < j <= json_chars@.len(),
            Err(e) => spec_decode_one(json_chars@, i as int) == Err::<(char, int), ErrorModel>(e@),
        },
{
    let ghost cs = json_chars@;
    let n = json_chars.len();
    match json_chars[i] {
        JsonChar::Byte(b) => {
            if b < 0x80 {
                Ok((b as char, i + 1))
            } else if b >= 0xC0 && b <= 0xDF {
                if !(i + 1 < n) {
                    return Err(utf8_err1(json_chars[i]));
                }
                let c1 = json_chars[i + 1];
                let b1 = match c1 {
                    JsonChar::Byte(b1) => {
                        if b1 >= 0x80 && b1 <= 0xBF {
                            b1
                        } else {
                            return Err(utf8_err2(json_chars[i], c1));
                        }
                    },
                    _ => {
                        return Err(utf8_err2(json_chars[i], c1));
                    },
                };
                let v: u32 = ((b - 0xC0) as u32) * 0x40 + ((b1 - 0x80) as u32);
                match char::from_u32(v) {
                    Some(c) => {
                        proof {
                            vstd::utf8::char_u32_cast(c, v);
                        }
                        Ok((c, i + 2))
                    },
                    None => Err(Error::Utf8SequenceProducedSurrogate(v)),
                }
            } else if b >= 0xE0 && b <= 0xEF {
                if !(i + 1 < n) {
                    return Err(utf8_err1(json_chars[i]));
                }
                let c1 = json_chars[i + 1];
                let b1 = match c1 {
                    JsonChar::Byte(b1) => {
                        if b1 >= 0x80 && b1 <= 0xBF {
                            b1
                        } else {
                            return Err(utf8_err2(json_chars[i], c1));
                        }
                    },
                    _ => {
                        return Err(utf8_err2(json_chars[i], c1));
                    },
                };
                if !(i + 2 < n) {
                    return Err(utf8_err2(json_chars[i], c1));
                }
                let c2 = json_chars[i + 2];
                let b2 = match c2 {
                    JsonChar::Byte(b2) => {
                        if b2 >= 0x80 && b2 <= 0xBF {
                            b2
                        } else {
                            return Err(utf8_err3(json_chars[i], c1, c2));
                        }
                    },
                    _ => {
                        return Err(utf8_err3(json_chars[i], c1, c2));
                    },
                };
                let v: u32 = ((b - 0xE0) as u32) * 0x1000 + ((b1 - 0x80) as u32) * 0x40 + ((b2
                    - 0x80) as u32);
                match char::from_u32(v) {
                    Some(c) => {
                        proof {
                            vstd::utf8::char_u32_cast(c, v);
                        }
                        Ok((c, i + 3))
                    },
                    None => Err(Error::Utf8SequenceProducedSurrogate(v)),
                }
            } else if b >= 0xF0 && b <= 0xF7 {
                if !(i + 1 < n) {
                    return Err(utf8_err1(json_chars[i]));
                }
                let c1 = json_chars[i + 1];
                let b1 = match c1 {
                    JsonChar::Byte(b1) => {
                        if b1 >= 0x80 && b1 <= 0xBF {
                            b1
                        } else {
                            return Err(utf8_err2(json_chars[i], c1));
                        }
                    },
                    _ => {
                        return Err(utf8_err2(json_chars[i], c1));
                    },
                };
                if !(i + 2 < n) {
                    return Err(utf8_err2(json_chars[i], c1));
                }
                let c2 = json_chars[i + 2];
                let b2 = match c2 {
                    JsonChar::Byte(b2) => {
                        if b2 >= 0x80 && b2 <= 0xBF {
                            b2
                        } else {
                            return Err(utf8_err3(json_chars[i], c1, c2));
                        }
                    },
                    _ => {
                        return Err(utf8_err3(json_chars[i], c1, c2));
                    },
                };
                if !(i + 3 < n) {
                    return Err(utf8_err3(json_chars[i], c1, c2));
                }
                let c3 = json_chars[i + 3];
                let b3 = match c3 {
                    JsonChar::Byte(b3) => {
                        if b3 >= 0x80 && b3 <= 0xBF {
                            b3
                        } else {
                            return Err(utf8_err4(json_chars[i], c1, c2, c3));
                        }
                    },
                    _ => {
                        return Err(utf8_err4(json_chars[i], c1, c2, c3));
                    },
                };
                let v: u32 = ((b - 0xF0) as u32) * 0x40000 + ((b1 - 0x80) as u32) * 0x1000 + ((b2
                    - 0x80) as u32) * 0x40 + ((b3 - 0x80) as u32);
                match char::from_u32(v) {
                    Some(c) => {
                        proof {
                            vstd::utf8::char_u32_cast(c, v);
                        }
                        Ok((c, i + 4))
                    },
                    None => Err(Error::Utf8SequenceProducedSurrogate(v)),
                }
            } else {
                Err(utf8_err1(json_chars[i]))
            }
        },
        JsonChar::EscapedQuote => Ok(('"', i + 1)),
        JsonChar::EscapedBackslash => Ok(('\\', i + 1)),
        JsonChar::EscapedSlash => Ok(('/', i + 1)),
        JsonChar::EscapedBackspace => Ok(('\u{08}', i + 1)),
        JsonChar::EscapedFormFeed => Ok(('\u{0C}', i + 1)),
        JsonChar::EscapedLineFeed => Ok(('\n', i + 1)),
        JsonChar::EscapedCarriageReturn => Ok(('\r', i + 1)),
        JsonChar::EscapedTab => Ok(('\t', i + 1)),
        JsonChar::UnicodeEscape(u) => {
            if u >= 0xD800 && u <= 0xDBFF {
                // leading surrogate; a trailing surrogate escape must follow
                if !(i + 1 < n) {
                    return Err(surrogate_err1(json_chars[i]));
                }
                match json_chars[i + 1] {
                    JsonChar::UnicodeEscape(u2) => {
                        if u2 >= 0xDC00 && u2 <= 0xDFFF {
                            let v: u32 = 0x10000 + ((u - 0xD800) as u32) * 0x400 + ((u2
                                - 0xDC00) as u32);
                            match char::from_u32(v) {
                                Some(c) => {
                                    proof {
                                        vstd::utf8::char_u32_cast(c, v);
                                    }
                                    Ok((c, i + 2))
                                },
                                None => vstd::pervasive::unreached(),
                            }
                        } else {
                            Err(surrogate_err2(json_chars[i], json_chars[i + 1]))
                        }
                    },
                    _ => Err(surrogate_err2(json_chars[i], json_chars[i + 1])),
                }
            } else if u >= 0xDC00 && u <= 0xDFFF {
                // trailing surrogate without a leading surrogate
                Err(surrogate_err1(json_chars[i]))
            } else {
                // non-surrogate BMP escape
                match char::from_u32(u as u32) {
                    Some(c) => {
                        proof {
                            vstd::utf8::char_u32_cast(c, u as u32);
                        }
                        Ok((c, i + 1))
                    },
                    None => vstd::pervasive::unreached(),
                }
            }
        },
    }
}

/// Canonically decodes a whole character-unit sequence.
pub(crate) fn interpret_chars(json_chars: &[JsonChar]) -> (r: Result<Vec<char>, Error>)
    ensures
        match r {
            Ok(chars) => spec_interpret_string(json_chars@) == Ok::<Seq<char>, ErrorModel>(chars@),
            Err(e) => spec_interpret_string(json_chars@) == Err::<Seq<char>, ErrorModel>(e@),
        },
{
    let ghost cs = json_chars@;
    let mut chars: Vec<char> = Vec::new();
    let mut i: usize = 0;
    while i < json_chars.len()
        invariant
            i <= cs.len(),
            cs == json_chars@,
            spec_interpret_string(cs) == spec_interpret_from(cs, i as int, chars@),
        decreases cs.len() - i,
    {
        match decode_one(json_chars, i) {
            Ok((c, j)) => {
                chars.push(c);
                i = j;
            },
            Err(e) => {
                return Err(e);
            },
        }
    }
    Ok(chars)
}

/// Canonically decodes a string token's character units into text:
/// raw bytes as UTF-8, Unicode escapes as UTF-16 code units with
/// surrogate pairs combined, fixed escapes as the characters they name.
pub fn interpret_string(json_chars: &[JsonChar]) -> (r: Result<String, Error>)
    ensures
        match r {
            Ok(text) => spec_interpret_string(json_chars@) == Ok::<Seq<char>, ErrorModel>(text@),
            Err(e) => spec_interpret_string(json_chars@) == Err::<Seq<char>, ErrorModel>(e@),
        },
{
    match interpret_chars(json_chars) {
        Ok(chars) => Ok(chars_to_string(chars)),
        Err(e) => Err(e),
    }
}

} // verus!
