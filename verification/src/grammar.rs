//! The document grammar, stated declaratively.
//!
//! A ghost model of JSON documents, a canonical byte rendering of the
//! model, and the completeness law: every well-formed document model,
//! rendered and surrounded by whitespace, is accepted by the verifier.

use vstd::prelude::*;

use crate::codec::spec_interpret_string;
use crate::is_json_ws;
use crate::tokenizer::{
    hex4_value, hex_digit_value, is_digit, is_hex_digit, spec_next_token, spec_number_fsm,
    spec_read_number, spec_simple_token, spec_skip_ws, spec_string_body, ErrorModel, JsonChar,
    NumberState, TokenModel,
};
use crate::validator::{
    expects_after_value, expects_of, initial_expects, spec_run, spec_step, spec_verify,
    FrameModel, ParserExpects, StepModel,
};

verus! {

/// A ghost JSON document: the shapes a value can take.  Numbers carry
/// their source bytes, strings their source character units.
pub enum JsonValueModel {
    Null,
    True,
    False,
    Number(Seq<u8>),
    String(Seq<JsonChar>),
    Array(Seq<JsonValueModel>),
    Object(Seq<(Seq<JsonChar>, JsonValueModel)>),
}

/// The canonical rendering of a value: no whitespace between tokens.
pub open spec fn render_value(v: JsonValueModel) -> Seq<u8>
    decreases v, 0int, 0int,
{
    match v {
        JsonValueModel::Null => seq![0x6Eu8, 0x75u8, 0x6Cu8, 0x6Cu8],
        JsonValueModel::True => seq![0x74u8, 0x72u8, 0x75u8, 0x65u8],
        JsonValueModel::False => seq![0x66u8, 0x61u8, 0x6Cu8, 0x73u8, 0x65u8],
        JsonValueModel::Number(bs) => bs,
        JsonValueModel::String(cs) => render_string(cs),
        JsonValueModel::Array(vs) => seq![0x5Bu8] + render_elements(vs, 0) + seq![0x5Du8],
        JsonValueModel::Object(es) => seq![0x7Bu8] + render_entries(es, 0) + seq![0x7Du8],
    }
}

/// The rendering of an array's elements from index `k` on, separated
/// by commas.
pub open spec fn render_elements(vs: Seq<JsonValueModel>, k: int) -> Seq<u8>
    decreases vs, vs.len() - k, 1int,
{
    if !(0 <= k < vs.len()) {
        Seq::empty()
    } else if k == vs.len() - 1 {
        render_value(vs[k])
    } else {
        render_value(vs[k]) + seq![0x2Cu8] + render_elements(vs, k + 1)
    }
}

/// The rendering of an object's entries from index `k` on: each a
/// string key, a colon and a value, separated by commas.
pub open spec fn render_entries(es: Seq<(Seq<JsonChar>, JsonValueModel)>, k: int) -> Seq<u8>
    decreases es, es.len() - k, 1int,
{
    if !(0 <= k < es.len()) {
        Seq::empty()
    } else if k == es.len() - 1 {
        render_string(es[k].0) + seq![0x3Au8] + render_value(es[k].1)
    } else {
        render_string(es[k].0) + seq![0x3Au8] + render_value(es[k].1) + seq![0x2Cu8]
            + render_entries(es, k + 1)
    }
}

/// The rendering of a string token: a quote, each character unit as
/// written, a quote.
pub open spec fn render_string(cs: Seq<JsonChar>) -> Seq<u8> {
    seq![0x22u8] + render_units(cs, 0) + seq![0x22u8]
}

/// The rendering of a string's character units from index `j` on.
pub open spec fn render_units(cs: Seq<JsonChar>, j: int) -> Seq<u8>
    decreases cs.len() - j,
{
    if !(0 <= j < cs.len()) {
        Seq::empty()
    } else {
        render_unit(cs[j]) + render_units(cs, j + 1)
    }
}

/// The lowercase hexadecimal digit for a value below sixteen.
pub open spec fn hex_digit_byte_of(d: int) -> u8 {
    if d < 10 {
        (0x30 + d) as u8
    } else {
        (0x61 + d - 10) as u8
    }
}

/// The four hexadecimal digits of a 16-bit escape value.
pub open spec fn render_hex4(u: u16) -> Seq<u8> {
    seq![
        hex_digit_byte_of(u as int / 0x1000),
        hex_digit_byte_of(u as int % 0x1000 / 0x100),
        hex_digit_byte_of(u as int % 0x1000 % 0x100 / 0x10),
        hex_digit_byte_of(u as int % 0x1000 % 0x100 % 0x10),
    ]
}

/// The rendering of one character unit, in the source form it stands
/// for: the raw byte itself, a two-byte fixed escape, or a six-byte
/// Unicode escape.
pub open spec fn render_unit(c: JsonChar) -> Seq<u8> {
    match c {
        JsonChar::Byte(b) => seq![b],
        JsonChar::EscapedQuote => seq![0x5Cu8, 0x22u8],
        JsonChar::EscapedBackslash => seq![0x5Cu8, 0x5Cu8],
        JsonChar::EscapedSlash => seq![0x5Cu8, 0x2Fu8],
        JsonChar::EscapedBackspace => seq![0x5Cu8, 0x62u8],
        JsonChar::EscapedFormFeed => seq![0x5Cu8, 0x66u8],
        JsonChar::EscapedLineFeed => seq![0x5Cu8, 0x6Eu8],
        JsonChar::EscapedCarriageReturn => seq![0x5Cu8, 0x72u8],
        JsonChar::EscapedTab => seq![0x5Cu8, 0x74u8],
        JsonChar::UnicodeEscape(u) => seq![0x5Cu8, 0x75u8] + render_hex4(u),
    }
}

/// The canonical decoding of a string's character units, where it
/// exists.
pub open spec fn decoded_text(cs: Seq<JsonChar>) -> Seq<char> {
    spec_interpret_string(cs)->Ok_0
}

/// Whether a character unit reads back as itself: a raw byte must not
/// be the quote or the backslash, which the lexer treats as structure.
pub open spec fn unit_renders_safely(c: JsonChar) -> bool {
    match c {
        JsonChar::Byte(b) => b != 0x22 && b != 0x5C,
        _ => true,
    }
}

/// A well-formed string: its units decode, and each reads back as
/// itself.
pub open spec fn wf_string_units(cs: Seq<JsonChar>) -> bool {
    &&& spec_interpret_string(cs) is Ok
    &&& forall|j: int| 0 <= j < cs.len() ==> unit_renders_safely(#[trigger] cs[j])
}

/// Pairwise-distinct canonical key texts.
pub open spec fn distinct_keys(es: Seq<(Seq<JsonChar>, JsonValueModel)>) -> bool {
    forall|k1: int, k2: int|
        0 <= k1 < k2 < es.len() ==> decoded_text(es[k1].0) != decoded_text(es[k2].0)
}

/// A well-formed document model: numbers are exactly what the number
/// grammar accepts, strings are well-formed, every object's keys are
/// pairwise distinct after canonical decoding.
pub open spec fn wf_value(v: JsonValueModel) -> bool
    decreases v, 0int, 0int,
{
    match v {
        JsonValueModel::Null => true,
        JsonValueModel::True => true,
        JsonValueModel::False => true,
        JsonValueModel::Number(bs) => spec_read_number(bs, 0) == Ok::<(Seq<u8>, int), ErrorModel>(
            (bs, bs.len() as int),
        ),
        JsonValueModel::String(cs) => wf_string_units(cs),
        JsonValueModel::Array(vs) => wf_elements(vs, 0),
        JsonValueModel::Object(es) => wf_entries(es, 0) && distinct_keys(es),
    }
}

/// Well-formedness of an array's elements from index `k` on.
pub open spec fn wf_elements(vs: Seq<JsonValueModel>, k: int) -> bool
    decreases vs, vs.len() - k, 1int,
{
    if !(0 <= k < vs.len()) {
        true
    } else {
        wf_value(vs[k]) && wf_elements(vs, k + 1)
    }
}

/// Well-formedness of an object's entries from index `k` on.
pub open spec fn wf_entries(es: Seq<(Seq<JsonChar>, JsonValueModel)>, k: int) -> bool
    decreases es, es.len() - k, 1int,
{
    if !(0 <= k < es.len()) {
        true
    } else {
        wf_string_units(es[k].0) && wf_value(es[k].1) && wf_entries(es, k + 1)
    }
}

/// Skipping whitespace runs exactly to the first non-whitespace byte.
proof fn lemma_skip_ws_through(s: Seq<u8>, pos: int, end: int)
    requires
        0 <= pos <= end <= s.len(),
        forall|i: int| pos <= i < end ==> is_json_ws(#[trigger] s[i]),
        end == s.len() || !is_json_ws(s[end]),
    ensures
        spec_skip_ws(s, pos) == end,
    decreases end - pos,
{
    if pos < end {
        lemma_skip_ws_through(s, pos + 1, end);
    }
}

/// The bytes that can extend a number token: the lexer stops a number
/// only at a byte outside this set (or at end of input).
pub open spec fn extends_number(b: u8) -> bool {
    is_digit(b) || b == 0x2E || b == 0x45 || b == 0x65
}

/// A number that the standalone grammar accepts in full is read
/// identically in context, provided the byte after it (if any) cannot
/// extend it.
#[verifier::rlimit(100)]
proof fn lemma_number_fsm_in_context(
    s: Seq<u8>,
    pos: int,
    bs: Seq<u8>,
    k: int,
    st: NumberState,
    acc: Seq<u8>,
    res: Seq<u8>,
)
    requires
        0 <= pos,
        0 <= k <= bs.len(),
        pos + bs.len() <= s.len(),
        forall|i: int| 0 <= i < bs.len() ==> s[pos + i] == bs[i],
        pos + bs.len() == s.len() || !extends_number(s[pos + bs.len()]),
        spec_number_fsm(bs, k, st, acc) == Ok::<(Seq<u8>, int), ErrorModel>(
            (res, bs.len() as int),
        ),
    ensures
        spec_number_fsm(s, pos + k, st, acc) == Ok::<(Seq<u8>, int), ErrorModel>(
            (res, pos + bs.len()),
        ),
    decreases bs.len() - k,
{
    if k < bs.len() {
        let b = bs[k];
        assert(s[pos + k] == b);
        match st {
            NumberState::ExpectMinusOrZeroOrInitialMantissa => {
                if b == 0x2D {
                    lemma_number_fsm_in_context(
                        s, pos, bs, k + 1, NumberState::ExpectInitialMantissa, acc.push(b), res,
                    );
                } else if b == 0x30 {
                    lemma_number_fsm_in_context(
                        s, pos, bs, k + 1, NumberState::ExpectDotOrE, acc.push(b), res,
                    );
                } else if 0x31 <= b <= 0x39 {
                    lemma_number_fsm_in_context(
                        s, pos, bs, k + 1, NumberState::ExpectMantissaOrDotOrE, acc.push(b), res,
                    );
                }
            },
            NumberState::ExpectInitialMantissa => {
                if b == 0x30 {
                    lemma_number_fsm_in_context(
                        s, pos, bs, k + 1, NumberState::ExpectDotOrE, acc.push(b), res,
                    );
                } else if 0x31 <= b <= 0x39 {
                    lemma_number_fsm_in_context(
                        s, pos, bs, k + 1, NumberState::ExpectMantissaOrDotOrE, acc.push(b), res,
                    );
                }
            },
            NumberState::ExpectDotOrE => {
                if b == 0x2E {
                    lemma_number_fsm_in_context(
                        s, pos, bs, k + 1, NumberState::ExpectFractional, acc.push(b), res,
                    );
                } else if b == 0x45 || b == 0x65 {
                    lemma_number_fsm_in_context(
                        s,
                        pos,
                        bs,
                        k + 1,
                        NumberState::ExpectEPlusMinusOrInitialExponent,
                        acc.push(b),
                        res,
                    );
                }
            },
            NumberState::ExpectMantissaOrDotOrE => {
                if is_digit(b) {
                    lemma_number_fsm_in_context(
                        s, pos, bs, k + 1, NumberState::ExpectMantissaOrDotOrE, acc.push(b), res,
                    );
                } else if b == 0x2E {
                    lemma_number_fsm_in_context(
                        s, pos, bs, k + 1, NumberState::ExpectFractional, acc.push(b), res,
                    );
                } else if b == 0x45 || b == 0x65 {
                    lemma_number_fsm_in_context(
                        s,
                        pos,
                        bs,
                        k + 1,
                        NumberState::ExpectEPlusMinusOrInitialExponent,
                        acc.push(b),
                        res,
                    );
                }
            },
            NumberState::ExpectFractional => {
                if is_digit(b) {
                    lemma_number_fsm_in_context(
                        s, pos, bs, k + 1, NumberState::ExpectFractionalOrE, acc.push(b), res,
                    );
                }
            },
            NumberState::ExpectFractionalOrE => {
                if is_digit(b) {
                    lemma_number_fsm_in_context(
                        s, pos, bs, k + 1, NumberState::ExpectFractionalOrE, acc.push(b), res,
                    );
                } else if b == 0x45 || b == 0x65 {
                    lemma_number_fsm_in_context(
                        s,
                        pos,
                        bs,
                        k + 1,
                        NumberState::ExpectEPlusMinusOrInitialExponent,
                        acc.push(b),
                        res,
                    );
                }
            },
            NumberState::ExpectEPlusMinusOrInitialExponent => {
                if b == 0x2B || b == 0x2D {
                    lemma_number_fsm_in_context(
                        s, pos, bs, k + 1, NumberState::ExpectInitialExponent, acc.push(b), res,
                    );
                } else if is_digit(b) {
                    lemma_number_fsm_in_context(
                        s, pos, bs, k + 1, NumberState::ExpectExponent, acc.push(b), res,
                    );
                }
            },
            NumberState::ExpectInitialExponent => {
                if is_digit(b) {
                    lemma_number_fsm_in_context(
                        s, pos, bs, k + 1, NumberState::ExpectExponent, acc.push(b), res,
                    );
                }
            },
            NumberState::ExpectExponent => {
                if is_digit(b) {
                    lemma_number_fsm_in_context(
                        s, pos, bs, k + 1, NumberState::ExpectExponent, acc.push(b), res,
                    );
                }
            },
        }
    }
}

/// Reading a token where a well-formed number's bytes sit yields
/// exactly that number token.
proof fn lemma_token_at_number(s: Seq<u8>, pos: int, bs: Seq<u8>)
    requires
        0 <= pos,
        pos + bs.len() <= s.len(),
        forall|i: int| 0 <= i < bs.len() ==> s[pos + i] == bs[i],
        pos + bs.len() == s.len() || !extends_number(s[pos + bs.len()]),
        spec_read_number(bs, 0) == Ok::<(Seq<u8>, int), ErrorModel>((bs, bs.len() as int)),
    ensures
        spec_next_token(s, pos) == Ok::<Option<(TokenModel, int)>, ErrorModel>(
            Some((TokenModel::Number(bs), pos + bs.len())),
        ),
{
    // the grammar's first state demands a minus or a digit, so the
    // number is nonempty and its first byte is no whitespace
    assert(bs.len() > 0);
    let b0 = bs[0];
    assert(b0 == 0x2D || b0 == 0x30 || 0x31 <= b0 <= 0x39);
    assert(s[pos] == b0);
    assert(spec_skip_ws(s, pos) == pos);
    lemma_number_fsm_in_context(
        s,
        pos,
        bs,
        0,
        NumberState::ExpectMinusOrZeroOrInitialMantissa,
        Seq::empty(),
        bs,
    );
}

/// Reading a token at a structural byte yields its structural token.
proof fn lemma_token_at_simple(s: Seq<u8>, pos: int)
    requires
        0 <= pos < s.len(),
        spec_simple_token(s[pos]) is Some,
    ensures
        spec_next_token(s, pos) == Ok::<Option<(TokenModel, int)>, ErrorModel>(
            Some((spec_simple_token(s[pos]).unwrap(), pos + 1)),
        ),
{
    assert(spec_skip_ws(s, pos) == pos);
}

/// Reading a token at the bytes of `null` yields the null token.
proof fn lemma_token_at_null(s: Seq<u8>, pos: int)
    requires
        0 <= pos,
        pos + 4 <= s.len(),
        s[pos] == 0x6E && s[pos + 1] == 0x75 && s[pos + 2] == 0x6C && s[pos + 3] == 0x6C,
    ensures
        spec_next_token(s, pos) == Ok::<Option<(TokenModel, int)>, ErrorModel>(
            Some((TokenModel::Null, pos + 4)),
        ),
{
    assert(spec_skip_ws(s, pos) == pos);
}

/// Reading a token at the bytes of `true` yields the true token.
proof fn lemma_token_at_true(s: Seq<u8>, pos: int)
    requires
        0 <= pos,
        pos + 4 <= s.len(),
        s[pos] == 0x74 && s[pos + 1] == 0x72 && s[pos + 2] == 0x75 && s[pos + 3] == 0x65,
    ensures
        spec_next_token(s, pos) == Ok::<Option<(TokenModel, int)>, ErrorModel>(
            Some((TokenModel::True, pos + 4)),
        ),
{
    assert(spec_skip_ws(s, pos) == pos);
}

/// Reading a token at the bytes of `false` yields the false token.
proof fn lemma_token_at_false(s: Seq<u8>, pos: int)
    requires
        0 <= pos,
        pos + 5 <= s.len(),
        s[pos] == 0x66 && s[pos + 1] == 0x61 && s[pos + 2] == 0x6C && s[pos + 3] == 0x73 && s[pos
            + 4] == 0x65,
    ensures
        spec_next_token(s, pos) == Ok::<Option<(TokenModel, int)>, ErrorModel>(
            Some((TokenModel::False, pos + 5)),
        ),
{
    assert(spec_skip_ws(s, pos) == pos);
}

/// The four rendered digits of an escape value are hexadecimal and
/// read back as that value.
proof fn lemma_hex4_roundtrip(u: u16)
    ensures
        forall|i: int| 0 <= i < 4 ==> is_hex_digit(#[trigger] render_hex4(u)[i]),
        (hex_digit_value(render_hex4(u)[0]) * 0x1000 + hex_digit_value(render_hex4(u)[1]) * 0x100
            + hex_digit_value(render_hex4(u)[2]) * 0x10 + hex_digit_value(
            render_hex4(u)[3],
        )) as u16 == u,
{
    let x = u as int;
    let d0 = x / 0x1000;
    let r0 = x % 0x1000;
    let d1 = r0 / 0x100;
    let r1 = r0 % 0x100;
    let d2 = r1 / 0x10;
    let d3 = r1 % 0x10;
    vstd::arithmetic::div_mod::lemma_fundamental_div_mod(x, 0x1000);
    vstd::arithmetic::div_mod::lemma_mod_division_less_than_divisor(x, 0x1000);
    vstd::arithmetic::div_mod::lemma_fundamental_div_mod(r0, 0x100);
    vstd::arithmetic::div_mod::lemma_mod_division_less_than_divisor(r0, 0x100);
    vstd::arithmetic::div_mod::lemma_fundamental_div_mod(r1, 0x10);
    vstd::arithmetic::div_mod::lemma_mod_division_less_than_divisor(r1, 0x10);
    assert(x == d0 * 0x1000 + d1 * 0x100 + d2 * 0x10 + d3);
    assert(0 <= d0 < 16);
    assert(0 <= d1 < 16);
    assert(0 <= d2 < 16);
    assert(0 <= d3 < 16);
    assert(hex_digit_value(hex_digit_byte_of(d0)) == d0);
    assert(hex_digit_value(hex_digit_byte_of(d1)) == d1);
    assert(hex_digit_value(hex_digit_byte_of(d2)) == d2);
    assert(hex_digit_value(hex_digit_byte_of(d3)) == d3);
}

/// The string-body grammar, fed the rendering of the units from `j` on
/// and a closing quote, reads back exactly those units.
#[verifier::rlimit(100)]
proof fn lemma_string_body_of_render(s: Seq<u8>, pos: int, cs: Seq<JsonChar>, j: int, acc: Seq<
    JsonChar,
>)
    requires
        0 <= pos,
        0 <= j <= cs.len(),
        forall|i: int| 0 <= i < cs.len() ==> unit_renders_safely(#[trigger] cs[i]),
        pos + render_units(cs, j).len() + 1 <= s.len(),
        forall|i: int|
            0 <= i < render_units(cs, j).len() ==> s[pos + i] == #[trigger] render_units(cs, j)[i],
        s[pos + render_units(cs, j).len()] == 0x22,
    ensures
        spec_string_body(s, pos, acc) == Ok::<(Seq<JsonChar>, int), ErrorModel>(
            (acc + cs.skip(j), pos + render_units(cs, j).len() + 1),
        ),
    decreases cs.len() - j,
{
    if j == cs.len() {
        assert(render_units(cs, j).len() == 0);
        assert(s[pos] == 0x22);
        assert(acc + cs.skip(j) =~= acc);
    } else {
        let u = cs[j];
        let ru = render_unit(u);
        let rest = render_units(cs, j + 1);
        assert(render_units(cs, j) == ru + rest);
        assert(forall|i: int| 0 <= i < ru.len() ==> s[pos + i] == #[trigger] ru[i]) by {
            assert(forall|i: int|
                0 <= i < ru.len() ==> (ru + rest)[i] == #[trigger] ru[i]);
        }
        let pos2 = pos + ru.len();
        assert(forall|i: int| 0 <= i < rest.len() ==> s[pos2 + i] == #[trigger] rest[i]) by {
            assert(forall|i: int|
                0 <= i < rest.len() ==> (ru + rest)[ru.len() + i] == #[trigger] rest[i]);
        }
        match u {
            JsonChar::Byte(b) => {
                assert(ru[0] == b);
                assert(s[pos + 0] == ru[0]);
                lemma_string_body_of_render(s, pos + 1, cs, j + 1, acc.push(u));
            },
            JsonChar::EscapedQuote => {
                assert(s[pos + 0] == ru[0]);
                assert(s[pos + 1] == ru[1]);
                lemma_string_body_of_render(s, pos + 2, cs, j + 1, acc.push(u));
            },
            JsonChar::EscapedBackslash => {
                assert(s[pos + 0] == ru[0]);
                assert(s[pos + 1] == ru[1]);
                lemma_string_body_of_render(s, pos + 2, cs, j + 1, acc.push(u));
            },
            JsonChar::EscapedSlash => {
                assert(s[pos + 0] == ru[0]);
                assert(s[pos + 1] == ru[1]);
                lemma_string_body_of_render(s, pos + 2, cs, j + 1, acc.push(u));
            },
            JsonChar::EscapedBackspace => {
                assert(s[pos + 0] == ru[0]);
                assert(s[pos + 1] == ru[1]);
                lemma_string_body_of_render(s, pos + 2, cs, j + 1, acc.push(u));
            },
            JsonChar::EscapedFormFeed => {
                assert(s[pos + 0] == ru[0]);
                assert(s[pos + 1] == ru[1]);
                lemma_string_body_of_render(s, pos + 2, cs, j + 1, acc.push(u));
            },
            JsonChar::EscapedLineFeed => {
                assert(s[pos + 0] == ru[0]);
                assert(s[pos + 1] == ru[1]);
                lemma_string_body_of_render(s, pos + 2, cs, j + 1, acc.push(u));
            },
            JsonChar::EscapedCarriageReturn => {
                assert(s[pos + 0] == ru[0]);
                assert(s[pos + 1] == ru[1]);
                lemma_string_body_of_render(s, pos + 2, cs, j + 1, acc.push(u));
            },
            JsonChar::EscapedTab => {
                assert(s[pos + 0] == ru[0]);
                assert(s[pos + 1] == ru[1]);
                lemma_string_body_of_render(s, pos + 2, cs, j + 1, acc.push(u));
            },
            JsonChar::UnicodeEscape(v) => {
                lemma_hex4_roundtrip(v);
                assert(s[pos + 0] == ru[0]);
                assert(s[pos + 1] == ru[1]);
                assert(s[pos + 2] == ru[2]);
                assert(s[pos + 3] == ru[3]);
                assert(s[pos + 4] == ru[4]);
                assert(s[pos + 5] == ru[5]);
                assert(ru[0] == 0x5C && ru[1] == 0x75);
                assert(ru[2] == render_hex4(v)[0]);
                assert(ru[3] == render_hex4(v)[1]);
                assert(ru[4] == render_hex4(v)[2]);
                assert(ru[5] == render_hex4(v)[3]);
                assert(hex4_value(s, pos + 2) == v);
                lemma_string_body_of_render(s, pos + 6, cs, j + 1, acc.push(u));
            },
        }
        assert(acc.push(u) + cs.skip(j + 1) =~= acc + cs.skip(j));
    }
}

/// Reading a token where a well-formed string's rendering sits yields
/// exactly that string token.
proof fn lemma_token_at_string(s: Seq<u8>, pos: int, cs: Seq<JsonChar>)
    requires
        0 <= pos,
        pos + render_string(cs).len() <= s.len(),
        forall|i: int|
            0 <= i < render_string(cs).len() ==> s[pos + i] == #[trigger] render_string(cs)[i],
        forall|i: int| 0 <= i < cs.len() ==> unit_renders_safely(#[trigger] cs[i]),
    ensures
        spec_next_token(s, pos) == Ok::<Option<(TokenModel, int)>, ErrorModel>(
            Some((TokenModel::String(cs), pos + render_string(cs).len())),
        ),
{
    let body = render_units(cs, 0);
    assert(render_string(cs)[0] == 0x22);
    assert(s[pos + 0] == render_string(cs)[0]);
    assert(s[pos] == 0x22);
    assert(spec_skip_ws(s, pos) == pos);
    assert(forall|i: int| 0 <= i < body.len() ==> s[pos + 1 + i] == #[trigger] body[i]) by {
        assert(forall|i: int|
            0 <= i < body.len() ==> render_string(cs)[1 + i] == #[trigger] body[i]);
    }
    assert(s[pos + 1 + body.len()] == 0x22) by {
        assert(render_string(cs)[1 + body.len() as int] == 0x22);
    }
    lemma_string_body_of_render(s, pos + 1, cs, 0, Seq::empty());
    assert(Seq::<JsonChar>::empty() + cs.skip(0) =~= cs);
}

/// Whether the bytes of `seg` sit in `s` starting at `pos`.
pub open spec fn bytes_at(s: Seq<u8>, pos: int, seg: Seq<u8>) -> bool {
    forall|i: int| 0 <= i < seg.len() ==> s[pos + i] == #[trigger] seg[i]
}

/// Splits a byte-alignment fact over a concatenation.
proof fn lemma_bytes_at_concat(s: Seq<u8>, pos: int, a: Seq<u8>, b: Seq<u8>)
    requires
        bytes_at(s, pos, a + b),
    ensures
        bytes_at(s, pos, a),
        bytes_at(s, pos + a.len(), b),
{
    assert forall|i: int| 0 <= i < a.len() implies s[pos + i] == #[trigger] a[i] by {
        assert((a + b)[i] == a[i]);
    }
    assert forall|i: int| 0 <= i < b.len() implies s[pos + a.len() + i] == #[trigger] b[i] by {
        assert((a + b)[a.len() + i] == b[i]);
    }
}

/// The expectation when an array's element `k` is about to be read:
/// at the first position the closing bracket is legal too (the empty
/// array), afterwards a value is demanded.
pub open spec fn elements_expects(k: int) -> ParserExpects {
    if k == 0 {
        expects_of(true, false, false, false, true, false)
    } else {
        expects_of(true, false, false, false, false, false)
    }
}

/// The expectation when an object's entry `k` is about to be read: at
/// the first position the closing brace is legal too (the empty
/// object), afterwards a key is demanded.
pub open spec fn entries_expects(k: int) -> ParserExpects {
    if k == 0 {
        expects_of(false, true, false, false, false, true)
    } else {
        expects_of(false, true, false, false, false, false)
    }
}

/// Running the machine over a well-formed value's rendering completes
/// that value: with an enclosing frame the run continues just past the
/// rendering, expecting what follows a value there; with no enclosing
/// frame the document is complete and only trailing whitespace may
/// remain.
#[verifier::rlimit(100)]
proof fn lemma_value_run(
    s: Seq<u8>,
    pos: int,
    stack: Seq<FrameModel>,
    expects: ParserExpects,
    v: JsonValueModel,
)
    requires
        wf_value(v),
        0 <= pos,
        pos + render_value(v).len() <= s.len(),
        bytes_at(s, pos, render_value(v)),
        pos + render_value(v).len() == s.len() || !extends_number(
            s[pos + render_value(v).len()],
        ),
        expects.value,
        !expects.key,
    ensures
        spec_run(s, pos, stack, expects) == (if stack.len() == 0 {
            spec_skip_ws(s, pos + render_value(v).len()) >= s.len()
        } else {
            spec_run(s, pos + render_value(v).len(), stack, expects_after_value(stack.last()))
        }),
    decreases v, 0int, 0int,
{
    let n = render_value(v).len() as int;
    match v {
        JsonValueModel::Null => {
            assert(s[pos + 0] == render_value(v)[0]);
            assert(s[pos + 1] == render_value(v)[1]);
            assert(s[pos + 2] == render_value(v)[2]);
            assert(s[pos + 3] == render_value(v)[3]);
            lemma_token_at_null(s, pos);
        },
        JsonValueModel::True => {
            assert(s[pos + 0] == render_value(v)[0]);
            assert(s[pos + 1] == render_value(v)[1]);
            assert(s[pos + 2] == render_value(v)[2]);
            assert(s[pos + 3] == render_value(v)[3]);
            lemma_token_at_true(s, pos);
        },
        JsonValueModel::False => {
            assert(s[pos + 0] == render_value(v)[0]);
            assert(s[pos + 1] == render_value(v)[1]);
            assert(s[pos + 2] == render_value(v)[2]);
            assert(s[pos + 3] == render_value(v)[3]);
            assert(s[pos + 4] == render_value(v)[4]);
            lemma_token_at_false(s, pos);
        },
        JsonValueModel::Number(bs) => {
            lemma_token_at_number(s, pos, bs);
        },
        JsonValueModel::String(cs) => {
            lemma_token_at_string(s, pos, cs);
        },
        JsonValueModel::Array(vs) => {
            let inner = render_elements(vs, 0);
            assert(render_value(v) == (seq![0x5Bu8] + inner) + seq![0x5Du8]);
            lemma_bytes_at_concat(s, pos, seq![0x5Bu8] + inner, seq![0x5Du8]);
            lemma_bytes_at_concat(s, pos, seq![0x5Bu8], inner);
            assert(s[pos + 0] == seq![0x5Bu8][0]);
            assert(s[pos + 1 + inner.len()] == seq![0x5Du8][0]);
            lemma_token_at_simple(s, pos);
            let stack2 = stack.push(FrameModel::Array { current_index: 0 });
            assert(spec_step(stack, expects, TokenModel::OpeningBracket) == StepModel::Continue(
                stack2,
                elements_expects(0),
            ));
            lemma_elements_run(s, pos + 1, stack, vs, 0, 0);
        },
        JsonValueModel::Object(es) => {
            let inner = render_entries(es, 0);
            assert(render_value(v) == (seq![0x7Bu8] + inner) + seq![0x7Du8]);
            lemma_bytes_at_concat(s, pos, seq![0x7Bu8] + inner, seq![0x7Du8]);
            lemma_bytes_at_concat(s, pos, seq![0x7Bu8], inner);
            assert(s[pos + 0] == seq![0x7Bu8][0]);
            assert(s[pos + 1 + inner.len()] == seq![0x7Du8][0]);
            lemma_token_at_simple(s, pos);
            let stack2 = stack.push(
                FrameModel::Object { known_keys: Seq::empty(), current_key: None },
            );
            assert(spec_step(stack, expects, TokenModel::OpeningBrace) == StepModel::Continue(
                stack2,
                entries_expects(0),
            ));
            lemma_entries_run(s, pos + 1, stack, es, 0, Seq::empty());
        },
    }
}

/// Running the machine over the rendering of an array's elements from
/// `k` on, followed by the closing bracket, closes that array and
/// continues as one completed value does.
#[verifier::rlimit(100)]
proof fn lemma_elements_run(
    s: Seq<u8>,
    pos: int,
    stack: Seq<FrameModel>,
    vs: Seq<JsonValueModel>,
    k: int,
    idx: int,
)
    requires
        wf_elements(vs, k),
        0 <= k <= vs.len(),
        k < vs.len() || k == 0,
        0 <= pos,
        pos + render_elements(vs, k).len() + 1 <= s.len(),
        bytes_at(s, pos, render_elements(vs, k)),
        s[pos + render_elements(vs, k).len()] == 0x5D,
    ensures
        spec_run(
            s,
            pos,
            stack.push(FrameModel::Array { current_index: idx }),
            elements_expects(k),
        ) == (if stack.len() == 0 {
            spec_skip_ws(s, pos + render_elements(vs, k).len() + 1) >= s.len()
        } else {
            spec_run(
                s,
                pos + render_elements(vs, k).len() + 1,
                stack,
                expects_after_value(stack.last()),
            )
        }),
    decreases vs, vs.len() - k, 1int,
{
    let m = render_elements(vs, k).len() as int;
    let stack2 = stack.push(FrameModel::Array { current_index: idx });
    if vs.len() == 0 {
        // the empty array: the closing bracket comes at once
        assert(m == 0);
        lemma_token_at_simple(s, pos);
        assert(stack2.drop_last() =~= stack);
        assert(spec_step(stack2, elements_expects(0), TokenModel::ClosingBracket)
            == if stack.len() == 0 {
            StepModel::Done
        } else {
            StepModel::Continue(stack, expects_after_value(stack.last()))
        });
    } else {
        let rv = render_value(vs[k]);
        let nv = rv.len() as int;
        if k == vs.len() - 1 {
            assert(render_elements(vs, k) == rv);
            // the element, then the closing bracket
            lemma_value_run(s, pos, stack2, elements_expects(k), vs[k]);
            lemma_token_at_simple(s, pos + nv);
            assert(stack2.drop_last() =~= stack);
            assert(expects_after_value(stack2.last()) == expects_of(
                false, false, true, false, true, false,
            ));
            assert(spec_step(
                stack2,
                expects_after_value(stack2.last()),
                TokenModel::ClosingBracket,
            ) == if stack.len() == 0 {
                StepModel::Done
            } else {
                StepModel::Continue(stack, expects_after_value(stack.last()))
            });
        } else {
            let rest = render_elements(vs, k + 1);
            assert(render_elements(vs, k) == (rv + seq![0x2Cu8]) + rest);
            lemma_bytes_at_concat(s, pos, rv + seq![0x2Cu8], rest);
            lemma_bytes_at_concat(s, pos, rv, seq![0x2Cu8]);
            assert(s[pos + nv + 0] == seq![0x2Cu8][0]);
            // the element, then the comma, then the rest
            lemma_value_run(s, pos, stack2, elements_expects(k), vs[k]);
            lemma_token_at_simple(s, pos + nv);
            let stack3 = stack.push(FrameModel::Array { current_index: idx + 1 });
            assert(stack2.update(stack2.len() - 1, FrameModel::Array { current_index: idx + 1 })
                =~= stack3);
            assert(spec_step(stack2, expects_after_value(stack2.last()), TokenModel::Comma)
                == StepModel::Continue(stack3, elements_expects(k + 1)));
            lemma_elements_run(s, pos + nv + 1, stack, vs, k + 1, idx + 1);
        }
    }
}

/// Running the machine over the rendering of an object's entries from
/// `k` on, followed by the closing brace, closes that object and
/// continues as one completed value does.  `keys` are the canonical
/// texts of the keys already seen.
#[verifier::rlimit(100)]
proof fn lemma_entries_run(
    s: Seq<u8>,
    pos: int,
    stack: Seq<FrameModel>,
    es: Seq<(Seq<JsonChar>, JsonValueModel)>,
    k: int,
    keys: Seq<Seq<char>>,
)
    requires
        wf_entries(es, k),
        distinct_keys(es),
        0 <= k <= es.len(),
        k < es.len() || k == 0,
        keys.len() == k,
        forall|i: int| 0 <= i < k ==> keys[i] == decoded_text(#[trigger] es[i].0),
        0 <= pos,
        pos + render_entries(es, k).len() + 1 <= s.len(),
        bytes_at(s, pos, render_entries(es, k)),
        s[pos + render_entries(es, k).len()] == 0x7D,
    ensures
        spec_run(
            s,
            pos,
            stack.push(FrameModel::Object { known_keys: keys, current_key: None }),
            entries_expects(k),
        ) == (if stack.len() == 0 {
            spec_skip_ws(s, pos + render_entries(es, k).len() + 1) >= s.len()
        } else {
            spec_run(
                s,
                pos + render_entries(es, k).len() + 1,
                stack,
                expects_after_value(stack.last()),
            )
        }),
    decreases es, es.len() - k, 1int,
{
    let m = render_entries(es, k).len() as int;
    let stack2 = stack.push(FrameModel::Object { known_keys: keys, current_key: None });
    if es.len() == 0 {
        // the empty object: the closing brace comes at once
        assert(m == 0);
        lemma_token_at_simple(s, pos);
        assert(stack2.drop_last() =~= stack);
        assert(spec_step(stack2, entries_expects(0), TokenModel::ClosingBrace)
            == if stack.len() == 0 {
            StepModel::Done
        } else {
            StepModel::Continue(stack, expects_after_value(stack.last()))
        });
    } else {
        let rk = render_string(es[k].0);
        let nk = rk.len() as int;
        let rv = render_value(es[k].1);
        let nv = rv.len() as int;
        let text = decoded_text(es[k].0);

        // the key string, the colon, the value
        if k == es.len() - 1 {
            assert(render_entries(es, k) == (rk + seq![0x3Au8]) + rv);
            lemma_bytes_at_concat(s, pos, rk + seq![0x3Au8], rv);
            lemma_bytes_at_concat(s, pos, rk, seq![0x3Au8]);
        } else {
            let rest = render_entries(es, k + 1);
            assert(render_entries(es, k) == (((rk + seq![0x3Au8]) + rv) + seq![0x2Cu8]) + rest);
            lemma_bytes_at_concat(s, pos, ((rk + seq![0x3Au8]) + rv) + seq![0x2Cu8], rest);
            lemma_bytes_at_concat(s, pos, (rk + seq![0x3Au8]) + rv, seq![0x2Cu8]);
            lemma_bytes_at_concat(s, pos, rk + seq![0x3Au8], rv);
            lemma_bytes_at_concat(s, pos, rk, seq![0x3Au8]);
        }
        assert(s[pos + nk + 0] == seq![0x3Au8][0]);
        lemma_token_at_string(s, pos, es[k].0);

        // the machine takes the key: it is new, by key distinctness
        assert(!keys.contains(text)) by {
            if keys.contains(text) {
                let w = choose|w: int| 0 <= w < keys.len() && keys[w] == text;
                assert(decoded_text(es[w].0) == decoded_text(es[k].0));
            }
        }
        let stack3 = stack.push(
            FrameModel::Object { known_keys: keys.push(text), current_key: Some(text) },
        );
        assert(stack2.update(
            stack2.len() - 1,
            FrameModel::Object { known_keys: keys.push(text), current_key: Some(text) },
        ) =~~= stack3);
        assert(spec_step(stack2, entries_expects(k), TokenModel::String(es[k].0))
            == StepModel::Continue(stack3, expects_of(false, false, false, true, false, false)));

        assert(spec_run(s, pos, stack2, entries_expects(k)) == spec_run(
            s,
            pos + nk,
            stack3,
            expects_of(false, false, false, true, false, false),
        ));

        // the colon
        lemma_token_at_simple(s, pos + nk);
        assert(spec_step(
            stack3,
            expects_of(false, false, false, true, false, false),
            TokenModel::Colon,
        ) == StepModel::Continue(stack3, expects_of(true, false, false, false, false, false)));
        assert(spec_run(s, pos + nk, stack3, expects_of(false, false, false, true, false, false))
            == spec_run(s, pos + nk + 1, stack3, expects_of(true, false, false, false, false, false)));

        // the value; the byte after it is the closing brace or a comma
        let pv = pos + nk + 1;
        if k == es.len() - 1 {
            assert(m == nk + 1 + nv);
            assert(s[pv + nv] == 0x7D);
        } else {
            assert(s[pv + nv + 0] == seq![0x2Cu8][0]);
        }
        lemma_value_run(
            s,
            pv,
            stack3,
            expects_of(true, false, false, false, false, false),
            es[k].1,
        );
        assert(expects_after_value(stack3.last()) == expects_of(
            false, false, true, false, false, true,
        ));
        assert(spec_run(s, pv, stack3, expects_of(true, false, false, false, false, false))
            == spec_run(s, pv + nv, stack3, expects_after_value(stack3.last())));

        if k == es.len() - 1 {
            // the closing brace
            lemma_token_at_simple(s, pv + nv);
            assert(stack3.drop_last() =~= stack);
            assert(spec_step(
                stack3,
                expects_after_value(stack3.last()),
                TokenModel::ClosingBrace,
            ) == if stack.len() == 0 {
                StepModel::Done
            } else {
                StepModel::Continue(stack, expects_after_value(stack.last()))
            });
        } else {
            // the comma, then the rest of the entries
            assert(s[pv + nv + 0] == seq![0x2Cu8][0]);
            lemma_token_at_simple(s, pv + nv);
            let stack4 = stack.push(
                FrameModel::Object { known_keys: keys.push(text), current_key: None },
            );
            assert(stack3.update(
                stack3.len() - 1,
                FrameModel::Object { known_keys: keys.push(text), current_key: None },
            ) =~~= stack4);
            assert(spec_step(stack3, expects_after_value(stack3.last()), TokenModel::Comma)
                == StepModel::Continue(stack4, entries_expects(k + 1)));
            lemma_entries_run(s, pv + nv + 1, stack, es, k + 1, keys.push(text));
        }
    }
}

/// Skipping whitespace is idempotent.
proof fn lemma_skip_ws_idempotent(s: Seq<u8>, pos: int)
    requires
        0 <= pos <= s.len(),
    ensures
        spec_skip_ws(s, spec_skip_ws(s, pos)) == spec_skip_ws(s, pos),
    decreases s.len() - pos,
{
    if pos < s.len() && is_json_ws(s[pos]) {
        lemma_skip_ws_idempotent(s, pos + 1);
    }
}

/// The machine's run is unmoved by skipping leading whitespace: the
/// first token read skips it anyway.
proof fn lemma_run_from_skip(s: Seq<u8>, pos: int, stack: Seq<FrameModel>, expects: ParserExpects)
    requires
        0 <= pos <= s.len(),
    ensures
        spec_run(s, pos, stack, expects) == spec_run(s, spec_skip_ws(s, pos), stack, expects),
{
    crate::tokenizer::lemma_skip_ws_bounds(s, pos);
    lemma_skip_ws_idempotent(s, pos);
    let p = spec_skip_ws(s, pos);
    assert(spec_next_token(s, pos) == spec_next_token(s, p));
}

/// A well-formed value's rendering is nonempty and starts with no
/// whitespace byte.
proof fn lemma_render_value_first_byte(v: JsonValueModel)
    requires
        wf_value(v),
    ensures
        render_value(v).len() > 0,
        !is_json_ws(render_value(v)[0]),
{
    match v {
        JsonValueModel::Number(bs) => {
            assert(bs.len() > 0);
            assert(bs[0] == 0x2D || bs[0] == 0x30 || 0x31 <= bs[0] <= 0x39);
        },
        _ => {},
    }
}

/// Completeness of the verifier over the document grammar: any
/// well-formed document model — numbers exactly as the number grammar
/// has them, strings whose units decode, every object's keys pairwise
/// distinct after canonical decoding — rendered canonically (no
/// whitespace between tokens) and surrounded by any amount of
/// whitespace, is accepted.
pub proof fn lemma_grammar_complete(v: JsonValueModel, lead: Seq<u8>, trail: Seq<u8>)
    requires
        wf_value(v),
        forall|i: int| 0 <= i < lead.len() ==> is_json_ws(#[trigger] lead[i]),
        forall|i: int| 0 <= i < trail.len() ==> is_json_ws(#[trigger] trail[i]),
    ensures
        spec_verify(lead + render_value(v) + trail),
{
    let rv = render_value(v);
    let n = rv.len() as int;
    let s = lead + rv + trail;
    let start = lead.len() as int;
    assert(s == (lead + rv) + trail);
    assert(bytes_at(s, 0, (lead + rv) + trail));
    lemma_bytes_at_concat(s, 0, lead + rv, trail);
    lemma_bytes_at_concat(s, 0, lead, rv);
    lemma_render_value_first_byte(v);

    // leading whitespace is skipped before the first token
    assert(s[start] == rv[0]);
    assert forall|i: int| 0 <= i < start implies is_json_ws(#[trigger] s[i]) by {
        assert(s[0 + i] == lead[i]);
    }
    lemma_skip_ws_through(s, 0, start);
    lemma_run_from_skip(s, 0, Seq::empty(), initial_expects());

    // what follows the document cannot extend a number token
    if trail.len() > 0 {
        assert(s[start + n + 0] == trail[0]);
        assert(!extends_number(trail[0]));
    }

    lemma_value_run(s, start, Seq::empty(), initial_expects(), v);

    // the trailing whitespace runs out to the end of the input
    assert forall|i: int| start + n <= i < s.len() implies is_json_ws(#[trigger] s[i]) by {
        assert(s[start + n + (i - start - n)] == trail[i - start - n]);
    }
    lemma_skip_ws_through(s, start + n, s.len() as int);
}

} // verus!

