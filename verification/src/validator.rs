//! The grammar-enforcing verifier.
//!
//! Tokens are pulled from the lexer one at a time and walked through a
//! container stack and an expectation state machine.  The stack holds
//! one frame per open array or object; the expectation set names the
//! token categories legal at the current position.  A document is
//! accepted exactly when the tokens spell one complete JSON value and
//! only whitespace follows it.

use vstd::prelude::*;

use crate::codec::{interpret_chars, spec_interpret_string};
use crate::tokenizer::{
    lemma_next_token_advances, read_next_token, skip_whitespace, spec_next_token, spec_skip_ws,
    ErrorModel, JsonChar, JsonToken, TokenModel,
};

verus! {

/// The set of token categories legal at the current parse position.
#[derive(Clone, Copy, Debug, PartialEq, Eq, Structural)]
pub struct ParserExpects {
    pub value: bool,
    pub key: bool,
    pub comma: bool,
    pub colon: bool,
    pub closing_bracket: bool,
    pub closing_brace: bool,
}

/// A frame of the container stack: bookkeeping for one open array.
struct JsonArray {
    /// The index of the element being read; diagnostic only.
    current_index: usize,
}

/// A frame of the container stack: bookkeeping for one open object.
struct JsonObject {
    /// The canonically decoded keys seen so far, in order of appearance.
    known_keys: Vec<String>,
    /// The key whose value is pending; diagnostic only.
    current_key: Option<String>,
}

/// A frame of the container stack: one open composite value.
enum JsonStackValue {
    Array(JsonArray),
    Object(JsonObject),
}

/// Mathematical model of a container frame.
#[verifier::ext_equal]
pub enum FrameModel {
    Array { current_index: int },
    Object { known_keys: Seq<Seq<char>>, current_key: Option<Seq<char>> },
}

impl View for JsonStackValue {
    type V = FrameModel;

    closed spec fn view(&self) -> FrameModel {
        match self {
            JsonStackValue::Array(arr) => FrameModel::Array {
                current_index: arr.current_index as int,
            },
            JsonStackValue::Object(obj) => FrameModel::Object {
                known_keys: obj.known_keys@.map_values(|k: String| k@),
                current_key: match &obj.current_key {
                    Some(k) => Some(k@),
                    None => None,
                },
            },
        }
    }
}

/// The model of a whole container stack.
spec fn stack_model(frames: Seq<JsonStackValue>) -> Seq<FrameModel> {
    frames.map_values(|f: JsonStackValue| f@)
}

/// The expectation set holding exactly the given categories.
pub open spec fn expects_of(
    value: bool,
    key: bool,
    comma: bool,
    colon: bool,
    closing_bracket: bool,
    closing_brace: bool,
) -> ParserExpects {
    ParserExpects { value, key, comma, colon, closing_bracket, closing_brace }
}

/// What is expected after a completed value, given the frame under it:
/// inside an array, a comma or the closing bracket; inside an object, a
/// comma or the closing brace.
pub open spec fn expects_after_value(top: FrameModel) -> ParserExpects {
    match top {
        FrameModel::Array { .. } => expects_of(false, false, true, false, true, false),
        FrameModel::Object { .. } => expects_of(false, false, true, false, false, true),
    }
}

/// Internal consistency of a machine state: whenever a key, a colon or
/// a closing token is expected, the stack's top frame is of the kind
/// that grammar construction promises, so closing tokens always find
/// the frame they close.
pub open spec fn wf_state(stack: Seq<FrameModel>, expects: ParserExpects) -> bool {
    &&& (expects.key ==> stack.len() > 0 && stack.last() matches FrameModel::Object { .. })
    &&& (expects.colon ==> stack.len() > 0 && stack.last() matches FrameModel::Object { .. })
    &&& (expects.comma ==> stack.len() > 0)
    &&& (expects.closing_bracket ==> stack.len() > 0 && stack.last() matches FrameModel::Array {
        .. })
    &&& (expects.closing_brace ==> stack.len() > 0 && stack.last() matches FrameModel::Object {
        .. })
}

/// The outcome of feeding one token to the machine.
pub enum StepModel {
    /// The token violates the grammar, or a duplicate key was found,
    /// or a string token failed to decode.
    Reject,
    /// The machine continues with the given stack and expectations.
    Continue(Seq<FrameModel>, ParserExpects),
    /// The token completed the top-level value: the document is done.
    Done,
}

/// One transition of the grammar state machine: what one token does to
/// the container stack and the expectation set.
pub open spec fn spec_step(stack: Seq<FrameModel>, expects: ParserExpects, t: TokenModel) -> StepModel {
    match t {
        TokenModel::String(cs) => {
            match spec_interpret_string(cs) {
                Err(_) => StepModel::Reject,
                Ok(text) => {
                    if expects.key {
                        // strings can be keys; the top frame is an object
                        match stack.last() {
                            FrameModel::Object { known_keys, current_key } => {
                                if known_keys.contains(text) {
                                    StepModel::Reject
                                } else {
                                    StepModel::Continue(
                                        stack.update(
                                            stack.len() - 1,
                                            FrameModel::Object {
                                                known_keys: known_keys.push(text),
                                                current_key: Some(text),
                                            },
                                        ),
                                        expects_of(false, false, false, true, false, false),
                                    )
                                }
                            },
                            _ => StepModel::Reject,
                        }
                    } else if expects.value {
                        if stack.len() == 0 {
                            StepModel::Done
                        } else {
                            StepModel::Continue(stack, expects_after_value(stack.last()))
                        }
                    } else {
                        StepModel::Reject
                    }
                },
            }
        },
        TokenModel::Null | TokenModel::True | TokenModel::False | TokenModel::Number(_) => {
            if !expects.value {
                StepModel::Reject
            } else if stack.len() == 0 {
                StepModel::Done
            } else {
                StepModel::Continue(stack, expects_after_value(stack.last()))
            }
        },
        TokenModel::Colon => {
            if !expects.colon {
                StepModel::Reject
            } else {
                StepModel::Continue(stack, expects_of(true, false, false, false, false, false))
            }
        },
        TokenModel::Comma => {
            if !expects.comma {
                StepModel::Reject
            } else {
                match stack.last() {
                    FrameModel::Array { current_index } => StepModel::Continue(
                        stack.update(
                            stack.len() - 1,
                            FrameModel::Array { current_index: current_index + 1 },
                        ),
                        expects_of(true, false, false, false, false, false),
                    ),
                    FrameModel::Object { known_keys, .. } => StepModel::Continue(
                        stack.update(
                            stack.len() - 1,
                            FrameModel::Object { known_keys, current_key: None },
                        ),
                        expects_of(false, true, false, false, false, false),
                    ),
                }
            }
        },
        TokenModel::OpeningBracket => {
            if !expects.value {
                StepModel::Reject
            } else {
                StepModel::Continue(
                    stack.push(FrameModel::Array { current_index: 0 }),
                    expects_of(true, false, false, false, true, false),
                )
            }
        },
        TokenModel::ClosingBracket => {
            if !expects.closing_bracket {
                StepModel::Reject
            } else {
                let rest = stack.drop_last();
                if rest.len() == 0 {
                    StepModel::Done
                } else {
                    StepModel::Continue(rest, expects_after_value(rest.last()))
                }
            }
        },
        TokenModel::OpeningBrace => {
            if !expects.value {
                StepModel::Reject
            } else {
                StepModel::Continue(
                    stack.push(
                        FrameModel::Object { known_keys: Seq::empty(), current_key: None },
                    ),
                    expects_of(false, true, false, false, false, true),
                )
            }
        },
        TokenModel::ClosingBrace => {
            if !expects.closing_brace {
                StepModel::Reject
            } else {
                let rest = stack.drop_last();
                if rest.len() == 0 {
                    StepModel::Done
                } else {
                    StepModel::Continue(rest, expects_after_value(rest.last()))
                }
            }
        },
    }
}

/// A transition from a well-formed state leads to a well-formed state.
pub proof fn lemma_step_wf(stack: Seq<FrameModel>, expects: ParserExpects, t: TokenModel)
    requires
        wf_state(stack, expects),
    ensures
        spec_step(stack, expects, t) matches StepModel::Continue(stack2, expects2) ==> wf_state(
            stack2,
            expects2,
        ),
{
}

/// Whether the machine, fed tokens from `pos` in state
/// (`stack`, `expects`), accepts the rest of the input.  Acceptance:
/// the tokens walk the machine to completion of the top-level value
/// (or the input holds no token at all while no container is open),
/// and only whitespace follows.
pub open spec fn spec_run(
    s: Seq<u8>,
    pos: int,
    stack: Seq<FrameModel>,
    expects: ParserExpects,
) -> bool
    decreases s.len() - pos when 0 <= pos <= s.len() via spec_run_dec
{
    match spec_next_token(s, pos) {
        Err(_) => false,
        Ok(None) => stack.len() == 0,
        Ok(Some((t, p2))) => match spec_step(stack, expects, t) {
            StepModel::Reject => false,
            StepModel::Continue(stack2, expects2) => spec_run(s, p2, stack2, expects2),
            StepModel::Done => spec_skip_ws(s, p2) >= s.len(),
        },
    }
}

#[via_fn]
proof fn spec_run_dec(s: Seq<u8>, pos: int, stack: Seq<FrameModel>, expects: ParserExpects) {
    lemma_next_token_advances(s, pos);
}

/// The initial expectation: one value.
pub open spec fn initial_expects() -> ParserExpects {
    expects_of(true, false, false, false, false, false)
}

/// Whether the bytes hold one syntactically valid JSON document — with
/// every object's keys pairwise distinct after canonical decoding —
/// followed by nothing but whitespace.
pub open spec fn spec_verify(s: Seq<u8>) -> bool {
    spec_run(s, 0, Seq::empty(), initial_expects())
}

/// Duplicate-key detection is spelling-insensitive: where a key is
/// expected and some spelling of a text is already among the open
/// object's known keys, any string token whose units decode to that
/// same canonical text is rejected, however it is escaped.
pub proof fn lemma_duplicate_key_spelling_insensitive(
    stack: Seq<FrameModel>,
    expects: ParserExpects,
    cs: Seq<JsonChar>,
    text: Seq<char>,
)
    requires
        expects.key,
        stack.len() > 0,
        stack.last() matches FrameModel::Object { known_keys, .. } && known_keys.contains(text),
        spec_interpret_string(cs) == Ok::<Seq<char>, ErrorModel>(text),
    ensures
        spec_step(stack, expects, TokenModel::String(cs)) == StepModel::Reject,
{
}

/// The model of an object's key list: each key as its character
/// sequence.
spec fn keys_model(keys: Seq<String>) -> Seq<Seq<char>> {
    keys.map_values(|k: String| k@)
}

/// An array frame's element index never runs ahead of the byte
/// position that produced it.
spec fn frame_index_le(f: JsonStackValue, bound: int) -> bool {
    match f@ {
        FrameModel::Array { current_index } => current_index <= bound,
        FrameModel::Object { .. } => true,
    }
}

/// Whether the canonical text is already among the known keys.
fn contains_key(keys: &Vec<String>, text: &String) -> (r: bool)
    ensures
        r == keys_model(keys@).contains(text@),
{
    let mut j: usize = 0;
    while j < keys.len()
        invariant
            j <= keys@.len(),
            forall|k: int| 0 <= k < j ==> keys_model(keys@)[k] != text@,
        decreases keys@.len() - j,
    {
        if keys[j].eq(text) {
            proof {
                assert(keys_model(keys@)[j as int] == text@);
            }
            return true;
        }
        j = j + 1;
    }
    proof {
        if keys_model(keys@).contains(text@) {
            let w = choose|w: int|
                0 <= w < keys_model(keys@).len() && keys_model(keys@)[w] == text@;
            assert(false);
        }
    }
    false
}

/// Decides whether the input holds one syntactically valid JSON
/// document (objects free of canonically duplicate keys) followed only
/// by whitespace.
#[verifier::rlimit(100)]
pub fn verify(input: &[u8]) -> (r: bool)
    ensures
        r == spec_verify(input@),
{
    let ghost s = input@;
    let mut json_stack: Vec<JsonStackValue> = Vec::new();
    let mut expects = ParserExpects {
        value: true,
        key: false,
        comma: false,
        colon: false,
        closing_bracket: false,
        closing_brace: false,
    };
    let mut pos: usize = 0;

    proof {
        assert(stack_model(json_stack@) =~= Seq::<FrameModel>::empty());
        assert(expects == initial_expects());
    }

    loop
        invariant
            s == input@,
            pos <= s.len(),
            wf_state(stack_model(json_stack@), expects),
            forall|k: int|
                0 <= k < json_stack@.len() ==> frame_index_le(
                    #[trigger] json_stack@[k],
                    pos as int,
                ),
            spec_verify(s) == spec_run(s, pos as int, stack_model(json_stack@), expects),
        decreases s.len() - pos,
    {
        let ghost stackm = stack_model(json_stack@);
        // take a token
        let (tok, p2) = match read_next_token(input, pos) {
            Ok(Some(tp)) => tp,
            Ok(None) => {
                // clean end of input: accept exactly when no container
                // is still open
                return json_stack.len() == 0;
            },
            Err(_) => {
                return false;
            },
        };
        let ghost step = spec_step(stackm, expects, tok@);

        match tok {
            JsonToken::String(string) => {
                let decoded = match interpret_chars(string.as_slice()) {
                    Ok(cs) => cs,
                    Err(_) => {
                        return false;
                    },
                };
                let text = crate::tokenizer::chars_to_string(decoded);

                // strings can be keys or values
                if expects.key {
                    match json_stack.pop() {
                        Some(JsonStackValue::Object(mut obj)) => {
                            if contains_key(&obj.known_keys, &text) {
                                // duplicate key
                                return false;
                            }
                            obj.known_keys.push(text.clone());
                            obj.current_key = Some(text);
                            json_stack.push(JsonStackValue::Object(obj));
                            proof {
                                assert(keys_model(json_stack@.last()->Object_0.known_keys@)
                                    =~= stackm.last()->Object_known_keys.push(text@));
                                assert(stack_model(json_stack@) =~~= step->Continue_0);
                            }
                        },
                        _ => {
                            proof {
                                assert(false);
                            }
                            vstd::pervasive::unreached()
                        },
                    }
                    expects = ParserExpects {
                        value: false,
                        key: false,
                        comma: false,
                        colon: true,
                        closing_bracket: false,
                        closing_brace: false,
                    };
                } else if expects.value {
                    // a completed value: what comes next depends on the
                    // enclosing frame
                    if json_stack.len() == 0 {
                        // end of document
                        let q = skip_whitespace(input, p2);
                        return q >= input.len();
                    }
                    match &json_stack[json_stack.len() - 1] {
                        JsonStackValue::Array(_) => {
                            expects = ParserExpects {
                                value: false,
                                key: false,
                                comma: true,
                                colon: false,
                                closing_bracket: true,
                                closing_brace: false,
                            };
                        },
                        JsonStackValue::Object(_) => {
                            expects = ParserExpects {
                                value: false,
                                key: false,
                                comma: true,
                                colon: false,
                                closing_bracket: false,
                                closing_brace: true,
                            };
                        },
                    }
                } else {
                    return false;
                }
            },
            JsonToken::Null | JsonToken::True | JsonToken::False | JsonToken::Number(_) => {
                // singular value
                if !expects.value {
                    return false;
                }
                if json_stack.len() == 0 {
                    // end of document
                    let q = skip_whitespace(input, p2);
                    return q >= input.len();
                }
                match &json_stack[json_stack.len() - 1] {
                    JsonStackValue::Array(_) => {
                        expects = ParserExpects {
                            value: false,
                            key: false,
                            comma: true,
                            colon: false,
                            closing_bracket: true,
                            closing_brace: false,
                        };
                    },
                    JsonStackValue::Object(_) => {
                        expects = ParserExpects {
                            value: false,
                            key: false,
                            comma: true,
                            colon: false,
                            closing_bracket: false,
                            closing_brace: true,
                        };
                    },
                }
            },
            JsonToken::Colon => {
                if !expects.colon {
                    return false;
                }
                expects = ParserExpects {
                    value: true,
                    key: false,
                    comma: false,
                    colon: false,
                    closing_bracket: false,
                    closing_brace: false,
                };
            },
            JsonToken::Comma => {
                if !expects.comma {
                    return false;
                }
                match json_stack.pop() {
                    Some(JsonStackValue::Array(arr)) => {
                        let next_index = arr.current_index + 1;
                        json_stack.push(JsonStackValue::Array(JsonArray {
                            current_index: next_index,
                        }));
                        proof {
                            assert(stack_model(json_stack@) =~~= step->Continue_0);
                        }
                        expects = ParserExpects {
                            value: true,
                            key: false,
                            comma: false,
                            colon: false,
                            closing_bracket: false,
                            closing_brace: false,
                        };
                    },
                    Some(JsonStackValue::Object(mut obj)) => {
                        obj.current_key = None;
                        json_stack.push(JsonStackValue::Object(obj));
                        proof {
                            assert(stack_model(json_stack@) =~~= step->Continue_0);
                        }
                        expects = ParserExpects {
                            value: false,
                            key: true,
                            comma: false,
                            colon: false,
                            closing_bracket: false,
                            closing_brace: false,
                        };
                    },
                    None => {
                        proof {
                            assert(false);
                        }
                        vstd::pervasive::unreached()
                    },
                }
            },
            JsonToken::OpeningBracket => {
                if !expects.value {
                    return false;
                }
                json_stack.push(JsonStackValue::Array(JsonArray { current_index: 0 }));
                proof {
                    assert(stack_model(json_stack@) =~~= step->Continue_0);
                }
                expects = ParserExpects {
                    value: true,
                    key: false,
                    comma: false,
                    colon: false,
                    closing_bracket: true,
                    closing_brace: false,
                };
            },
            JsonToken::ClosingBracket => {
                if !expects.closing_bracket {
                    return false;
                }
                match json_stack.pop() {
                    Some(JsonStackValue::Array(_)) => {},
                    _ => {
                        proof {
                            assert(false);
                        }
                        vstd::pervasive::unreached()
                    },
                }
                proof {
                    assert(stack_model(json_stack@) =~~= stackm.drop_last());
                }
                if json_stack.len() == 0 {
                    // end of document
                    let q = skip_whitespace(input, p2);
                    return q >= input.len();
                }
                match &json_stack[json_stack.len() - 1] {
                    JsonStackValue::Array(_) => {
                        expects = ParserExpects {
                            value: false,
                            key: false,
                            comma: true,
                            colon: false,
                            closing_bracket: true,
                            closing_brace: false,
                        };
                    },
                    JsonStackValue::Object(_) => {
                        expects = ParserExpects {
                            value: false,
                            key: false,
                            comma: true,
                            colon: false,
                            closing_bracket: false,
                            closing_brace: true,
                        };
                    },
                }
            },
            JsonToken::OpeningBrace => {
                if !expects.value {
                    return false;
                }
                json_stack.push(
                    JsonStackValue::Object(JsonObject { known_keys: Vec::new(), current_key: None }),
                );
                proof {
                    assert(stack_model(json_stack@) =~~= step->Continue_0);
                }
                expects = ParserExpects {
                    value: false,
                    key: true,
                    comma: false,
                    colon: false,
                    closing_bracket: false,
                    closing_brace: true,
                };
            },
            JsonToken::ClosingBrace => {
                if !expects.closing_brace {
                    return false;
                }
                match json_stack.pop() {
                    Some(JsonStackValue::Object(_)) => {},
                    _ => {
                        proof {
                            assert(false);
                        }
                        vstd::pervasive::unreached()
                    },
                }
                proof {
                    assert(stack_model(json_stack@) =~~= stackm.drop_last());
                }
                if json_stack.len() == 0 {
                    // end of document
                    let q = skip_whitespace(input, p2);
                    return q >= input.len();
                }
                match &json_stack[json_stack.len() - 1] {
                    JsonStackValue::Array(_) => {
                        expects = ParserExpects {
                            value: false,
                            key: false,
                            comma: true,
                            colon: false,
                            closing_bracket: true,
                            closing_brace: false,
                        };
                    },
                    JsonStackValue::Object(_) => {
                        expects = ParserExpects {
                            value: false,
                            key: false,
                            comma: true,
                            colon: false,
                            closing_bracket: false,
                            closing_brace: true,
                        };
                    },
                }
            },
        }
        pos = p2;
    }
}

} // verus!
