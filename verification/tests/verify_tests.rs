use json_verifier::verify;

fn test_verify(json: &str) -> bool {
    verify(json.as_bytes())
}

#[test]
fn test_empty() {
    assert_eq!(test_verify("{}"), true);
    assert_eq!(test_verify("[]"), true);
}

#[test]
fn test_simple() {
    assert_eq!(test_verify("{\"a\":0}"), true);
    assert_eq!(test_verify("{\"a\":0,\"b\":1}"), true);
    assert_eq!(test_verify("[0,1]"), true);

    // wrong number of colons in dict
    assert_eq!(test_verify("{\"a\",0}"), false);
    assert_eq!(test_verify("{\"a\":0:1}"), false);

    // colon in list
    assert_eq!(test_verify("[\"a\":0]"), false);

    // unterminated string
    assert_eq!(test_verify("[\"a]"), false);

    // unterminated list
    assert_eq!(test_verify("[\"a\""), false);

    // bareword
    assert_eq!(test_verify("[a]"), false);
}

#[test]
fn test_boxed() {
    assert_eq!(test_verify("{\"a\":{\"b\":[0,{\"c\":1}],\"d\":\"e\"}}"), true);

    // swapped brackets
    assert_eq!(test_verify("{\"a\":{\"b\":[0,{\"c\":1]},\"d\":\"e\"}}"), false);
}

#[test]
fn test_duplicate_key() {
    assert_eq!(test_verify("{\"a\":0,\"a\":0}"), false);

    // consider different encoded forms equivalent
    assert_eq!(test_verify("{\"a\":0,\"\\u0061\":0}"), false);
    assert_eq!(test_verify("{\"/\":0,\"\\/\":0}"), false);
    assert_eq!(test_verify("{\"/\":0,\"\\u002F\":0}"), false);
}

#[test]
fn test_trailing_garbage() {
    assert_eq!(test_verify("{}{}"), false);
    assert_eq!(test_verify("{},{}"), false);
    assert_eq!(test_verify("{}true"), false);
    assert_eq!(test_verify("{}0"), false);
}

#[test]
fn test_grammar_accepts_valid_documents() {
    // values of every kind, nested containers, every escape form and
    // several number forms in one document
    assert_eq!(
        test_verify(
            "{\"a\":[1,2.5,-3e+2,0.1E-1,true,false,null],\
             \"b\":{\"c\":\"\\\"\\\\\\/\\b\\f\\n\\r\\t\\u0041\"},\
             \"c\":[[],{},[[[0]]]],\
             \"d\":\"\\uD83D\\uDE00\"}"
        ),
        true
    );
    // scalar documents
    assert_eq!(test_verify("true"), true);
    assert_eq!(test_verify("false"), true);
    assert_eq!(test_verify("null"), true);
    assert_eq!(test_verify("0"), true);
    assert_eq!(test_verify("\"hello\""), true);
    // surrounding whitespace is insignificant
    assert_eq!(test_verify(" \t\r\n{ \"a\" : [ 1 , 2 ] } \n"), true);
}

#[test]
fn test_number_grammar() {
    // accepted number documents
    assert_eq!(test_verify("0"), true);
    assert_eq!(test_verify("-0"), true);
    assert_eq!(test_verify("0.5"), true);
    assert_eq!(test_verify("1e10"), true);
    assert_eq!(test_verify("-1.5E-3"), true);

    // rejected spellings
    assert_eq!(test_verify("01"), false); // leading zero: trailing digit is garbage
    assert_eq!(test_verify("1."), false); // fraction needs a digit
    assert_eq!(test_verify(".5"), false); // no leading dot
    assert_eq!(test_verify("1e"), false); // exponent needs a digit
    assert_eq!(test_verify("[1e+]"), false);
    assert_eq!(test_verify("[--1]"), false);
}

#[test]
fn test_clean_end_at_token_boundary() {
    // clean end of input at a token boundary with no open container is
    // a legal document boundary; an empty stack at start and end is an
    // invariant, not a special case
    assert_eq!(test_verify(""), true);
    assert_eq!(test_verify(" \t\r\n"), true);
    // an open container at end of input is not
    assert_eq!(test_verify("["), false);
    assert_eq!(test_verify("{"), false);
    assert_eq!(test_verify("{\"a\":"), false);
}

#[test]
fn test_idempotent_on_same_bytes() {
    let inputs = ["{\"a\":[0,1,2]}", "{\"a\",0}", "", "  ", "[\"a]"];
    for json in inputs {
        let first = test_verify(json);
        let second = test_verify(json);
        assert_eq!(first, second);
        assert_eq!(test_verify(json), first);
    }
}

#[test]
fn test_string_values_need_no_decoding_context() {
    // invalid escapes are rejected wherever the string stands
    assert_eq!(test_verify("[\"\\q\"]"), false);
    assert_eq!(test_verify("{\"\\uZZZZ\":0}"), false);
    // a string value with a lone surrogate escape fails decoding
    assert_eq!(test_verify("[\"\\uD800\"]"), false);
    // an overlong-free plain two-byte UTF-8 sequence is fine
    assert_eq!(test_verify("[\"\u{00E9}\"]"), true);
}
