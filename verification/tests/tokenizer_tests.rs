use json_verifier::{interpret_string, read_next_token, Error, JsonChar, JsonToken};

fn lex_all(json: &str) -> Result<Vec<JsonToken>, Error> {
    let input = json.as_bytes();
    let mut pos = 0usize;
    let mut tokens = Vec::new();
    loop {
        match read_next_token(input, pos)? {
            Some((tok, next)) => {
                tokens.push(tok);
                pos = next;
            }
            None => return Ok(tokens),
        }
    }
}

fn lex_one(json: &str) -> Result<Option<JsonToken>, Error> {
    read_next_token(json.as_bytes(), 0).map(|r| r.map(|(tok, _)| tok))
}

#[test]
fn test_number_tokens_carry_exact_bytes() {
    for accepted in ["0", "-0", "0.5", "1e10", "-1.5E-3"] {
        assert_eq!(
            lex_one(accepted).unwrap(),
            Some(JsonToken::Number(accepted.as_bytes().to_vec())),
            "number {:?} should lex as one Number token",
            accepted
        );
    }
    assert!(matches!(lex_one("1."), Err(Error::UnexpectedEndOfInput)));
    assert!(matches!(lex_one("1e"), Err(Error::UnexpectedEndOfInput)));
    assert!(matches!(lex_one("1.x"), Err(Error::InvalidNumberCharacter(b'x'))));
    assert!(matches!(lex_one("-x"), Err(Error::InvalidNumberCharacter(b'x'))));
    // a leading zero ends the mantissa: the next digit starts new content
    assert_eq!(lex_one("01").unwrap(), Some(JsonToken::Number(b"0".to_vec())));
}

#[test]
fn test_structural_and_bareword_tokens() {
    assert_eq!(
        lex_all(" [ ] { } : , true false null ").unwrap(),
        vec![
            JsonToken::OpeningBracket,
            JsonToken::ClosingBracket,
            JsonToken::OpeningBrace,
            JsonToken::ClosingBrace,
            JsonToken::Colon,
            JsonToken::Comma,
            JsonToken::True,
            JsonToken::False,
            JsonToken::Null,
        ]
    );
    assert_eq!(lex_all("").unwrap(), vec![]);
    assert_eq!(lex_all(" \t\r\n").unwrap(), vec![]);
}

#[test]
fn test_bareword_errors() {
    assert!(matches!(lex_one("tru"), Err(Error::UnexpectedEndOfInput)));
    match lex_one("nulx") {
        Err(Error::InvalidBarewordBeginning(s)) => assert_eq!(s, "nulx"),
        other => panic!("expected InvalidBarewordBeginning, got {:?}", other),
    }
    match lex_one("falsx") {
        Err(Error::InvalidBarewordBeginning(s)) => assert_eq!(s, "falsx"),
        other => panic!("expected InvalidBarewordBeginning, got {:?}", other),
    }
    match lex_one("word") {
        Err(Error::InvalidBarewordBeginning(s)) => assert_eq!(s, "word"),
        other => panic!("expected InvalidBarewordBeginning, got {:?}", other),
    }
}

#[test]
fn test_string_tokens_preserve_source_form() {
    assert_eq!(
        lex_one("\"a\\n\\u0041\"").unwrap(),
        Some(JsonToken::String(vec![
            JsonChar::Byte(b'a'),
            JsonChar::EscapedLineFeed,
            JsonChar::UnicodeEscape(0x0041),
        ]))
    );
    assert_eq!(
        lex_one("\"\\\"\\\\\\/\\b\\f\\r\\t\"").unwrap(),
        Some(JsonToken::String(vec![
            JsonChar::EscapedQuote,
            JsonChar::EscapedBackslash,
            JsonChar::EscapedSlash,
            JsonChar::EscapedBackspace,
            JsonChar::EscapedFormFeed,
            JsonChar::EscapedCarriageReturn,
            JsonChar::EscapedTab,
        ]))
    );
    assert!(matches!(lex_one("\"ab"), Err(Error::UnexpectedEndOfInput)));
    assert!(matches!(lex_one("\"\\q\""), Err(Error::UnknownEscape(b'q'))));
    assert!(matches!(
        lex_one("\"\\uZZ00\""),
        Err(Error::InvalidUnicodeEscape([b'Z', b'Z', b'0', b'0']))
    ));
    // fewer than four bytes left for the escape value
    assert!(matches!(lex_one("\"\\u00\""), Err(Error::UnexpectedEndOfInput)));
    // the escape value takes the next four bytes even across a quote
    assert!(matches!(
        lex_one("\"\\u00X\""),
        Err(Error::InvalidUnicodeEscape([b'0', b'0', b'X', b'"']))
    ));
}

#[test]
fn test_interpret_string_decodes_canonically() {
    // different spellings of the same text decode to the same string
    let direct = interpret_string(&[JsonChar::Byte(b'a')]).unwrap();
    let escaped = interpret_string(&[JsonChar::UnicodeEscape(0x0061)]).unwrap();
    assert_eq!(direct, "a");
    assert_eq!(direct, escaped);

    let slash = interpret_string(&[JsonChar::EscapedSlash]).unwrap();
    assert_eq!(slash, "/");

    // fixed escapes name their characters
    let fixed = interpret_string(&[
        JsonChar::EscapedQuote,
        JsonChar::EscapedBackslash,
        JsonChar::EscapedBackspace,
        JsonChar::EscapedFormFeed,
        JsonChar::EscapedLineFeed,
        JsonChar::EscapedCarriageReturn,
        JsonChar::EscapedTab,
    ])
    .unwrap();
    assert_eq!(fixed, "\"\\\u{08}\u{0C}\n\r\t");

    // multi-byte UTF-8: é (C3 A9), € (E2 82 AC), 😀 (F0 9F 98 80)
    assert_eq!(
        interpret_string(&[JsonChar::Byte(0xC3), JsonChar::Byte(0xA9)]).unwrap(),
        "\u{00E9}"
    );
    assert_eq!(
        interpret_string(&[JsonChar::Byte(0xE2), JsonChar::Byte(0x82), JsonChar::Byte(0xAC)])
            .unwrap(),
        "\u{20AC}"
    );
    assert_eq!(
        interpret_string(&[
            JsonChar::Byte(0xF0),
            JsonChar::Byte(0x9F),
            JsonChar::Byte(0x98),
            JsonChar::Byte(0x80)
        ])
        .unwrap(),
        "\u{1F600}"
    );

    // a surrogate pair of Unicode escapes combines into one character
    assert_eq!(
        interpret_string(&[JsonChar::UnicodeEscape(0xD83D), JsonChar::UnicodeEscape(0xDE00)])
            .unwrap(),
        "\u{1F600}"
    );
}

#[test]
fn test_interpret_string_rejects_bad_sequences() {
    // a lone continuation byte is not a UTF-8 sequence
    assert!(matches!(
        interpret_string(&[JsonChar::Byte(0x80)]),
        Err(Error::InvalidUtf8Sequence(_))
    ));
    // a lead byte without its continuation
    assert!(matches!(
        interpret_string(&[JsonChar::Byte(0xC3)]),
        Err(Error::InvalidUtf8Sequence(_))
    ));
    // an escape where a continuation byte was owed
    assert!(matches!(
        interpret_string(&[JsonChar::Byte(0xC3), JsonChar::EscapedTab]),
        Err(Error::InvalidUtf8Sequence(_))
    ));
    // a three-byte sequence encoding a surrogate (ED A0 80 -> 0xD800)
    assert!(matches!(
        interpret_string(&[JsonChar::Byte(0xED), JsonChar::Byte(0xA0), JsonChar::Byte(0x80)]),
        Err(Error::Utf8SequenceProducedSurrogate(0xD800))
    ));
    // a lone trailing surrogate escape
    assert!(matches!(
        interpret_string(&[JsonChar::UnicodeEscape(0xDC00)]),
        Err(Error::InvalidUtf16SurrogateSequence(_))
    ));
    // a leading surrogate escape followed by something else
    assert!(matches!(
        interpret_string(&[JsonChar::UnicodeEscape(0xD800), JsonChar::Byte(b'x')]),
        Err(Error::InvalidUtf16SurrogateSequence(_))
    ));
    // a leading surrogate escape followed by a non-trailing escape value
    assert!(matches!(
        interpret_string(&[JsonChar::UnicodeEscape(0xD800), JsonChar::UnicodeEscape(0x0041)]),
        Err(Error::InvalidUtf16SurrogateSequence(_))
    ));
    // a leading surrogate escape at the end of the units
    assert!(matches!(
        interpret_string(&[JsonChar::UnicodeEscape(0xD800)]),
        Err(Error::InvalidUtf16SurrogateSequence(_))
    ));
}
