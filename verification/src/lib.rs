//! A strict, streaming JSON-syntax verifier.
//!
//! Given a byte slice, the library decides whether it holds one
//! syntactically valid JSON document (per the RFC 8259 grammar) followed
//! only by whitespace, without building a document tree.  A hand-rolled
//! lexer turns bytes into tokens, a string codec canonically decodes
//! string contents for duplicate-key comparison, and a grammar-enforcing
//! verifier walks the tokens through a container stack and an
//! expectation state machine.

use vstd::prelude::*;

pub mod codec;
pub mod grammar;
pub mod tokenizer;
pub mod validator;

pub use codec::interpret_string;
pub use tokenizer::read_next_token;
pub use tokenizer::Error;
pub use tokenizer::JsonChar;
pub use tokenizer::JsonToken;
pub use validator::verify;
pub use validator::ParserExpects;

verus! {

/// The set of bytes that JSON treats as insignificant whitespace.
pub open spec fn is_json_ws(b: u8) -> bool {
    b == 0x20 || b == 0x09 || b == 0x0A || b == 0x0D
}

} // verus!
