use vstd::prelude::*;

verus! {

/// The closed set of token kinds the scanner can produce.
///
/// Every consumer match over a token must handle all of these; extending
/// the language means adding a variant here together with its
/// classification rule in the scanner.
#[derive(Copy, Clone, Debug, PartialEq, Eq, Structural)]
pub enum Kind {
    // terminators + eof
    EOF,
    ILLEGAL,

    // literals + identifiers
    INT,
    IDENT,

    // operators
    PLUS,
    ASSIGN,

    // delimiters
    COMMA,
    SEMICOLON,

    LPAREN,
    RPAREN,

    LBRACE,
    RBRACE,

    // keywords
    LET,
    FUNCTION,
}

impl Default for Kind {
    fn default() -> (k: Self)
        ensures
            k == Kind::EOF,
    {
        Kind::EOF
    }
}

} // verus!
