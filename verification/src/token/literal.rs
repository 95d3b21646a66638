use vstd::prelude::*;

verus! {

// The eight fixed single-byte punctuation marks / operators.

// operators
pub const PLUS: u8 = ('+' as u8);
pub const ASSIGN: u8 = ('=' as u8);

// delimiters
pub const COMMA: u8 = (',' as u8);
pub const SEMICOLON: u8 = (';' as u8);

pub const LPAREN: u8 = ('(' as u8);
pub const RPAREN: u8 = (')' as u8);

pub const LBRACE: u8 = ('{' as u8);
pub const RBRACE: u8 = ('}' as u8);

// keywords

/// The reserved spelling `"let"`, as a byte sequence.
pub open spec fn let_spelling() -> Seq<u8> {
    seq![('l' as u8), ('e' as u8), ('t' as u8)]
}

/// The reserved spelling `"fn"`, as a byte sequence.
pub open spec fn function_spelling() -> Seq<u8> {
    seq![('f' as u8), ('n' as u8)]
}

} // verus!
