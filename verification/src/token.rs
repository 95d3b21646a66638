mod kind;
pub mod literal;

pub use kind::Kind;

use vstd::prelude::*;

verus! {

/// What the keyword lookup resolves a candidate identifier spelling to:
/// `LET` and `FUNCTION` for the two reserved spellings, `IDENT` for
/// everything else. The lookup is pure, total and case-sensitive.
pub open spec fn spec_lookup_keyword(s: Seq<u8>) -> Kind {
    if s == literal::let_spelling() {
        Kind::LET
    } else if s == literal::function_spelling() {
        Kind::FUNCTION
    } else {
        Kind::IDENT
    }
}

/// One classified token: its kind and the exact bytes of the lexeme that
/// produced it (empty for `EOF`).
#[derive(Debug)]
pub struct Token {
    pub kind: Kind,
    pub literal: Vec<u8>,
}

impl Default for Token {
    fn default() -> (t: Self)
        ensures
            t.kind == Kind::EOF,
            t.literal@ == Seq::<u8>::empty(),
    {
        Token { kind: Kind::EOF, literal: Vec::new() }
    }
}

impl Token {
    /// Resolve a candidate identifier spelling to its keyword kind, or to
    /// `IDENT` if it is not one of the two reserved words.
    pub fn lookup_keyword(k: &[u8]) -> (r: Kind)
        ensures
            r == spec_lookup_keyword(k@),
    {
        if k.len() == 3 && k[0] == ('l' as u8) && k[1] == ('e' as u8) && k[2] == ('t' as u8) {
            proof {
                assert(k@ =~= literal::let_spelling());
            }
            Kind::LET
        } else if k.len() == 2 && k[0] == ('f' as u8) && k[1] == ('n' as u8) {
            proof {
                assert(k@ =~= literal::function_spelling());
            }
            Kind::FUNCTION
        } else {
            proof {
                assert(k@ != literal::let_spelling() && k@ != literal::function_spelling()) by {
                    if k@ == literal::let_spelling() {
                        assert(k@.len() == 3 && k@[0] == ('l' as u8) && k@[1] == ('e' as u8) && k@[2] == ('t' as u8));
                    }
                    if k@ == literal::function_spelling() {
                        assert(k@.len() == 2 && k@[0] == ('f' as u8) && k@[1] == ('n' as u8));
                    }
                }
            }
            Kind::IDENT
        }
    }
}

} // verus!
