//! Tokens: the flat, location-tagged vocabulary the tokenizer produces and
//! the parser consumes.

use vstd::prelude::*;
use crate::location::{Location, LocV};
use crate::number::Number;

verus! {

/// One token of source text. Tokens are produced once, consumed in order,
/// and never mutated.
#[derive(Debug)]
pub enum Token {
    LEFT_BRACKET(Location),
    RIGHT_BRACKET(Location),
    LEFT_SQUARE(Location),
    RIGHT_SQUARE(Location),
    LEFT_CURLY(Location),
    RIGHT_CURLY(Location),
    DOT(Location),
    COLON(Location),
    STRING(Vec<char>, Location),
    NUMBER(Number, Location),
    IDENTIFIER(Vec<char>, Location),
}

/// The mathematical image of a `Token`.
pub enum TokV {
    LEFT_BRACKET(LocV),
    RIGHT_BRACKET(LocV),
    LEFT_SQUARE(LocV),
    RIGHT_SQUARE(LocV),
    LEFT_CURLY(LocV),
    RIGHT_CURLY(LocV),
    DOT(LocV),
    COLON(LocV),
    STRING(Seq<char>, LocV),
    NUMBER(Number, LocV),
    IDENTIFIER(Seq<char>, LocV),
}

impl View for Token {
    type V = TokV;

    open spec fn view(&self) -> TokV {
        match *self {
            Token::LEFT_BRACKET(ref l) => TokV::LEFT_BRACKET(l@),
            Token::RIGHT_BRACKET(ref l) => TokV::RIGHT_BRACKET(l@),
            Token::LEFT_SQUARE(ref l) => TokV::LEFT_SQUARE(l@),
            Token::RIGHT_SQUARE(ref l) => TokV::RIGHT_SQUARE(l@),
            Token::LEFT_CURLY(ref l) => TokV::LEFT_CURLY(l@),
            Token::RIGHT_CURLY(ref l) => TokV::RIGHT_CURLY(l@),
            Token::DOT(ref l) => TokV::DOT(l@),
            Token::COLON(ref l) => TokV::COLON(l@),
            Token::STRING(ref s, ref l) => TokV::STRING(s@, l@),
            Token::NUMBER(n, ref l) => TokV::NUMBER(n, l@),
            Token::IDENTIFIER(ref s, ref l) => TokV::IDENTIFIER(s@, l@),
        }
    }
}

/// The views of a token vector, element by element.
pub open spec fn toks_view(s: Seq<Token>) -> Seq<TokV> {
    s.map_values(|t: Token| t@)
}

impl Token {
    /// The location a token carries.
    pub fn location(&self) -> (r: &Location)
        ensures
            r@ == self.loc_v(),
    {
        match self {
            Token::LEFT_BRACKET(l) => l,
            Token::RIGHT_BRACKET(l) => l,
            Token::LEFT_SQUARE(l) => l,
            Token::RIGHT_SQUARE(l) => l,
            Token::LEFT_CURLY(l) => l,
            Token::RIGHT_CURLY(l) => l,
            Token::DOT(l) => l,
            Token::COLON(l) => l,
            Token::STRING(_, l) => l,
            Token::NUMBER(_, l) => l,
            Token::IDENTIFIER(_, l) => l,
        }
    }

    /// The location inside a token's view.
    pub open spec fn loc_v(&self) -> LocV {
        match self@ {
            TokV::LEFT_BRACKET(l) => l,
            TokV::RIGHT_BRACKET(l) => l,
            TokV::LEFT_SQUARE(l) => l,
            TokV::RIGHT_SQUARE(l) => l,
            TokV::LEFT_CURLY(l) => l,
            TokV::COLON(l) => l,
            TokV::DOT(l) => l,
            TokV::RIGHT_CURLY(l) => l,
            TokV::STRING(_, l) => l,
            TokV::NUMBER(_, l) => l,
            TokV::IDENTIFIER(_, l) => l,
        }
    }
}

} // verus!
