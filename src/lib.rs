//! A parser generator driven by EBNF grammars.
//!
//! EBNF text is read into a [`Grammar`]; a grammar is lowered to the code of a
//! recursive-descent parser built from the combinators of [`State`], which
//! yields the tokens it recognises in depth-first pre-order.
use vstd::prelude::*;

pub mod ast;
pub mod lower;
pub mod parser;
pub mod position;
pub mod reserve;
pub mod roundtrip;
pub mod source;
pub mod span;
pub mod state;
pub mod syntax;
mod text;
pub mod tokens;

pub use ast::{Grammar, Identifier, Lhs, Production, Rhs, Terminal};
pub use position::Position;
pub use reserve::{ReservePos, ReserveVec};
pub use span::{RelativeLocation, Span};
pub use state::{State, StateResult};
pub use tokens::{ParserRule, Token};

verus! {

/// The failure of a parse: the rule asked for did not match its input.
#[derive(Debug, Clone, Copy, PartialEq, Eq, Structural)]
pub struct ParseFailed;

/// A parser for a grammar whose rules are identified by `R`.
pub trait Parser<R: ParserRule> {
    /// Runs `rule` over `input`, returning the tokens found in depth-first
    /// pre-order.
    fn parse<'a>(rule: R, input: &'a str) -> Result<Vec<Token<'a, R>>, ParseFailed>;
}

} // verus!
