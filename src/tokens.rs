use vstd::prelude::*;
use vstd::string::StringSliceAdditionalSpecFns;

use crate::span::Span;

verus! {

/// What a rule identifier must offer: it is copied into every token.
pub trait ParserRule: Copy {

}

impl<T: Copy> ParserRule for T {

}

/// A span of input recognised by a parser rule.
#[derive(Debug, Clone, Copy)]
pub struct Token<'a, R: ParserRule> {
    pub rule: R,
    pub span: Span<'a>,
}

impl<'a, R: ParserRule> Token<'a, R> {
    /// A token for `rule` over `span`.
    pub fn new(rule: R, span: Span<'a>) -> (r: Token<'a, R>)
        ensures
            r.rule == rule,
            r.span == span,
    {
        Token { rule, span }
    }

    pub fn rule(&self) -> (r: R)
        ensures
            r == self.rule,
    {
        self.rule
    }

    /// The text the token covers.
    pub fn as_str(&self) -> (r: &'a str)
        requires
            self.span.on_boundaries(),
        ensures
            r.spec_bytes() == self.span.covered(),
    {
        self.span.as_str()
    }
}

} // verus!
