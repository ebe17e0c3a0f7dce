use vstd::prelude::*;

use crate::lookup::{Lookups, TypeLookups};
use crate::token::{can_be_name, token_can_be_name, views, Token, TokenKind, TokenView};

verus! {

/// Why parsing stopped; `pos` is the index of the offending token.
#[derive(Debug, Clone, Copy, PartialEq, Eq, Structural)]
pub enum ParseError {
    /// No prefix handler is registered for the token's kind.
    MissingPrefix { kind: TokenKind, pos: usize },
    /// The token binds tighter than the context but has no infix handler.
    MissingInfix { kind: TokenKind, pos: usize },
    /// A token of kind `expected` was required.
    Expected { expected: TokenKind, found: TokenKind, pos: usize },
    /// The token cannot continue the construct being parsed.
    UnexpectedToken { found: TokenKind, pos: usize },
    /// A type prefix (`any`, `some`) applied to a type that already has one.
    DoublePrefix { pos: usize },
    /// A type prefix applied to something other than a plain named type.
    PrefixNeedsSymbol { pos: usize },
    /// Two identifiers where one tuple label was expected.
    DoubleLabel { pos: usize },
    /// A number token that reads as neither an integer nor a decimal.
    MalformedNumber { pos: usize },
    /// A handler consumed no token.
    Stalled { pos: usize },
}

/// A cursor over a token sequence, with the expression, statement and type registries
/// it parses by; the registries are built once and shared by every parser.
pub struct Parser<'a> {
    pub tokens: Vec<Token>,
    pub pos: usize,
    pub lookups: &'a Lookups,
    pub types: &'a TypeLookups,
}

/// A token sequence that the end-of-input marker closes.
pub open spec fn ends_with_eof(ts: Seq<Token>) -> bool {
    ts.len() > 0 && ts.last().kind == TokenKind::EOF
}

/// Kind of the token at `p`; positions outside the sequence read as `EOF`.
pub open spec fn kind_at(ts: Seq<TokenView>, p: int) -> TokenKind {
    if 0 <= p < ts.len() {
        ts[p].kind
    } else {
        TokenKind::EOF
    }
}

/// Whether a pattern entry accepts a token: `ANYTHING` accepts any name-like token,
/// every other kind only a token of that kind.
pub open spec fn fits(k: TokenKind, t: TokenView) -> bool {
    (k == TokenKind::ANYTHING && can_be_name(t)) || t.kind == k
}

/// Whether the tokens from `p` on match `pattern`, one entry per token.
pub open spec fn pattern_at(ts: Seq<TokenView>, p: int, pattern: Seq<TokenKind>) -> bool {
    forall|i: int|
        0 <= i < pattern.len() ==> 0 <= p + i < ts.len() && fits(#[trigger] pattern[i], ts[p + i])
}

impl<'a> Parser<'a> {
    pub open spec fn wf(&self) -> bool {
        &&& ends_with_eof(self.tokens@)
        &&& self.pos < self.tokens@.len()
        &&& self.lookups.wf()
        &&& self.types.wf()
    }

    /// Same tokens and registries; only the position may differ.
    pub open spec fn same_input(&self, other: &Parser) -> bool {
        &&& self.tokens@ == other.tokens@
        &&& self.lookups == other.lookups
        &&& self.types == other.types
    }

    /// The tokens, in their mathematical form.
    pub open spec fn toks(&self) -> Seq<TokenView> {
        views(self.tokens@)
    }

    pub open spec fn kind(&self) -> TokenKind {
        kind_at(self.toks(), self.pos as int)
    }

    /// A parser at the first token, parsing by the given registries.
    pub fn new(tokens: Vec<Token>, lookups: &'a Lookups, types: &'a TypeLookups) -> (r: Parser<'a>)
        requires
            ends_with_eof(tokens@),
            lookups.wf(),
            types.wf(),
        ensures
            r.wf(),
            r.tokens@ == tokens@,
            r.pos == 0,
            *r.lookups == *lookups,
            *r.types == *types,
    {
        Parser { tokens, pos: 0, lookups, types }
    }

    pub fn current_token(&self) -> (r: &Token)
        requires
            self.wf(),
        ensures
            *r == self.tokens@[self.pos as int],
    {
        &self.tokens[self.pos]
    }

    pub fn current_kind(&self) -> (r: TokenKind)
        requires
            self.wf(),
        ensures
            r == self.kind(),
    {
        self.tokens[self.pos].kind
    }

    /// Returns the current token and moves past it; the final token, `EOF`, is never
    /// consumed.
    pub fn advance(&mut self) -> (r: Token)
        requires
            old(self).wf(),
            old(self).pos + 1 < old(self).tokens@.len(),
        ensures
            final(self).wf(),
            final(self).same_input(old(self)),
            r@ == old(self).tokens@[old(self).pos as int]@,
            final(self).pos == old(self).pos + 1,
    {
        let n = self.tokens.len();
        assert(self.pos + 1 < n);
        let token = self.tokens[self.pos].duplicate();
        self.pos = self.pos + 1;
        token
    }

    pub fn go_back(&mut self)
        requires
            old(self).wf(),
            old(self).pos > 0,
        ensures
            final(self).wf(),
            final(self).same_input(old(self)),
            final(self).pos == old(self).pos - 1,
    {
        self.pos = self.pos - 1;
    }

    /// Whether input remains before the end-of-input marker.
    pub fn has_tokens(&self) -> (r: bool)
        requires
            self.wf(),
        ensures
            r == (self.kind() != TokenKind::EOF),
    {
        self.pos < self.tokens.len() && self.tokens[self.pos].kind != TokenKind::EOF
    }

    pub fn next_token(&self) -> (r: &Token)
        requires
            self.wf(),
            self.pos + 1 < self.tokens@.len(),
        ensures
            *r == self.tokens@[self.pos + 1],
    {
        let n = self.tokens.len();
        assert(self.pos + 1 < n);
        &self.tokens[self.pos + 1]
    }

    pub fn previous_token(&self) -> (r: &Token)
        requires
            self.wf(),
            self.pos > 0,
        ensures
            *r == self.tokens@[self.pos - 1],
    {
        &self.tokens[self.pos - 1]
    }

    /// Consumes the current token if it has kind `kind`; fails otherwise, without moving.
    /// The final token, `EOF`, is never consumed, so it cannot be expected.
    pub fn expect(&mut self, kind: TokenKind) -> (r: Result<Token, ParseError>)
        requires
            old(self).wf(),
            old(self).pos + 1 < old(self).tokens@.len() || old(self).kind() != kind,
        ensures
            final(self).wf(),
            final(self).same_input(old(self)),
            match r {
                Ok(t) => {
                    &&& old(self).kind() == kind
                    &&& t@ == old(self).tokens@[old(self).pos as int]@
                    &&& final(self).pos == old(self).pos + 1
                },
                Err(e) => {
                    &&& old(self).kind() != kind
                    &&& e == ParseError::Expected {
                        expected: kind,
                        found: old(self).kind(),
                        pos: old(self).pos,
                    }
                    &&& final(self).pos == old(self).pos
                },
            },
    {
        let found = self.current_kind();
        if found == kind {
            Ok(self.advance())
        } else {
            Err(ParseError::Expected { expected: kind, found, pos: self.pos })
        }
    }

    /// Whether the tokens from the current one on match `pattern`, without consuming any.
    pub fn has_pattern(&self, pattern: &[TokenKind]) -> (r: bool)
        requires
            self.wf(),
        ensures
            r == pattern_at(self.toks(), self.pos as int, pattern@),
    {
        let mut i: usize = 0;
        while i < pattern.len()
            invariant
                self.wf(),
                i <= pattern@.len(),
                pattern_at(self.toks(), self.pos as int, pattern@.subrange(0, i as int)),
            decreases pattern@.len() - i,
        {
            if i >= self.tokens.len() - self.pos {
                assert(!pattern_at(self.toks(), self.pos as int, pattern@)) by {
                    let k = pattern@[i as int];
                }
                return false;
            }
            let token = &self.tokens[self.pos + i];
            let k = pattern[i];
            let ok = (k == TokenKind::ANYTHING && token_can_be_name(token)) || token.kind == k;
            if !ok {
                assert(!pattern_at(self.toks(), self.pos as int, pattern@)) by {
                    let k = pattern@[i as int];
                }
                return false;
            }
            proof {
                let prev = pattern@.subrange(0, i as int);
                let next = pattern@.subrange(0, i + 1);
                assert forall|j: int| 0 <= j < next.len() implies 0 <= self.pos + j
                    < self.toks().len() && fits(#[trigger] next[j], self.toks()[self.pos + j]) by {
                    if j < i {
                        assert(next[j] == prev[j]);
                    }
                }
            }
            i += 1;
        }
        assert(pattern@.subrange(0, i as int) =~= pattern@);
        true
    }
}

} // verus!
