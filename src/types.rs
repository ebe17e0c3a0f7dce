use vstd::prelude::*;

use crate::ast::{type_models, Type, TypeModel};
use crate::lookup::{TypeGrammar, TypeHandler, DEFAULT_BP};
use crate::parser::{kind_at, pattern_at, ParseError, Parser};
use crate::text::{decimal, decimal_string, str_eq};
use crate::token::{TokenKind, TokenView};

verus! {

/// A parse result: the node and the position after it, or the error.
pub type Parsed<T> = Result<(T, int), ParseError>;

/// Fails when a type is followed by a token that binds tighter than the context:
/// the type registry has no infix handlers, so nothing could continue it.
pub open spec fn type_tail(g: TypeGrammar, ts: Seq<TokenView>, t: TypeModel, q: int) -> Parsed<
    TypeModel,
> {
    let k = kind_at(ts, q);
    if k != TokenKind::EOF && (g.bp)(k) is Some && (g.bp)(k)->0 > DEFAULT_BP {
        Err(ParseError::MissingInfix { kind: k, pos: q as usize })
    } else {
        Ok((t, q))
    }
}

/// The type that starts at `pos`, through the prefix handler registered for its kind.
pub open spec fn type_expr(g: TypeGrammar, ts: Seq<TokenView>, pos: int) -> Parsed<TypeModel>
    decreases ts.len() - pos, 3int,
{
    if pos < 0 || pos >= ts.len() {
        Err(ParseError::Stalled { pos: pos as usize })
    } else {
        match (g.nud)(ts[pos].kind) {
            None => Err(ParseError::MissingPrefix { kind: ts[pos].kind, pos: pos as usize }),
            Some(h) => match type_nud(g, ts, pos, h) {
                Err(e) => Err(e),
                Ok((t, q)) => type_tail(g, ts, t, q),
            },
        }
    }
}

/// Further generic arguments after `acc`, up to and including the closing `>`.
pub open spec fn generic_args(g: TypeGrammar, ts: Seq<TokenView>, acc: Seq<TypeModel>, q: int) -> Parsed<
    Seq<TypeModel>,
>
    decreases ts.len() - q, 1int,
{
    if q < 0 || q >= ts.len() {
        Err(ParseError::Stalled { pos: q as usize })
    } else if kind_at(ts, q) == TokenKind::COMMA {
        match type_expr(g, ts, q + 1) {
            Err(e) => Err(e),
            Ok((t, r)) => if r <= q || r > ts.len() {
                Err(ParseError::Stalled { pos: q as usize })
            } else {
                generic_args(g, ts, acc.push(t), r)
            },
        }
    } else if kind_at(ts, q) == TokenKind::GREATER {
        Ok((acc, q + 1))
    } else {
        Err(
            ParseError::Expected {
                expected: TokenKind::GREATER,
                found: kind_at(ts, q),
                pos: q as usize,
            },
        )
    }
}

/// Further tuple entries after `acc`, up to and including the closing `)`.
pub open spec fn tuple_entries(g: TypeGrammar, ts: Seq<TokenView>, acc: Seq<TypeModel>, q: int) -> Parsed<
    Seq<TypeModel>,
>
    decreases ts.len() - q, 1int,
{
    if q < 0 || q >= ts.len() {
        Err(ParseError::Stalled { pos: q as usize })
    } else if kind_at(ts, q) == TokenKind::COMMA {
        match named_type(g, ts, q + 1, decimal(acc.len())) {
            Err(e) => Err(e),
            Ok((t, r)) => if r <= q || r > ts.len() {
                Err(ParseError::Stalled { pos: q as usize })
            } else {
                tuple_entries(g, ts, acc.push(t), r)
            },
        }
    } else if kind_at(ts, q) == TokenKind::CLOSE_PAREN {
        Ok((acc, q + 1))
    } else {
        Err(ParseError::UnexpectedToken { found: kind_at(ts, q), pos: q as usize })
    }
}

/// What handler `h` parses at `pos`.
pub open spec fn type_nud(g: TypeGrammar, ts: Seq<TokenView>, pos: int, h: TypeHandler) -> Parsed<
    TypeModel,
>
    decreases ts.len() - pos, 2int,
{
    if pos < 0 || pos >= ts.len() {
        Err(ParseError::Stalled { pos: pos as usize })
    } else {
        match h {
            TypeHandler::Identifier => {
                let name = ts[pos].value;
                if kind_at(ts, pos + 1) == TokenKind::LESS {
                    match type_expr(g, ts, pos + 2) {
                        Err(e) => Err(e),
                        Ok((first, q)) => if q <= pos || q > ts.len() {
                            Err(ParseError::Stalled { pos: pos as usize })
                        } else {
                            match generic_args(g, ts, seq![first], q) {
                                Err(e) => Err(e),
                                Ok((args, r)) => Ok((TypeModel::Generic { generics: args, name }, r)),
                            }
                        },
                    }
                } else {
                    Ok((TypeModel::Symbol { modifier: None, value: name }, pos + 1))
                }
            },
            TypeHandler::Prefixed => {
                let prefix = ts[pos];
                if prefix.kind != TokenKind::ANY && prefix.kind != TokenKind::SOME {
                    Err(ParseError::UnexpectedToken { found: prefix.kind, pos: pos as usize })
                } else {
                    match type_expr(g, ts, pos + 1) {
                        Err(e) => Err(e),
                        Ok((t, q)) => match t {
                            TypeModel::Symbol { modifier, value } => if modifier is Some {
                                Err(ParseError::DoublePrefix { pos: pos as usize })
                            } else {
                                Ok((TypeModel::Symbol { modifier: Some(prefix.value), value }, q))
                            },
                            _ => Err(ParseError::PrefixNeedsSymbol { pos: pos as usize }),
                        },
                    }
                }
            },
            TypeHandler::Bracket => {
                if ts[pos].kind != TokenKind::OPEN_BRACKET {
                    Err(
                        ParseError::Expected {
                            expected: TokenKind::OPEN_BRACKET,
                            found: ts[pos].kind,
                            pos: pos as usize,
                        },
                    )
                } else {
                    match type_expr(g, ts, pos + 1) {
                        Err(e) => Err(e),
                        Ok((first, q)) => if kind_at(ts, q) == TokenKind::COLON {
                            if q <= pos || q >= ts.len() {
                                Err(ParseError::Stalled { pos: pos as usize })
                            } else {
                                match type_expr(g, ts, q + 1) {
                                    Err(e) => Err(e),
                                    Ok((second, r)) => if kind_at(ts, r)
                                        == TokenKind::CLOSE_BRACKET {
                                        Ok(
                                            (
                                                TypeModel::Dict {
                                                    key: Box::new(first),
                                                    value: Box::new(second),
                                                },
                                                r + 1,
                                            ),
                                        )
                                    } else {
                                        Err(
                                            ParseError::Expected {
                                                expected: TokenKind::CLOSE_BRACKET,
                                                found: kind_at(ts, r),
                                                pos: r as usize,
                                            },
                                        )
                                    },
                                }
                            }
                        } else if kind_at(ts, q) == TokenKind::CLOSE_BRACKET {
                            Ok((TypeModel::List { underlying: Box::new(first) }, q + 1))
                        } else {
                            Err(ParseError::UnexpectedToken { found: kind_at(ts, q), pos: q as usize })
                        },
                    }
                }
            },
            TypeHandler::Tuple => {
                if ts[pos].kind != TokenKind::OPEN_PAREN {
                    Err(
                        ParseError::Expected {
                            expected: TokenKind::OPEN_PAREN,
                            found: ts[pos].kind,
                            pos: pos as usize,
                        },
                    )
                } else {
                    match named_type(g, ts, pos + 1, decimal(0)) {
                        Err(e) => Err(e),
                        Ok((first, q)) => if q <= pos || q > ts.len() {
                            Err(ParseError::Stalled { pos: pos as usize })
                        } else if kind_at(ts, q) == TokenKind::CLOSE_PAREN {
                            match first {
                                TypeModel::Named { name, explicit_type } if name == decimal(0) => Ok(
                                    (*explicit_type, q + 1),
                                ),
                                _ => Ok((TypeModel::Tuple { values: seq![first] }, q + 1)),
                            }
                        } else {
                            match tuple_entries(g, ts, seq![first], q) {
                                Err(e) => Err(e),
                                Ok((values, r)) => Ok((TypeModel::Tuple { values }, r)),
                            }
                        },
                    }
                }
            },
        }
    }
}

/// One tuple entry at `pos`: `label: T`, or a bare type named `default`.
pub open spec fn named_type(g: TypeGrammar, ts: Seq<TokenView>, pos: int, default: Seq<char>) -> Parsed<
    TypeModel,
>
    decreases ts.len() - pos, 4int,
{
    if pos < 0 || pos >= ts.len() {
        Err(ParseError::Stalled { pos: pos as usize })
    } else if pattern_at(ts, pos, seq![TokenKind::ANYTHING, TokenKind::COLON]) {
        match type_expr(g, ts, pos + 2) {
            Err(e) => Err(e),
            Ok((t, q)) => Ok((TypeModel::Named { name: ts[pos].value, explicit_type: Box::new(t) }, q)),
        }
    } else if pattern_at(ts, pos, seq![TokenKind::IDENTIFIER, TokenKind::IDENTIFIER]) {
        Err(ParseError::DoubleLabel { pos: pos as usize })
    } else {
        match type_expr(g, ts, pos) {
            Err(e) => Err(e),
            Ok((t, q)) => match t {
                TypeModel::Symbol { .. } => if kind_at(ts, q) == TokenKind::COMMA || kind_at(ts, q)
                    == TokenKind::CLOSE_PAREN {
                    Ok((TypeModel::Named { name: default, explicit_type: Box::new(t) }, q))
                } else {
                    Err(ParseError::UnexpectedToken { found: kind_at(ts, q), pos: q as usize })
                },
                _ => Ok((TypeModel::Named { name: default, explicit_type: Box::new(t) }, q)),
            },
        }
    }
}

/// An exec parse outcome in the form of `Parsed`.
pub open spec fn type_outcome(r: Result<Type, ParseError>, q: usize) -> Parsed<TypeModel> {
    match r {
        Ok(t) => Ok((t@, q as int)),
        Err(e) => Err(e),
    }
}

/// Parses the type at the current token with the parser's type registry.
pub fn parse_type(p: &mut Parser) -> (r: Result<Type, ParseError>)
    requires
        old(p).wf(),
    ensures
        final(p).wf(),
        final(p).same_input(old(p)),
        type_outcome(r, final(p).pos) == type_expr(old(p).types.grammar(), old(p).toks(), old(p).pos as int),
        r is Ok ==> old(p).pos < final(p).pos,
    decreases old(p).toks().len() - old(p).pos, 3int,
{
    let kind = p.current_kind();
    match p.types.nud(kind) {
        None => Err(ParseError::MissingPrefix { kind, pos: p.pos }),
        Some(h) => {
            match parse_type_nud(p, h) {
                Err(e) => Err(e),
                Ok(t) => {
                    let k = p.current_kind();
                    if k != TokenKind::EOF {
                        if let Some(b) = p.types.bp(k) {
                            if b > DEFAULT_BP {
                                return Err(ParseError::MissingInfix { kind: k, pos: p.pos });
                            }
                        }
                    }
                    Ok(t)
                },
            }
        },
    }
}

fn parse_type_nud(p: &mut Parser, h: TypeHandler) -> (r: Result<Type, ParseError>)
    requires
        old(p).wf(),
        old(p).kind() != TokenKind::EOF,
    ensures
        final(p).wf(),
        final(p).same_input(old(p)),
        type_outcome(r, final(p).pos) == type_nud(
            old(p).types.grammar(),
            old(p).toks(),
            old(p).pos as int,
            h,
        ),
        r is Ok ==> old(p).pos < final(p).pos,
    decreases old(p).toks().len() - old(p).pos, 2int,
{
    match h {
        TypeHandler::Identifier => parse_identifier_type(p),
        TypeHandler::Prefixed => parse_prefixed_type(p),
        TypeHandler::Bracket => parse_bracket_type(p),
        TypeHandler::Tuple => parse_tuple_type(p),
    }
}

/// A named type, with generic arguments in `<...>` when they follow.
fn parse_identifier_type(p: &mut Parser) -> (r: Result<Type, ParseError>)
    requires
        old(p).wf(),
        old(p).kind() != TokenKind::EOF,
    ensures
        final(p).wf(),
        final(p).same_input(old(p)),
        type_outcome(r, final(p).pos) == type_nud(
            old(p).types.grammar(),
            old(p).toks(),
            old(p).pos as int,
            TypeHandler::Identifier,
        ),
        r is Ok ==> old(p).pos < final(p).pos,
    decreases old(p).toks().len() - old(p).pos, 1int,
{
    let ghost g = p.types.grammar();
    let ghost ts = p.toks();
    let start = p.pos;
    let token = p.advance();
    if p.current_kind() == TokenKind::LESS {
        p.advance();
        let first = match parse_type(p) {
            Ok(t) => t,
            Err(e) => return Err(e),
        };
        let ghost q0 = p.pos as int;
        let ghost m0 = first@;
        let mut args: Vec<Type> = Vec::new();
        args.push(first);
        proof {
            assert(args@.drop_last() =~= Seq::<Type>::empty());
            assert(type_models(Seq::<Type>::empty()) =~= Seq::<TypeModel>::empty());
            assert(type_models(args@) =~= seq![m0]);
        }
        let ghost whole = type_nud(g, ts, start as int, TypeHandler::Identifier);
        assert(whole == match generic_args(g, ts, seq![m0], q0) {
            Err(e) => Err(e),
            Ok((args, r)) => Ok((TypeModel::Generic { generics: args, name: token.value@ }, r)),
        });
        loop
            invariant
                p.wf(),
                p.same_input(old(p)),
                g == p.types.grammar(),
                ts == p.toks(),
                start == old(p).pos,
                start < p.pos,
                whole == type_nud(g, ts, start as int, TypeHandler::Identifier),
                whole == match generic_args(g, ts, seq![m0], q0) {
                    Err(e) => Err(e),
                    Ok((args, r)) => Ok((TypeModel::Generic { generics: args, name: token.value@ }, r)),
                },
                generic_args(g, ts, type_models(args@), p.pos as int) == generic_args(
                    g,
                    ts,
                    seq![m0],
                    q0,
                ),
            decreases p.tokens@.len() - p.pos,
        {
            let k = p.current_kind();
            if k == TokenKind::COMMA {
                let q = p.pos;
                p.advance();
                let t = match parse_type(p) {
                    Ok(t) => t,
                    Err(e) => return Err(e),
                };
                let ghost before = args@;
                args.push(t);
                proof {
                    assert(args@.drop_last() =~= before);
                }
            } else if k == TokenKind::GREATER {
                p.advance();
                return Ok(Type::GenericType { generics: args, name: token.value });
            } else {
                return Err(
                    ParseError::Expected {
                        expected: TokenKind::GREATER,
                        found: k,
                        pos: p.pos,
                    },
                );
            }
        }
    } else {
        Ok(Type::SymbolType { modifier: None, value: token.value })
    }
}

/// `any T` or `some T`, where `T` is a named type without a prefix of its own.
fn parse_prefixed_type(p: &mut Parser) -> (r: Result<Type, ParseError>)
    requires
        old(p).wf(),
        old(p).kind() != TokenKind::EOF,
    ensures
        final(p).wf(),
        final(p).same_input(old(p)),
        type_outcome(r, final(p).pos) == type_nud(
            old(p).types.grammar(),
            old(p).toks(),
            old(p).pos as int,
            TypeHandler::Prefixed,
        ),
        r is Ok ==> old(p).pos < final(p).pos,
    decreases old(p).toks().len() - old(p).pos, 1int,
{
    let start = p.pos;
    let k = p.current_kind();
    if k != TokenKind::ANY && k != TokenKind::SOME {
        return Err(ParseError::UnexpectedToken { found: k, pos: start });
    }
    let prefix = p.advance();
    match parse_type(p) {
        Err(e) => Err(e),
        Ok(Type::SymbolType { modifier, value }) => {
            if modifier.is_some() {
                Err(ParseError::DoublePrefix { pos: start })
            } else {
                Ok(Type::SymbolType { modifier: Some(prefix.value), value })
            }
        },
        Ok(_) => Err(ParseError::PrefixNeedsSymbol { pos: start }),
    }
}

/// `[K]`, a list type, or `[K: V]`, a dictionary type.
fn parse_bracket_type(p: &mut Parser) -> (r: Result<Type, ParseError>)
    requires
        old(p).wf(),
        old(p).kind() != TokenKind::EOF,
    ensures
        final(p).wf(),
        final(p).same_input(old(p)),
        type_outcome(r, final(p).pos) == type_nud(
            old(p).types.grammar(),
            old(p).toks(),
            old(p).pos as int,
            TypeHandler::Bracket,
        ),
        r is Ok ==> old(p).pos < final(p).pos,
    decreases old(p).toks().len() - old(p).pos, 1int,
{
    if let Err(e) = p.expect(TokenKind::OPEN_BRACKET) {
        return Err(e);
    }
    let first = match parse_type(p) {
        Ok(t) => t,
        Err(e) => return Err(e),
    };
    let k = p.current_kind();
    if k == TokenKind::COLON {
        p.advance();
        let second = match parse_type(p) {
            Ok(t) => t,
            Err(e) => return Err(e),
        };
        match p.expect(TokenKind::CLOSE_BRACKET) {
            Err(e) => Err(e),
            Ok(_) => Ok(Type::DictType { key: Box::new(first), value: Box::new(second) }),
        }
    } else if k == TokenKind::CLOSE_BRACKET {
        p.advance();
        Ok(Type::ListType { underlying: Box::new(first) })
    } else {
        Err(ParseError::UnexpectedToken { found: k, pos: p.pos })
    }
}

/// A parenthesized list of tuple entries; a single unlabeled entry stands for its own type.
fn parse_tuple_type(p: &mut Parser) -> (r: Result<Type, ParseError>)
    requires
        old(p).wf(),
        old(p).kind() != TokenKind::EOF,
    ensures
        final(p).wf(),
        final(p).same_input(old(p)),
        type_outcome(r, final(p).pos) == type_nud(
            old(p).types.grammar(),
            old(p).toks(),
            old(p).pos as int,
            TypeHandler::Tuple,
        ),
        r is Ok ==> old(p).pos < final(p).pos,
    decreases old(p).toks().len() - old(p).pos, 1int,
{
    let ghost g = p.types.grammar();
    let ghost ts = p.toks();
    let start = p.pos;
    if let Err(e) = p.expect(TokenKind::OPEN_PAREN) {
        return Err(e);
    }
    let zero = decimal_string(0);
    let first = match parse_named_type(p, zero.as_str()) {
        Ok(t) => t,
        Err(e) => return Err(e),
    };
    if p.current_kind() == TokenKind::CLOSE_PAREN {
        p.advance();
        let ghost m0 = first@;
        let unwrap = match &first {
            Type::NamedType { name, .. } => str_eq(name.as_str(), zero.as_str()),
            _ => false,
        };
        if unwrap {
            match first {
                Type::NamedType { explicit_type, .. } => Ok(*explicit_type),
                other => Ok(other),
            }
        } else {
            let values = vec![first];
            proof {
                assert(values@.drop_last() =~= Seq::<Type>::empty());
                assert(type_models(Seq::<Type>::empty()) =~= Seq::<TypeModel>::empty());
                assert(type_models(values@) =~= seq![m0]);
            }
            Ok(Type::TupleType { values })
        }
    } else {
        let ghost q0 = p.pos as int;
        let ghost m0 = first@;
        let mut values: Vec<Type> = Vec::new();
        values.push(first);
        proof {
            assert(values@.drop_last() =~= Seq::<Type>::empty());
            assert(type_models(Seq::<Type>::empty()) =~= Seq::<TypeModel>::empty());
            assert(type_models(values@) =~= seq![m0]);
        }
        let ghost whole = type_nud(g, ts, start as int, TypeHandler::Tuple);
        assert(whole == match tuple_entries(g, ts, seq![m0], q0) {
            Err(e) => Err(e),
            Ok((values, r)) => Ok((TypeModel::Tuple { values }, r)),
        });
        loop
            invariant
                p.wf(),
                p.same_input(old(p)),
                g == p.types.grammar(),
                ts == p.toks(),
                start == old(p).pos,
                start < p.pos,
                whole == type_nud(g, ts, start as int, TypeHandler::Tuple),
                whole == match tuple_entries(g, ts, seq![m0], q0) {
                    Err(e) => Err(e),
                    Ok((values, r)) => Ok((TypeModel::Tuple { values }, r)),
                },
                values@.len() == type_models(values@).len(),
                tuple_entries(g, ts, type_models(values@), p.pos as int) == tuple_entries(
                    g,
                    ts,
                    seq![m0],
                    q0,
                ),
            decreases p.tokens@.len() - p.pos,
        {
            let k = p.current_kind();
            if k == TokenKind::COMMA {
                p.advance();
                let name = decimal_string(values.len());
                let t = match parse_named_type(p, name.as_str()) {
                    Ok(t) => t,
                    Err(e) => return Err(e),
                };
                let ghost before = values@;
                values.push(t);
                proof {
                    assert(values@.drop_last() =~= before);
                }
            } else if k == TokenKind::CLOSE_PAREN {
                p.advance();
                return Ok(Type::TupleType { values });
            } else {
                return Err(ParseError::UnexpectedToken { found: k, pos: p.pos });
            }
        }
    }
}

/// Parses one tuple entry: `label: T`, or a bare type that gets the label `default_name`.
pub fn parse_named_type(p: &mut Parser, default_name: &str) -> (r: Result<Type, ParseError>)
    requires
        old(p).wf(),
    ensures
        final(p).wf(),
        final(p).same_input(old(p)),
        type_outcome(r, final(p).pos) == named_type(
            old(p).types.grammar(),
            old(p).toks(),
            old(p).pos as int,
            default_name@,
        ),
        r is Ok ==> old(p).pos < final(p).pos,
    decreases old(p).toks().len() - old(p).pos, 4int,
{
    let start = p.pos;
    let labeled = vec![TokenKind::ANYTHING, TokenKind::COLON];
    let two_labels = vec![TokenKind::IDENTIFIER, TokenKind::IDENTIFIER];
    proof {
        assert(labeled@ =~= seq![TokenKind::ANYTHING, TokenKind::COLON]);
        assert(two_labels@ =~= seq![TokenKind::IDENTIFIER, TokenKind::IDENTIFIER]);
    }
    if p.has_pattern(labeled.as_slice()) {
        let name = p.advance();
        p.advance();
        match parse_type(p) {
            Err(e) => Err(e),
            Ok(t) => Ok(Type::NamedType { name: name.value, explicit_type: Box::new(t) }),
        }
    } else if p.has_pattern(two_labels.as_slice()) {
        Err(ParseError::DoubleLabel { pos: start })
    } else {
        match parse_type(p) {
            Err(e) => Err(e),
            Ok(t) => {
                match t {
                    Type::SymbolType { .. } => {
                        let k = p.current_kind();
                        if k == TokenKind::COMMA || k == TokenKind::CLOSE_PAREN {
                            Ok(
                                Type::NamedType {
                                    name: default_name.to_owned(),
                                    explicit_type: Box::new(t),
                                },
                            )
                        } else {
                            Err(ParseError::UnexpectedToken { found: k, pos: p.pos })
                        }
                    },
                    _ => Ok(
                        Type::NamedType { name: default_name.to_owned(), explicit_type: Box::new(t) },
                    ),
                }
            },
        }
    }
}

} // verus!
