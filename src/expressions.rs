use vstd::prelude::*;

use crate::ast::{expr_models, Expr, ExprModel};
use crate::lexer::{all_digits, digits_value, dot_index, is_decimal_text, is_digit};
use crate::lookup::{ExprGrammar, LedHandler, NudHandler, DEFAULT_BP, UNARY};
use crate::parser::{kind_at, ParseError, Parser};
use crate::text::chars_of;
use crate::token::{TokenKind, TokenView};
use crate::types::Parsed;

verus! {

pub const I64_MAX: u128 = 9223372036854775807;

/// The literal node that number text `t` denotes: an integer when it is all digits and
/// fits `i64`, a decimal kept as text when it has a fractional part or is too large.
pub open spec fn number_node(t: Seq<char>) -> Option<ExprModel> {
    if t.len() > 0 && all_digits(t) {
        if digits_value(t) <= I64_MAX {
            Some(ExprModel::Integer { value: digits_value(t) as i64 })
        } else {
            Some(ExprModel::Float { text: t })
        }
    } else if is_decimal_text(t) {
        Some(ExprModel::Float { text: t })
    } else {
        None
    }
}

proof fn lemma_digits_step(t: Seq<char>, j: int)
    requires
        0 <= j < t.len(),
    ensures
        digits_value(t.subrange(0, j + 1)) == digits_value(t.subrange(0, j)) * 10 + (t[j] as u32
            - 0x30) as nat,
{
    assert(t.subrange(0, j + 1).drop_last() =~= t.subrange(0, j));
}

/// Reads a number literal's text as an integer or decimal node.
pub fn number_literal(text: &str) -> (r: Option<Expr>)
    ensures
        match r {
            Some(e) => number_node(text@) == Some(e@),
            None => number_node(text@) is None,
        },
{
    let t = chars_of(text);
    let n = t.len();
    let mut j: usize = 0;
    let mut digits = true;
    while j < n
        invariant
            n == t@.len(),
            j <= n,
            digits == all_digits(t@.subrange(0, j as int)),
        decreases n - j,
    {
        let u = #[verifier::truncate] (t[j] as u32);
        let d = 0x30 <= u && u <= 0x39;
        proof {
            let next = t@.subrange(0, j + 1);
            if digits && d {
                assert forall|i: int| 0 <= i < next.len() implies is_digit(#[trigger] next[i]) by {
                    if i < j {
                        assert(next[i] == t@.subrange(0, j as int)[i]);
                    }
                }
            }
            if !d {
                assert(!is_digit(next[j as int]));
            }
            if !digits {
                assert(!all_digits(next)) by {
                    let k = choose|k: int|
                        0 <= k < j && !is_digit(#[trigger] t@.subrange(0, j as int)[k]);
                    assert(next[k] == t@.subrange(0, j as int)[k]);
                }
            }
        }
        digits = digits && d;
        j += 1;
    }
    assert(t@.subrange(0, n as int) =~= t@);
    if n > 0 && digits {
        let mut v: u128 = 0;
        let mut big = false;
        let mut i: usize = 0;
        while i < n
            invariant
                n == t@.len(),
                i <= n,
                all_digits(t@),
                !big ==> v as nat == digits_value(t@.subrange(0, i as int)) && v <= I64_MAX,
                big ==> digits_value(t@.subrange(0, i as int)) > I64_MAX,
            decreases n - i,
        {
            proof {
                lemma_digits_step(t@, i as int);
                assert(is_digit(t@[i as int]));
            }
            let d = ((#[verifier::truncate] (t[i] as u32)) - 0x30) as u128;
            if !big {
                let nv = v * 10 + d;
                if nv > I64_MAX {
                    big = true;
                } else {
                    v = nv;
                }
            } else {
                proof {
                    let pv = digits_value(t@.subrange(0, i as int));
                    assert(pv * 10 >= pv) by (nonlinear_arith)
                        requires
                            pv >= 0,
                    ;
                }
            }
            i += 1;
        }
        assert(t@.subrange(0, n as int) =~= t@);
        if big {
            Some(Expr::FloatExpr { value: text.to_owned() })
        } else {
            Some(Expr::IntegerExpr { value: v as i64 })
        }
    } else {
        let mut k: usize = 0;
        while k < n && t[k] != '.'
            invariant
                n == t@.len(),
                k <= n,
                dot_index(t@, 0) == dot_index(t@, k as int),
            decreases n - k,
        {
            k += 1;
        }
        if k == 0 || k >= n - 1 {
            return None;
        }
        let mut ok = true;
        let mut i: usize = 0;
        while i < n
            invariant
                n == t@.len(),
                0 < k < n - 1,
                i <= n,
                ok == forall|m: int| 0 <= m < i && m != k ==> is_digit(#[trigger] t@[m]),
            decreases n - i,
        {
            let u = #[verifier::truncate] (t[i] as u32);
            if i != k && !(0x30 <= u && u <= 0x39) {
                ok = false;
            }
            i += 1;
        }
        proof {
            let a = t@.subrange(0, k as int);
            let b = t@.subrange(k + 1, n as int);
            if ok {
                assert forall|m: int| 0 <= m < a.len() implies is_digit(#[trigger] a[m]) by {
                    assert(a[m] == t@[m]);
                }
                assert forall|m: int| 0 <= m < b.len() implies is_digit(#[trigger] b[m]) by {
                    assert(b[m] == t@[k + 1 + m]);
                }
            } else {
                let m = choose|m: int| 0 <= m < n && m != k && !is_digit(#[trigger] t@[m]);
                if m < k {
                    assert(a[m] == t@[m]);
                } else {
                    assert(b[m - k - 1] == t@[m]);
                }
            }
        }
        if ok {
            Some(Expr::FloatExpr { value: text.to_owned() })
        } else {
            None
        }
    }
}

/// The expression that starts at `pos`: a prefix form, then infix continuations while the
/// current token binds tighter than `min`.
pub open spec fn expr_at(g: ExprGrammar, ts: Seq<TokenView>, pos: int, min: u8) -> Parsed<ExprModel>
    decreases ts.len() - pos, 2int,
{
    if pos < 0 || pos >= ts.len() {
        Err(ParseError::Stalled { pos: pos as usize })
    } else {
        match (g.nud)(ts[pos].kind) {
            None => Err(ParseError::MissingPrefix { kind: ts[pos].kind, pos: pos as usize }),
            Some(h) => match expr_nud(g, ts, pos, h) {
                Err(e) => Err(e),
                Ok((left, q)) => if q <= pos || q > ts.len() {
                    Err(ParseError::Stalled { pos: pos as usize })
                } else {
                    expr_tail(g, ts, left, q, min)
                },
            },
        }
    }
}

/// Infix continuations of `left` from `q` on.
pub open spec fn expr_tail(g: ExprGrammar, ts: Seq<TokenView>, left: ExprModel, q: int, min: u8) -> Parsed<
    ExprModel,
>
    decreases ts.len() - q, 3int,
{
    let k = kind_at(ts, q);
    if k != TokenKind::EOF && (g.bp)(k) is Some && (g.bp)(k)->0 > min {
        match (g.led)(k) {
            None => Err(ParseError::MissingInfix { kind: k, pos: q as usize }),
            Some(LedHandler::Binary) => match expr_at(g, ts, q + 1, (g.bp)(k)->0) {
                Err(e) => Err(e),
                Ok((right, r)) => if r <= q || r > ts.len() {
                    Err(ParseError::Stalled { pos: q as usize })
                } else {
                    expr_tail(
                        g,
                        ts,
                        ExprModel::Binary {
                            left: Box::new(left),
                            operator: ts[q],
                            right: Box::new(right),
                        },
                        r,
                        min,
                    )
                },
            },
        }
    } else {
        Ok((left, q))
    }
}

/// Further array elements after `acc`, up to and including the closing `]`.
pub open spec fn array_items(g: ExprGrammar, ts: Seq<TokenView>, acc: Seq<ExprModel>, q: int) -> Parsed<
    Seq<ExprModel>,
>
    decreases ts.len() - q, 0int,
{
    if q < 0 || q >= ts.len() {
        Err(ParseError::Stalled { pos: q as usize })
    } else if kind_at(ts, q) == TokenKind::COMMA {
        match expr_at(g, ts, q + 1, DEFAULT_BP) {
            Err(e) => Err(e),
            Ok((e, r)) => if r <= q || r > ts.len() {
                Err(ParseError::Stalled { pos: q as usize })
            } else {
                array_items(g, ts, acc.push(e), r)
            },
        }
    } else if kind_at(ts, q) == TokenKind::CLOSE_BRACKET {
        Ok((acc, q + 1))
    } else {
        Err(
            ParseError::Expected {
                expected: TokenKind::CLOSE_BRACKET,
                found: kind_at(ts, q),
                pos: q as usize,
            },
        )
    }
}

/// What prefix handler `h` parses at `pos`.
pub open spec fn expr_nud(g: ExprGrammar, ts: Seq<TokenView>, pos: int, h: NudHandler) -> Parsed<
    ExprModel,
>
    decreases ts.len() - pos, 1int,
{
    if pos < 0 || pos >= ts.len() {
        Err(ParseError::Stalled { pos: pos as usize })
    } else {
        let t = ts[pos];
        match h {
            NudHandler::Primary => if t.kind == TokenKind::NUMBER {
                match number_node(t.value) {
                    Some(e) => Ok((e, pos + 1)),
                    None => Err(ParseError::MalformedNumber { pos: pos as usize }),
                }
            } else if t.kind == TokenKind::STRING {
                Ok((ExprModel::Str { value: t.value }, pos + 1))
            } else if t.kind == TokenKind::IDENTIFIER {
                Ok((ExprModel::Symbol { value: t.value }, pos + 1))
            } else {
                Err(ParseError::UnexpectedToken { found: t.kind, pos: pos as usize })
            },
            NudHandler::Prefix => match expr_at(g, ts, pos + 1, UNARY) {
                Err(e) => Err(e),
                Ok((right, q)) => Ok((ExprModel::Prefix { operator: t, right: Box::new(right) }, q)),
            },
            NudHandler::Group => if t.kind != TokenKind::OPEN_PAREN {
                Err(
                    ParseError::Expected {
                        expected: TokenKind::OPEN_PAREN,
                        found: t.kind,
                        pos: pos as usize,
                    },
                )
            } else {
                match expr_at(g, ts, pos + 1, DEFAULT_BP) {
                    Err(e) => Err(e),
                    Ok((e, q)) => if kind_at(ts, q) == TokenKind::CLOSE_PAREN {
                        Ok((e, q + 1))
                    } else {
                        Err(
                            ParseError::Expected {
                                expected: TokenKind::CLOSE_PAREN,
                                found: kind_at(ts, q),
                                pos: q as usize,
                            },
                        )
                    },
                }
            },
            NudHandler::ArrayLiteral => if t.kind != TokenKind::OPEN_BRACKET {
                Err(
                    ParseError::Expected {
                        expected: TokenKind::OPEN_BRACKET,
                        found: t.kind,
                        pos: pos as usize,
                    },
                )
            } else if kind_at(ts, pos + 1) == TokenKind::CLOSE_BRACKET {
                Ok((ExprModel::Array { contents: seq![] }, pos + 2))
            } else {
                match expr_at(g, ts, pos + 1, DEFAULT_BP) {
                    Err(e) => Err(e),
                    Ok((first, q)) => if q <= pos || q > ts.len() {
                        Err(ParseError::Stalled { pos: pos as usize })
                    } else {
                        match array_items(g, ts, seq![first], q) {
                            Err(e) => Err(e),
                            Ok((items, r)) => Ok((ExprModel::Array { contents: items }, r)),
                        }
                    },
                }
            },
        }
    }
}

/// An exec parse outcome in the form of `Parsed`.
pub open spec fn expr_outcome(r: Result<Expr, ParseError>, q: usize) -> Parsed<ExprModel> {
    match r {
        Ok(e) => Ok((e@, q as int)),
        Err(e) => Err(e),
    }
}

/// Parses the expression at the current token, continuing with infix operators
/// that bind tighter than `starting_bp`.
pub fn parse_expr(p: &mut Parser, starting_bp: u8) -> (r: Result<Expr, ParseError>)
    requires
        old(p).wf(),
    ensures
        final(p).wf(),
        final(p).same_input(old(p)),
        expr_outcome(r, final(p).pos) == expr_at(
            old(p).lookups.grammar(),
            old(p).toks(),
            old(p).pos as int,
            starting_bp,
        ),
        r is Ok ==> old(p).pos < final(p).pos,
    decreases old(p).tokens@.len() - old(p).pos, 3int,
{
    let ghost g = p.lookups.grammar();
    let ghost ts = p.toks();
    let start = p.pos;
    let kind = p.current_kind();
    let h = match p.lookups.nud(kind) {
        None => return Err(ParseError::MissingPrefix { kind, pos: start }),
        Some(h) => h,
    };
    let mut left = match parse_expr_nud(p, h) {
        Ok(e) => e,
        Err(e) => return Err(e),
    };
    let ghost whole = expr_at(g, ts, start as int, starting_bp);
    assert(whole == expr_tail(g, ts, left@, p.pos as int, starting_bp));
    loop
        invariant
            p.wf(),
            p.same_input(old(p)),
            g == p.lookups.grammar(),
            ts == p.toks(),
            start == old(p).pos,
            start < p.pos,
            whole == expr_at(g, ts, start as int, starting_bp),
            whole == expr_tail(g, ts, left@, p.pos as int, starting_bp),
        decreases p.tokens@.len() - p.pos,
    {
        let k = p.current_kind();
        if k == TokenKind::EOF {
            return Ok(left);
        }
        let b = match p.lookups.bp(k) {
            None => return Ok(left),
            Some(b) => b,
        };
        if b <= starting_bp {
            return Ok(left);
        }
        match p.lookups.led(k) {
            None => return Err(ParseError::MissingInfix { kind: k, pos: p.pos }),
            Some(LedHandler::Binary) => {
                let operator = p.advance();
                let right = match parse_expr(p, b) {
                    Ok(e) => e,
                    Err(e) => return Err(e),
                };
                left = Expr::BinaryExpr { left: Box::new(left), operator, right: Box::new(right) };
            },
        }
    }
}

fn parse_expr_nud(p: &mut Parser, h: NudHandler) -> (r: Result<Expr, ParseError>)
    requires
        old(p).wf(),
        old(p).kind() != TokenKind::EOF,
    ensures
        final(p).wf(),
        final(p).same_input(old(p)),
        expr_outcome(r, final(p).pos) == expr_nud(
            old(p).lookups.grammar(),
            old(p).toks(),
            old(p).pos as int,
            h,
        ),
        r is Ok ==> old(p).pos < final(p).pos,
    decreases old(p).tokens@.len() - old(p).pos, 2int,
{
    match h {
        NudHandler::Primary => parse_primary_expr(p),
        NudHandler::Prefix => parse_prefix_expr(p),
        NudHandler::Group => parse_group_expr(p),
        NudHandler::ArrayLiteral => parse_bracket_expr(p),
    }
}

/// A number, string or identifier literal.
pub fn parse_primary_expr(p: &mut Parser) -> (r: Result<Expr, ParseError>)
    requires
        old(p).wf(),
        old(p).kind() != TokenKind::EOF,
    ensures
        final(p).wf(),
        final(p).same_input(old(p)),
        expr_outcome(r, final(p).pos) == expr_nud(
            old(p).lookups.grammar(),
            old(p).toks(),
            old(p).pos as int,
            NudHandler::Primary,
        ),
        r is Ok ==> old(p).pos < final(p).pos,
{
    let start = p.pos;
    let kind = p.current_kind();
    if kind == TokenKind::NUMBER {
        let token = p.advance();
        match number_literal(token.value.as_str()) {
            Some(e) => Ok(e),
            None => Err(ParseError::MalformedNumber { pos: start }),
        }
    } else if kind == TokenKind::STRING {
        let token = p.advance();
        Ok(Expr::StringExpr { value: token.value })
    } else if kind == TokenKind::IDENTIFIER {
        let token = p.advance();
        Ok(Expr::SymbolExpr { value: token.value })
    } else {
        Err(ParseError::UnexpectedToken { found: kind, pos: start })
    }
}

/// An operator applied to the operand that follows it, which binds at the unary level.
pub fn parse_prefix_expr(p: &mut Parser) -> (r: Result<Expr, ParseError>)
    requires
        old(p).wf(),
        old(p).kind() != TokenKind::EOF,
    ensures
        final(p).wf(),
        final(p).same_input(old(p)),
        expr_outcome(r, final(p).pos) == expr_nud(
            old(p).lookups.grammar(),
            old(p).toks(),
            old(p).pos as int,
            NudHandler::Prefix,
        ),
        r is Ok ==> old(p).pos < final(p).pos,
    decreases old(p).tokens@.len() - old(p).pos, 1int,
{
    let operator = p.advance();
    match parse_expr(p, UNARY) {
        Err(e) => Err(e),
        Ok(right) => Ok(Expr::PrefixExpr { operator, right: Box::new(right) }),
    }
}

/// A parenthesized expression; the parentheses leave no node of their own.
pub fn parse_group_expr(p: &mut Parser) -> (r: Result<Expr, ParseError>)
    requires
        old(p).wf(),
        old(p).kind() != TokenKind::EOF,
    ensures
        final(p).wf(),
        final(p).same_input(old(p)),
        expr_outcome(r, final(p).pos) == expr_nud(
            old(p).lookups.grammar(),
            old(p).toks(),
            old(p).pos as int,
            NudHandler::Group,
        ),
        r is Ok ==> old(p).pos < final(p).pos,
    decreases old(p).tokens@.len() - old(p).pos, 1int,
{
    if let Err(e) = p.expect(TokenKind::OPEN_PAREN) {
        return Err(e);
    }
    let inner = match parse_expr(p, DEFAULT_BP) {
        Ok(e) => e,
        Err(e) => return Err(e),
    };
    match p.expect(TokenKind::CLOSE_PAREN) {
        Err(e) => Err(e),
        Ok(_) => Ok(inner),
    }
}

/// A bracketed, comma-separated array literal.
pub fn parse_bracket_expr(p: &mut Parser) -> (r: Result<Expr, ParseError>)
    requires
        old(p).wf(),
        old(p).kind() != TokenKind::EOF,
    ensures
        final(p).wf(),
        final(p).same_input(old(p)),
        expr_outcome(r, final(p).pos) == expr_nud(
            old(p).lookups.grammar(),
            old(p).toks(),
            old(p).pos as int,
            NudHandler::ArrayLiteral,
        ),
        r is Ok ==> old(p).pos < final(p).pos,
    decreases old(p).tokens@.len() - old(p).pos, 1int,
{
    let ghost g = p.lookups.grammar();
    let ghost ts = p.toks();
    let start = p.pos;
    if let Err(e) = p.expect(TokenKind::OPEN_BRACKET) {
        return Err(e);
    }
    if p.current_kind() == TokenKind::CLOSE_BRACKET {
        p.advance();
        let empty: Vec<Expr> = Vec::new();
        proof {
            assert(expr_models(empty@) =~= Seq::<ExprModel>::empty());
        }
        return Ok(Expr::ArrayLiteralExpr { contents: empty });
    }
    let first = match parse_expr(p, DEFAULT_BP) {
        Ok(e) => e,
        Err(e) => return Err(e),
    };
    let ghost q0 = p.pos as int;
    let ghost m0 = first@;
    let mut items: Vec<Expr> = Vec::new();
    items.push(first);
    proof {
        assert(items@.drop_last() =~= Seq::<Expr>::empty());
        assert(expr_models(Seq::<Expr>::empty()) =~= Seq::<ExprModel>::empty());
        assert(expr_models(items@) =~= seq![m0]);
    }
    let ghost whole = expr_nud(g, ts, start as int, NudHandler::ArrayLiteral);
    assert(whole == match array_items(g, ts, seq![m0], q0) {
        Err(e) => Err(e),
        Ok((items, r)) => Ok((ExprModel::Array { contents: items }, r)),
    });
    loop
        invariant
            p.wf(),
            p.same_input(old(p)),
            g == p.lookups.grammar(),
            ts == p.toks(),
            start == old(p).pos,
            start < p.pos,
            whole == expr_nud(g, ts, start as int, NudHandler::ArrayLiteral),
            whole == match array_items(g, ts, seq![m0], q0) {
                Err(e) => Err(e),
                Ok((items, r)) => Ok((ExprModel::Array { contents: items }, r)),
            },
            array_items(g, ts, expr_models(items@), p.pos as int) == array_items(
                g,
                ts,
                seq![m0],
                q0,
            ),
        decreases p.tokens@.len() - p.pos,
    {
        let k = p.current_kind();
        if k == TokenKind::COMMA {
            p.advance();
            let e = match parse_expr(p, DEFAULT_BP) {
                Ok(e) => e,
                Err(e) => return Err(e),
            };
            let ghost before = items@;
            items.push(e);
            proof {
                assert(items@.drop_last() =~= before);
            }
        } else if k == TokenKind::CLOSE_BRACKET {
            p.advance();
            return Ok(Expr::ArrayLiteralExpr { contents: items });
        } else {
            return Err(
                ParseError::Expected { expected: TokenKind::CLOSE_BRACKET, found: k, pos: p.pos },
            );
        }
    }
}

} // verus!
