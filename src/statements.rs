use vstd::prelude::*;

use crate::ast::{stmt_models, string_views, Expr, ExprModel, Stmt, StmtModel, Type, TypeModel};
use crate::expressions::{expr_at, parse_expr};
use crate::expressions::{expr_nud, expr_tail};
use crate::lookup::{
    expr_bp, expr_led, is_modifier, is_modifier_kind, register_lookups, register_types_lookup,
    standard_grammar, standard_type_grammar, ExprGrammar, Lookups, NudHandler, StmtHandler,
    TypeGrammar, TypeLookups, ASSIGNMENT, DEFAULT_BP,
};
use crate::parser::{ends_with_eof, kind_at, ParseError, Parser};
use crate::token::{views, Token, TokenKind, TokenView};
use crate::types::{parse_type, type_expr, Parsed};

verus! {

/// Position after an optional `;` at `q`.
pub open spec fn skip_semi(ts: Seq<TokenView>, q: int) -> int {
    if kind_at(ts, q) == TokenKind::SEMI_COLON {
        q + 1
    } else {
        q
    }
}

/// End of the run of modifier tokens that starts at `i`.
pub open spec fn modifier_end(ts: Seq<TokenView>, i: int) -> int
    decreases ts.len() - i,
{
    if 0 <= i < ts.len() && is_modifier_kind(ts[i].kind) {
        modifier_end(ts, i + 1)
    } else {
        i
    }
}

/// Texts of the tokens `ts[lo..hi]`.
pub open spec fn texts(ts: Seq<TokenView>, lo: int, hi: int) -> Seq<Seq<char>> {
    ts.subrange(lo, hi).map_values(|t: TokenView| t.value)
}

/// A declaration gets `mods` after its own modifiers; any other statement is unchanged.
pub open spec fn with_modifiers(s: StmtModel, mods: Seq<Seq<char>>) -> StmtModel {
    match s {
        StmtModel::VarDeclaration {
            modifiers,
            identifier,
            constant,
            assigned_value,
            explicit_type,
        } => StmtModel::VarDeclaration {
            modifiers: modifiers + mods,
            identifier,
            constant,
            assigned_value,
            explicit_type,
        },
        _ => s,
    }
}

/// The declared type: the annotation if there is one, else the type the initializer's
/// literal kind implies, else unresolved.
pub open spec fn resolved_type(annotation: TypeModel, init: ExprModel) -> TypeModel {
    match annotation {
        TypeModel::Unknown => match init {
            ExprModel::Float { .. } => TypeModel::Symbol { modifier: None, value: "Double"@ },
            ExprModel::Integer { .. } => TypeModel::Symbol { modifier: None, value: "Int"@ },
            ExprModel::Str { .. } => TypeModel::Symbol { modifier: None, value: "String"@ },
            ExprModel::Symbol { value } => TypeModel::Symbol { modifier: None, value },
            _ => TypeModel::Unknown,
        },
        _ => annotation,
    }
}

/// The statement at `pos`: through its registered statement handler, else an expression;
/// either way followed by an optional `;`.
pub open spec fn stmt_at(g: ExprGrammar, tg: TypeGrammar, ts: Seq<TokenView>, pos: int) -> Parsed<
    StmtModel,
>
    decreases ts.len() - pos, 3int,
{
    if pos < 0 || pos >= ts.len() {
        Err(ParseError::Stalled { pos: pos as usize })
    } else {
        match (g.stmt)(ts[pos].kind) {
            Some(h) => match stmt_handler_at(g, tg, ts, pos, h) {
                Err(e) => Err(e),
                Ok((s, q)) => Ok((s, skip_semi(ts, q))),
            },
            None => match expr_at(g, ts, pos, DEFAULT_BP) {
                Err(e) => Err(e),
                Ok((e, q)) => Ok((StmtModel::Expression { expression: e }, skip_semi(ts, q))),
            },
        }
    }
}

/// What statement handler `h` parses at `pos`.
pub open spec fn stmt_handler_at(
    g: ExprGrammar,
    tg: TypeGrammar,
    ts: Seq<TokenView>,
    pos: int,
    h: StmtHandler,
) -> Parsed<StmtModel>
    decreases ts.len() - pos, 2int,
{
    if pos < 0 || pos >= ts.len() {
        Err(ParseError::Stalled { pos: pos as usize })
    } else {
        match h {
            StmtHandler::VarDecl => var_decl_at(g, tg, ts, pos),
            StmtHandler::Modifiers => {
                let q = modifier_end(ts, pos);
                if q <= pos || q > ts.len() {
                    Err(ParseError::UnexpectedToken { found: ts[pos].kind, pos: pos as usize })
                } else {
                    match stmt_at(g, tg, ts, q) {
                        Err(e) => Err(e),
                        Ok((s, r)) => Ok((with_modifiers(s, texts(ts, pos, q)), r)),
                    }
                }
            },
        }
    }
}

/// `var`/`let`, a name, an optional `: T` and an optional `= e`.
pub open spec fn var_decl_at(g: ExprGrammar, tg: TypeGrammar, ts: Seq<TokenView>, pos: int) -> Parsed<
    StmtModel,
>
    decreases ts.len() - pos, 1int,
{
    if pos < 0 || pos >= ts.len() {
        Err(ParseError::Stalled { pos: pos as usize })
    } else if kind_at(ts, pos + 1) != TokenKind::IDENTIFIER {
        Err(
            ParseError::Expected {
                expected: TokenKind::IDENTIFIER,
                found: kind_at(ts, pos + 1),
                pos: (pos + 1) as usize,
            },
        )
    } else {
        let constant = ts[pos].kind == TokenKind::LET;
        let name = ts[pos + 1].value;
        let annotated = if kind_at(ts, pos + 2) == TokenKind::COLON {
            type_expr(tg, ts, pos + 3)
        } else {
            Ok((TypeModel::Unknown, pos + 2))
        };
        match annotated {
            Err(e) => Err(e),
            Ok((ty, q)) => if q < pos + 2 || q > ts.len() {
                Err(ParseError::Stalled { pos: pos as usize })
            } else {
                let init = if kind_at(ts, q) == TokenKind::ASSIGNMENT {
                    expr_at(g, ts, q + 1, ASSIGNMENT)
                } else {
                    Ok((ExprModel::Empty, q))
                };
                match init {
                    Err(e) => Err(e),
                    Ok((e, r)) => Ok(
                        (
                            StmtModel::VarDeclaration {
                                modifiers: seq![],
                                identifier: name,
                                constant,
                                assigned_value: e,
                                explicit_type: resolved_type(ty, e),
                            },
                            r,
                        ),
                    ),
                }
            },
        }
    }
}

/// Statements from `pos` to the end of input, after `acc`, as one block.
pub open spec fn program_from(
    g: ExprGrammar,
    tg: TypeGrammar,
    ts: Seq<TokenView>,
    pos: int,
    acc: Seq<StmtModel>,
) -> Result<StmtModel, ParseError>
    decreases ts.len() - pos,
{
    if pos < 0 || pos >= ts.len() || ts[pos].kind == TokenKind::EOF {
        Ok(StmtModel::Block { body: acc })
    } else {
        match stmt_at(g, tg, ts, pos) {
            Err(e) => Err(e),
            Ok((s, q)) => if q <= pos || q > ts.len() {
                Err(ParseError::Stalled { pos: pos as usize })
            } else {
                program_from(g, tg, ts, q, acc.push(s))
            },
        }
    }
}

/// The whole token sequence as one block of statements.
pub open spec fn program(g: ExprGrammar, tg: TypeGrammar, ts: Seq<TokenView>) -> Result<
    StmtModel,
    ParseError,
> {
    program_from(g, tg, ts, 0, seq![])
}

/// An exec parse outcome in the form of `Parsed`.
pub open spec fn stmt_outcome(r: Result<Stmt, ParseError>, q: usize) -> Parsed<StmtModel> {
    match r {
        Ok(s) => Ok((s@, q as int)),
        Err(e) => Err(e),
    }
}

fn skip_terminator(p: &mut Parser)
    requires
        old(p).wf(),
    ensures
        final(p).wf(),
        final(p).same_input(old(p)),
        final(p).pos == skip_semi(old(p).toks(), old(p).pos as int),
{
    if p.current_kind() == TokenKind::SEMI_COLON {
        p.advance();
    }
}

/// Parses one statement, with its optional terminating `;`.
pub fn parse_stmt(p: &mut Parser) -> (r: Result<Stmt, ParseError>)
    requires
        old(p).wf(),
    ensures
        final(p).wf(),
        final(p).same_input(old(p)),
        stmt_outcome(r, final(p).pos) == stmt_at(
            old(p).lookups.grammar(),
            old(p).types.grammar(),
            old(p).toks(),
            old(p).pos as int,
        ),
        r is Ok ==> old(p).pos < final(p).pos,
    decreases old(p).tokens@.len() - old(p).pos, 4int,
{
    let kind = p.current_kind();
    match p.lookups.stmt(kind) {
        Some(h) => {
            let s = match h {
                StmtHandler::VarDecl => parse_var_decl_stmt(p),
                StmtHandler::Modifiers => parse_prefix_stmt(p),
            };
            match s {
                Err(e) => Err(e),
                Ok(s) => {
                    skip_terminator(p);
                    Ok(s)
                },
            }
        },
        None => parse_expr_stmt(p),
    }
}

fn parse_expr_stmt(p: &mut Parser) -> (r: Result<Stmt, ParseError>)
    requires
        old(p).wf(),
        old(p).lookups.stmt_of(old(p).kind()) is None,
    ensures
        final(p).wf(),
        final(p).same_input(old(p)),
        stmt_outcome(r, final(p).pos) == stmt_at(
            old(p).lookups.grammar(),
            old(p).types.grammar(),
            old(p).toks(),
            old(p).pos as int,
        ),
        r is Ok ==> old(p).pos < final(p).pos,
{
    match parse_expr(p, DEFAULT_BP) {
        Err(e) => Err(e),
        Ok(expression) => {
            skip_terminator(p);
            Ok(Stmt::ExpressionStmt { expression: Box::new(expression) })
        },
    }
}

/// Parses a `var` or `let` declaration at the current token.
pub fn parse_var_decl_stmt(p: &mut Parser) -> (r: Result<Stmt, ParseError>)
    requires
        old(p).wf(),
        old(p).kind() != TokenKind::EOF,
    ensures
        final(p).wf(),
        final(p).same_input(old(p)),
        stmt_outcome(r, final(p).pos) == var_decl_at(
            old(p).lookups.grammar(),
            old(p).types.grammar(),
            old(p).toks(),
            old(p).pos as int,
        ),
        r is Ok ==> old(p).pos < final(p).pos,
    decreases old(p).tokens@.len() - old(p).pos, 2int,
{
    let start = p.advance();
    let constant = start.kind == TokenKind::LET;
    let name = match p.expect(TokenKind::IDENTIFIER) {
        Ok(t) => t,
        Err(e) => return Err(e),
    };
    let explicit_type = if p.current_kind() == TokenKind::COLON {
        p.advance();
        match parse_type(p) {
            Ok(t) => t,
            Err(e) => return Err(e),
        }
    } else {
        Type::Unknown
    };
    let assigned_value = if p.current_kind() == TokenKind::ASSIGNMENT {
        p.advance();
        match parse_expr(p, ASSIGNMENT) {
            Ok(e) => e,
            Err(e) => return Err(e),
        }
    } else {
        Expr::Empty
    };
    let explicit_type = match explicit_type {
        Type::Unknown => match &assigned_value {
            Expr::FloatExpr { .. } => Type::SymbolType {
                modifier: None,
                value: String::from_str("Double"),
            },
            Expr::IntegerExpr { .. } => Type::SymbolType {
                modifier: None,
                value: String::from_str("Int"),
            },
            Expr::StringExpr { .. } => Type::SymbolType {
                modifier: None,
                value: String::from_str("String"),
            },
            Expr::SymbolExpr { value } => Type::SymbolType { modifier: None, value: value.clone() },
            _ => Type::Unknown,
        },
        other => other,
    };
    let modifiers: Vec<String> = Vec::new();
    proof {
        assert(string_views(modifiers@) =~= Seq::<Seq<char>>::empty());
    }
    Ok(
        Stmt::VarDeclarationStmt {
            modifiers,
            identifier: name.value,
            constant,
            assigned_value: Box::new(assigned_value),
            explicit_type: Box::new(explicit_type),
        },
    )
}

/// Collects the leading modifiers, parses the statement they prefix, and attaches them
/// to it when it is a declaration.
pub fn parse_prefix_stmt(p: &mut Parser) -> (r: Result<Stmt, ParseError>)
    requires
        old(p).wf(),
    ensures
        final(p).wf(),
        final(p).same_input(old(p)),
        stmt_outcome(r, final(p).pos) == stmt_handler_at(
            old(p).lookups.grammar(),
            old(p).types.grammar(),
            old(p).toks(),
            old(p).pos as int,
            StmtHandler::Modifiers,
        ),
        r is Ok ==> old(p).pos < final(p).pos,
    decreases old(p).tokens@.len() - old(p).pos, 2int,
{
    let ghost ts = p.toks();
    let start = p.pos;
    let mut modifiers: Vec<String> = Vec::new();
    while p.has_tokens() && is_modifier(&p.current_kind())
        invariant
            p.wf(),
            p.same_input(old(p)),
            ts == p.toks(),
            start == old(p).pos,
            start <= p.pos,
            modifier_end(ts, start as int) == modifier_end(ts, p.pos as int),
            string_views(modifiers@) == texts(ts, start as int, p.pos as int),
        decreases p.tokens@.len() - p.pos,
    {
        let ghost before = modifiers@;
        let ghost q = p.pos as int;
        let t = p.advance();
        modifiers.push(t.value);
        proof {
            assert(p.pos == q + 1);
            assert(texts(ts, start as int, q + 1) =~= texts(ts, start as int, q).push(ts[q].value));
            assert(string_views(modifiers@) =~= string_views(before).push(t.value@));
        }
    }
    if p.pos == start {
        return Err(ParseError::UnexpectedToken { found: p.current_kind(), pos: start });
    }
    match parse_stmt(p) {
        Err(e) => Err(e),
        Ok(Stmt::VarDeclarationStmt {
            modifiers: mut existing,
            identifier,
            constant,
            assigned_value,
            explicit_type,
        }) => {
            let ghost old_existing = existing@;
            existing.append(&mut modifiers);
            proof {
                assert(string_views(existing@) =~= string_views(old_existing) + texts(
                    ts,
                    start as int,
                    modifier_end(ts, start as int),
                ));
            }
            Ok(
                Stmt::VarDeclarationStmt {
                    modifiers: existing,
                    identifier,
                    constant,
                    assigned_value,
                    explicit_type,
                },
            )
        },
        Ok(s) => Ok(s),
    }
}

/// Parses statements up to the end of input, as one block.
pub fn parse_program(p: &mut Parser) -> (r: Result<Stmt, ParseError>)
    requires
        old(p).wf(),
    ensures
        final(p).wf(),
        final(p).same_input(old(p)),
        match r {
            Ok(s) => program_from(
                old(p).lookups.grammar(),
                old(p).types.grammar(),
                old(p).toks(),
                old(p).pos as int,
                seq![],
            ) == Ok::<StmtModel, ParseError>(s@),
            Err(e) => program_from(
                old(p).lookups.grammar(),
                old(p).types.grammar(),
                old(p).toks(),
                old(p).pos as int,
                seq![],
            ) == Err::<StmtModel, ParseError>(e),
        },
{
    let ghost g = p.lookups.grammar();
    let ghost tg = p.types.grammar();
    let ghost ts = p.toks();
    let ghost start = p.pos as int;
    let mut body: Vec<Stmt> = Vec::new();
    proof {
        assert(stmt_models(body@) =~= Seq::<StmtModel>::empty());
    }
    while p.has_tokens()
        invariant
            p.wf(),
            p.same_input(old(p)),
            g == p.lookups.grammar(),
            tg == p.types.grammar(),
            ts == p.toks(),
            start == old(p).pos,
            program_from(g, tg, ts, start, seq![]) == program_from(
                g,
                tg,
                ts,
                p.pos as int,
                stmt_models(body@),
            ),
        decreases p.tokens@.len() - p.pos,
    {
        let s = match parse_stmt(p) {
            Ok(s) => s,
            Err(e) => return Err(e),
        };
        let ghost before = body@;
        body.push(s);
        proof {
            assert(body@.drop_last() =~= before);
        }
    }
    Ok(Stmt::BlockStmt { body })
}

/// Parses a whole token sequence with the given registries.
pub fn parse_with(tokens: Vec<Token>, lookups: &Lookups, types: &TypeLookups) -> (r: Result<
    Stmt,
    ParseError,
>)
    requires
        ends_with_eof(tokens@),
        lookups.wf(),
        types.wf(),
    ensures
        match r {
            Ok(s) => program(lookups.grammar(), types.grammar(), views(tokens@)) == Ok::<
                StmtModel,
                ParseError,
            >(s@),
            Err(e) => program(lookups.grammar(), types.grammar(), views(tokens@)) == Err::<
                StmtModel,
                ParseError,
            >(e),
        },
{
    let mut p = Parser::new(tokens, lookups, types);
    parse_program(&mut p)
}

/// Parses a whole token sequence with the standard registries.
pub fn parse(tokens: Vec<Token>) -> (r: Result<Stmt, ParseError>)
    requires
        ends_with_eof(tokens@),
    ensures
        match r {
            Ok(s) => program(standard_grammar(), standard_type_grammar(), views(tokens@))
                == Ok::<StmtModel, ParseError>(s@),
            Err(e) => program(standard_grammar(), standard_type_grammar(), views(tokens@))
                == Err::<StmtModel, ParseError>(e),
        },
{
    let lookups = register_lookups();
    let types = register_types_lookup();
    proof {
        lookups.lemma_standard();
        types.lemma_standard();
    }
    parse_with(tokens, &lookups, &types)
}

/// Binding powers decide grouping: for registered infix operators `a` and `b` where `a`
/// binds tighter, the source `x a y b z` parses as `(x a y) b z`.
pub proof fn lemma_tighter_operator_groups_first(
    x: TokenView,
    a: TokenView,
    y: TokenView,
    b: TokenView,
    z: TokenView,
    end: TokenView,
)
    requires
        x.kind == TokenKind::IDENTIFIER,
        y.kind == TokenKind::IDENTIFIER,
        z.kind == TokenKind::IDENTIFIER,
        end.kind == TokenKind::EOF,
        expr_led(a.kind) is Some,
        expr_led(b.kind) is Some,
        expr_bp(a.kind)->0 > expr_bp(b.kind)->0,
    ensures
        program(standard_grammar(), standard_type_grammar(), seq![x, a, y, b, z, end]) == Ok::<
            StmtModel,
            ParseError,
        >(
            StmtModel::Block {
                body: seq![
                    StmtModel::Expression {
                        expression: ExprModel::Binary {
                            left: Box::new(
                                ExprModel::Binary {
                                    left: Box::new(ExprModel::Symbol { value: x.value }),
                                    operator: a,
                                    right: Box::new(ExprModel::Symbol { value: y.value }),
                                },
                            ),
                            operator: b,
                            right: Box::new(ExprModel::Symbol { value: z.value }),
                        },
                    },
                ],
            },
        ),
{
    let g = standard_grammar();
    let tg = standard_type_grammar();
    let ts = seq![x, a, y, b, z, end];
    let sx = ExprModel::Symbol { value: x.value };
    let sy = ExprModel::Symbol { value: y.value };
    let sz = ExprModel::Symbol { value: z.value };
    let ba = expr_bp(a.kind)->0;
    let bb = expr_bp(b.kind)->0;
    let xy = ExprModel::Binary { left: Box::new(sx), operator: a, right: Box::new(sy) };
    let all = ExprModel::Binary { left: Box::new(xy), operator: b, right: Box::new(sz) };
    assert(ts[0] == x && ts[1] == a && ts[2] == y && ts[3] == b && ts[4] == z && ts[5] == end);
    assert(expr_tail(g, ts, sz, 5, bb) == Ok::<(ExprModel, int), ParseError>((sz, 5)));
    assert(expr_nud(g, ts, 4, NudHandler::Primary) == Ok::<(ExprModel, int), ParseError>((sz, 5)));
    assert(expr_at(g, ts, 4, bb) == Ok::<(ExprModel, int), ParseError>((sz, 5)));
    assert(expr_tail(g, ts, sy, 3, ba) == Ok::<(ExprModel, int), ParseError>((sy, 3)));
    assert(expr_nud(g, ts, 2, NudHandler::Primary) == Ok::<(ExprModel, int), ParseError>((sy, 3)));
    assert(expr_at(g, ts, 2, ba) == Ok::<(ExprModel, int), ParseError>((sy, 3)));
    assert(expr_tail(g, ts, all, 5, 0) == Ok::<(ExprModel, int), ParseError>((all, 5)));
    assert(expr_tail(g, ts, xy, 3, 0) == Ok::<(ExprModel, int), ParseError>((all, 5)));
    assert(expr_tail(g, ts, sx, 1, 0) == Ok::<(ExprModel, int), ParseError>((all, 5)));
    assert(expr_nud(g, ts, 0, NudHandler::Primary) == Ok::<(ExprModel, int), ParseError>((sx, 1)));
    assert(expr_at(g, ts, 0, 0) == Ok::<(ExprModel, int), ParseError>((all, 5)));
    let st = StmtModel::Expression { expression: all };
    assert(stmt_at(g, tg, ts, 0) == Ok::<(StmtModel, int), ParseError>((st, 5)));
    assert(program_from(g, tg, ts, 5, seq![st]) == Ok::<StmtModel, ParseError>(
        StmtModel::Block { body: seq![st] },
    ));
    assert(seq![].push(st) =~= seq![st]);
}

} // verus!
