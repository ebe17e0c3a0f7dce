use vstd::prelude::*;

use crate::ast::{ExprModel, Stmt, StmtModel};
use crate::expressions::{expr_at, expr_nud, expr_tail, number_node, I64_MAX};
use crate::lexer::{
    all_digits, digits_value, dot_index, is_decimal_text, is_digit, lemma_lex_shape, lex, tokenize,
    LexError,
};
use crate::lookup::{standard_grammar, standard_type_grammar, NudHandler};
use crate::parser::ParseError;
use crate::statements::{parse, program, program_from, stmt_at};
use crate::token::{views, TokenKind, TokenView};

verus! {

/// Why a source text has no syntax tree.
#[derive(Debug, Clone, Copy, PartialEq, Eq, Structural)]
pub enum SourceError {
    Lex(LexError),
    Parse(ParseError),
}

/// The syntax tree of a source text under the standard grammar, or the first error.
pub open spec fn source_outcome(s: Seq<char>, file: Seq<char>) -> Result<StmtModel, SourceError> {
    match lex(s, file) {
        Err(e) => Err(SourceError::Lex(e)),
        Ok(ts) => match program(standard_grammar(), standard_type_grammar(), ts) {
            Ok(m) => Ok(m),
            Err(e) => Err(SourceError::Parse(e)),
        },
    }
}

pub open spec fn source_result(r: Result<Stmt, SourceError>) -> Result<StmtModel, SourceError> {
    match r {
        Ok(s) => Ok(s@),
        Err(e) => Err(e),
    }
}

/// Lexes and parses a whole source text, whose tokens name `file`.
pub fn parse_source(source: &str, file: &str) -> (r: Result<Stmt, SourceError>)
    requires
        source@.len() < usize::MAX,
    ensures
        source_result(r) == source_outcome(source@, file@),
{
    match tokenize(source, file) {
        Err(e) => Err(SourceError::Lex(e)),
        Ok(tokens) => {
            proof {
                lemma_lex_shape(source@, file@, 0, 1, 0);
                assert(views(tokens@).last() == tokens@.last()@);
            }
            match parse(tokens) {
                Ok(s) => Ok(s),
                Err(e) => Err(SourceError::Parse(e)),
            }
        },
    }
}

proof fn lemma_dot_found(t: Seq<char>, i: int)
    requires
        0 <= i,
        dot_index(t, i) < t.len(),
    ensures
        t[dot_index(t, i)] == '.',
    decreases t.len() - i,
{
    if i < t.len() && t[i] != '.' {
        lemma_dot_found(t, i + 1);
    }
}

/// A source whose only token is a numeric literal parses to one expression statement:
/// an integer node with the literal's value when its text has no `.`, a decimal node
/// holding the text otherwise.
pub proof fn lemma_single_number_source(s: Seq<char>, file: Seq<char>, t: TokenView, end: TokenView)
    requires
        lex(s, file) == Ok::<Seq<TokenView>, LexError>(seq![t, end]),
        t.kind == TokenKind::NUMBER,
        !t.value.contains('.') ==> digits_value(t.value) <= I64_MAX,
    ensures
        source_outcome(s, file) == Ok::<StmtModel, SourceError>(
            StmtModel::Block {
                body: seq![
                    StmtModel::Expression {
                        expression: if t.value.contains('.') {
                            ExprModel::Float { text: t.value }
                        } else {
                            ExprModel::Integer { value: digits_value(t.value) as i64 }
                        },
                    },
                ],
            },
        ),
{
    lemma_lex_shape(s, file, 0, 1, 0);
    let ts = seq![t, end];
    assert(ts[0] == t && ts[1] == end);
    assert(end.kind == TokenKind::EOF);
    let v = t.value;
    assert(ts[0].kind == TokenKind::NUMBER);
    let node = if v.contains('.') {
        ExprModel::Float { text: v }
    } else {
        ExprModel::Integer { value: digits_value(v) as i64 }
    };
    if v.contains('.') {
        let k = choose|k: int| 0 <= k < v.len() && v[k] == '.';
        assert(!is_digit(v[k]));
        assert(!all_digits(v));
    } else if is_decimal_text(v) {
        lemma_dot_found(v, 0);
        assert(v[dot_index(v, 0)] == '.');
        assert(false);
    }
    assert(number_node(v) == Some(node));
    let g = standard_grammar();
    let tg = standard_type_grammar();
    assert(expr_nud(g, ts, 0, NudHandler::Primary) == Ok::<(ExprModel, int), ParseError>((node, 1)));
    assert(expr_tail(g, ts, node, 1, 0) == Ok::<(ExprModel, int), ParseError>((node, 1)));
    assert(expr_at(g, ts, 0, 0) == Ok::<(ExprModel, int), ParseError>((node, 1)));
    let st = StmtModel::Expression { expression: node };
    assert(stmt_at(g, tg, ts, 0) == Ok::<(StmtModel, int), ParseError>((st, 1)));
    assert(seq![].push(st) =~= seq![st]);
    assert(program_from(g, tg, ts, 1, seq![st]) == Ok::<StmtModel, ParseError>(
        StmtModel::Block { body: seq![st] },
    ));
}

} // verus!
