use vstd::prelude::*;

use crate::token::{Token, TokenView};

verus! {

broadcast use vstd::std_specs::vec::axiom_vec_decreases_to_view;

/// A type annotation.
#[derive(Debug)]
pub enum Type {
    /// No type given and none inferred.
    Unknown,
    SymbolType { modifier: Option<String>, value: String },
    ListType { underlying: Box<Type> },
    DictType { key: Box<Type>, value: Box<Type> },
    TupleType { values: Vec<Type> },
    NamedType { name: String, explicit_type: Box<Type> },
    GenericType { generics: Vec<Type>, name: String },
}

/// Mathematical form of a type annotation.
pub enum TypeModel {
    Unknown,
    Symbol { modifier: Option<Seq<char>>, value: Seq<char> },
    List { underlying: Box<TypeModel> },
    Dict { key: Box<TypeModel>, value: Box<TypeModel> },
    Tuple { values: Seq<TypeModel> },
    Named { name: Seq<char>, explicit_type: Box<TypeModel> },
    Generic { generics: Seq<TypeModel>, name: Seq<char> },
}

pub open spec fn opt_view(o: Option<String>) -> Option<Seq<char>> {
    match o {
        Some(s) => Some(s@),
        None => None,
    }
}

pub open spec fn type_model(t: Type) -> TypeModel
    decreases t,
{
    match t {
        Type::Unknown => TypeModel::Unknown,
        Type::SymbolType { modifier, value } => TypeModel::Symbol {
            modifier: opt_view(modifier),
            value: value@,
        },
        Type::ListType { underlying } => TypeModel::List {
            underlying: Box::new(type_model(*underlying)),
        },
        Type::DictType { key, value } => TypeModel::Dict {
            key: Box::new(type_model(*key)),
            value: Box::new(type_model(*value)),
        },
        Type::TupleType { values } => TypeModel::Tuple { values: type_models(values@) },
        Type::NamedType { name, explicit_type } => TypeModel::Named {
            name: name@,
            explicit_type: Box::new(type_model(*explicit_type)),
        },
        Type::GenericType { generics, name } => TypeModel::Generic {
            generics: type_models(generics@),
            name: name@,
        },
    }
}

pub open spec fn type_models(ts: Seq<Type>) -> Seq<TypeModel>
    decreases ts,
{
    if ts.len() == 0 {
        seq![]
    } else {
        type_models(ts.drop_last()).push(type_model(ts.last()))
    }
}

impl View for Type {
    type V = TypeModel;

    open spec fn view(&self) -> TypeModel {
        type_model(*self)
    }
}

/// An expression.
#[derive(Debug)]
pub enum Expr {
    /// No expression: the initializer of a declaration that has none.
    Empty,
    /// A decimal literal with a fractional part, or an integer literal too large for `i64`,
    /// kept as its exact source text.
    FloatExpr { value: String },
    IntegerExpr { value: i64 },
    StringExpr { value: String },
    SymbolExpr { value: String },
    BinaryExpr { left: Box<Expr>, operator: Token, right: Box<Expr> },
    PrefixExpr { operator: Token, right: Box<Expr> },
    ArrayLiteralExpr { contents: Vec<Expr> },
}

/// Mathematical form of an expression.
pub enum ExprModel {
    Empty,
    Float { text: Seq<char> },
    Integer { value: i64 },
    Str { value: Seq<char> },
    Symbol { value: Seq<char> },
    Binary { left: Box<ExprModel>, operator: TokenView, right: Box<ExprModel> },
    Prefix { operator: TokenView, right: Box<ExprModel> },
    Array { contents: Seq<ExprModel> },
}

pub open spec fn expr_model(e: Expr) -> ExprModel
    decreases e,
{
    match e {
        Expr::Empty => ExprModel::Empty,
        Expr::FloatExpr { value } => ExprModel::Float { text: value@ },
        Expr::IntegerExpr { value } => ExprModel::Integer { value },
        Expr::StringExpr { value } => ExprModel::Str { value: value@ },
        Expr::SymbolExpr { value } => ExprModel::Symbol { value: value@ },
        Expr::BinaryExpr { left, operator, right } => ExprModel::Binary {
            left: Box::new(expr_model(*left)),
            operator: operator@,
            right: Box::new(expr_model(*right)),
        },
        Expr::PrefixExpr { operator, right } => ExprModel::Prefix {
            operator: operator@,
            right: Box::new(expr_model(*right)),
        },
        Expr::ArrayLiteralExpr { contents } => ExprModel::Array { contents: expr_models(contents@) },
    }
}

pub open spec fn expr_models(es: Seq<Expr>) -> Seq<ExprModel>
    decreases es,
{
    if es.len() == 0 {
        seq![]
    } else {
        expr_models(es.drop_last()).push(expr_model(es.last()))
    }
}

impl View for Expr {
    type V = ExprModel;

    open spec fn view(&self) -> ExprModel {
        expr_model(*self)
    }
}

/// A statement; a whole source file is one `BlockStmt`.
#[derive(Debug)]
pub enum Stmt {
    Empty,
    BlockStmt { body: Vec<Stmt> },
    ExpressionStmt { expression: Box<Expr> },
    VarDeclarationStmt {
        modifiers: Vec<String>,
        identifier: String,
        constant: bool,
        assigned_value: Box<Expr>,
        explicit_type: Box<Type>,
    },
}

/// Mathematical form of a statement.
pub enum StmtModel {
    Empty,
    Block { body: Seq<StmtModel> },
    Expression { expression: ExprModel },
    VarDeclaration {
        modifiers: Seq<Seq<char>>,
        identifier: Seq<char>,
        constant: bool,
        assigned_value: ExprModel,
        explicit_type: TypeModel,
    },
}

pub open spec fn string_views(v: Seq<String>) -> Seq<Seq<char>> {
    v.map_values(|s: String| s@)
}

pub open spec fn stmt_model(s: Stmt) -> StmtModel
    decreases s,
{
    match s {
        Stmt::Empty => StmtModel::Empty,
        Stmt::BlockStmt { body } => StmtModel::Block { body: stmt_models(body@) },
        Stmt::ExpressionStmt { expression } => StmtModel::Expression { expression: expression@ },
        Stmt::VarDeclarationStmt {
            modifiers,
            identifier,
            constant,
            assigned_value,
            explicit_type,
        } => StmtModel::VarDeclaration {
            modifiers: string_views(modifiers@),
            identifier: identifier@,
            constant,
            assigned_value: assigned_value@,
            explicit_type: explicit_type@,
        },
    }
}

pub open spec fn stmt_models(ss: Seq<Stmt>) -> Seq<StmtModel>
    decreases ss,
{
    if ss.len() == 0 {
        seq![]
    } else {
        stmt_models(ss.drop_last()).push(stmt_model(ss.last()))
    }
}

impl View for Stmt {
    type V = StmtModel;

    open spec fn view(&self) -> StmtModel {
        stmt_model(*self)
    }
}

} // verus!
