//! The syntax tree that the evaluator walks.

use vstd::prelude::*;
use crate::dec::Dec;
use crate::types::Type;

verus! {

/// A program: expressions, evaluated in order.
pub type Program = Vec<Expr>;

/// An expression.
#[derive(Debug)]
pub enum Expr {
    Literal(Literal),
    Identifier(String),
    Declaration(Declaration),
    Assignment(Assignment),
    FunctionCall { name: String, args: Vec<Expr> },
    FunctionDefinition { args: Vec<Declaration>, ret: Type, body: Program },
    Minus(UnaryExpr),
    Not(UnaryExpr),
    Indexing(Indexing),
    Multiplication(BinaryExpr),
    Addition(BinaryExpr),
    Comparison(BinaryExpr),
    Logical(BinaryExpr),
    Block(Program),
    Return(Option<Box<Expr>>),
    If {
        vars: Vec<Declaration>,
        condition: Box<Expr>,
        when_true: Box<Expr>,
        when_false: Option<Box<Expr>>,
    },
    For { vars: Vec<Declaration>, body: Program },
    ForWhile { vars: Vec<Declaration>, condition: Box<Expr>, body: Program },
    ForIn { vars: Vec<Declaration>, collection: Box<Expr>, body: Program },
    Break(Option<Box<Expr>>),
    TypeName(Type),
    TypeCast(Box<Expr>, Type),
}

/// An operator applied to one operand.
#[derive(Debug)]
pub struct UnaryExpr {
    pub op: UnaryOperator,
    pub expr: Box<Expr>,
}

/// An operator applied to two operands.
#[derive(Debug)]
pub struct BinaryExpr {
    pub left: Box<Expr>,
    pub op: BinaryOperator,
    pub right: Box<Expr>,
}

/// The declaration of a name, which may or may not be assigned to later.
#[derive(Debug)]
pub enum Declaration {
    Const(Decl),
    Var(Decl),
}

/// What a declaration holds: the name, its declared type, and the
/// expression for its first value, if any.
#[derive(Debug)]
pub struct Decl {
    pub name: String,
    pub declared_type: Type,
    pub expr: Option<Box<Expr>>,
}

/// An assignment to a name, or to one element of the collection it names.
#[derive(Debug)]
pub struct Assignment {
    pub name: String,
    pub index: Option<Box<Expr>>,
    pub op: BinaryOperator,
    pub expr: Box<Expr>,
}

/// A literal.
#[derive(Debug)]
pub enum Literal {
    Int(i64),
    Dec(Dec),
    Str(String),
    Bool(bool),
    List(Vec<Expr>),
    Mapping(Vec<(Expr, Expr)>),
}

/// Any operator.
#[derive(Debug, Clone, Copy, PartialEq, Eq, Structural)]
pub enum Operator {
    UnaryOperator(UnaryOperator),
    BinaryOperator(BinaryOperator),
}

/// The operators with one operand.
#[derive(Debug, Clone, Copy, PartialEq, Eq, Structural)]
pub enum UnaryOperator {
    Minus,
    Not,
}

/// The operators with two operands.
#[derive(Debug, Clone, Copy, PartialEq, Eq, Structural)]
pub enum BinaryOperator {
    GetIndexing,
    SetIndexing,
    Times,
    Divide,
    Modulo,
    Add,
    Subtract,
    Greater,
    Less,
    GreaterEqual,
    LessEqual,
    Equal,
    NotEqual,
    And,
    Or,
    Is,
}

/// The indexing of a collection.
#[derive(Debug)]
pub struct Indexing {
    pub collection: Box<Expr>,
    pub op: BinaryOperator,
    pub index: IndexKind,
}

/// What a collection is indexed by: one index, or a half-open range.
#[derive(Debug)]
pub enum IndexKind {
    Single { index: Box<Expr> },
    Range { start: Box<Expr>, end: Box<Expr> },
}

impl Declaration {
    /// What the declaration holds, whichever kind it is.
    pub fn decl(&self) -> (d: &Decl)
        ensures
            *d == decl_of(*self),
    {
        match self {
            Declaration::Const(d) => d,
            Declaration::Var(d) => d,
        }
    }

    /// Whether the declared name may be assigned to.
    pub fn is_var(&self) -> (r: bool)
        ensures
            r == (self is Var),
    {
        match self {
            Declaration::Const(_) => false,
            Declaration::Var(_) => true,
        }
    }
}

/// What a declaration holds, whichever kind it is.
pub open spec fn decl_of(d: Declaration) -> Decl {
    match d {
        Declaration::Const(d) => d,
        Declaration::Var(d) => d,
    }
}

} // verus!
