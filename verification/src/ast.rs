//! The structured program representation the compiler consumes.
//!
//! The tree arrives already validated by an upstream pass: the compiler
//! re-checks nothing beyond local-name uniqueness, and lowers exactly the
//! constructs below that it knows; every other node is rejected rather than
//! silently dropped.

use vstd::prelude::*;

verus! {

/// A binary operator. Only the five arithmetic operators are lowered by the
/// compiler today; the others are part of the vocabulary for a complete
/// language and are rejected as unsupported when they reach lowering.
#[derive(Clone, Copy, Debug, PartialEq, Eq, Structural)]
pub enum Operator {
    Add,
    Sub,
    Mul,
    Div,
    Mod,
    Concat,
    Lt,
    LtEq,
    Gt,
    GtEq,
    Eq,
    NEq,
}

/// An expression node.
///
/// An integer literal carries the unsigned magnitude the front end read; a
/// double literal carries the 64-bit IEEE-754 bit pattern of its value.
#[derive(Debug)]
pub enum Expression {
    Int(u128),
    Double(u64),
    Char(char),
    Str(String),
    Bool(bool),
    Identifier(String),
    Binary(Box<Expression>, Operator, Box<Expression>),
}

/// A statement node.
///
/// `Variable` is a declaration of a new local, with an optional
/// initializer. The compiler lowers `Variable` and `Expression` statements;
/// the remaining forms are recognized by the front end but rejected as
/// unsupported when they reach lowering.
#[derive(Debug)]
pub enum Statement {
    Variable(String, Option<Expression>),
    Expression(Expression),
    Assignment(Expression, Expression),
    Constant(String, Expression),
    Break,
    Continue,
    Return(Option<Expression>),
}

} // verus!
