//! The abstract syntax of the query expression language.

use vstd::prelude::*;

verus! {

/// A field of the packet metadata that a test can look up.
#[derive(PartialEq, Eq, Clone, Debug)]
pub enum Lookup {
    Name,
    Id,
    Parameter(String),
    This(String),
    Environment(String),
}

/// A constant in a test.  Numbers keep their written form: the parser does
/// not evaluate.
#[derive(PartialEq, Eq, Clone, Debug)]
pub enum Literal {
    Bool(bool),
    Number(String),
    Text(String),
}

/// One side of a test: a lookup or a literal.
#[derive(PartialEq, Eq, Clone, Debug)]
pub enum TestValue {
    Lookup(Lookup),
    Literal(Literal),
}

/// The comparison of a test.
#[derive(PartialEq, Eq, Clone, Copy, Debug, Structural)]
pub enum Test {
    Equal,
    NotEqual,
    LessThan,
    LessThanOrEqual,
    GreaterThan,
    GreaterThanOrEqual,
}

/// A boolean connective.
#[derive(PartialEq, Eq, Clone, Copy, Debug, Structural)]
pub enum Operator {
    And,
    Or,
}

/// A query expression.
#[derive(PartialEq, Eq, Debug)]
pub enum QueryNode {
    Latest(Option<Box<QueryNode>>),
    Single(Box<QueryNode>),
    Negation(Box<QueryNode>),
    Brackets(Box<QueryNode>),
    Test(Test, TestValue, TestValue),
    BooleanOp(Operator, Box<QueryNode>, Box<QueryNode>),
}

/// A parse failure: where it happened and a short reason.
#[derive(Debug)]
pub struct ParseError {
    pub offset: usize,
    pub reason: String,
}

} // verus!
