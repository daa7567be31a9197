use vstd::prelude::*;

verus! {

/// A binary operator's resolution name and SQL spelling.
pub trait BinaryOp {
    fn name(&self) -> String;

    fn to_string(&self) -> String;
}

/// The comparison and logical operators.
#[derive(Debug, Clone, Copy, PartialEq, Eq, Structural)]
pub enum BooleanOp {
    And,
    Or,
    Eq,
    Neq,
    Gt,
    Gte,
    Lt,
    Lte,
}

/// The arithmetic operators.
#[derive(Debug, Clone, Copy, PartialEq, Eq, Structural)]
pub enum MathOp {
    Add,
    Sub,
    Mul,
    Div,
    Mod,
}

impl BinaryOp for BooleanOp {
    /// The lower-case name the planner gives a derived field.
    fn name(&self) -> String {
        match self {
            BooleanOp::And => String::from_str("and"),
            BooleanOp::Or => String::from_str("or"),
            BooleanOp::Eq => String::from_str("eq"),
            BooleanOp::Neq => String::from_str("neq"),
            BooleanOp::Gt => String::from_str("gt"),
            BooleanOp::Gte => String::from_str("gte"),
            BooleanOp::Lt => String::from_str("lt"),
            BooleanOp::Lte => String::from_str("lte"),
        }
    }

    /// The SQL spelling of the operator.
    fn to_string(&self) -> String {
        match self {
            BooleanOp::And => String::from_str("AND"),
            BooleanOp::Or => String::from_str("OR"),
            BooleanOp::Eq => String::from_str("="),
            BooleanOp::Neq => String::from_str("<>"),
            BooleanOp::Gt => String::from_str(">"),
            BooleanOp::Gte => String::from_str(">="),
            BooleanOp::Lt => String::from_str("<"),
            BooleanOp::Lte => String::from_str("<="),
        }
    }
}

impl BinaryOp for MathOp {
    /// The lower-case name the planner gives a derived field.
    fn name(&self) -> String {
        match self {
            MathOp::Add => String::from_str("add"),
            MathOp::Sub => String::from_str("sub"),
            MathOp::Mul => String::from_str("mul"),
            MathOp::Div => String::from_str("div"),
            MathOp::Mod => String::from_str("mod"),
        }
    }

    /// The SQL spelling of the operator.
    fn to_string(&self) -> String {
        match self {
            MathOp::Add => String::from_str("+"),
            MathOp::Sub => String::from_str("-"),
            MathOp::Mul => String::from_str("*"),
            MathOp::Div => String::from_str("/"),
            MathOp::Mod => String::from_str("%"),
        }
    }
}

} // verus!
