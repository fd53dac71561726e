//! The operators of unary and binary expressions.

use vstd::prelude::*;

verus! {

/// An operator. `Bang` and `Minus` may stand before one operand; all but
/// `Bang`, `LogicalAnd` and `LogicalOr` between two.
#[derive(Debug, Clone, Copy, PartialEq, Eq, Structural)]
pub enum Operator {
    Plus,
    Minus,
    Asterisk,
    Slash,
    Equal,
    Bang,
    NotEqual,
    LogicalAnd,
    LogicalOr,
    And,
    Or,
    LessThan,
    LessThanOrEqual,
    GreaterThan,
    GreaterThanOrEqual,
}

} // verus!
