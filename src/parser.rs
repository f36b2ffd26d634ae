//! The entry point.
use vstd::prelude::*;

use crate::convert::postfix_of;
use crate::eval::{postfix_value, EvalError};

verus! {

/// Evaluator of expressions in the one-character token alphabet.
pub struct Parser;

/// The value of the expression `cs`: its postfix form, run on a value stack.
pub open spec fn evaluation(cs: Seq<char>) -> Result<i32, EvalError> {
    postfix_value(postfix_of(cs))
}

impl Parser {
    /// Computes the value of an expression, or the fault that stops it.
    ///
    /// `a` is `+`, `b` is `-`, `c` is `*`, `d` is `/` (rounding toward
    /// zero), `e` is `(` and `f` is `)`. The four operators share one
    /// precedence tier, so they apply strictly from left to right; only
    /// parentheses group. Runs in time linear in the length of `s`.
    pub fn try_calculate(s: &str) -> (r: Result<i32, EvalError>)
        ensures
            r == evaluation(s@),
    {
        let tokens = Self::infix_to_rpn(s);
        Self::eval_rpn(tokens)
    }

    /// Computes the value of an expression that evaluates without fault
    /// (no stack underflow, division by zero, overflow or oversized literal).
    pub fn calculate(s: String) -> (r: i32)
        requires
            evaluation(s@) is Ok,
        ensures
            evaluation(s@) == Ok::<i32, EvalError>(r),
    {
        Self::try_calculate(s.as_str()).unwrap()
    }
}

} // verus!
