//! Evaluation of a postfix sequence on a value stack.
use vstd::prelude::*;

use crate::parser::Parser;
use crate::token::{digits_value, tokens_view, Op, Token, TokenV};

verus! {

/// Why a postfix sequence has no value.
#[derive(Clone, Copy, Debug, PartialEq, Eq, Structural)]
pub enum EvalError {
    /// An operator, or the final read of the result, found too few values.
    StackUnderflow,
    /// A division whose right operand is zero.
    DivisionByZero,
    /// A result outside the range of `i32`.
    Overflow,
    /// A number literal larger than `i32::MAX`.
    NumberTooLarge,
    /// An open parenthesis in the postfix sequence.
    UnexpectedParen,
}

/// Integer division rounding toward zero; `d` is not zero.
pub open spec fn trunc_div(x: int, d: int) -> int {
    if x >= 0 && d > 0 {
        x / d
    } else if x < 0 && d < 0 {
        (-x) / (-d)
    } else if x < 0 {
        -((-x) / d)
    } else {
        -(x / (-d))
    }
}

/// The exact result of `l op r` on integers (`r` not zero for a division).
pub open spec fn op_result(op: Op, l: int, r: int) -> int {
    match op {
        Op::Add => l + r,
        Op::Sub => l - r,
        Op::Mul => l * r,
        Op::Div => trunc_div(l, r),
    }
}

/// `l op r` in `i32`, or why it has none.
pub open spec fn apply_op(op: Op, l: i32, r: i32) -> Result<i32, EvalError> {
    if op == Op::Div && r == 0 {
        Err(EvalError::DivisionByZero)
    } else if op_result(op, l as int, r as int) < i32::MIN || op_result(op, l as int, r as int)
        > i32::MAX {
        Err(EvalError::Overflow)
    } else {
        Ok(op_result(op, l as int, r as int) as i32)
    }
}

/// A number literal read as an `i32`.
pub open spec fn number_value(ds: Seq<u8>) -> Result<i32, EvalError> {
    if digits_value(ds) <= i32::MAX {
        Ok(digits_value(ds) as i32)
    } else {
        Err(EvalError::NumberTooLarge)
    }
}

/// The value stack after one more token.
pub open spec fn run_token(st: Seq<i32>, t: TokenV) -> Result<Seq<i32>, EvalError> {
    match t {
        TokenV::Number(ds) => match number_value(ds) {
            Ok(v) => Ok(st.push(v)),
            Err(e) => Err(e),
        },
        TokenV::Operator(op) => if st.len() < 2 {
            Err(EvalError::StackUnderflow)
        } else {
            match apply_op(op, st[st.len() - 2], st.last()) {
                Ok(v) => Ok(st.drop_last().drop_last().push(v)),
                Err(e) => Err(e),
            }
        },
        TokenV::OpenParen => Err(EvalError::UnexpectedParen),
    }
}

/// The value stack after running `ts` from left to right, or the first fault.
pub open spec fn run(ts: Seq<TokenV>) -> Result<Seq<i32>, EvalError>
    decreases ts.len(),
{
    if ts.len() == 0 {
        Ok(Seq::empty())
    } else {
        match run(ts.drop_last()) {
            Ok(st) => run_token(st, ts.last()),
            Err(e) => Err(e),
        }
    }
}

/// The value of a postfix sequence: the top of the stack once it has run.
pub open spec fn postfix_value(ts: Seq<TokenV>) -> Result<i32, EvalError> {
    match run(ts) {
        Ok(st) => if st.len() == 0 {
            Err(EvalError::StackUnderflow)
        } else {
            Ok(st.last())
        },
        Err(e) => Err(e),
    }
}

proof fn lemma_digits_prefix(ds: Seq<u8>, k: int)
    requires
        0 <= k <= ds.len(),
    ensures
        digits_value(ds.take(k)) <= digits_value(ds),
    decreases ds.len() - k,
{
    if k < ds.len() {
        assert(ds.take(k + 1).drop_last() =~= ds.take(k));
        lemma_digits_prefix(ds, k + 1);
    } else {
        assert(ds.take(k) =~= ds);
    }
}

/// A fault in a prefix is the fault of the whole sequence.
proof fn lemma_run_fault(ts: Seq<TokenV>, k: int)
    requires
        0 <= k <= ts.len(),
        run(ts.take(k)) is Err,
    ensures
        run(ts) == run(ts.take(k)),
        postfix_value(ts) == Err::<i32, EvalError>(run(ts.take(k))->Err_0),
    decreases ts.len() - k,
{
    if k < ts.len() {
        assert(ts.take(k + 1).drop_last() =~= ts.take(k));
        lemma_run_fault(ts, k + 1);
    } else {
        assert(ts.take(k) =~= ts);
    }
}

impl Parser {
    /// Runs a postfix sequence on a value stack and returns the value left
    /// on top. A number pushes its value; an operator pops its right operand,
    /// then its left one, and pushes the result.
    pub fn eval_rpn(tokens: Vec<Token>) -> (r: Result<i32, EvalError>)
        ensures
            r == postfix_value(tokens_view(tokens@)),
    {
        let ghost ts = tokens_view(tokens@);
        let mut stack: Vec<i32> = Vec::new();
        let mut i: usize = 0;
        assert(ts.take(0) =~= Seq::empty());
        while i < tokens.len()
            invariant
                i <= tokens.len(),
                ts == tokens_view(tokens@),
                run(ts.take(i as int)) == Ok::<Seq<i32>, EvalError>(stack@),
            decreases tokens.len() - i,
        {
            assert(ts.take(i + 1).drop_last() =~= ts.take(i as int));
            assert(ts.take(i + 1).last() == tokens@[i as int]@);
            match &tokens[i] {
                Token::Number(ds) => match Self::number(ds) {
                    Ok(v) => stack.push(v),
                    Err(e) => {
                        proof {
                            lemma_run_fault(ts, i + 1);
                        }
                        return Err(e);
                    },
                },
                Token::Operator(op) => {
                    if stack.len() < 2 {
                        proof {
                            lemma_run_fault(ts, i + 1);
                        }
                        return Err(EvalError::StackUnderflow);
                    }
                    let right = stack.pop().unwrap();
                    let left = stack.pop().unwrap();
                    match Self::apply(*op, left, right) {
                        Ok(v) => stack.push(v),
                        Err(e) => {
                            proof {
                                lemma_run_fault(ts, i + 1);
                            }
                            return Err(e);
                        },
                    }
                },
                Token::OpenParen => {
                    proof {
                        lemma_run_fault(ts, i + 1);
                    }
                    return Err(EvalError::UnexpectedParen);
                },
            }
            i = i + 1;
        }
        assert(ts.take(i as int) =~= ts);
        match stack.pop() {
            Some(v) => Ok(v),
            None => Err(EvalError::StackUnderflow),
        }
    }

    /// Reads a number literal's digits into an `i32`.
    fn number(ds: &Vec<u8>) -> (r: Result<i32, EvalError>)
        ensures
            r == number_value(ds@),
    {
        let mut v: i64 = 0;
        let mut i: usize = 0;
        while i < ds.len()
            invariant
                i <= ds.len(),
                v == digits_value(ds@.take(i as int)),
                v <= i32::MAX,
            decreases ds.len() - i,
        {
            assert(ds@.take(i + 1).drop_last() =~= ds@.take(i as int));
            v = v * 10 + ds[i] as i64;
            i = i + 1;
            if v > i32::MAX as i64 {
                proof {
                    lemma_digits_prefix(ds@, i as int);
                }
                return Err(EvalError::NumberTooLarge);
            }
        }
        assert(ds@.take(i as int) =~= ds@);
        Ok(v as i32)
    }

    /// `l op r` with every fault reported.
    fn apply(op: Op, l: i32, r: i32) -> (res: Result<i32, EvalError>)
        ensures
            res == apply_op(op, l, r),
    {
        let v = match op {
            Op::Add => l.checked_add(r),
            Op::Sub => l.checked_sub(r),
            Op::Mul => l.checked_mul(r),
            Op::Div => {
                if r == 0 {
                    return Err(EvalError::DivisionByZero);
                }
                l.checked_div(r)
            },
        };
        match v {
            Some(x) => Ok(x),
            None => Err(EvalError::Overflow),
        }
    }
}

} // verus!
