//! Reordering of an infix expression into postfix form.
use vstd::prelude::*;

use crate::parser::Parser;
use crate::token::{digits_value, tokens_view, Op, Token, TokenV};

verus! {

/// The state of the scan after some prefix of the input: the output queue,
/// the operator stack (top last) and the digits of the pending number.
pub ghost struct Scan {
    pub out: Seq<TokenV>,
    pub ops: Seq<TokenV>,
    pub buf: Seq<u8>,
}

/// The operator that a character stands for, if any.
pub open spec fn op_of_char(c: char) -> Option<Op> {
    if c == 'a' {
        Some(Op::Add)
    } else if c == 'b' {
        Some(Op::Sub)
    } else if c == 'c' {
        Some(Op::Mul)
    } else if c == 'd' {
        Some(Op::Div)
    } else {
        None
    }
}

pub open spec fn is_digit_char(c: char) -> bool {
    '0' <= c <= '9'
}

pub open spec fn digit_of(c: char) -> u8 {
    (c as u32 - '0' as u32) as u8
}

/// Precedence tier: every operator is in tier 1, anything else in tier 0.
pub open spec fn prec(t: TokenV) -> int {
    match t {
        TokenV::Operator(_) => 1,
        _ => 0,
    }
}

/// Moves the digit buffer, if it holds any digit, to the output as a number.
pub open spec fn flush(st: Scan) -> Scan {
    if st.buf.len() > 0 {
        Scan { out: st.out.push(TokenV::Number(st.buf)), ops: st.ops, buf: Seq::empty() }
    } else {
        st
    }
}

/// Pops operators of precedence at least `p` from the stack to the output,
/// stopping at an open parenthesis or at an operator of lower precedence.
pub open spec fn pop_ready(out: Seq<TokenV>, ops: Seq<TokenV>, p: int) -> (Seq<TokenV>, Seq<TokenV>)
    decreases ops.len(),
{
    if ops.len() > 0 && ops.last() != TokenV::OpenParen && prec(ops.last()) >= p {
        pop_ready(out.push(ops.last()), ops.drop_last(), p)
    } else {
        (out, ops)
    }
}

/// Pops the whole stack to the output; open parentheses left on it are dropped.
pub open spec fn drain(out: Seq<TokenV>, ops: Seq<TokenV>) -> Seq<TokenV>
    decreases ops.len(),
{
    if ops.len() == 0 {
        out
    } else if ops.last() == TokenV::OpenParen {
        drain(out, ops.drop_last())
    } else {
        drain(out.push(ops.last()), ops.drop_last())
    }
}

/// The effect of one input character on the scan.
pub open spec fn step(st: Scan, c: char) -> Scan {
    if is_digit_char(c) {
        Scan { buf: st.buf.push(digit_of(c)), ..st }
    } else if op_of_char(c) is Some {
        let op = TokenV::Operator(op_of_char(c)->0);
        let f = flush(st);
        let (out, ops) = pop_ready(f.out, f.ops, prec(op));
        Scan { out, ops: ops.push(op), buf: f.buf }
    } else if c == 'e' {
        Scan { ops: st.ops.push(TokenV::OpenParen), ..st }
    } else if c == 'f' {
        let f = flush(st);
        let (out, ops) = pop_ready(f.out, f.ops, 0);
        let ops = if ops.len() > 0 { ops.drop_last() } else { ops };
        Scan { out, ops, buf: f.buf }
    } else {
        st
    }
}

/// The state after scanning `cs` from left to right.
pub open spec fn scan(cs: Seq<char>) -> Scan
    decreases cs.len(),
{
    if cs.len() == 0 {
        Scan { out: Seq::empty(), ops: Seq::empty(), buf: Seq::empty() }
    } else {
        step(scan(cs.drop_last()), cs.last())
    }
}

/// The postfix sequence for the expression `cs`.
pub open spec fn postfix_of(cs: Seq<char>) -> Seq<TokenV> {
    let f = flush(scan(cs));
    drain(f.out, f.ops)
}

proof fn lemma_view_push(ts: Seq<Token>, t: Token)
    ensures
        tokens_view(ts.push(t)) == tokens_view(ts).push(t@),
{
    assert(tokens_view(ts.push(t)) =~= tokens_view(ts).push(t@));
}

proof fn lemma_view_drop_last(ts: Seq<Token>)
    requires
        ts.len() > 0,
    ensures
        tokens_view(ts.drop_last()) == tokens_view(ts).drop_last(),
        tokens_view(ts).last() == ts.last()@,
{
    assert(tokens_view(ts.drop_last()) =~= tokens_view(ts).drop_last());
}

impl Parser {
    const SIGN_PLUS: char = 'a';
    const SIGN_MINUS: char = 'b';
    const SIGN_MULTIPLY: char = 'c';
    const SIGN_DIVIDE: char = 'd';
    const PAREN_OPEN: char = 'e';
    const PAREN_CLOSED: char = 'f';

    /// Whether `c` is one of the four operator symbols.
    pub fn is_operator(c: char) -> (r: bool)
        ensures
            r == (op_of_char(c) is Some),
    {
        c == Self::SIGN_PLUS || c == Self::SIGN_MINUS || c == Self::SIGN_MULTIPLY
            || c == Self::SIGN_DIVIDE
    }

    /// The precedence tier of a token on the operator stack.
    pub fn precedence(t: &Token) -> (r: i32)
        ensures
            r == prec(t@),
    {
        match t {
            Token::Operator(_) => 1,
            _ => 0,
        }
    }

    /// Converts an infix expression to postfix form by a single
    /// left-to-right scan with an operator stack.
    ///
    /// Digits build up a number; `a`-`d` are operators of one precedence
    /// tier, `e` opens and `f` closes a group. Any other character,
    /// whitespace included, has no effect. An unmatched `f` empties the stack
    /// up to its bottom; an unmatched `e` is dropped at the end.
    pub fn infix_to_rpn(expression: &str) -> (r: Vec<Token>)
        ensures
            tokens_view(r@) == postfix_of(expression@),
    {
        let mut out: Vec<Token> = Vec::new();
        let mut ops: Vec<Token> = Vec::new();
        let mut buf: Vec<u8> = Vec::new();
        proof {
            broadcast use vstd::string::axiom_spec_iter;

            assert(tokens_view(out@) =~= Seq::empty());
            assert(tokens_view(ops@) =~= Seq::empty());
            assert(expression@.take(0) =~= Seq::empty());
        }
        for c in it: expression.chars()
            invariant
                it.seq() == expression@,
                scan(it.seq().take(it.index() as int)) == (Scan {
                    out: tokens_view(out@),
                    ops: tokens_view(ops@),
                    buf: buf@,
                }),
        {
            let ghost pre = it.seq().take(it.index() as int);
            assert(it.seq().take(it.index() + 1).drop_last() == pre);
            if '0' <= c && c <= '9' {
                buf.push((c as u32 - '0' as u32) as u8);
            } else if Self::is_operator(c) {
                let op = if c == Self::SIGN_PLUS {
                    Op::Add
                } else if c == Self::SIGN_MINUS {
                    Op::Sub
                } else if c == Self::SIGN_MULTIPLY {
                    Op::Mul
                } else {
                    Op::Div
                };
                let t = Token::Operator(op);
                Self::flush_number(&mut out, &mut buf);
                Self::pop_operators(&mut out, &mut ops, Self::precedence(&t));
                proof {
                    lemma_view_push(ops@, t);
                }
                ops.push(t);
            } else if c == Self::PAREN_OPEN {
                proof {
                    lemma_view_push(ops@, Token::OpenParen);
                }
                ops.push(Token::OpenParen);
            } else if c == Self::PAREN_CLOSED {
                Self::flush_number(&mut out, &mut buf);
                Self::pop_operators(&mut out, &mut ops, 0);
                if ops.len() > 0 {
                    proof {
                        lemma_view_drop_last(ops@);
                    }
                    ops.pop();
                }
            }
        }
        assert(expression@.take(expression@.len() as int) =~= expression@);
        Self::flush_number(&mut out, &mut buf);
        Self::drain_operators(&mut out, ops);
        out
    }

    /// Moves the pending digits, if any, to the output as a number.
    fn flush_number(out: &mut Vec<Token>, buf: &mut Vec<u8>)
        ensures
            ({
                let st = flush(Scan { out: tokens_view(old(out)@), ops: Seq::empty(), buf: old(buf)@ });
                tokens_view(final(out)@) == st.out && final(buf)@ == st.buf
            }),
    {
        if buf.len() > 0 {
            let mut ds: Vec<u8> = Vec::new();
            std::mem::swap(buf, &mut ds);
            proof {
                lemma_view_push(out@, Token::Number(ds));
            }
            out.push(Token::Number(ds));
        }
    }

    /// Pops operators of precedence at least `p` from `ops` to `out`, up to
    /// an open parenthesis or an operator of lower precedence.
    fn pop_operators(out: &mut Vec<Token>, ops: &mut Vec<Token>, p: i32)
        ensures
            (tokens_view(final(out)@), tokens_view(final(ops)@)) == pop_ready(
                tokens_view(old(out)@),
                tokens_view(old(ops)@),
                p as int,
            ),
    {
        loop
            invariant
                pop_ready(tokens_view(out@), tokens_view(ops@), p as int) == pop_ready(
                    tokens_view(old(out)@),
                    tokens_view(old(ops)@),
                    p as int,
                ),
            ensures
                pop_ready(tokens_view(out@), tokens_view(ops@), p as int) == (
                    tokens_view(out@),
                    tokens_view(ops@),
                ),
            decreases ops.len(),
        {
            if ops.len() == 0 {
                break;
            }
            let n = ops.len() - 1;
            proof {
                lemma_view_drop_last(ops@);
            }
            let ready = match &ops[n] {
                Token::OpenParen => false,
                t => Self::precedence(t) >= p,
            };
            if !ready {
                break;
            }
            let t = ops.pop().unwrap();
            proof {
                lemma_view_push(out@, t);
            }
            out.push(t);
        }
    }

    /// Pops the whole operator stack to the output, dropping open parentheses.
    fn drain_operators(out: &mut Vec<Token>, stack: Vec<Token>)
        ensures
            tokens_view(final(out)@) == drain(tokens_view(old(out)@), tokens_view(stack@)),
    {
        let mut ops = stack;
        loop
            invariant
                drain(tokens_view(out@), tokens_view(ops@)) == drain(
                    tokens_view(old(out)@),
                    tokens_view(stack@),
                ),
            ensures
                tokens_view(out@) == drain(tokens_view(old(out)@), tokens_view(stack@)),
            decreases ops.len(),
        {
            if ops.len() == 0 {
                assert(tokens_view(ops@).len() == 0);
                break;
            }
            proof {
                lemma_view_drop_last(ops@);
            }
            let t = ops.pop().unwrap();
            match t {
                Token::OpenParen => {},
                _ => {
                    proof {
                        lemma_view_push(out@, t);
                    }
                    out.push(t);
                },
            }
        }
    }
}

} // verus!
