//! Properties of expressions without parentheses.
use vstd::prelude::*;

use crate::convert::{digit_of, drain, flush, is_digit_char, pop_ready, postfix_of, prec, scan, step, Scan};
use crate::eval::{apply_op, number_value, run, run_token, EvalError};
use crate::parser::evaluation;
use crate::token::{Op, TokenV};

verus! {

/// The symbol of an operator.
pub open spec fn op_char(op: Op) -> char {
    match op {
        Op::Add => 'a',
        Op::Sub => 'b',
        Op::Mul => 'c',
        Op::Div => 'd',
    }
}

/// A number literal: one or more decimal digits.
pub open spec fn is_literal(n: Seq<char>) -> bool {
    n.len() > 0 && forall|i: int| 0 <= i < n.len() ==> is_digit_char(#[trigger] n[i])
}

/// The digit values of a literal.
pub open spec fn literal_digits(n: Seq<char>) -> Seq<u8> {
    n.map_values(|c: char| digit_of(c))
}

/// A chain `n0 op1 n1 ... opk nk` of literals and operators, without
/// parentheses: the first literal, then each operator with the literal after it.
pub open spec fn is_chain(first: Seq<char>, rest: Seq<(Op, Seq<char>)>) -> bool {
    is_literal(first) && forall|i: int| 0 <= i < rest.len() ==> is_literal(#[trigger] rest[i].1)
}

/// The text of a chain.
pub open spec fn chain_text(first: Seq<char>, rest: Seq<(Op, Seq<char>)>) -> Seq<char>
    decreases rest.len(),
{
    if rest.len() == 0 {
        first
    } else {
        chain_text(first, rest.drop_last()) + seq![op_char(rest.last().0)] + rest.last().1
    }
}

/// Strict left-to-right evaluation of a chain: each operator is applied to
/// the value so far and the literal after it; the first fault stops it.
pub open spec fn chain_value(first: Seq<char>, rest: Seq<(Op, Seq<char>)>) -> Result<i32, EvalError>
    decreases rest.len(),
{
    if rest.len() == 0 {
        number_value(literal_digits(first))
    } else {
        match chain_value(first, rest.drop_last()) {
            Ok(v) => match number_value(literal_digits(rest.last().1)) {
                Ok(x) => apply_op(rest.last().0, v, x),
                Err(e) => Err(e),
            },
            Err(e) => Err(e),
        }
    }
}

/// The postfix form of a chain: `n0 n1 op1 n2 op2 ... nk opk`.
pub open spec fn chain_postfix(first: Seq<char>, rest: Seq<(Op, Seq<char>)>) -> Seq<TokenV>
    decreases rest.len(),
{
    if rest.len() == 0 {
        seq![TokenV::Number(literal_digits(first))]
    } else {
        chain_postfix(first, rest.drop_last()) + seq![
            TokenV::Number(literal_digits(rest.last().1)),
            TokenV::Operator(rest.last().0),
        ]
    }
}

/// The operators of a token sequence, in order.
pub open spec fn operators_of(ts: Seq<TokenV>) -> Seq<Op>
    decreases ts.len(),
{
    if ts.len() == 0 {
        Seq::empty()
    } else {
        match ts.last() {
            TokenV::Operator(op) => operators_of(ts.drop_last()).push(op),
            _ => operators_of(ts.drop_last()),
        }
    }
}

/// Scanning a literal after `cs` only appends its digits to the buffer.
proof fn lemma_scan_literal(cs: Seq<char>, n: Seq<char>)
    requires
        forall|i: int| 0 <= i < n.len() ==> is_digit_char(#[trigger] n[i]),
    ensures
        scan(cs + n) == (Scan { buf: scan(cs).buf + literal_digits(n), ..scan(cs) }),
    decreases n.len(),
{
    if n.len() == 0 {
        assert(cs + n =~= cs);
        assert(scan(cs).buf + literal_digits(n) =~= scan(cs).buf);
    } else {
        let m = n.drop_last();
        assert((cs + n).drop_last() =~= cs + m);
        assert(is_digit_char(n[n.len() - 1]));
        lemma_scan_literal(cs, m);
        assert(scan(cs).buf + literal_digits(n) =~= (scan(cs).buf + literal_digits(m)).push(
            digit_of(n.last()),
        ));
    }
}

/// The scan state at the end of a chain: the postfix form of all but the
/// last operator and literal, that operator on the stack, that literal in
/// the buffer.
proof fn lemma_scan_chain(first: Seq<char>, rest: Seq<(Op, Seq<char>)>)
    requires
        is_chain(first, rest),
    ensures
        rest.len() == 0 ==> scan(chain_text(first, rest)) == (Scan {
            out: Seq::empty(),
            ops: Seq::empty(),
            buf: literal_digits(first),
        }),
        rest.len() > 0 ==> scan(chain_text(first, rest)) == (Scan {
            out: chain_postfix(first, rest.drop_last()),
            ops: seq![TokenV::Operator(rest.last().0)],
            buf: literal_digits(rest.last().1),
        }),
    decreases rest.len(),
{
    if rest.len() == 0 {
        lemma_scan_literal(Seq::empty(), first);
        assert(Seq::<char>::empty() + first =~= first);
        assert(Seq::<u8>::empty() + literal_digits(first) =~= literal_digits(first));
    } else {
        let prev = rest.drop_last();
        let op = rest.last().0;
        let last = rest.last().1;
        assert(is_chain(first, prev)) by {
            assert forall|i: int| 0 <= i < prev.len() implies is_literal(#[trigger] prev[i].1) by {
                assert(prev[i] == rest[i]);
            }
        }
        assert(is_literal(rest[rest.len() - 1].1));
        lemma_scan_chain(first, prev);
        let head = chain_text(first, prev);
        let with_op = head + seq![op_char(op)];
        assert(with_op.drop_last() =~= head);
        assert(with_op.last() == op_char(op));
        assert(chain_text(first, rest) == with_op + last);
        lemma_scan_literal(with_op, last);
        let before = scan(head);
        assert(scan(with_op) == step(before, op_char(op)));
        let t = TokenV::Operator(op);
        let f = flush(before);
        let out = if prev.len() == 0 {
            seq![TokenV::Number(literal_digits(first))]
        } else {
            chain_postfix(first, prev.drop_last()) + seq![
                TokenV::Number(literal_digits(prev.last().1)),
                TokenV::Operator(prev.last().0),
            ]
        };
        assert(out == chain_postfix(first, prev));
        if prev.len() == 0 {
            assert(literal_digits(first).len() > 0);
            assert(f.out =~= out);
            assert(f.ops.len() == 0);
            assert(pop_ready(f.out, f.ops, prec(t)) == (f.out, f.ops));
            assert(f.ops.push(t) =~= seq![t]);
        } else {
            assert(is_literal(prev[prev.len() - 1].1));
            assert(literal_digits(prev.last().1).len() > 0);
            let o = TokenV::Operator(prev.last().0);
            assert(f.ops == seq![o]);
            assert(f.ops.last() == o);
            assert(f.ops.drop_last() =~= Seq::<TokenV>::empty());
            assert(pop_ready(f.out.push(o), Seq::empty(), prec(t)) == (
                f.out.push(o),
                Seq::<TokenV>::empty(),
            ));
            assert(pop_ready(f.out, f.ops, prec(t)) == (f.out.push(o), Seq::<TokenV>::empty()));
            assert(f.out.push(o) =~= out);
            assert(Seq::<TokenV>::empty().push(t) =~= seq![t]);
        }
        assert(scan(with_op).buf =~= Seq::<u8>::empty());
        assert(Seq::<u8>::empty() + literal_digits(last) =~= literal_digits(last));
    }
}

/// The converter turns a chain into its postfix form.
proof fn lemma_postfix_chain(first: Seq<char>, rest: Seq<(Op, Seq<char>)>)
    requires
        is_chain(first, rest),
    ensures
        postfix_of(chain_text(first, rest)) == chain_postfix(first, rest),
{
    lemma_scan_chain(first, rest);
    let f = flush(scan(chain_text(first, rest)));
    if rest.len() == 0 {
        assert(literal_digits(first).len() > 0);
        assert(f.ops.len() == 0);
        assert(drain(f.out, f.ops) == f.out);
        assert(f.out =~= chain_postfix(first, rest));
    } else {
        assert(is_literal(rest[rest.len() - 1].1));
        assert(literal_digits(rest.last().1).len() > 0);
        let o = TokenV::Operator(rest.last().0);
        assert(f.ops == seq![o]);
        assert(f.ops.last() == o);
        assert(f.ops.drop_last() =~= Seq::<TokenV>::empty());
        assert(drain(f.out.push(o), Seq::empty()) == f.out.push(o));
        assert(drain(f.out, f.ops) == f.out.push(o));
        assert(f.out.push(o) =~= chain_postfix(first, rest));
    }
}

/// Running the postfix form of a chain leaves its left-to-right value alone
/// on the stack.
proof fn lemma_run_chain(first: Seq<char>, rest: Seq<(Op, Seq<char>)>)
    ensures
        run(chain_postfix(first, rest)) == match chain_value(first, rest) {
            Ok(v) => Ok(seq![v]),
            Err(e) => Err::<Seq<i32>, EvalError>(e),
        },
    decreases rest.len(),
{
    let ts = chain_postfix(first, rest);
    if rest.len() == 0 {
        assert(ts.drop_last() =~= Seq::<TokenV>::empty());
        assert(run(ts.drop_last()) == Ok::<Seq<i32>, EvalError>(Seq::empty()));
        assert(ts.last() == TokenV::Number(literal_digits(first)));
        if let Ok(v) = number_value(literal_digits(first)) {
            assert(Seq::<i32>::empty().push(v) =~= seq![v]);
        }
    } else {
        let p = chain_postfix(first, rest.drop_last());
        lemma_run_chain(first, rest.drop_last());
        let n = TokenV::Number(literal_digits(rest.last().1));
        let a = ts.drop_last();
        assert(a =~= p.push(n));
        assert(a.drop_last() =~= p);
        assert(a.last() == n);
        assert(ts.last() == TokenV::Operator(rest.last().0));
        assert(run(ts) == match run(a) {
            Ok(st) => run_token(st, TokenV::Operator(rest.last().0)),
            Err(e) => Err(e),
        });
        assert(run(a) == match run(p) {
            Ok(st) => run_token(st, n),
            Err(e) => Err(e),
        });
        if let Ok(v) = chain_value(first, rest.drop_last()) {
            if let Ok(x) = number_value(literal_digits(rest.last().1)) {
                let st = seq![v].push(x);
                assert(st[st.len() - 2] == v);
                if let Ok(w) = apply_op(rest.last().0, v, x) {
                    assert(st.drop_last().drop_last().push(w) =~= seq![w]);
                }
            }
        }
    }
}

/// The operators of a chain's postfix form are the chain's operators, in
/// the order of the input.
proof fn lemma_operators_chain(first: Seq<char>, rest: Seq<(Op, Seq<char>)>)
    ensures
        operators_of(chain_postfix(first, rest)) == rest.map_values(|p: (Op, Seq<char>)| p.0),
    decreases rest.len(),
{
    let ts = chain_postfix(first, rest);
    if rest.len() == 0 {
        assert(ts.drop_last() =~= Seq::<TokenV>::empty());
        assert(operators_of(ts.drop_last()) == Seq::<Op>::empty());
        assert(rest.map_values(|p: (Op, Seq<char>)| p.0) =~= Seq::<Op>::empty());
    } else {
        let p = chain_postfix(first, rest.drop_last());
        lemma_operators_chain(first, rest.drop_last());
        let n = TokenV::Number(literal_digits(rest.last().1));
        let a = ts.drop_last();
        assert(a =~= p.push(n));
        assert(a.drop_last() =~= p);
        assert(a.last() == n);
        assert(ts.last() == TokenV::Operator(rest.last().0));
        assert(operators_of(a) == operators_of(p));
        assert(operators_of(ts) == operators_of(p).push(rest.last().0));
        assert(rest.map_values(|p: (Op, Seq<char>)| p.0) =~= rest.drop_last().map_values(
            |p: (Op, Seq<char>)| p.0,
        ).push(rest.last().0));
    }
}

/// Without parentheses, an expression evaluates strictly from left to
/// right: its value is that of applying each operator in turn to the value
/// so far and the next literal, whatever the operators are.
pub proof fn lemma_chain_left_to_right(first: Seq<char>, rest: Seq<(Op, Seq<char>)>)
    requires
        is_chain(first, rest),
    ensures
        evaluation(chain_text(first, rest)) == chain_value(first, rest),
{
    lemma_postfix_chain(first, rest);
    lemma_run_chain(first, rest);
}

/// Without parentheses, the postfix form of an expression with `N`
/// operators holds exactly those `N` operators, in the order of the input.
pub proof fn lemma_chain_operators_in_order(first: Seq<char>, rest: Seq<(Op, Seq<char>)>)
    requires
        is_chain(first, rest),
    ensures
        operators_of(postfix_of(chain_text(first, rest))) == rest.map_values(
            |p: (Op, Seq<char>)| p.0,
        ),
        operators_of(postfix_of(chain_text(first, rest))).len() == rest.len(),
{
    lemma_postfix_chain(first, rest);
    lemma_operators_chain(first, rest);
}

/// The value of an expression depends on its text alone: two evaluations
/// of the same text agree.
pub proof fn lemma_evaluation_deterministic(s: Seq<char>, t: Seq<char>)
    requires
        s == t,
    ensures
        evaluation(s) == evaluation(t),
        postfix_of(s) == postfix_of(t),
{
}

} // verus!
