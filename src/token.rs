use vstd::prelude::*;

verus! {

/// One of the four binary operators.
#[derive(Clone, Copy, Debug, PartialEq, Eq, Structural)]
pub enum Op {
    Add,
    Sub,
    Mul,
    Div,
}

/// An item of the postfix output queue or of the operator stack.
///
/// A number is kept as its decimal digits (each `0..=9`), most significant
/// first; it is read into an integer only when the postfix sequence is run.
#[derive(Debug, PartialEq, Eq)]
pub enum Token {
    Number(Vec<u8>),
    Operator(Op),
    OpenParen,
}

/// The mathematical value of a [`Token`].
pub ghost enum TokenV {
    Number(Seq<u8>),
    Operator(Op),
    OpenParen,
}

impl View for Token {
    type V = TokenV;

    open spec fn view(&self) -> TokenV {
        match self {
            Token::Number(ds) => TokenV::Number(ds@),
            Token::Operator(op) => TokenV::Operator(*op),
            Token::OpenParen => TokenV::OpenParen,
        }
    }
}

/// The views of a sequence of tokens.
pub open spec fn tokens_view(ts: Seq<Token>) -> Seq<TokenV> {
    ts.map_values(|t: Token| t@)
}

/// The value of a decimal digit sequence, most significant digit first.
pub open spec fn digits_value(ds: Seq<u8>) -> nat
    decreases ds.len(),
{
    if ds.len() == 0 {
        0
    } else {
        digits_value(ds.drop_last()) * 10 + ds.last() as nat
    }
}

} // verus!
