use vstd::prelude::*;

use crate::calculator::{operator_of, Operator};
use crate::lexer::{digit_value, digits_value, is_digit, is_numeral, is_space, parse_literal};

verus! {

/// An arithmetic expression as a tree: every operator has its two operands.
pub enum Expr {
    Literal(i64),
    Apply(Operator, Box<Expr>, Box<Expr>),
}

/// The value of an expression in exact integer arithmetic, `None` where an
/// intermediate result does not fit in 64 bits or a divisor is zero.
pub open spec fn value(e: Expr) -> Option<i64>
    decreases e,
{
    match e {
        Expr::Literal(n) => Some(n),
        Expr::Apply(op, l, r) => match (value(*l), value(*r)) {
            (Some(a), Some(b)) => op.result(a as int, b as int),
            _ => None,
        },
    }
}

/// The character of a decimal digit.
pub open spec fn digit_char(d: int) -> char
    recommends
        0 <= d < 10,
{
    seq!['0', '1', '2', '3', '4', '5', '6', '7', '8', '9'][d]
}

/// The decimal digits of `m`, without leading zeros.
pub open spec fn numeral(m: nat) -> Seq<char>
    decreases m,
{
    if m < 10 {
        seq![digit_char(m as int)]
    } else {
        numeral(m / 10).push(digit_char((m % 10) as int))
    }
}

/// The decimal literal of `n`, with a `-` in front of a negative value.
pub open spec fn decimal(n: i64) -> Seq<char> {
    if n < 0 {
        seq!['-'] + numeral((-n) as nat)
    } else {
        numeral(n as nat)
    }
}

/// The token of an operator.
pub open spec fn symbol(op: Operator) -> Seq<char> {
    match op {
        Operator::Add => seq!['+'],
        Operator::Sub => seq!['-'],
        Operator::Mul => seq!['*'],
        Operator::Div => seq!['/'],
    }
}

/// The tokens of an expression in postfix order: left operand, right
/// operand, operator.
pub open spec fn postfix(e: Expr) -> Seq<Seq<char>>
    decreases e,
{
    match e {
        Expr::Literal(n) => seq![decimal(n)],
        Expr::Apply(op, l, r) => postfix(*l) + postfix(*r) + seq![symbol(op)],
    }
}

pub proof fn lemma_digit_char(d: int)
    requires
        0 <= d < 10,
    ensures
        is_digit(digit_char(d)),
        digit_value(digit_char(d)) == d,
{
    assert(is_digit(digit_char(d)) && digit_value(digit_char(d)) == d) by {
        if d == 0 {
        } else if d == 1 {
        } else if d == 2 {
        } else if d == 3 {
        } else if d == 4 {
        } else if d == 5 {
        } else if d == 6 {
        } else if d == 7 {
        } else if d == 8 {
        } else {
        }
    }
}

/// The digits of `numeral(m)` denote `m`.
pub proof fn lemma_numeral(m: nat)
    ensures
        is_numeral(numeral(m)),
        digits_value(numeral(m)) == m,
    decreases m,
{
    if m < 10 {
        lemma_digit_char(m as int);
        assert(numeral(m).drop_last() =~= Seq::<char>::empty());
        assert(digits_value(Seq::<char>::empty()) == 0);
    } else {
        lemma_numeral(m / 10);
        lemma_digit_char((m % 10) as int);
        let s = numeral(m);
        assert(s.drop_last() =~= numeral(m / 10));
        assert forall|i: int| 0 <= i < s.len() implies is_digit(#[trigger] s[i]) by {
            if i < s.len() - 1 {
                assert(s[i] == numeral(m / 10)[i]);
            }
        }
        assert(s.last() == digit_char((m % 10) as int));
        assert(digits_value(s) == 10 * digits_value(numeral(m / 10)) + digit_value(s.last()));
        assert(m == 10 * (m / 10) + m % 10);
    }
}

/// A decimal literal is a token that reads back as its value and is no
/// operator.
pub proof fn lemma_decimal(n: i64)
    ensures
        parse_literal(decimal(n)) == Some(n),
        operator_of(decimal(n)) is None,
        decimal(n).len() > 0,
        forall|i: int| 0 <= i < decimal(n).len() ==> !is_space(#[trigger] decimal(n)[i]),
{
    let t = decimal(n);
    if n < 0 {
        let m = (-n) as nat;
        lemma_numeral(m);
        assert(t.drop_first() =~= numeral(m));
        assert forall|i: int| 0 <= i < t.len() implies !is_space(#[trigger] t[i]) by {
            if i > 0 {
                assert(t[i] == numeral(m)[i - 1]);
            }
        }
    } else {
        lemma_numeral(n as nat);
        assert(is_digit(t[0]));
        assert forall|i: int| 0 <= i < t.len() implies !is_space(#[trigger] t[i]) by {
            assert(is_digit(t[i]));
        }
    }
}

/// An operator's token spells that operator.
pub proof fn lemma_symbol(op: Operator)
    ensures
        operator_of(symbol(op)) == Some(op),
        symbol(op).len() == 1,
        !is_space(symbol(op)[0]),
{
}

} // verus!
