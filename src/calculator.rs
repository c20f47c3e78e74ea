use vstd::prelude::*;

use crate::error::CalcError;
use crate::lexer::{
    is_space, is_space_char, lemma_words_at_space, lemma_words_at_word, parse_literal, parse_range,
    words,
};

verus! {

/// The four arithmetic operators.
#[derive(Debug, Clone, Copy, PartialEq, Eq, Structural)]
pub enum Operator {
    Add,
    Sub,
    Mul,
    Div,
}

/// Integer division rounded toward zero.
pub open spec fn quotient(a: int, b: int) -> int
    recommends
        b != 0,
{
    let q: int = vstd::math::abs(a) as int / vstd::math::abs(b) as int;
    if (a < 0) != (b < 0) {
        -q
    } else {
        q
    }
}

/// `v` as a 64-bit value, when it fits.
pub open spec fn fit(v: int) -> Option<i64> {
    if i64::MIN <= v <= i64::MAX {
        Some(v as i64)
    } else {
        None
    }
}

/// The operator that a token spells, if any.
pub open spec fn operator_of(t: Seq<char>) -> Option<Operator> {
    if t.len() != 1 {
        None
    } else if t[0] == '+' {
        Some(Operator::Add)
    } else if t[0] == '-' {
        Some(Operator::Sub)
    } else if t[0] == '*' {
        Some(Operator::Mul)
    } else if t[0] == '/' {
        Some(Operator::Div)
    } else {
        None
    }
}

impl Operator {
    /// The exact result of the operation on `a` (left) and `b` (right),
    /// `None` where it has no 64-bit value.
    pub open spec fn result(self, a: int, b: int) -> Option<i64> {
        match self {
            Operator::Add => fit(a + b),
            Operator::Sub => fit(a - b),
            Operator::Mul => fit(a * b),
            Operator::Div => if b == 0 {
                None
            } else {
                fit(quotient(a, b))
            },
        }
    }

    /// Applies the operator with `a` as left and `b` as right operand.
    pub fn apply(self, a: i64, b: i64) -> (r: Option<i64>)
        ensures
            r == self.result(a as int, b as int),
    {
        match self {
            Operator::Add => a.checked_add(b),
            Operator::Sub => a.checked_sub(b),
            Operator::Mul => a.checked_mul(b),
            Operator::Div => a.checked_div(b),
        }
    }
}

/// Recognises `s[lo..hi]` as an operator token.
pub fn operator_at(s: &Vec<char>, lo: usize, hi: usize) -> (r: Option<Operator>)
    requires
        lo <= hi <= s@.len(),
    ensures
        r == operator_of(s@.subrange(lo as int, hi as int)),
{
    if hi - lo != 1 {
        None
    } else if s[lo] == '+' {
        Some(Operator::Add)
    } else if s[lo] == '-' {
        Some(Operator::Sub)
    } else if s[lo] == '*' {
        Some(Operator::Mul)
    } else if s[lo] == '/' {
        Some(Operator::Div)
    } else {
        None
    }
}

/// The stack after processing one token, or the error that token raises.
pub open spec fn step(stack: Seq<i64>, t: Seq<char>) -> Result<Seq<i64>, CalcError> {
    match operator_of(t) {
        Some(op) => if stack.len() == 0 {
            Err(CalcError::InvalidRightSide)
        } else if stack.len() == 1 {
            Err(CalcError::InvalidLeftSide)
        } else {
            let n = stack.len() as int;
            match op.result(stack[n - 2] as int, stack[n - 1] as int) {
                Some(v) => Ok(stack.take(n - 2).push(v)),
                None => Err(CalcError::EvaluationError),
            }
        },
        None => match parse_literal(t) {
            Some(v) => Ok(stack.push(v)),
            None => Err(CalcError::InvalidOperator),
        },
    }
}

/// The stack after processing the tokens left to right from `stack`, or the
/// first error raised.
pub open spec fn process(stack: Seq<i64>, tokens: Seq<Seq<char>>) -> Result<
    Seq<i64>,
    CalcError,
>
    decreases tokens.len(),
{
    if tokens.len() == 0 {
        Ok(stack)
    } else {
        match step(stack, tokens[0]) {
            Ok(next) => process(next, tokens.drop_first()),
            Err(e) => Err(e),
        }
    }
}

/// The outcome of evaluating a sequence of tokens from an empty stack.
pub open spec fn evaluate_tokens(tokens: Seq<Seq<char>>) -> Result<i64, CalcError> {
    match process(Seq::empty(), tokens) {
        Ok(stack) => if stack.len() == 1 {
            Ok(stack[0])
        } else {
            Err(CalcError::EvaluationError)
        },
        Err(e) => Err(e),
    }
}

/// The outcome of evaluating an expression.
pub open spec fn evaluate(expression: Seq<char>) -> Result<i64, CalcError> {
    evaluate_tokens(words(expression))
}

proof fn lemma_process_first(stack: Seq<i64>, t: Seq<char>, rest: Seq<Seq<char>>)
    ensures
        process(stack, seq![t] + rest) == match step(stack, t) {
            Ok(next) => process(next, rest),
            Err(e) => Err(e),
        },
{
    assert((seq![t] + rest).drop_first() =~= rest);
}

/// An evaluator: the stack of values of one evaluation.
pub struct Calculator {
    stack: Vec<i64>,
}

impl View for Calculator {
    type V = Seq<i64>;

    closed spec fn view(&self) -> Seq<i64> {
        self.stack@
    }
}

impl Calculator {
    /// Processes the token `s[lo..hi]`.
    fn feed(&mut self, s: &Vec<char>, lo: usize, hi: usize) -> (r: Result<(), CalcError>)
        requires
            lo <= hi <= s@.len(),
        ensures
            match step(old(self)@, s@.subrange(lo as int, hi as int)) {
                Ok(next) => r is Ok && final(self)@ == next,
                Err(e) => r == Err::<(), CalcError>(e),
            },
    {
        match operator_at(s, lo, hi) {
            Some(op) => {
                let b = match self.stack.pop() {
                    Some(b) => b,
                    None => return Err(CalcError::InvalidRightSide),
                };
                let a = match self.stack.pop() {
                    Some(a) => a,
                    None => return Err(CalcError::InvalidLeftSide),
                };
                match op.apply(a, b) {
                    Some(v) => {
                        self.stack.push(v);
                        assert(self.stack@ =~= old(self)@.take(old(self)@.len() - 2).push(v));
                        Ok(())
                    },
                    None => Err(CalcError::EvaluationError),
                }
            },
            None => match parse_range(s, lo, hi) {
                Some(v) => {
                    self.stack.push(v);
                    Ok(())
                },
                None => Err(CalcError::InvalidOperator),
            },
        }
    }

    /// Evaluates an expression in Reverse Polish Notation.
    ///
    /// The outcome is a function of the text alone: each call starts from an
    /// empty stack, so evaluating the same text again gives the same result.
    pub fn run(expression: &str) -> (r: Result<i64, CalcError>)
        ensures
            r == evaluate(expression@),
    {
        let chars = chars_of(expression);
        let ghost c = chars@;
        let mut calc = Calculator { stack: Vec::new() };
        let n = chars.len();
        let mut i: usize = 0;
        assert(c.skip(0) =~= c);
        while i < n
            invariant
                i <= n == c.len(),
                c == chars@,
                c == expression@,
                process(Seq::empty(), words(c)) == process(calc@, words(c.skip(i as int))),
            decreases n - i,
        {
            if is_space_char(chars[i]) {
                proof {
                    lemma_words_at_space(c, i as int);
                }
                i = i + 1;
            } else {
                let mut j: usize = i + 1;
                while j < n && !is_space_char(chars[j])
                    invariant
                        i < j <= n == c.len(),
                        c == chars@,
                        forall|k: int| i <= k < j ==> !is_space(#[trigger] c[k]),
                    decreases n - j,
                {
                    j = j + 1;
                }
                proof {
                    lemma_words_at_word(c, i as int, j as int);
                    lemma_process_first(calc@, c.subrange(i as int, j as int), words(c.skip(j as int)));
                }
                match calc.feed(&chars, i, j) {
                    Ok(()) => {},
                    Err(e) => return Err(e),
                }
                i = j;
            }
        }
        assert(c.skip(n as int) =~= Seq::<char>::empty());
        assert(words(c.skip(n as int)) =~= Seq::<Seq<char>>::empty());
        if calc.stack.len() != 1 {
            return Err(CalcError::EvaluationError);
        }
        match calc.stack.pop() {
            Some(v) => Ok(v),
            None => Err(CalcError::EvaluationError),
        }
    }
}

/// The characters of `s`, in order.
fn chars_of(s: &str) -> (r: Vec<char>)
    ensures
        r@ == s@,
{
    let mut v: Vec<char> = Vec::new();
    for ch in it: s.chars()
        invariant
            v@ == it.seq().take(it.index() as int),
    {
        v.push(ch);
    }
    v
}

} // verus!
