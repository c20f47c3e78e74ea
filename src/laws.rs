use vstd::prelude::*;

use crate::calculator::{evaluate, evaluate_tokens, process, step};
use crate::error::CalcError;
use crate::expr::{lemma_decimal, lemma_symbol, postfix, value, Expr};
use crate::lexer::{is_space, lemma_word_len_exact, words};

verus! {

/// A token: a non-empty run of non-space characters.
pub open spec fn is_token(t: Seq<char>) -> bool {
    t.len() > 0 && forall|i: int| 0 <= i < t.len() ==> !is_space(#[trigger] t[i])
}

/// A run of spaces, possibly empty.
pub open spec fn is_blank(g: Seq<char>) -> bool {
    forall|i: int| 0 <= i < g.len() ==> is_space(#[trigger] g[i])
}

/// `gaps` can separate `tokens`: one gap before, between and after the
/// tokens, every gap blank, and the gaps between two tokens non-empty.
pub open spec fn separates(tokens: Seq<Seq<char>>, gaps: Seq<Seq<char>>) -> bool {
    &&& gaps.len() == tokens.len() + 1
    &&& forall|k: int| 0 <= k < gaps.len() ==> is_blank(#[trigger] gaps[k])
    &&& forall|k: int| 0 < k < tokens.len() ==> (#[trigger] gaps[k]).len() > 0
}

/// The text `gaps[0] tokens[0] gaps[1] tokens[1] ... tokens[n-1] gaps[n]`.
pub open spec fn layout(tokens: Seq<Seq<char>>, gaps: Seq<Seq<char>>) -> Seq<char>
    decreases tokens.len(),
{
    if tokens.len() == 0 {
        if gaps.len() > 0 {
            gaps[0]
        } else {
            Seq::empty()
        }
    } else {
        gaps[0] + tokens[0] + layout(tokens.drop_first(), gaps.drop_first())
    }
}

proof fn lemma_words_after_blank(g: Seq<char>, rest: Seq<char>)
    requires
        is_blank(g),
    ensures
        words(g + rest) == words(rest),
    decreases g.len(),
{
    if g.len() > 0 {
        assert((g + rest).drop_first() =~= g.drop_first() + rest);
        lemma_words_after_blank(g.drop_first(), rest);
    } else {
        assert(g + rest =~= rest);
    }
}

proof fn lemma_words_after_token(t: Seq<char>, rest: Seq<char>)
    requires
        is_token(t),
        rest.len() == 0 || is_space(rest[0]),
    ensures
        words(t + rest) == seq![t] + words(rest),
{
    let s = t + rest;
    assert forall|i: int| 0 <= i < t.len() implies !is_space(#[trigger] s[i]) by {
        assert(s[i] == t[i]);
    }
    lemma_word_len_exact(s, t.len() as int);
    assert(s.take(t.len() as int) =~= t);
    assert(s.skip(t.len() as int) =~= rest);
}

/// Splitting a layout of tokens at whitespace gives back the tokens.
pub proof fn lemma_words_of_layout(tokens: Seq<Seq<char>>, gaps: Seq<Seq<char>>)
    requires
        forall|k: int| 0 <= k < tokens.len() ==> is_token(#[trigger] tokens[k]),
        separates(tokens, gaps),
    ensures
        words(layout(tokens, gaps)) == tokens,
    decreases tokens.len(),
{
    if tokens.len() == 0 {
        assert(gaps[0] + Seq::<char>::empty() =~= gaps[0]);
        lemma_words_after_blank(gaps[0], Seq::empty());
        assert(words(Seq::<char>::empty()) =~= Seq::<Seq<char>>::empty());
    } else {
        let rest_tokens = tokens.drop_first();
        let rest_gaps = gaps.drop_first();
        assert forall|k: int| 0 <= k < rest_tokens.len() implies is_token(
            #[trigger] rest_tokens[k],
        ) by {
            assert(rest_tokens[k] == tokens[k + 1]);
        }
        assert forall|k: int| 0 <= k < rest_gaps.len() implies is_blank(#[trigger] rest_gaps[k]) by {
            assert(rest_gaps[k] == gaps[k + 1]);
        }
        assert forall|k: int| 0 < k < rest_tokens.len() implies (#[trigger] rest_gaps[k]).len()
            > 0 by {
            assert(rest_gaps[k] == gaps[k + 1]);
        }
        let tail = layout(rest_tokens, rest_gaps);
        lemma_words_of_layout(rest_tokens, rest_gaps);
        assert(is_blank(gaps[0]));
        assert(is_blank(gaps[1]));
        assert(tail.len() == 0 || is_space(tail[0])) by {
            if rest_tokens.len() > 0 {
                assert(gaps[1].len() > 0);
                assert(tail[0] == gaps[1][0]);
            }
        }
        assert(gaps[0] + tokens[0] + tail =~= gaps[0] + (tokens[0] + tail));
        lemma_words_after_blank(gaps[0], tokens[0] + tail);
        lemma_words_after_token(tokens[0], tail);
        assert(seq![tokens[0]] + rest_tokens =~= tokens);
    }
}

/// Whitespace before, between and after the tokens does not change the
/// outcome: any two layouts of the same tokens evaluate alike, and as the
/// tokens themselves.
pub proof fn law_spacing_irrelevant(
    tokens: Seq<Seq<char>>,
    gaps1: Seq<Seq<char>>,
    gaps2: Seq<Seq<char>>,
)
    requires
        forall|k: int| 0 <= k < tokens.len() ==> is_token(#[trigger] tokens[k]),
        separates(tokens, gaps1),
        separates(tokens, gaps2),
    ensures
        evaluate(layout(tokens, gaps1)) == evaluate(layout(tokens, gaps2)),
        evaluate(layout(tokens, gaps1)) == evaluate_tokens(tokens),
{
    lemma_words_of_layout(tokens, gaps1);
    lemma_words_of_layout(tokens, gaps2);
}

/// The tokens of an expression tree are tokens.
pub proof fn lemma_postfix_tokens(e: Expr)
    ensures
        forall|k: int| 0 <= k < postfix(e).len() ==> is_token(#[trigger] postfix(e)[k]),
    decreases e,
{
    match e {
        Expr::Literal(n) => {
            lemma_decimal(n);
        },
        Expr::Apply(op, l, r) => {
            lemma_postfix_tokens(*l);
            lemma_postfix_tokens(*r);
            lemma_symbol(op);
            let p = postfix(e);
            let pl = postfix(*l);
            let pr = postfix(*r);
            assert forall|k: int| 0 <= k < p.len() implies is_token(#[trigger] p[k]) by {
                if k < pl.len() {
                    assert(p[k] == pl[k]);
                } else if k < pl.len() + pr.len() {
                    assert(p[k] == pr[k - pl.len()]);
                } else {
                    assert(p[k] == crate::expr::symbol(op));
                }
            }
        },
    }
}

/// Processing the tokens of an expression tree pushes its value, or stops
/// with an evaluation error where it has none.
pub proof fn lemma_process_postfix(e: Expr, stack: Seq<i64>, rest: Seq<Seq<char>>)
    ensures
        process(stack, postfix(e) + rest) == match value(e) {
            Some(v) => process(stack.push(v), rest),
            None => Err(CalcError::EvaluationError),
        },
    decreases e,
{
    match e {
        Expr::Literal(n) => {
            lemma_decimal(n);
            assert((postfix(e) + rest).drop_first() =~= rest);
        },
        Expr::Apply(op, l, r) => {
            let tail = seq![crate::expr::symbol(op)] + rest;
            assert(postfix(e) + rest =~= postfix(*l) + (postfix(*r) + tail));
            lemma_process_postfix(*l, stack, postfix(*r) + tail);
            if let Some(a) = value(*l) {
                let s1 = stack.push(a);
                lemma_process_postfix(*r, s1, tail);
                if let Some(b) = value(*r) {
                    let s2 = s1.push(b);
                    lemma_symbol(op);
                    assert(tail.drop_first() =~= rest);
                    assert(s2[s2.len() - 2] == a);
                    assert(s2[s2.len() - 1] == b);
                    if let Some(v) = op.result(a as int, b as int) {
                        assert(s2.take(s2.len() - 2).push(v) =~= stack.push(v));
                    }
                    assert(process(s2, tail) == match step(s2, tail[0]) {
                        Ok(next) => process(next, rest),
                        Err(err) => Err(err),
                    });
                }
            }
        },
    }
}

/// A postfix expression in which every operator has its two operands
/// evaluates to its value in exact arithmetic, whatever whitespace lays out
/// its tokens; where an intermediate result does not fit in 64 bits or a
/// divisor is zero, it fails with an evaluation error.
pub proof fn law_postfix_evaluates(e: Expr, gaps: Seq<Seq<char>>)
    requires
        separates(postfix(e), gaps),
    ensures
        evaluate(layout(postfix(e), gaps)) == match value(e) {
            Some(v) => Ok(v),
            None => Err(CalcError::EvaluationError),
        },
{
    lemma_postfix_tokens(e);
    lemma_words_of_layout(postfix(e), gaps);
    let none = Seq::<Seq<char>>::empty();
    assert(postfix(e) + none =~= postfix(e));
    lemma_process_postfix(e, Seq::empty(), none);
    if let Some(v) = value(e) {
        assert(Seq::<i64>::empty().push(v)[0] == v);
    }
}

} // verus!
