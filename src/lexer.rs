use vstd::prelude::*;

verus! {

/// Characters with the Unicode `White_Space` property, the separators of
/// tokens.
pub open spec fn is_space(c: char) -> bool {
    ||| '\u{9}' <= c <= '\u{d}'
    ||| c == ' '
    ||| c == '\u{85}'
    ||| c == '\u{a0}'
    ||| c == '\u{1680}'
    ||| '\u{2000}' <= c <= '\u{200a}'
    ||| c == '\u{2028}'
    ||| c == '\u{2029}'
    ||| c == '\u{202f}'
    ||| c == '\u{205f}'
    ||| c == '\u{3000}'
}

/// Length of the run of non-space characters at the start of `s`.
pub open spec fn word_len(s: Seq<char>) -> nat
    decreases s.len(),
{
    if s.len() == 0 || is_space(s[0]) {
        0
    } else {
        1 + word_len(s.drop_first())
    }
}

proof fn lemma_word_len_bound(s: Seq<char>)
    ensures
        word_len(s) <= s.len(),
    decreases s.len(),
{
    if s.len() > 0 && !is_space(s[0]) {
        lemma_word_len_bound(s.drop_first());
    }
}

#[via_fn]
proof fn words_decreases(s: Seq<char>) {
    lemma_word_len_bound(s);
}

/// The maximal runs of non-space characters of `s`, in order.
pub open spec fn words(s: Seq<char>) -> Seq<Seq<char>>
    decreases s.len()
    via words_decreases

{
    if s.len() == 0 {
        Seq::empty()
    } else if is_space(s[0]) {
        words(s.drop_first())
    } else {
        let n = word_len(s);
        seq![s.take(n as int)] + words(s.skip(n as int))
    }
}

/// The first word ends at the first space.
pub proof fn lemma_word_len_exact(s: Seq<char>, k: int)
    requires
        0 <= k <= s.len(),
        forall|i: int| 0 <= i < k ==> !is_space(#[trigger] s[i]),
        k == s.len() || is_space(s[k]),
    ensures
        word_len(s) == k,
    decreases k,
{
    if k > 0 {
        lemma_word_len_exact(s.drop_first(), k - 1);
    }
}

/// A space in front of the rest of the text adds no word.
pub proof fn lemma_words_at_space(c: Seq<char>, i: int)
    requires
        0 <= i < c.len(),
        is_space(c[i]),
    ensures
        words(c.skip(i)) == words(c.skip(i + 1)),
{
    assert(c.skip(i).drop_first() =~= c.skip(i + 1));
}

/// A maximal run of non-space characters is the next word.
pub proof fn lemma_words_at_word(c: Seq<char>, i: int, j: int)
    requires
        0 <= i < j <= c.len(),
        forall|k: int| i <= k < j ==> !is_space(#[trigger] c[k]),
        j == c.len() || is_space(c[j]),
    ensures
        words(c.skip(i)) == seq![c.subrange(i, j)] + words(c.skip(j)),
{
    let s = c.skip(i);
    assert forall|k: int| 0 <= k < j - i implies !is_space(#[trigger] s[k]) by {
        assert(s[k] == c[i + k]);
    }
    lemma_word_len_exact(s, j - i);
    assert(s.take(j - i) =~= c.subrange(i, j));
    assert(s.skip(j - i) =~= c.skip(j));
}

pub open spec fn is_digit(c: char) -> bool {
    '0' <= c <= '9'
}

pub open spec fn digit_value(c: char) -> int {
    c as int - '0' as int
}

/// The number that a sequence of decimal digits denotes.
pub open spec fn digits_value(d: Seq<char>) -> int
    decreases d.len(),
{
    if d.len() == 0 {
        0
    } else {
        10 * digits_value(d.drop_last()) + digit_value(d.last())
    }
}

/// A non-empty sequence of decimal digits.
pub open spec fn is_numeral(d: Seq<char>) -> bool {
    d.len() > 0 && forall|i: int| 0 <= i < d.len() ==> is_digit(#[trigger] d[i])
}

/// The integer that a literal denotes: an optional `+` or `-` followed by
/// decimal digits.
pub open spec fn literal_value(t: Seq<char>) -> Option<int> {
    if t.len() > 0 && (t[0] == '-' || t[0] == '+') {
        let d = t.drop_first();
        if is_numeral(d) {
            Some(if t[0] == '-' { -digits_value(d) } else { digits_value(d) })
        } else {
            None
        }
    } else if is_numeral(t) {
        Some(digits_value(t))
    } else {
        None
    }
}

/// The 64-bit value of a literal, when it has one.
pub open spec fn parse_literal(t: Seq<char>) -> Option<i64> {
    match literal_value(t) {
        Some(v) => if i64::MIN <= v <= i64::MAX {
            Some(v as i64)
        } else {
            None
        },
        None => None,
    }
}

/// Whether `c` separates tokens.
pub fn is_space_char(c: char) -> (r: bool)
    ensures
        r == is_space(c),
{
    ('\u{9}' <= c && c <= '\u{d}') || c == ' ' || c == '\u{85}' || c == '\u{a0}' || c == '\u{1680}'
        || ('\u{2000}' <= c && c <= '\u{200a}') || c == '\u{2028}' || c == '\u{2029}' || c
        == '\u{202f}' || c == '\u{205f}' || c == '\u{3000}'
}

proof fn lemma_digits_value_nonneg(d: Seq<char>)
    requires
        forall|i: int| 0 <= i < d.len() ==> is_digit(#[trigger] d[i]),
    ensures
        digits_value(d) >= 0,
    decreases d.len(),
{
    if d.len() > 0 {
        lemma_digits_value_nonneg(d.drop_last());
    }
}

/// A prefix of a numeral never denotes more than the numeral.
proof fn lemma_digits_value_prefix(d: Seq<char>, k: int)
    requires
        0 <= k <= d.len(),
        forall|i: int| 0 <= i < d.len() ==> is_digit(#[trigger] d[i]),
    ensures
        digits_value(d.take(k)) <= digits_value(d),
    decreases d.len(),
{
    if k < d.len() {
        let p = d.drop_last();
        assert(p.take(k) =~= d.take(k));
        lemma_digits_value_prefix(p, k);
        lemma_digits_value_nonneg(p);
    } else {
        assert(d.take(k) =~= d);
    }
}

const MAGNITUDE_LIMIT: u64 = 9223372036854775808;

/// Once a prefix of a numeral exceeds `bound`, so does the numeral.
proof fn lemma_prefix_exceeds(d: Seq<char>, k: int, bound: int)
    requires
        0 <= k <= d.len(),
        digits_value(d.take(k)) > bound,
        is_numeral(d),
    ensures
        digits_value(d) > bound,
{
    lemma_digits_value_prefix(d, k);
}

/// Parses `s[lo..hi]` as a decimal integer literal.
pub fn parse_range(s: &Vec<char>, lo: usize, hi: usize) -> (r: Option<i64>)
    requires
        lo <= hi <= s@.len(),
    ensures
        r == parse_literal(s@.subrange(lo as int, hi as int)),
{
    let ghost t = s@.subrange(lo as int, hi as int);
    let mut start: usize = lo;
    let mut negative: bool = false;
    if lo < hi && (s[lo] == '-' || s[lo] == '+') {
        negative = s[lo] == '-';
        start = lo + 1;
    }
    let ghost d = s@.subrange(start as int, hi as int);
    assert(start > lo ==> d =~= t.drop_first());
    assert(start == lo ==> d =~= t);
    assert(literal_value(t) == if is_numeral(d) {
        Some(if negative { -digits_value(d) } else { digits_value(d) })
    } else {
        Option::<int>::None
    });
    if start == hi {
        return None;
    }
    let mut magnitude: u64 = 0;
    let mut k: usize = start;
    while k < hi
        invariant
            lo <= start <= k <= hi <= s@.len(),
            d == s@.subrange(start as int, hi as int),
            forall|i: int| start <= i < k ==> is_digit(#[trigger] s@[i]),
            magnitude == digits_value(d.take(k - start)),
            magnitude <= MAGNITUDE_LIMIT,
            literal_value(s@.subrange(lo as int, hi as int)) == if is_numeral(d) {
                Some(if negative { -digits_value(d) } else { digits_value(d) })
            } else {
                Option::<int>::None
            },
        decreases hi - k,
    {
        let c = s[k];
        if !('0' <= c && c <= '9') {
            assert(d[k - start] == c);
            return None;
        }
        assert(d.take(k + 1 - start).drop_last() =~= d.take(k - start));
        assert(digits_value(d.take(k + 1 - start)) == 10 * magnitude + digit_value(c));
        if magnitude > 922337203685477580 {
            proof {
                assert(10 * magnitude + digit_value(c) > MAGNITUDE_LIMIT) by (nonlinear_arith)
                    requires
                        magnitude > 922337203685477580,
                        digit_value(c) >= 0,
                ;
                if is_numeral(d) {
                    lemma_prefix_exceeds(d, k + 1 - start, MAGNITUDE_LIMIT as int);
                }
            }
            return None;
        }
        magnitude = magnitude * 10 + (c as u64 - '0' as u64);
        k = k + 1;
        if magnitude > MAGNITUDE_LIMIT {
            proof {
                if is_numeral(d) {
                    lemma_prefix_exceeds(d, k - start, MAGNITUDE_LIMIT as int);
                }
            }
            return None;
        }
    }
    assert(d.take(k - start) =~= d);
    if negative {
        if magnitude == MAGNITUDE_LIMIT {
            Some(i64::MIN)
        } else {
            Some(-(magnitude as i64))
        }
    } else if magnitude < MAGNITUDE_LIMIT {
        Some(magnitude as i64)
    } else {
        None
    }
}

} // verus!
