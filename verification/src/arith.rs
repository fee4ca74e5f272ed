//! Arithmetic typed into the search box.
//!
//! A query that is written in the characters of arithmetic is handed to an
//! expression evaluator, and what comes back is offered as a quick answer.
//! Before that, a query with a division gets its whole numbers written as
//! decimals, so that `7/2` is three and a half and not three.

use crate::text::{
    all_chars, chars_of, extend_chars, is_whitespace, is_whitespace_char, join, join_chars,
    lemma_join_keeps, lemma_replace_all_keeps, lemma_words_keep, replace_all, replace_chars,
    rows_of, slice_chars, split_words, string_of, words,
};
use vstd::prelude::*;

verus! {

/// Whether `c` is one of the ten decimal digits.
pub open spec fn is_digit(c: char) -> bool {
    '0' <= c && c <= '9'
}

/// Whether `s` is not empty and made of decimal digits.
pub open spec fn all_digits(s: Seq<char>) -> bool {
    s.len() > 0 && forall|i: int| 0 <= i < s.len() ==> is_digit(#[trigger] s[i])
}

/// The number that the decimal digits `s` write.
pub open spec fn number_of(s: Seq<char>) -> int
    decreases s.len(),
{
    if s.len() == 0 {
        0
    } else {
        number_of(s.drop_last()) * 10 + (s.last() as int - '0' as int)
    }
}

/// Whether `t` writes a whole number of 64 bits: decimal digits, with or
/// without one sign before them, whose value such a number can hold.
pub open spec fn is_integer_literal(t: Seq<char>) -> bool {
    if t.len() > 0 && t[0] == '-' {
        all_digits(t.skip(1)) && number_of(t.skip(1)) <= 0x8000_0000_0000_0000
    } else if t.len() > 0 && t[0] == '+' {
        all_digits(t.skip(1)) && number_of(t.skip(1)) <= 0x7fff_ffff_ffff_ffff
    } else {
        all_digits(t) && number_of(t) <= 0x7fff_ffff_ffff_ffff
    }
}

/// The word as the evaluator is to read it: a whole number gets `.0` behind
/// it, any other word stays as it is.
pub open spec fn as_decimal(t: Seq<char>) -> Seq<char> {
    if is_integer_literal(t) {
        t + seq!['.', '0']
    } else {
        t
    }
}

/// The expression that is evaluated for `query`. A query without `/` is
/// taken as it stands. In one with `/`, each `/` is first set apart by
/// spaces; then the words are taken, whole numbers among them are written as
/// decimals, and the words are put together with one space between each two;
/// last, each `/` between two spaces loses them.
pub open spec fn prepared(query: Seq<char>) -> Seq<char> {
    if query.contains('/') {
        replace_all(
            join(
                words(replace_all(query, seq!['/'], seq![' ', '/', ' '])).map_values(
                    |t: Seq<char>| as_decimal(t),
                ),
                seq![' '],
            ),
            seq![' ', '/', ' '],
            seq!['/'],
        )
    } else {
        query
    }
}

/// Whether `c` is a character of arithmetic: a digit, the decimal point, one
/// of `+ - * / % ^`, a parenthesis or white space.
pub open spec fn is_arithmetic_char(c: char) -> bool {
    ||| is_digit(c)
    ||| is_whitespace(c)
    ||| c == '.'
    ||| c == '+'
    ||| c == '-'
    ||| c == '*'
    ||| c == '/'
    ||| c == '%'
    ||| c == '^'
    ||| c == '('
    ||| c == ')'
}

/// Whether `s` is written in the characters of arithmetic alone.
pub open spec fn is_arithmetic_text(s: Seq<char>) -> bool {
    forall|i: int| 0 <= i < s.len() ==> is_arithmetic_char(#[trigger] s[i])
}

/// The test for a character of arithmetic, as a predicate.
pub open spec fn arithmetic() -> spec_fn(char) -> bool {
    |c: char| is_arithmetic_char(c)
}

/// Preparing a query that is written in the characters of arithmetic gives
/// an expression that is written in them.
pub proof fn lemma_prepared_is_arithmetic(query: Seq<char>)
    requires
        is_arithmetic_text(query),
    ensures
        is_arithmetic_text(prepared(query)),
{
    if query.contains('/') {
        let keep = arithmetic();
        let slash = seq!['/'];
        let spaced_slash = seq![' ', '/', ' '];
        assert(all_chars(query, keep));
        assert(all_chars(spaced_slash, keep));
        assert(all_chars(slash, keep));
        let spaced = replace_all(query, slash, spaced_slash);
        lemma_replace_all_keeps(query, slash, spaced_slash, keep);
        lemma_words_keep(spaced, keep);
        let tokens = words(spaced);
        let decimals = tokens.map_values(|t: Seq<char>| as_decimal(t));
        assert forall|i: int| 0 <= i < decimals.len() implies all_chars(
            #[trigger] decimals[i],
            keep,
        ) by {
            let t = tokens[i];
            assert(all_chars(t, keep));
            assert(decimals[i] == as_decimal(t));
            assert forall|k: int| 0 <= k < as_decimal(t).len() implies keep(
                #[trigger] as_decimal(t)[k],
            ) by {
                if k < t.len() {
                    assert(as_decimal(t)[k] == t[k]);
                }
            }
        }
        assert(all_chars(seq![' '], keep));
        lemma_join_keeps(decimals, seq![' '], keep);
        let joined = join(decimals, seq![' ']);
        lemma_replace_all_keeps(joined, spaced_slash, slash, keep);
        assert(all_chars(prepared(query), keep));
    }
}

/// A longer row of digits writes no smaller number.
pub proof fn lemma_number_grows(s: Seq<char>, k: int)
    requires
        0 <= k <= s.len(),
        forall|i: int| 0 <= i < s.len() ==> is_digit(#[trigger] s[i]),
    ensures
        0 <= number_of(s.take(k)) <= number_of(s),
    decreases s.len() - k,
{
    if k == s.len() {
        assert(s.take(k) =~= s);
        lemma_number_not_negative(s);
    } else {
        lemma_number_grows(s, k + 1);
        let longer = s.take(k + 1);
        assert(longer.drop_last() =~= s.take(k));
        assert(is_digit(s[k]));
        assert(longer.last() == s[k]);
        lemma_number_not_negative(s.take(k));
    }
}

/// Digits write no negative number.
pub proof fn lemma_number_not_negative(s: Seq<char>)
    requires
        forall|i: int| 0 <= i < s.len() ==> is_digit(#[trigger] s[i]),
    ensures
        0 <= number_of(s),
    decreases s.len(),
{
    if s.len() > 0 {
        let front = s.drop_last();
        assert forall|i: int| 0 <= i < front.len() implies is_digit(#[trigger] front[i]) by {
            assert(front[i] == s[i]);
        }
        lemma_number_not_negative(front);
        assert(is_digit(s[s.len() - 1]));
    }
}

/// Whether the characters of `t` from `from` on are decimal digits, at least
/// one, that write a number of at most `limit`.
fn digits_within(t: &Vec<char>, from: usize, limit: u64) -> (b: bool)
    requires
        from <= t.len(),
    ensures
        b == (all_digits(t@.skip(from as int)) && number_of(t@.skip(from as int)) <= limit),
{
    let ghost s = t@.skip(from as int);
    if from == t.len() {
        return false;
    }
    let mut acc: u128 = 0;
    let mut i: usize = from;
    proof {
        assert(s.take(0) =~= Seq::<char>::empty());
    }
    while i < t.len()
        invariant
            from <= i <= t.len(),
            s == t@.skip(from as int),
            forall|k: int| 0 <= k < i - from ==> is_digit(#[trigger] s[k]),
            acc == number_of(s.take(i - from)),
            acc <= limit,
        decreases t.len() - i,
    {
        let c = t[i];
        assert(s[i - from] == c);
        if !('0' <= c && c <= '9') {
            return false;
        }
        let d: u128 = (c as u32 - '0' as u32) as u128;
        proof {
            let longer = s.take(i - from + 1);
            assert(longer.drop_last() =~= s.take(i - from));
            assert(longer.last() == c);
        }
        acc = acc * 10 + d;
        if acc > limit as u128 {
            proof {
                if all_digits(s) {
                    lemma_number_grows(s, i - from + 1);
                }
            }
            return false;
        }
        i += 1;
    }
    proof {
        assert(s.take(s.len() as int) =~= s);
    }
    true
}

/// Whether `t` writes a whole number of 64 bits.
pub fn is_integer_token(t: &Vec<char>) -> (b: bool)
    ensures
        b == is_integer_literal(t@),
{
    if t.len() > 0 && t[0] == '-' {
        digits_within(t, 1, 0x8000_0000_0000_0000u64)
    } else if t.len() > 0 && t[0] == '+' {
        digits_within(t, 1, 0x7fff_ffff_ffff_ffffu64)
    } else {
        proof {
            assert(t@.skip(0) =~= t@);
        }
        digits_within(t, 0, 0x7fff_ffff_ffff_ffffu64)
    }
}

/// Whether `v` is written in the characters of arithmetic alone.
pub fn is_arithmetic_chars(v: &Vec<char>) -> (b: bool)
    ensures
        b == is_arithmetic_text(v@),
{
    let mut i: usize = 0;
    while i < v.len()
        invariant
            i <= v.len(),
            forall|k: int| 0 <= k < i ==> is_arithmetic_char(#[trigger] v@[k]),
        decreases v.len() - i,
    {
        let c = v[i];
        let ok = ('0' <= c && c <= '9') || is_whitespace_char(c) || c == '.' || c == '+' || c
            == '-' || c == '*' || c == '/' || c == '%' || c == '^' || c == '(' || c == ')';
        if !ok {
            return false;
        }
        i += 1;
    }
    true
}

/// The expression that is evaluated for the query `v`.
pub fn prepare_chars(v: &Vec<char>) -> (out: Vec<char>)
    ensures
        out@ == prepared(v@),
{
    let mut has_slash = false;
    let mut i: usize = 0;
    while i < v.len()
        invariant
            i <= v.len(),
            has_slash == v@.take(i as int).contains('/'),
        decreases v.len() - i,
    {
        proof {
            let seen = v@.take(i + 1);
            assert(seen =~= v@.take(i as int).push(v@[i as int]));
            if v@.take(i as int).contains('/') {
                let k = choose|k: int| 0 <= k < i && v@.take(i as int)[k] == '/';
                assert(seen[k] == '/');
            }
            if v@[i as int] == '/' {
                assert(seen[i as int] == '/');
            }
            if seen.contains('/') {
                let k = choose|k: int| 0 <= k < i + 1 && seen[k] == '/';
                if k < i {
                    assert(v@.take(i as int)[k] == '/');
                }
            }
        }
        if v[i] == '/' {
            has_slash = true;
        }
        i += 1;
    }
    proof {
        assert(v@.take(v.len() as int) =~= v@);
    }
    if !has_slash {
        return slice_all(v);
    }
    let slash = vec!['/'];
    let spaced_slash = vec![' ', '/', ' '];
    let space = vec![' '];
    let point_zero = vec!['.', '0'];
    proof {
        assert(slash@ =~= seq!['/']);
        assert(spaced_slash@ =~= seq![' ', '/', ' ']);
        assert(space@ =~= seq![' ']);
        assert(point_zero@ =~= seq!['.', '0']);
    }
    let spaced = replace_chars(v, &slash, &spaced_slash);
    let tokens = split_words(&spaced);
    let mut decimals: Vec<Vec<char>> = Vec::new();
    let ghost read = |t: Seq<char>| as_decimal(t);
    let ghost all = rows_of(tokens@);
    let mut k: usize = 0;
    while k < tokens.len()
        invariant
            k <= tokens.len(),
            all == rows_of(tokens@),
            point_zero@ == seq!['.', '0'],
            rows_of(decimals@) == all.take(k as int).map_values(read),
            read == |t: Seq<char>| as_decimal(t),
        decreases tokens.len() - k,
    {
        let mut word = slice_all(&tokens[k]);
        if is_integer_token(&tokens[k]) {
            extend_chars(&mut word, &point_zero);
        }
        proof {
            assert(word@ == as_decimal(all[k as int]));
            assert(all.take(k + 1) =~= all.take(k as int).push(all[k as int]));
            assert(rows_of(decimals@.push(word)) =~= rows_of(decimals@).push(word@));
            assert(all.take(k + 1).map_values(read) =~= all.take(k as int).map_values(read).push(
                read(all[k as int]),
            ));
        }
        decimals.push(word);
        k += 1;
    }
    proof {
        assert(all.take(tokens.len() as int) =~= all);
    }
    let joined = join_chars(&decimals, &space);
    replace_chars(&joined, &spaced_slash, &slash)
}

/// A copy of `v`.
pub fn slice_all(v: &Vec<char>) -> (out: Vec<char>)
    ensures
        out@ == v@,
{
    let out = slice_chars(v, 0, v.len());
    proof {
        assert(v@.subrange(0, v.len() as int) =~= v@);
    }
    out
}

/// The expression that is evaluated for `query`: the query itself, or, where
/// it holds a `/`, the query with its whole numbers written as decimals.
pub fn prepare_expression(query: &str) -> (out: String)
    ensures
        out@ == prepared(query@),
{
    let v = chars_of(query);
    let e = prepare_chars(&v);
    string_of(&e)
}

/// The longest expression that is handed to the evaluator, in characters.
/// The evaluator descends once for each operator or parenthesis that stands
/// inside another, and a text of some ten thousand characters can exhaust the
/// stack that way. A query typed into a search box stays far below the limit.
pub const MAX_EXPRESSION_LEN: usize = 256;

/// Whether `s` can be handed to the evaluator: it is written in the
/// characters of arithmetic and is not longer than [`MAX_EXPRESSION_LEN`].
pub open spec fn is_evaluable(s: Seq<char>) -> bool {
    is_arithmetic_text(s) && s.len() <= MAX_EXPRESSION_LEN
}

/// What the evaluator answers to an expression that is written in the
/// characters of arithmetic without `^`: the text of its value, or nothing
/// where the evaluator cannot parse or evaluate it.
pub uninterp spec fn evaluated(expr: Seq<char>) -> Option<Seq<char>>;

/// Whether the answer to `expr` is the same wherever it is computed: `expr`
/// holds no `^`. Sums, differences, products, quotients and remainders of
/// whole numbers and of decimals are; a power is computed to a precision
/// that may differ from one machine to the next.
pub open spec fn is_exact(expr: Seq<char>) -> bool {
    !expr.contains('^')
}

/// Whether `out` is what the evaluator answers to `expr`.
pub open spec fn is_answer_to(out: Option<String>, expr: Seq<char>) -> bool {
    match out {
        Some(text) => evaluated(expr) == Some(text@),
        None => evaluated(expr) is None,
    }
}

/// `evalexpr::eval`, and the `Display` of the `Value` that it returns: the
/// text of the value where the expression was parsed and evaluated, nothing
/// where the evaluator reported an error. The expression is written in the
/// characters of arithmetic, so it names no function and no variable of the
/// evaluator, and it is short enough for the evaluator's recursion. On such
/// an expression the evaluator reads nothing but the text. Without `^` it
/// computes with checked operations on whole numbers of 64 bits and with the
/// operators `+ - * / %` on decimals: the contract names that result. With
/// `^` it calls `f64::powf`, and nothing is claimed of the value.
#[verifier::external_body]
fn evaluate_expression(expr: &str) -> (out: Option<String>)
    requires
        is_evaluable(expr@),
    ensures
        is_exact(expr@) ==> match out {
            Some(text) => evaluated(expr@) == Some(text@),
            None => evaluated(expr@) is None,
        },
{
    match evalexpr::eval(expr) {
        Ok(value) => Some(value.to_string()),
        Err(_) => None,
    }
}

/// The answer to the expression `v`. A text that holds anything but the
/// characters of arithmetic, or that is longer than [`MAX_EXPRESSION_LEN`],
/// is not handed to the evaluator and has no answer. Any other text is
/// handed to the evaluator as it stands, and the answer is the evaluator's.
fn evaluate_chars(v: &Vec<char>) -> (out: Option<String>)
    ensures
        !is_evaluable(v@) ==> out is None,
        is_evaluable(v@) && is_exact(v@) ==> is_answer_to(out, v@),
{
    if v.len() <= MAX_EXPRESSION_LEN && is_arithmetic_chars(v) {
        let expr = string_of(v);
        evaluate_expression(expr.as_str())
    } else {
        None
    }
}

/// The answer to `expr`. A text that holds anything but the characters of
/// arithmetic, or that is longer than [`MAX_EXPRESSION_LEN`], is not handed
/// to the evaluator and has no answer. Any other text is handed to the
/// evaluator as it stands, and the answer is the evaluator's.
pub fn evaluate_prepared(expr: &str) -> (out: Option<String>)
    ensures
        !is_evaluable(expr@) ==> out is None,
        is_evaluable(expr@) && is_exact(expr@) ==> is_answer_to(out, expr@),
{
    evaluate_chars(&chars_of(expr))
}

/// Whether `query` is read as arithmetic: it is written in the characters of
/// arithmetic, and its expression is not longer than [`MAX_EXPRESSION_LEN`].
pub open spec fn reads_as_arithmetic(query: Seq<char>) -> bool {
    is_arithmetic_text(query) && prepared(query).len() <= MAX_EXPRESSION_LEN
}

/// Reads `query` as arithmetic. A query that holds another character than
/// those of arithmetic, or whose expression is longer than
/// [`MAX_EXPRESSION_LEN`], has no answer. For any other query the evaluator
/// is asked for the value of [`prepared`]`(query)`, and the answer is the
/// text of that value, or nothing where the evaluator cannot parse or
/// evaluate the expression. That a query has no answer is no failure.
pub fn evaluate_math_expression(query: &str) -> (out: Option<String>)
    ensures
        !is_arithmetic_text(query@) ==> out is None,
        !is_evaluable(prepared(query@)) ==> out is None,
        reads_as_arithmetic(query@) && is_exact(prepared(query@)) ==> is_answer_to(
            out,
            prepared(query@),
        ),
{
    let v = chars_of(query);
    if !is_arithmetic_chars(&v) {
        return None;
    }
    proof {
        lemma_prepared_is_arithmetic(query@);
    }
    evaluate_chars(&prepare_chars(&v))
}

} // verus!
