//! Field codes of a launch command.
//!
//! A desktop entry's `Exec` value may hold placeholders such as `%f` or `%U`,
//! which a file manager would replace by file names or addresses. A launcher
//! has nothing to put there and removes them.

use crate::text::{
    chars_of, leading_spaces, lemma_span_bounds, lemma_trailing_spaces_bounds, replace_all, spaces,
    string_of, trailing_spaces, trim, trim_chars, trim_start,
};
use vstd::prelude::*;

verus! {

/// The letters of the seven field codes, in the order in which they are
/// removed.
pub open spec fn code_letters() -> Seq<char> {
    seq!['f', 'F', 'u', 'U', 'i', 'c', 'k']
}

/// Whether `c` is the letter of a field code.
pub open spec fn is_code_letter(c: char) -> bool {
    c == 'f' || c == 'F' || c == 'u' || c == 'U' || c == 'i' || c == 'c' || c == 'k'
}

/// One pass over `s` from left to right that leaves out each `%` directly
/// followed by `letter`, together with that letter. What the pass has left
/// out is not looked at again: the characters to the left and right of a
/// removed code may form a new one, which stays.
pub open spec fn strip_code(s: Seq<char>, letter: char) -> Seq<char>
    decreases s.len(),
{
    if s.len() == 0 {
        s
    } else if s.len() >= 2 && s[0] == '%' && s[1] == letter {
        strip_code(s.skip(2), letter)
    } else {
        seq![s[0]] + strip_code(s.drop_first(), letter)
    }
}

/// The seven passes, one after the other.
pub open spec fn strip_field_codes(s: Seq<char>) -> Seq<char> {
    strip_code(
        strip_code(
            strip_code(strip_code(strip_code(strip_code(strip_code(s, 'f'), 'F'), 'u'), 'U'), 'i'),
            'c',
        ),
        'k',
    )
}

/// The command that is run for the template `s`: the seven passes, then the
/// white space at both ends removed.
pub open spec fn sanitized(s: Seq<char>) -> Seq<char> {
    trim(strip_field_codes(s))
}

/// Whether `a` directly followed by `b` occurs in `s`.
pub open spec fn has_pair(s: Seq<char>, a: char, b: char) -> bool {
    exists|i: int| 0 <= i && i + 1 < s.len() && s[i] == a && #[trigger] s[i + 1] == b
}

/// Whether no field code occurs in `s`.
pub open spec fn code_free(s: Seq<char>) -> bool {
    forall|i: int| 0 <= i && i + 1 < s.len() && s[i] == '%' ==> !is_code_letter(#[trigger] s[i + 1])
}

/// A pass is the replacement of each occurrence of its code by nothing.
pub proof fn lemma_strip_code_is_replace(s: Seq<char>, letter: char)
    ensures
        strip_code(s, letter) == replace_all(s, seq!['%', letter], Seq::empty()),
    decreases s.len(),
{
    let code = seq!['%', letter];
    let nothing = Seq::<char>::empty();
    if s.len() == 0 {
    } else if s.len() >= 2 && s[0] == '%' && s[1] == letter {
        assert(s.take(2) =~= code);
        lemma_strip_code_is_replace(s.skip(2), letter);
        assert(nothing + replace_all(s.skip(2), code, nothing) =~= replace_all(
            s.skip(2),
            code,
            nothing,
        ));
    } else {
        if s.len() >= 2 {
            assert(s.take(2)[0] == s[0] && s.take(2)[1] == s[1]);
            assert(code[0] == '%' && code[1] == letter);
        }
        lemma_strip_code_is_replace(s.drop_first(), letter);
    }
}

/// A pass changes nothing where its code does not occur.
pub proof fn lemma_strip_code_absent(s: Seq<char>, letter: char)
    requires
        !has_pair(s, '%', letter),
    ensures
        strip_code(s, letter) == s,
    decreases s.len(),
{
    if s.len() > 0 {
        if s.len() >= 2 && s[0] == '%' && s[1] == letter {
            assert(s[0int + 1] == letter);
        } else {
            let rest = s.drop_first();
            if has_pair(rest, '%', letter) {
                let i = choose|i: int|
                    0 <= i && i + 1 < rest.len() && rest[i] == '%' && #[trigger] rest[i + 1]
                        == letter;
                assert(s[i + 1] == '%' && s[(i + 1) + 1] == letter);
            }
            lemma_strip_code_absent(rest, letter);
            assert(seq![s[0]] + rest =~= s);
        }
    }
}

/// A pass never lengthens its input, and shortens it where its code occurs.
pub proof fn lemma_strip_code_len(s: Seq<char>, letter: char)
    ensures
        strip_code(s, letter).len() <= s.len(),
        has_pair(s, '%', letter) ==> strip_code(s, letter).len() < s.len(),
    decreases s.len(),
{
    if s.len() > 0 {
        if s.len() >= 2 && s[0] == '%' && s[1] == letter {
            lemma_strip_code_len(s.skip(2), letter);
        } else {
            let rest = s.drop_first();
            lemma_strip_code_len(rest, letter);
            if has_pair(s, '%', letter) {
                let i = choose|i: int|
                    0 <= i && i + 1 < s.len() && s[i] == '%' && #[trigger] s[i + 1] == letter;
                assert(i > 0);
                assert(rest[i - 1] == '%' && rest[(i - 1) + 1] == letter);
            }
        }
    }
}

/// Where no two percent signs stand side by side, a pass forms no new pair
/// that begins with a percent sign, and leaves none that ends in its letter.
pub proof fn lemma_strip_code_pairs(s: Seq<char>, letter: char, b: char)
    requires
        !has_pair(s, '%', '%'),
        has_pair(strip_code(s, letter), '%', b),
    ensures
        has_pair(s, '%', b),
        b != letter,
    decreases s.len(),
{
    let r = strip_code(s, letter);
    let j = choose|j: int| 0 <= j && j + 1 < r.len() && r[j] == '%' && #[trigger] r[j + 1] == b;
    if s.len() >= 2 && s[0] == '%' && s[1] == letter {
        let rest = s.skip(2);
        if has_pair(rest, '%', '%') {
            let i = choose|i: int|
                0 <= i && i + 1 < rest.len() && rest[i] == '%' && #[trigger] rest[i + 1] == '%';
            assert(s[i + 2] == '%' && s[(i + 2) + 1] == '%');
        }
        lemma_strip_code_pairs(rest, letter, b);
        let i = choose|i: int|
            0 <= i && i + 1 < rest.len() && rest[i] == '%' && #[trigger] rest[i + 1] == b;
        assert(s[i + 2] == '%' && s[(i + 2) + 1] == b);
    } else {
        let rest = s.drop_first();
        let inner = strip_code(rest, letter);
        assert(r =~= seq![s[0]] + inner);
        if j == 0 {
            assert(inner[0] == b);
            assert(rest.len() > 0);
            assert(rest[0] == s[0int + 1]);
            assert(rest[0] != '%');
            assert(inner =~= seq![rest[0]] + strip_code(rest.drop_first(), letter));
            assert(s[0] == '%' && s[0int + 1] == b);
        } else {
            if has_pair(rest, '%', '%') {
                let i = choose|i: int|
                    0 <= i && i + 1 < rest.len() && rest[i] == '%' && #[trigger] rest[i + 1]
                        == '%';
                assert(s[i + 1] == '%' && s[(i + 1) + 1] == '%');
            }
            assert(inner[j - 1] == '%' && inner[(j - 1) + 1] == b);
            lemma_strip_code_pairs(rest, letter, b);
            let i = choose|i: int|
                0 <= i && i + 1 < rest.len() && rest[i] == '%' && #[trigger] rest[i + 1] == b;
            assert(s[i + 1] == '%' && s[(i + 1) + 1] == b);
        }
    }
}

/// Whether no percent sign in `s` is followed by a percent sign or by one of
/// the `done` first code letters.
pub open spec fn settled(s: Seq<char>, done: int) -> bool {
    &&& !has_pair(s, '%', '%')
    &&& forall|k: int| 0 <= k < done && k < 7 ==> !has_pair(s, '%', #[trigger] code_letters()[k])
}

/// A pass for the next letter keeps what the earlier passes have reached.
pub proof fn lemma_strip_code_settles(s: Seq<char>, done: int)
    requires
        0 <= done < 7,
        settled(s, done),
    ensures
        settled(strip_code(s, code_letters()[done]), done + 1),
{
    let letter = code_letters()[done];
    let r = strip_code(s, letter);
    if has_pair(r, '%', '%') {
        lemma_strip_code_pairs(s, letter, '%');
    }
    assert forall|k: int| 0 <= k < done + 1 && k < 7 implies !has_pair(
        r,
        '%',
        #[trigger] code_letters()[k],
    ) by {
        if has_pair(r, '%', code_letters()[k]) {
            lemma_strip_code_pairs(s, letter, code_letters()[k]);
        }
    }
}

/// Trimming forms no field code.
pub proof fn lemma_trim_code_free(s: Seq<char>)
    requires
        code_free(s),
    ensures
        code_free(trim(s)),
{
    lemma_span_bounds(s, spaces());
    let a = trim_start(s);
    lemma_trailing_spaces_bounds(a);
    let t = trim(s);
    let lead = leading_spaces(s) as int;
    assert forall|i: int| 0 <= i && i + 1 < t.len() && t[i] == '%' implies !is_code_letter(
        #[trigger] t[i + 1],
    ) by {
        assert(t[i] == s[i + lead]);
        assert(t[i + 1] == s[(i + lead) + 1]);
    }
}

/// Trimming twice is trimming once.
pub proof fn lemma_trim_idempotent(s: Seq<char>)
    ensures
        trim(trim(s)) == trim(s),
{
    lemma_span_bounds(s, spaces());
    let a = trim_start(s);
    lemma_trailing_spaces_bounds(a);
    let t = trim(s);
    if t.len() > 0 {
        assert(t[0] == a[0]);
        assert(t.last() == a[a.len() - trailing_spaces(a) - 1]);
    }
    assert(leading_spaces(t) == 0);
    assert(trailing_spaces(t) == 0);
    assert(t.skip(0) =~= t);
    assert(t.take(t.len() as int) =~= t);
}

/// Trimming never lengthens its input.
pub proof fn lemma_trim_len(s: Seq<char>)
    ensures
        trim(s).len() <= s.len(),
{
    lemma_span_bounds(s, spaces());
    lemma_trailing_spaces_bounds(trim_start(s));
}

/// The sanitizer removes every field code from a template in which no two
/// percent signs stand side by side: no `%` of the result is followed by one
/// of the seven letters.
pub proof fn lemma_sanitized_is_code_free(x: Seq<char>)
    requires
        !has_pair(x, '%', '%'),
    ensures
        code_free(sanitized(x)),
{
    let s1 = strip_code(x, 'f');
    let s2 = strip_code(s1, 'F');
    let s3 = strip_code(s2, 'u');
    let s4 = strip_code(s3, 'U');
    let s5 = strip_code(s4, 'i');
    let s6 = strip_code(s5, 'c');
    let s7 = strip_code(s6, 'k');
    assert(settled(x, 0));
    lemma_strip_code_settles(x, 0);
    lemma_strip_code_settles(s1, 1);
    lemma_strip_code_settles(s2, 2);
    lemma_strip_code_settles(s3, 3);
    lemma_strip_code_settles(s4, 4);
    lemma_strip_code_settles(s5, 5);
    lemma_strip_code_settles(s6, 6);
    assert(settled(s7, 7));
    assert forall|i: int| 0 <= i && i + 1 < s7.len() && s7[i] == '%' implies !is_code_letter(
        #[trigger] s7[i + 1],
    ) by {
        let b = s7[i + 1];
        if is_code_letter(b) {
            let k = choose|k: int| 0 <= k < 7 && code_letters()[k] == b;
            assert(has_pair(s7, '%', code_letters()[k]));
        }
    }
    lemma_trim_code_free(s7);
}

/// The sanitizer is idempotent exactly on the templates whose result holds no
/// field code: sanitizing such a result again gives it back, and sanitizing
/// any other result shortens it.
pub proof fn lemma_sanitize_idempotent(x: Seq<char>)
    ensures
        code_free(sanitized(x)) <==> sanitized(sanitized(x)) == sanitized(x),
{
    let y = sanitized(x);
    let s1 = strip_code(y, 'f');
    let s2 = strip_code(s1, 'F');
    let s3 = strip_code(s2, 'u');
    let s4 = strip_code(s3, 'U');
    let s5 = strip_code(s4, 'i');
    let s6 = strip_code(s5, 'c');
    let s7 = strip_code(s6, 'k');
    lemma_strip_code_len(y, 'f');
    lemma_strip_code_len(s1, 'F');
    lemma_strip_code_len(s2, 'u');
    lemma_strip_code_len(s3, 'U');
    lemma_strip_code_len(s4, 'i');
    lemma_strip_code_len(s5, 'c');
    lemma_strip_code_len(s6, 'k');
    lemma_trim_len(s7);
    if code_free(y) {
        assert forall|c: char| is_code_letter(c) implies !has_pair(y, '%', c) by {
            if has_pair(y, '%', c) {
                let i = choose|i: int|
                    0 <= i && i + 1 < y.len() && y[i] == '%' && #[trigger] y[i + 1] == c;
                assert(!is_code_letter(y[i + 1]));
            }
        }
        lemma_strip_code_absent(y, 'f');
        lemma_strip_code_absent(y, 'F');
        lemma_strip_code_absent(y, 'u');
        lemma_strip_code_absent(y, 'U');
        lemma_strip_code_absent(y, 'i');
        lemma_strip_code_absent(y, 'c');
        lemma_strip_code_absent(y, 'k');
        lemma_trim_idempotent(strip_field_codes(x));
    } else {
        let i = choose|i: int|
            0 <= i && i + 1 < y.len() && y[i] == '%' && is_code_letter(#[trigger] y[i + 1]);
        let c = y[i + 1];
        assert(has_pair(y, '%', c));
        // The first pass whose letter occurs shortens the text, and no pass
        // lengthens it.
        if c != 'f' {
            lemma_strip_code_absent_or_shorter(y, 'f');
        }
        if c != 'f' && c != 'F' {
            lemma_strip_code_absent_or_shorter(s1, 'F');
        }
        if c != 'f' && c != 'F' && c != 'u' {
            lemma_strip_code_absent_or_shorter(s2, 'u');
        }
        if c != 'f' && c != 'F' && c != 'u' && c != 'U' {
            lemma_strip_code_absent_or_shorter(s3, 'U');
        }
        if c != 'f' && c != 'F' && c != 'u' && c != 'U' && c != 'i' {
            lemma_strip_code_absent_or_shorter(s4, 'i');
        }
        if c != 'f' && c != 'F' && c != 'u' && c != 'U' && c != 'i' && c != 'c' {
            lemma_strip_code_absent_or_shorter(s5, 'c');
        }
        assert(s7.len() < y.len());
    }
}

/// A pass either shortens its input or leaves it as it is.
pub proof fn lemma_strip_code_absent_or_shorter(s: Seq<char>, letter: char)
    ensures
        strip_code(s, letter).len() < s.len() || strip_code(s, letter) == s,
{
    lemma_strip_code_len(s, letter);
    if !has_pair(s, '%', letter) {
        lemma_strip_code_absent(s, letter);
    }
}

/// One pass over `v` that removes the field code with the given letter.
pub fn strip_code_chars(v: &Vec<char>, letter: char) -> (out: Vec<char>)
    ensures
        out@ == strip_code(v@, letter),
{
    let n = v.len();
    let mut out: Vec<char> = Vec::new();
    let mut i: usize = 0;
    proof {
        assert(v@.skip(0) =~= v@);
        assert(out@ + strip_code(v@, letter) =~= strip_code(v@, letter));
    }
    while i < n
        invariant
            i <= n,
            n == v.len(),
            strip_code(v@, letter) == out@ + strip_code(v@.skip(i as int), letter),
        decreases n - i,
    {
        let ghost rest = v@.skip(i as int);
        if v[i] == '%' && i + 1 < n && v[i + 1] == letter {
            proof {
                assert(rest[0] == v@[i as int] && rest[1] == v@[i + 1]);
                assert(rest.skip(2) =~= v@.skip(i + 2));
            }
            i += 2;
        } else {
            proof {
                assert(rest[0] == v@[i as int]);
                if rest.len() >= 2 {
                    assert(rest[1] == v@[i + 1]);
                }
                assert(rest.drop_first() =~= v@.skip(i + 1));
                assert(out@.push(v@[i as int]) + strip_code(v@.skip(i + 1), letter) =~= out@ + (
                seq![rest[0]] + strip_code(rest.drop_first(), letter)));
            }
            out.push(v[i]);
            i += 1;
        }
    }
    proof {
        assert(v@.skip(n as int) =~= Seq::<char>::empty());
        assert(out@ + Seq::<char>::empty() =~= out@);
    }
    out
}

/// The command to run for the launch template `exec`: the field codes
/// `%f %F %u %U %i %c %k` are removed, one pass for each in this order, and
/// then the white space at both ends.
pub fn clean_exec_command(exec: &str) -> (out: String)
    ensures
        out@ == sanitized(exec@),
{
    let v = chars_of(exec);
    let v = strip_code_chars(&v, 'f');
    let v = strip_code_chars(&v, 'F');
    let v = strip_code_chars(&v, 'u');
    let v = strip_code_chars(&v, 'U');
    let v = strip_code_chars(&v, 'i');
    let v = strip_code_chars(&v, 'c');
    let v = strip_code_chars(&v, 'k');
    let v = trim_chars(&v);
    string_of(&v)
}

} // verus!
