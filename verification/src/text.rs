//! Text as sequences of characters.
//!
//! Every algorithm of this crate works on `Vec<char>`, whose view is the same
//! `Seq<char>` as the view of the string it was read from. This module holds
//! the conversions and the small vocabulary the other modules share: white
//! space, trimming, words, lines, prefixes and substrings.

use vstd::prelude::*;

verus! {

/// `String::push` of the standard library: the character is appended to the
/// end of the string, and nothing else changes.
pub assume_specification[ String::push ](s: &mut String, ch: char)
    ensures
        final(s)@ == old(s)@.push(ch),
;

/// The characters of `s`, in order.
pub fn chars_of(s: &str) -> (out: Vec<char>)
    ensures
        out@ == s@,
{
    let mut out: Vec<char> = Vec::new();
    for c in it: s.chars()
        invariant
            it.seq() == s@,
            out@ == s@.take(it.index() as int),
    {
        out.push(c);
    }
    out
}

/// The string made of the characters of `v`, in order.
pub fn string_of(v: &Vec<char>) -> (out: String)
    ensures
        out@ == v@,
{
    let mut out = String::new();
    let mut i: usize = 0;
    while i < v.len()
        invariant
            i <= v.len(),
            out@ == v@.take(i as int),
        decreases v.len() - i,
    {
        out.push(v[i]);
        i += 1;
    }
    out
}

/// The views of a sequence of strings.
pub open spec fn views_of(v: Seq<String>) -> Seq<Seq<char>> {
    v.map_values(|s: String| s@)
}

/// The views of a sequence of character vectors.
pub open spec fn rows_of(v: Seq<Vec<char>>) -> Seq<Seq<char>> {
    v.map_values(|s: Vec<char>| s@)
}

/// White space is the set of characters with the Unicode property
/// `White_Space`.
pub open spec fn is_whitespace(c: char) -> bool {
    ||| ('\u{9}' <= c && c <= '\u{d}')
    ||| c == ' '
    ||| c == '\u{85}'
    ||| c == '\u{a0}'
    ||| c == '\u{1680}'
    ||| ('\u{2000}' <= c && c <= '\u{200a}')
    ||| c == '\u{2028}'
    ||| c == '\u{2029}'
    ||| c == '\u{202f}'
    ||| c == '\u{205f}'
    ||| c == '\u{3000}'
}

/// Whether `c` is white space.
pub fn is_whitespace_char(c: char) -> (b: bool)
    ensures
        b == is_whitespace(c),
{
    ('\u{9}' <= c && c <= '\u{d}') || c == ' ' || c == '\u{85}' || c == '\u{a0}' || c
        == '\u{1680}' || ('\u{2000}' <= c && c <= '\u{200a}') || c == '\u{2028}' || c
        == '\u{2029}' || c == '\u{202f}' || c == '\u{205f}' || c == '\u{3000}'
}

/// The length of the longest prefix of `s` whose characters all satisfy
/// `keep`.
pub open spec fn span(s: Seq<char>, keep: spec_fn(char) -> bool) -> nat
    decreases s.len(),
{
    if s.len() > 0 && keep(s[0]) {
        1 + span(s.drop_first(), keep)
    } else {
        0
    }
}

/// A prefix whose characters satisfy `keep`, and which the next character
/// cannot extend, is the span.
pub proof fn lemma_span(s: Seq<char>, keep: spec_fn(char) -> bool, k: int)
    requires
        0 <= k <= s.len(),
        forall|i: int| 0 <= i < k ==> keep(#[trigger] s[i]),
        k == s.len() || !keep(s[k]),
    ensures
        span(s, keep) == k,
    decreases k,
{
    if k > 0 {
        let rest = s.drop_first();
        assert forall|i: int| 0 <= i < k - 1 implies keep(#[trigger] rest[i]) by {
            assert(rest[i] == s[i + 1]);
        }
        lemma_span(rest, keep, k - 1);
    }
}

/// The span never exceeds the sequence, every character of it satisfies
/// `keep`, and the character behind it does not.
pub proof fn lemma_span_bounds(s: Seq<char>, keep: spec_fn(char) -> bool)
    ensures
        span(s, keep) <= s.len(),
        forall|i: int| 0 <= i < span(s, keep) ==> keep(#[trigger] s[i]),
        span(s, keep) < s.len() ==> !keep(s[span(s, keep) as int]),
    decreases s.len(),
{
    if s.len() > 0 && keep(s[0]) {
        let rest = s.drop_first();
        lemma_span_bounds(rest, keep);
        assert forall|i: int| 0 <= i < span(s, keep) implies keep(#[trigger] s[i]) by {
            if i > 0 {
                assert(s[i] == rest[i - 1]);
            }
        }
        if span(s, keep) < s.len() {
            assert(s[span(s, keep) as int] == rest[span(rest, keep) as int]);
        }
    }
}

/// The test for white space, as a predicate.
pub open spec fn spaces() -> spec_fn(char) -> bool {
    |c: char| is_whitespace(c)
}

/// The test for anything but white space, as a predicate.
pub open spec fn non_spaces() -> spec_fn(char) -> bool {
    |c: char| !is_whitespace(c)
}

/// The test for anything but a line feed, as a predicate.
pub open spec fn non_breaks() -> spec_fn(char) -> bool {
    |c: char| c != '\n'
}

/// The number of white-space characters at the start of `s`.
pub open spec fn leading_spaces(s: Seq<char>) -> nat {
    span(s, spaces())
}

/// The number of white-space characters at the end of `s`.
pub open spec fn trailing_spaces(s: Seq<char>) -> nat
    decreases s.len(),
{
    if s.len() > 0 && is_whitespace(s.last()) {
        1 + trailing_spaces(s.drop_last())
    } else {
        0
    }
}

/// `s` without the white space at its start.
pub open spec fn trim_start(s: Seq<char>) -> Seq<char> {
    s.skip(leading_spaces(s) as int)
}

/// `s` without the white space at its end.
pub open spec fn trim_end(s: Seq<char>) -> Seq<char> {
    s.take(s.len() - trailing_spaces(s))
}

/// `s` without the white space at either end.
pub open spec fn trim(s: Seq<char>) -> Seq<char> {
    trim_end(trim_start(s))
}

/// The trailing white space of `s` is its longest suffix made of white space.
pub proof fn lemma_trailing_spaces(s: Seq<char>, k: int)
    requires
        0 <= k <= s.len(),
        forall|i: int| s.len() - k <= i < s.len() ==> is_whitespace(#[trigger] s[i]),
        k == s.len() || !is_whitespace(s[s.len() - k - 1]),
    ensures
        trailing_spaces(s) == k,
    decreases k,
{
    if k > 0 {
        let rest = s.drop_last();
        assert forall|i: int| rest.len() - (k - 1) <= i < rest.len() implies is_whitespace(
            #[trigger] rest[i],
        ) by {
            assert(rest[i] == s[i]);
        }
        lemma_trailing_spaces(rest, k - 1);
    }
}

/// The trailing white space never exceeds the sequence, every character of it
/// is white space, and the character before it is not.
pub proof fn lemma_trailing_spaces_bounds(s: Seq<char>)
    ensures
        trailing_spaces(s) <= s.len(),
        forall|i: int| s.len() - trailing_spaces(s) <= i < s.len() ==> is_whitespace(
            #[trigger] s[i],
        ),
        trailing_spaces(s) < s.len() ==> !is_whitespace(s[s.len() - trailing_spaces(s) - 1]),
    decreases s.len(),
{
    if s.len() > 0 && is_whitespace(s.last()) {
        let rest = s.drop_last();
        lemma_trailing_spaces_bounds(rest);
        assert forall|i: int| s.len() - trailing_spaces(s) <= i < s.len() implies is_whitespace(
            #[trigger] s[i],
        ) by {
            if i < s.len() - 1 {
                assert(s[i] == rest[i]);
            }
        }
        if trailing_spaces(s) < s.len() {
            assert(s[s.len() - trailing_spaces(s) - 1] == rest[rest.len() - trailing_spaces(rest)
                - 1]);
        }
    }
}

/// The characters of `v` from `from` up to, not including, `to`.
pub fn slice_chars(v: &Vec<char>, from: usize, to: usize) -> (out: Vec<char>)
    requires
        from <= to <= v.len(),
    ensures
        out@ == v@.subrange(from as int, to as int),
{
    let mut out: Vec<char> = Vec::new();
    let mut i: usize = from;
    while i < to
        invariant
            from <= i <= to,
            to <= v.len(),
            out@ == v@.subrange(from as int, i as int),
        decreases to - i,
    {
        out.push(v[i]);
        i += 1;
    }
    out
}

/// `v` without the white space at either end.
pub fn trim_chars(v: &Vec<char>) -> (out: Vec<char>)
    ensures
        out@ == trim(v@),
{
    let n = v.len();
    let mut start: usize = 0;
    while start < n && is_whitespace_char(v[start])
        invariant
            start <= n,
            n == v.len(),
            forall|i: int| 0 <= i < start ==> is_whitespace(#[trigger] v@[i]),
        decreases n - start,
    {
        start += 1;
    }
    let mut end: usize = n;
    while end > start && is_whitespace_char(v[end - 1])
        invariant
            start <= end <= n,
            n == v.len(),
            forall|i: int| end <= i < n ==> is_whitespace(#[trigger] v@[i]),
        decreases end,
    {
        end -= 1;
    }
    proof {
        lemma_span(v@, spaces(), start as int);
        let rest = v@.skip(start as int);
        assert forall|i: int| rest.len() - (n - end) <= i < rest.len() implies is_whitespace(
            #[trigger] rest[i],
        ) by {
            assert(rest[i] == v@[i + start]);
        }
        lemma_trailing_spaces(rest, n - end);
        assert(rest.take(rest.len() - (n - end)) =~= v@.subrange(start as int, end as int));
    }
    slice_chars(v, start, end)
}

/// The number of characters at the start of `s` up to the first white space.
pub open spec fn word_len(s: Seq<char>) -> nat {
    span(s, non_spaces())
}

/// The words of `s`: its longest runs of characters that are not white
/// space, from left to right.
pub open spec fn words(s: Seq<char>) -> Seq<Seq<char>>
    decreases s.len(),
    via words_decreases
{
    if s.len() == 0 {
        Seq::empty()
    } else if is_whitespace(s[0]) {
        words(s.drop_first())
    } else {
        seq![s.take(word_len(s) as int)] + words(s.skip(word_len(s) as int))
    }
}

#[via_fn]
proof fn words_decreases(s: Seq<char>) {
    if s.len() > 0 && !is_whitespace(s[0]) {
        lemma_span_bounds(s, non_spaces());
    }
}

/// The words of `v`, from left to right.
pub fn split_words(v: &Vec<char>) -> (out: Vec<Vec<char>>)
    ensures
        rows_of(out@) == words(v@),
{
    let n = v.len();
    let mut out: Vec<Vec<char>> = Vec::new();
    let mut i: usize = 0;
    proof {
        assert(v@.skip(0) =~= v@);
        assert(rows_of(out@) + words(v@) =~= words(v@));
    }
    while i < n
        invariant
            i <= n,
            n == v.len(),
            words(v@) == rows_of(out@) + words(v@.skip(i as int)),
        decreases n - i,
    {
        let ghost rest = v@.skip(i as int);
        if is_whitespace_char(v[i]) {
            proof {
                assert(rest[0] == v@[i as int]);
                assert(rest.drop_first() =~= v@.skip(i + 1));
            }
            i += 1;
        } else {
            let mut j: usize = i + 1;
            while j < n && !is_whitespace_char(v[j])
                invariant
                    i < j <= n,
                    n == v.len(),
                    forall|k: int| i <= k < j ==> !is_whitespace(#[trigger] v@[k]),
                decreases n - j,
            {
                j += 1;
            }
            let word = slice_chars(v, i, j);
            proof {
                assert(rest[0] == v@[i as int]);
                assert forall|k: int| 0 <= k < j - i implies non_spaces()(#[trigger] rest[k]) by {
                    assert(rest[k] == v@[k + i]);
                }
                if j < n {
                    assert(rest[j - i] == v@[j as int]);
                }
                lemma_span(rest, non_spaces(), j - i);
                assert(rest.take(j - i) =~= word@);
                assert(rest.skip(j - i) =~= v@.skip(j as int));
                assert(rows_of(out@.push(word)) =~= rows_of(out@).push(word@));
                assert(rows_of(out@).push(word@) + words(v@.skip(j as int)) =~= rows_of(out@) + (
                seq![word@] + words(v@.skip(j as int))));
            }
            out.push(word);
            i = j;
        }
    }
    proof {
        assert(v@.skip(n as int) =~= Seq::<char>::empty());
        assert(rows_of(out@) + Seq::<Seq<char>>::empty() =~= rows_of(out@));
    }
    out
}

/// The number of characters at the start of `s` up to the first line feed.
pub open spec fn line_len(s: Seq<char>) -> nat {
    span(s, non_breaks())
}

/// `l` without a carriage return at its end.
pub open spec fn strip_cr(l: Seq<char>) -> Seq<char> {
    if l.len() > 0 && l.last() == '\r' {
        l.drop_last()
    } else {
        l
    }
}

/// The lines of `s`. A line ends at a line feed or at a carriage return
/// directly followed by a line feed, neither of which belongs to the line.
/// What follows the last line feed is a line unless it is empty, and keeps a
/// carriage return at its end.
pub open spec fn lines(s: Seq<char>) -> Seq<Seq<char>>
    decreases s.len(),
    via lines_decreases
{
    if s.len() == 0 {
        Seq::empty()
    } else if line_len(s) >= s.len() {
        seq![s]
    } else {
        seq![strip_cr(s.take(line_len(s) as int))] + lines(s.skip(line_len(s) as int + 1))
    }
}

#[via_fn]
proof fn lines_decreases(s: Seq<char>) {
    lemma_span_bounds(s, non_breaks());
}

/// The lines of `v`, from first to last.
pub fn split_lines(v: &Vec<char>) -> (out: Vec<Vec<char>>)
    ensures
        rows_of(out@) == lines(v@),
{
    let n = v.len();
    let mut out: Vec<Vec<char>> = Vec::new();
    let mut i: usize = 0;
    proof {
        assert(v@.skip(0) =~= v@);
        assert(rows_of(out@) + lines(v@) =~= lines(v@));
    }
    while i < n
        invariant
            i <= n,
            n == v.len(),
            lines(v@) == rows_of(out@) + lines(v@.skip(i as int)),
        decreases n - i,
    {
        let ghost rest = v@.skip(i as int);
        let mut j: usize = i;
        while j < n && v[j] != '\n'
            invariant
                i <= j <= n,
                n == v.len(),
                forall|k: int| i <= k < j ==> #[trigger] v@[k] != '\n',
            decreases n - j,
        {
            j += 1;
        }
        proof {
            assert forall|k: int| 0 <= k < j - i implies non_breaks()(#[trigger] rest[k]) by {
                assert(rest[k] == v@[k + i]);
            }
            if j < n {
                assert(rest[j - i] == v@[j as int]);
            }
            lemma_span(rest, non_breaks(), j - i);
        }
        if j == n {
            let line = slice_chars(v, i, n);
            proof {
                assert(line@ =~= rest);
                assert(rows_of(out@.push(line)) =~= rows_of(out@).push(line@));
                assert(rows_of(out@).push(line@) =~= rows_of(out@) + seq![rest]);
            }
            out.push(line);
            i = n;
        } else {
            let end = if j > i && v[j - 1] == '\r' {
                j - 1
            } else {
                j
            };
            let line = slice_chars(v, i, end);
            proof {
                let whole = rest.take(j - i);
                assert(whole =~= v@.subrange(i as int, j as int));
                if j > i {
                    assert(whole.last() == v@[j - 1]);
                }
                assert(strip_cr(whole) =~= line@);
                assert(rest.skip(j - i + 1) =~= v@.skip(j + 1));
                assert(rows_of(out@.push(line)) =~= rows_of(out@).push(line@));
                assert(rows_of(out@).push(line@) + lines(v@.skip(j + 1)) =~= rows_of(out@) + (
                seq![line@] + lines(v@.skip(j + 1))));
            }
            out.push(line);
            i = j + 1;
        }
    }
    proof {
        assert(v@.skip(n as int) =~= Seq::<char>::empty());
        assert(rows_of(out@) + Seq::<Seq<char>>::empty() =~= rows_of(out@));
    }
    out
}

/// Whether `s` begins with `p`.
pub open spec fn starts_with(s: Seq<char>, p: Seq<char>) -> bool {
    p.len() <= s.len() && s.take(p.len() as int) == p
}

/// Whether `p` stands in `s` at position `i`.
pub open spec fn occurs_at(s: Seq<char>, p: Seq<char>, i: int) -> bool {
    0 <= i && i + p.len() <= s.len() && s.subrange(i, i + p.len()) == p
}

/// Whether `p` stands somewhere in `s`.
pub open spec fn contains(s: Seq<char>, p: Seq<char>) -> bool {
    exists|i: int| occurs_at(s, p, i)
}

/// Whether `p` stands in `v` at position `at`.
pub fn matches_at(v: &Vec<char>, p: &Vec<char>, at: usize) -> (b: bool)
    ensures
        b == occurs_at(v@, p@, at as int),
{
    if p.len() > v.len() || at > v.len() - p.len() {
        return false;
    }
    let mut k: usize = 0;
    while k < p.len()
        invariant
            k <= p.len(),
            at + p.len() <= v.len(),
            forall|t: int| 0 <= t < k ==> v@[at + t] == #[trigger] p@[t],
        decreases p.len() - k,
    {
        if v[at + k] != p[k] {
            proof {
                let sub = v@.subrange(at as int, at + p.len());
                assert(sub[k as int] == v@[at + k]);
            }
            return false;
        }
        k += 1;
    }
    proof {
        assert(v@.subrange(at as int, at + p.len()) =~= p@);
    }
    true
}

/// Whether `v` begins with `p`.
pub fn has_prefix(v: &Vec<char>, p: &Vec<char>) -> (b: bool)
    ensures
        b == starts_with(v@, p@),
{
    let b = matches_at(v, p, 0);
    proof {
        if p.len() <= v.len() {
            assert(v@.take(p.len() as int) =~= v@.subrange(0, 0 + p.len()));
        }
    }
    b
}

/// The leftmost position at or after `from` at which `p` stands in `v`.
pub fn find_from(v: &Vec<char>, p: &Vec<char>, from: usize) -> (at: Option<usize>)
    ensures
        match at {
            Some(i) => from <= i && occurs_at(v@, p@, i as int) && forall|j: int|
                from <= j < i ==> !occurs_at(v@, p@, j),
            None => forall|j: int| from <= j ==> !occurs_at(v@, p@, j),
        },
{
    if p.len() > v.len() || from > v.len() - p.len() {
        return None;
    }
    let last = v.len() - p.len();
    let mut i: usize = from;
    loop
        invariant
            from <= i <= last,
            last == v.len() - p.len(),
            p.len() <= v.len(),
            forall|j: int| from <= j < i ==> !occurs_at(v@, p@, j),
        decreases last - i,
    {
        if matches_at(v, p, i) {
            return Some(i);
        }
        if i == last {
            return None;
        }
        i += 1;
    }
}

/// Whether `p` stands somewhere in `v`.
pub fn contains_chars(v: &Vec<char>, p: &Vec<char>) -> (b: bool)
    ensures
        b == contains(v@, p@),
{
    find_from(v, p, 0).is_some()
}

/// `s` with each occurrence of `pat` replaced by `with`. Occurrences are
/// found from left to right and do not overlap; what a replacement has put
/// in is not searched again.
pub open spec fn replace_all(s: Seq<char>, pat: Seq<char>, with: Seq<char>) -> Seq<char>
    recommends
        pat.len() > 0,
    decreases s.len(),
{
    if s.len() == 0 {
        s
    } else if pat.len() > 0 && starts_with(s, pat) {
        with + replace_all(s.skip(pat.len() as int), pat, with)
    } else {
        seq![s[0]] + replace_all(s.drop_first(), pat, with)
    }
}

/// Appends the characters of `tail` to `v`.
pub fn extend_chars(v: &mut Vec<char>, tail: &Vec<char>)
    ensures
        final(v)@ == old(v)@ + tail@,
{
    let mut k: usize = 0;
    proof {
        assert(v@ =~= old(v)@ + tail@.take(0));
    }
    while k < tail.len()
        invariant
            k <= tail.len(),
            v@ == old(v)@ + tail@.take(k as int),
        decreases tail.len() - k,
    {
        v.push(tail[k]);
        proof {
            assert(tail@.take(k + 1) =~= tail@.take(k as int).push(tail@[k as int]));
            assert(v@ =~= old(v)@ + tail@.take(k + 1));
        }
        k += 1;
    }
    proof {
        assert(tail@.take(tail.len() as int) =~= tail@);
    }
}

/// `v` with each occurrence of `pat` replaced by `with`.
pub fn replace_chars(v: &Vec<char>, pat: &Vec<char>, with: &Vec<char>) -> (out: Vec<char>)
    requires
        pat.len() > 0,
    ensures
        out@ == replace_all(v@, pat@, with@),
{
    let n = v.len();
    let mut out: Vec<char> = Vec::new();
    let mut i: usize = 0;
    proof {
        assert(v@.skip(0) =~= v@);
        assert(out@ + replace_all(v@, pat@, with@) =~= replace_all(v@, pat@, with@));
    }
    while i < n
        invariant
            i <= n,
            n == v.len(),
            pat.len() > 0,
            replace_all(v@, pat@, with@) == out@ + replace_all(v@.skip(i as int), pat@, with@),
        decreases n - i,
    {
        let ghost rest = v@.skip(i as int);
        let ghost before = out@;
        if matches_at(v, pat, i) {
            proof {
                assert(rest.take(pat.len() as int) =~= v@.subrange(i as int, i + pat.len()));
                assert(rest.skip(pat.len() as int) =~= v@.skip(i + pat.len()));
            }
            extend_chars(&mut out, with);
            proof {
                assert(out@ + replace_all(v@.skip(i + pat.len()), pat@, with@) =~= before + (with@
                    + replace_all(v@.skip(i + pat.len()), pat@, with@)));
            }
            i += pat.len();
        } else {
            proof {
                if pat.len() <= rest.len() {
                    assert(rest.take(pat.len() as int) =~= v@.subrange(i as int, i + pat.len()));
                }
                assert(rest[0] == v@[i as int]);
                assert(rest.drop_first() =~= v@.skip(i + 1));
            }
            out.push(v[i]);
            proof {
                assert(out@ + replace_all(v@.skip(i + 1), pat@, with@) =~= before + (seq![rest[0]]
                    + replace_all(rest.drop_first(), pat@, with@)));
            }
            i += 1;
        }
    }
    proof {
        assert(v@.skip(n as int) =~= Seq::<char>::empty());
        assert(out@ + Seq::<char>::empty() =~= out@);
    }
    out
}

/// The texts of `parts` one after the other, with `sep` between each two.
pub open spec fn join(parts: Seq<Seq<char>>, sep: Seq<char>) -> Seq<char>
    decreases parts.len(),
{
    if parts.len() == 0 {
        Seq::empty()
    } else if parts.len() == 1 {
        parts[0]
    } else {
        join(parts.drop_last(), sep) + sep + parts.last()
    }
}

/// The texts of `parts` one after the other, with `sep` between each two.
pub fn join_chars(parts: &Vec<Vec<char>>, sep: &Vec<char>) -> (out: Vec<char>)
    ensures
        out@ == join(rows_of(parts@), sep@),
{
    let mut out: Vec<char> = Vec::new();
    let ghost rows = rows_of(parts@);
    let mut i: usize = 0;
    while i < parts.len()
        invariant
            i <= parts.len(),
            rows == rows_of(parts@),
            out@ == join(rows.take(i as int), sep@),
        decreases parts.len() - i,
    {
        proof {
            let seen = rows.take(i + 1);
            assert(seen.drop_last() =~= rows.take(i as int));
            assert(seen.last() == parts[i as int]@);
            if i == 0 {
                assert(out@ + parts[i as int]@ =~= parts[i as int]@);
            }
        }
        if i > 0 {
            extend_chars(&mut out, sep);
        }
        extend_chars(&mut out, &parts[i]);
        i += 1;
    }
    proof {
        assert(rows.take(parts.len() as int) =~= rows);
    }
    out
}

/// Whether every character of `s` satisfies `keep`.
pub open spec fn all_chars(s: Seq<char>, keep: spec_fn(char) -> bool) -> bool {
    forall|i: int| 0 <= i < s.len() ==> keep(#[trigger] s[i])
}

/// Replacing brings in no character but those of the replacement.
pub proof fn lemma_replace_all_keeps(
    s: Seq<char>,
    pat: Seq<char>,
    with: Seq<char>,
    keep: spec_fn(char) -> bool,
)
    requires
        all_chars(s, keep),
        all_chars(with, keep),
    ensures
        all_chars(replace_all(s, pat, with), keep),
    decreases s.len(),
{
    if s.len() == 0 {
    } else if pat.len() > 0 && starts_with(s, pat) {
        let rest = s.skip(pat.len() as int);
        assert forall|i: int| 0 <= i < rest.len() implies keep(#[trigger] rest[i]) by {
            assert(rest[i] == s[i + pat.len()]);
        }
        lemma_replace_all_keeps(rest, pat, with, keep);
    } else {
        let rest = s.drop_first();
        assert forall|i: int| 0 <= i < rest.len() implies keep(#[trigger] rest[i]) by {
            assert(rest[i] == s[i + 1]);
        }
        lemma_replace_all_keeps(rest, pat, with, keep);
        assert(keep(s[0]));
    }
}

/// A word holds no character but those of the text.
pub proof fn lemma_words_keep(s: Seq<char>, keep: spec_fn(char) -> bool)
    requires
        all_chars(s, keep),
    ensures
        forall|i: int| 0 <= i < words(s).len() ==> all_chars(#[trigger] words(s)[i], keep),
    decreases s.len(),
{
    if s.len() == 0 {
        assert(words(s).len() == 0);
    } else if is_whitespace(s[0]) {
        let rest = s.drop_first();
        assert forall|i: int| 0 <= i < rest.len() implies keep(#[trigger] rest[i]) by {
            assert(rest[i] == s[i + 1]);
        }
        lemma_words_keep(rest, keep);
        assert(words(s) == words(rest));
    } else {
        lemma_span_bounds(s, non_spaces());
        let n = word_len(s) as int;
        let first = s.take(n);
        let rest = s.skip(n);
        assert forall|i: int| 0 <= i < rest.len() implies keep(#[trigger] rest[i]) by {
            assert(rest[i] == s[i + n]);
        }
        lemma_words_keep(rest, keep);
        assert forall|i: int| 0 <= i < first.len() implies keep(#[trigger] first[i]) by {
            assert(first[i] == s[i]);
        }
        assert(words(s) =~= seq![first] + words(rest));
        assert forall|i: int| 0 <= i < words(s).len() implies all_chars(
            #[trigger] words(s)[i],
            keep,
        ) by {
            if i > 0 {
                assert(words(s)[i] == words(rest)[i - 1]);
            } else {
                assert(words(s)[0] == first);
            }
        }
    }
}

/// Joining brings in no character but those of the parts and the separator.
pub proof fn lemma_join_keeps(parts: Seq<Seq<char>>, sep: Seq<char>, keep: spec_fn(char) -> bool)
    requires
        forall|i: int| 0 <= i < parts.len() ==> all_chars(#[trigger] parts[i], keep),
        all_chars(sep, keep),
    ensures
        all_chars(join(parts, sep), keep),
    decreases parts.len(),
{
    if parts.len() == 1 {
        assert(all_chars(parts[0], keep));
    } else if parts.len() > 1 {
        let front = parts.drop_last();
        assert forall|i: int| 0 <= i < front.len() implies all_chars(#[trigger] front[i], keep) by {
            assert(front[i] == parts[i]);
        }
        lemma_join_keeps(front, sep, keep);
        assert(all_chars(parts[parts.len() - 1], keep));
    }
}

/// What is left of `piece` behind the separators that a scan of `rest` finds.
/// The scan goes from left to right; behind each separator that it finds a
/// new piece begins, and the scan goes on behind that separator.
pub open spec fn tail_piece(rest: Seq<char>, sep: Seq<char>, piece: Seq<char>) -> Seq<char>
    decreases rest.len(),
{
    if rest.len() == 0 {
        piece
    } else if sep.len() > 0 && starts_with(rest, sep) {
        tail_piece(rest.skip(sep.len() as int), sep, rest.skip(sep.len() as int))
    } else {
        tail_piece(rest.drop_first(), sep, piece)
    }
}

/// The last of the pieces into which the separator `sep` splits `s`: all of
/// `s` where `sep` does not occur in it.
pub open spec fn last_piece(s: Seq<char>, sep: Seq<char>) -> Seq<char> {
    tail_piece(s, sep, s)
}

/// The last of the pieces into which `sep` splits `v`.
pub fn last_piece_chars(v: &Vec<char>, sep: &Vec<char>) -> (out: Vec<char>)
    requires
        sep.len() > 0,
    ensures
        out@ == last_piece(v@, sep@),
{
    let n = v.len();
    let mut start: usize = 0;
    let mut i: usize = 0;
    proof {
        assert(v@.skip(0) =~= v@);
    }
    while i < n
        invariant
            start <= i <= n,
            n == v.len(),
            sep.len() > 0,
            last_piece(v@, sep@) == tail_piece(v@.skip(i as int), sep@, v@.skip(start as int)),
        decreases n - i,
    {
        let ghost rest = v@.skip(i as int);
        if matches_at(v, sep, i) {
            proof {
                assert(rest.take(sep.len() as int) =~= v@.subrange(i as int, i + sep.len()));
                assert(rest.skip(sep.len() as int) =~= v@.skip(i + sep.len()));
            }
            i += sep.len();
            start = i;
        } else {
            proof {
                if sep.len() <= rest.len() {
                    assert(rest.take(sep.len() as int) =~= v@.subrange(i as int, i + sep.len()));
                }
                assert(rest.drop_first() =~= v@.skip(i + 1));
            }
            i += 1;
        }
    }
    let out = slice_chars(v, start, n);
    proof {
        assert(v@.skip(start as int) =~= v@.subrange(start as int, n as int));
    }
    out
}

/// The lower-case form of a text, as the Unicode character database of the
/// standard library defines it.
pub uninterp spec fn lowercase_of(s: Seq<char>) -> Seq<char>;

/// `str::to_lowercase` of the standard library. The contract names the result:
/// it is a function of the characters of `s` alone.
#[verifier::external_body]
pub(crate) fn to_lowercase(s: &str) -> (out: String)
    ensures
        out@ == lowercase_of(s@),
{
    s.to_lowercase()
}

} // verus!
