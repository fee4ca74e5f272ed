//! The order in which entry files are read.
//!
//! The directories that are searched may overlap, so one file can be found
//! more than once. Before anything is read the paths are put in order and
//! each is kept once: the order of the catalog is the order of the paths.

use crate::text::{chars_of, matches_at, views_of};
use vstd::prelude::*;

verus! {

/// Whether the character `x` comes before the character `y` in the order of
/// paths: the separator `/` comes before every other character, and the
/// others keep their order.
pub open spec fn char_before(x: char, y: char) -> bool {
    x != y && (x == '/' || (y != '/' && x < y))
}

/// Whether the path `a` comes before the path `b`: at the first position
/// where they differ `a` has the character that comes first, or `a` ends there
/// and `b` goes on. With the separator before all others, paths compare name by
/// name from the root: what lies in a directory comes before a neighbour of
/// the directory whose name only begins like the directory's.
pub open spec fn path_less(a: Seq<char>, b: Seq<char>) -> bool
    decreases a.len(),
{
    if b.len() == 0 {
        false
    } else if a.len() == 0 {
        true
    } else if a[0] != b[0] {
        char_before(a[0], b[0])
    } else {
        path_less(a.drop_first(), b.drop_first())
    }
}

/// Nothing comes before itself.
pub proof fn lemma_order_irreflexive(a: Seq<char>)
    ensures
        !path_less(a, a),
    decreases a.len(),
{
    if a.len() > 0 {
        lemma_order_irreflexive(a.drop_first());
    }
}

/// What comes before something that comes before a third comes before the
/// third.
pub proof fn lemma_order_transitive(a: Seq<char>, b: Seq<char>, c: Seq<char>)
    requires
        path_less(a, b),
        path_less(b, c),
    ensures
        path_less(a, c),
    decreases a.len(),
{
    if a.len() > 0 && a[0] == b[0] && b[0] == c[0] {
        lemma_order_transitive(a.drop_first(), b.drop_first(), c.drop_first());
    }
}

/// Of two different texts one comes before the other.
pub proof fn lemma_order_total(a: Seq<char>, b: Seq<char>)
    ensures
        a == b || path_less(a, b) || path_less(b, a),
    decreases a.len(),
{
    if a.len() > 0 && b.len() > 0 && a[0] == b[0] {
        lemma_order_total(a.drop_first(), b.drop_first());
        if a.drop_first() == b.drop_first() {
            assert(a =~= seq![a[0]] + a.drop_first());
            assert(b =~= seq![b[0]] + b.drop_first());
        }
    } else if a.len() == 0 && b.len() == 0 {
        assert(a =~= b);
    }
}

/// Whether each of `s` comes before all that follow it.
pub open spec fn strictly_sorted(s: Seq<Seq<char>>) -> bool {
    forall|i: int, j: int| 0 <= i < j < s.len() ==> path_less(#[trigger] s[i], #[trigger] s[j])
}

/// In a strictly sorted sequence nothing stands twice.
pub proof fn lemma_sorted_has_no_duplicates(s: Seq<Seq<char>>, i: int, j: int)
    requires
        strictly_sorted(s),
        0 <= i < s.len(),
        0 <= j < s.len(),
        s[i] == s[j],
    ensures
        i == j,
{
    lemma_order_irreflexive(s[i]);
}

/// A path that was found, however often and through whichever directories,
/// stands exactly once among the sorted paths.
pub proof fn lemma_found_path_stands_once(
    found: Seq<Seq<char>>,
    sorted: Seq<Seq<char>>,
    p: Seq<char>,
) -> (i: int)
    requires
        strictly_sorted(sorted),
        forall|q: Seq<char>| sorted.contains(q) <==> found.contains(q),
        found.contains(p),
    ensures
        0 <= i < sorted.len(),
        sorted[i] == p,
        forall|j: int| 0 <= j < sorted.len() && sorted[j] == p ==> j == i,
{
    assert(sorted.contains(p));
    let i = choose|i: int| 0 <= i < sorted.len() && sorted[i] == p;
    assert forall|j: int| 0 <= j < sorted.len() && sorted[j] == p implies j == i by {
        lemma_sorted_has_no_duplicates(sorted, i, j);
    }
    i
}

/// Two strictly sorted sequences that hold the same texts are equal: there
/// is one way to put a set of paths in order.
pub proof fn lemma_sorted_is_determined(a: Seq<Seq<char>>, b: Seq<Seq<char>>)
    requires
        strictly_sorted(a),
        strictly_sorted(b),
        forall|p: Seq<char>| a.contains(p) <==> b.contains(p),
    ensures
        a == b,
    decreases a.len(),
{
    if a.len() == 0 {
        if b.len() > 0 {
            assert(b.contains(b[0]));
        }
        assert(a =~= b);
    } else {
        assert(a.contains(a[0]));
        assert(b.contains(a[0]));
        assert(b.contains(b[0]));
        assert(a.contains(b[0]));
        let j = choose|j: int| 0 <= j < b.len() && b[j] == a[0];
        let i = choose|i: int| 0 <= i < a.len() && a[i] == b[0];
        lemma_order_total(a[0], b[0]);
        lemma_order_irreflexive(a[0]);
        lemma_order_irreflexive(b[0]);
        if path_less(a[0], b[0]) && j > 0 {
            lemma_order_transitive(a[0], b[0], b[j]);
        }
        if path_less(b[0], a[0]) && i > 0 {
            lemma_order_transitive(b[0], a[0], a[i]);
        }
        assert(a[0] == b[0]);
        let ta = a.skip(1);
        let tb = b.skip(1);
        assert forall|x: int, y: int| 0 <= x < y < ta.len() implies path_less(
            #[trigger] ta[x],
            #[trigger] ta[y],
        ) by {
            assert(ta[x] == a[x + 1] && ta[y] == a[y + 1]);
        }
        assert forall|x: int, y: int| 0 <= x < y < tb.len() implies path_less(
            #[trigger] tb[x],
            #[trigger] tb[y],
        ) by {
            assert(tb[x] == b[x + 1] && tb[y] == b[y + 1]);
        }
        assert forall|p: Seq<char>| ta.contains(p) <==> tb.contains(p) by {
            if ta.contains(p) {
                let k = choose|k: int| 0 <= k < ta.len() && ta[k] == p;
                assert(a[k + 1] == p);
                assert(a.contains(p));
                let m = choose|m: int| 0 <= m < b.len() && b[m] == p;
                if m == 0 {
                    assert(path_less(a[0], a[k + 1]));
                }
                assert(tb[m - 1] == p);
            }
            if tb.contains(p) {
                let k = choose|k: int| 0 <= k < tb.len() && tb[k] == p;
                assert(b[k + 1] == p);
                assert(b.contains(p));
                let m = choose|m: int| 0 <= m < a.len() && a[m] == p;
                if m == 0 {
                    assert(path_less(b[0], b[k + 1]));
                }
                assert(ta[m - 1] == p);
            }
        }
        lemma_sorted_is_determined(ta, tb);
        assert(a =~= seq![a[0]] + ta);
        assert(b =~= seq![b[0]] + tb);
    }
}

/// How two paths stand to each other in the order of paths.
#[derive(Clone, Copy, Debug, PartialEq, Eq, Structural)]
pub enum Place {
    Before,
    Same,
    After,
}

/// Whether the character `x` comes before the character `y` in the order of
/// paths.
pub fn comes_before(x: char, y: char) -> (b: bool)
    ensures
        b == char_before(x, y),
{
    x != y && (x == '/' || (y != '/' && x < y))
}

/// Where the path `a` stands relative to the path `b`.
pub fn place_of(a: &Vec<char>, b: &Vec<char>) -> (p: Place)
    ensures
        p == Place::Before <==> path_less(a@, b@),
        p == Place::Same <==> a@ == b@,
        p == Place::After <==> path_less(b@, a@),
{
    proof {
        lemma_order_total(a@, b@);
        lemma_order_irreflexive(a@);
        if path_less(a@, b@) && path_less(b@, a@) {
            lemma_order_transitive(a@, b@, a@);
        }
    }
    let mut i: usize = 0;
    proof {
        assert(a@.skip(0) =~= a@);
        assert(b@.skip(0) =~= b@);
    }
    while i < a.len() && i < b.len() && a[i] == b[i]
        invariant
            i <= a.len(),
            i <= b.len(),
            path_less(a@, b@) == path_less(a@.skip(i as int), b@.skip(i as int)),
            path_less(b@, a@) == path_less(b@.skip(i as int), a@.skip(i as int)),
        decreases a.len() - i,
    {
        proof {
            let x = a@.skip(i as int);
            let y = b@.skip(i as int);
            assert(x[0] == a@[i as int] && y[0] == b@[i as int]);
            assert(x.drop_first() =~= a@.skip(i + 1));
            assert(y.drop_first() =~= b@.skip(i + 1));
        }
        i += 1;
    }
    proof {
        let x = a@.skip(i as int);
        let y = b@.skip(i as int);
        if i < a.len() {
            assert(x[0] == a@[i as int]);
        }
        if i < b.len() {
            assert(y[0] == b@[i as int]);
        }
    }
    if i == b.len() {
        if i == a.len() {
            Place::Same
        } else {
            Place::After
        }
    } else if i == a.len() {
        Place::Before
    } else if comes_before(a[i], b[i]) {
        Place::Before
    } else {
        Place::After
    }
}

/// The paths of `paths` in the order of paths, each of them once.
///
/// A path that was found through two directories stands once in the result,
/// and no path is lost or made up.
pub fn sorted_unique_paths(paths: &Vec<String>) -> (out: Vec<String>)
    ensures
        strictly_sorted(views_of(out@)),
        forall|i: int, j: int|
            0 <= i < j < out.len() ==> (#[trigger] out[i])@ != (#[trigger] out[j])@,
        forall|p: Seq<char>| views_of(out@).contains(p) <==> views_of(paths@).contains(p),
{
    let mut out: Vec<String> = Vec::new();
    let mut keys: Vec<Vec<char>> = Vec::new();
    let mut n: usize = 0;
    while n < paths.len()
        invariant
            n <= paths.len(),
            keys.len() == out.len(),
            forall|i: int| 0 <= i < out.len() ==> (#[trigger] keys[i])@ == out[i]@,
            strictly_sorted(views_of(out@)),
            forall|p: Seq<char>|
                views_of(out@).contains(p) <==> views_of(paths@.take(n as int)).contains(p),
        decreases paths.len() - n,
    {
        let path = &paths[n];
        let key = chars_of(path.as_str());
        let ghost old_out = views_of(out@);
        let ghost seen = views_of(paths@.take(n as int));
        let ghost seen_now = views_of(paths@.take(n + 1));
        proof {
            assert(seen_now =~= seen.push(key@));
        }
        let mut k: usize = 0;
        let mut found = false;
        let mut passed = false;
        while k < keys.len() && !found && !passed
            invariant
                k <= keys.len(),
                keys.len() == out.len(),
                old_out == views_of(out@),
                forall|i: int| 0 <= i < out.len() ==> (#[trigger] keys[i])@ == out[i]@,
                forall|i: int| 0 <= i < k ==> path_less(#[trigger] old_out[i], key@),
                !(found && passed),
                found ==> k < keys.len() && old_out[k as int] == key@,
                passed ==> k < keys.len() && path_less(key@, old_out[k as int]),
            decreases keys.len() - k, if found || passed { 0int } else { 1int },
        {
            assert(old_out[k as int] == keys[k as int]@);
            match place_of(&keys[k], &key) {
                Place::Before => {
                    k += 1;
                },
                Place::Same => {
                    found = true;
                },
                Place::After => {
                    passed = true;
                },
            }
        }
        if found {
            proof {
                assert(old_out.contains(key@));
                assert forall|p: Seq<char>| old_out.contains(p) <==> seen_now.contains(p) by {
                    if seen_now.contains(p) {
                        let t = choose|t: int| 0 <= t < seen_now.len() && seen_now[t] == p;
                        if t < seen.len() {
                            assert(seen[t] == p);
                        }
                    }
                    if seen.contains(p) {
                        let t = choose|t: int| 0 <= t < seen.len() && seen[t] == p;
                        assert(seen_now[t] == p);
                    }
                }
            }
        } else {
            proof {
                assert(k < keys.len() ==> path_less(key@, old_out[k as int]));
            }
            let ghost old_keys = keys@;
            let ghost raw_out = out@;
            out.insert(k, path.clone());
            keys.insert(k, key);
            proof {
                let new_out = views_of(out@);
                assert(new_out =~= old_out.insert(k as int, key@));
                assert forall|i: int, j: int| 0 <= i < j < new_out.len() implies path_less(
                    #[trigger] new_out[i],
                    #[trigger] new_out[j],
                ) by {
                    if j < k {
                        assert(new_out[i] == old_out[i] && new_out[j] == old_out[j]);
                    } else if j == k {
                        assert(new_out[i] == old_out[i]);
                    } else if i < k {
                        assert(new_out[i] == old_out[i] && new_out[j] == old_out[j - 1]);
                        if j - 1 == k {
                            lemma_order_transitive(old_out[i], key@, old_out[k as int]);
                        }
                    } else if i == k {
                        assert(new_out[j] == old_out[j - 1]);
                        if j - 1 > k {
                            lemma_order_transitive(key@, old_out[k as int], old_out[j - 1]);
                        }
                    } else {
                        assert(new_out[i] == old_out[i - 1] && new_out[j] == old_out[j - 1]);
                    }
                }
                assert forall|p: Seq<char>| new_out.contains(p) <==> seen_now.contains(p) by {
                    if new_out.contains(p) {
                        let t = choose|t: int| 0 <= t < new_out.len() && new_out[t] == p;
                        if t < k {
                            assert(old_out[t] == p);
                        } else if t > k {
                            assert(old_out[t - 1] == p);
                        }
                        if p != key@ {
                            assert(old_out.contains(p));
                            let u = choose|u: int| 0 <= u < seen.len() && seen[u] == p;
                            assert(seen_now[u] == p);
                        } else {
                            assert(seen_now[n as int] == p);
                        }
                    }
                    if seen_now.contains(p) {
                        let t = choose|t: int| 0 <= t < seen_now.len() && seen_now[t] == p;
                        if t < seen.len() {
                            assert(seen[t] == p);
                            assert(old_out.contains(p));
                            let u = choose|u: int| 0 <= u < old_out.len() && old_out[u] == p;
                            if u < k {
                                assert(new_out[u] == p);
                            } else {
                                assert(new_out[u + 1] == p);
                            }
                        } else {
                            assert(new_out[k as int] == p);
                        }
                    }
                }
                assert forall|i: int| 0 <= i < out.len() implies (#[trigger] keys[i])@
                    == out[i]@ by {
                    if i < k {
                        assert(keys[i] == old_keys[i] && out[i] == raw_out[i]);
                    } else if i > k {
                        assert(keys[i] == old_keys[i - 1] && out[i] == raw_out[i - 1]);
                    }
                }
            }
        }
        n += 1;
    }
    proof {
        assert(paths@.take(paths.len() as int) =~= paths@);
        assert forall|i: int, j: int| 0 <= i < j < out.len() implies (#[trigger] out[i])@ != (
        #[trigger] out[j])@ by {
            let s = views_of(out@);
            assert(path_less(s[i], s[j]));
            lemma_order_irreflexive(s[i]);
        }
    }
    out
}

/// The ending of the name of an entry file.
pub open spec fn entry_suffix() -> Seq<char> {
    seq!['.', 'd', 'e', 's', 'k', 't', 'o', 'p']
}

/// Whether a file of this name is an entry file: the name ends in
/// `.desktop`, and something stands before that ending.
pub open spec fn is_entry_name(name: Seq<char>) -> bool {
    name.len() > entry_suffix().len() && name.skip(name.len() - entry_suffix().len())
        == entry_suffix()
}

/// Whether a file of this name is an entry file.
pub fn is_entry_file_name(name: &str) -> (b: bool)
    ensures
        b == is_entry_name(name@),
{
    let v = chars_of(name);
    let suffix = vec!['.', 'd', 'e', 's', 'k', 't', 'o', 'p'];
    proof {
        assert(suffix@ =~= entry_suffix());
    }
    if v.len() <= suffix.len() {
        return false;
    }
    let at = v.len() - suffix.len();
    let b = matches_at(&v, &suffix, at);
    proof {
        assert(v@.skip(at as int) =~= v@.subrange(at as int, at + suffix.len()));
    }
    b
}

/// What the walk through the directories meets.
#[derive(Clone, Copy, Debug, PartialEq, Eq, Structural)]
pub enum FileKind {
    /// A regular file.
    File,
    /// A directory.
    Directory,
    /// Anything else, and what could not be examined.
    Other,
}

/// What the walk does with what it meets.
#[derive(Clone, Copy, Debug, PartialEq, Eq, Structural)]
pub enum Visit {
    /// The path is added to the paths of the entry files.
    Collect,
    /// The walk goes on inside the directory.
    Descend,
    /// The walk passes by.
    Skip,
}

/// What the walk does with a file or directory of the given name: a regular
/// file with the name of an entry file is collected, any directory is
/// entered, and everything else is passed by.
pub open spec fn visit_of(kind: FileKind, name: Seq<char>) -> Visit {
    match kind {
        FileKind::File => if is_entry_name(name) {
            Visit::Collect
        } else {
            Visit::Skip
        },
        FileKind::Directory => Visit::Descend,
        FileKind::Other => Visit::Skip,
    }
}

/// What the walk does with a file or directory of the given name.
pub fn visit(kind: FileKind, name: &str) -> (out: Visit)
    ensures
        out == visit_of(kind, name@),
{
    match kind {
        FileKind::File => {
            if is_entry_file_name(name) {
                Visit::Collect
            } else {
                Visit::Skip
            }
        },
        FileKind::Directory => Visit::Descend,
        FileKind::Other => Visit::Skip,
    }
}

} // verus!
