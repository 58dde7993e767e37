//! The lexicographic order of texts, and sequences of texts kept in that
//! order.
use vstd::prelude::*;
use crate::text::{to_chars, views};

verus! {

/// The lexicographic order of texts, character by character in the order of
/// the code points: whether `a` comes strictly before `b`.
pub open spec fn precedes(a: Seq<char>, b: Seq<char>) -> bool
    decreases a.len(),
{
    if b.len() == 0 {
        false
    } else if a.len() == 0 {
        true
    } else if a[0] != b[0] {
        (a[0] as int) < (b[0] as int)
    } else {
        precedes(a.skip(1), b.skip(1))
    }
}

/// Whether `a` comes strictly before `b` in the lexicographic order.
pub fn comes_before(a: &str, b: &str) -> (r: bool)
    ensures
        r == precedes(a@, b@),
{
    let x = to_chars(a);
    let y = to_chars(b);
    let mut i: usize = 0;
    assert(x@.skip(0) =~= x@ && y@.skip(0) =~= y@);
    while i < x.len() && i < y.len()
        invariant
            x@ == a@,
            y@ == b@,
            i <= x@.len(),
            i <= y@.len(),
            precedes(x@, y@) == precedes(x@.skip(i as int), y@.skip(i as int)),
        decreases x@.len() - i,
    {
        let c: char = x[i];
        let d: char = y[i];
        if c != d {
            return c < d;
        }
        assert(x@.skip(i as int).skip(1) =~= x@.skip(i + 1));
        assert(y@.skip(i as int).skip(1) =~= y@.skip(i + 1));
        i += 1;
    }
    i < y.len()
}

/// `s` with `x` put in behind the last element that `x` does not precede.
/// In a sorted `s` that is the place which keeps it sorted.
pub open spec fn inserted(s: Seq<Seq<char>>, x: Seq<char>) -> Seq<Seq<char>>
    decreases s.len(),
{
    if s.len() > 0 && precedes(x, s.last()) {
        inserted(s.drop_last(), x).push(s.last())
    } else {
        s.push(x)
    }
}

/// `inserted` puts `x` at the position behind which it precedes everything.
pub proof fn lemma_inserted_at(s: Seq<Seq<char>>, x: Seq<char>, k: int)
    requires
        0 <= k <= s.len(),
        forall|j: int| k <= j < s.len() ==> precedes(x, s[j]),
        k == 0 || !precedes(x, s[k - 1]),
    ensures
        inserted(s, x) == s.insert(k, x),
    decreases s.len() - k,
{
    if k < s.len() {
        lemma_inserted_at(s.drop_last(), x, k);
    }
}

/// Puts `x` into `v` behind the last element that `x` does not precede.
pub fn insert_sorted(v: &mut Vec<String>, x: String)
    ensures
        views(final(v)@) == inserted(views(old(v)@), x@),
{
    let mut k: usize = v.len();
    while k > 0 && comes_before(x.as_str(), v[k - 1].as_str())
        invariant
            k <= v@.len(),
            forall|j: int| k <= j < v@.len() ==> precedes(x@, views(v@)[j]),
        decreases k,
    {
        k -= 1;
    }
    proof {
        lemma_inserted_at(views(v@), x@, k as int);
    }
    v.insert(k, x);
}

/// No text precedes itself.
pub proof fn lemma_precedes_irreflexive(a: Seq<char>)
    ensures
        !precedes(a, a),
    decreases a.len(),
{
    if a.len() > 0 {
        lemma_precedes_irreflexive(a.skip(1));
    }
}

/// Of two different texts, one precedes the other.
pub proof fn lemma_precedes_total(a: Seq<char>, b: Seq<char>)
    ensures
        a == b || precedes(a, b) || precedes(b, a),
    decreases a.len(),
{
    if a.len() > 0 && b.len() > 0 {
        if a[0] == b[0] {
            lemma_precedes_total(a.skip(1), b.skip(1));
            if a.skip(1) == b.skip(1) {
                assert(b =~= seq![b[0]] + b.skip(1));
            }
        }
    }
}

/// Two texts do not precede each other.
pub proof fn lemma_precedes_asymmetric(a: Seq<char>, b: Seq<char>)
    ensures
        !(precedes(a, b) && precedes(b, a)),
    decreases a.len(),
{
    if a.len() > 0 && b.len() > 0 && a[0] == b[0] {
        lemma_precedes_asymmetric(a.skip(1), b.skip(1));
    }
}

/// What precedes a text precedes all that the text precedes.
pub proof fn lemma_precedes_transitive(a: Seq<char>, b: Seq<char>, c: Seq<char>)
    requires
        precedes(a, b),
        precedes(b, c),
    ensures
        precedes(a, c),
    decreases a.len(),
{
    if a.len() > 0 && a[0] == b[0] && b[0] == c[0] {
        lemma_precedes_transitive(a.skip(1), b.skip(1), c.skip(1));
    }
}

/// A text that does not come after `b` comes before all that `b` precedes,
/// and `b` comes before nothing that does not come after the text.
pub proof fn lemma_not_after_transitive(a: Seq<char>, b: Seq<char>, c: Seq<char>)
    requires
        !precedes(b, a),
        !precedes(c, b),
    ensures
        !precedes(c, a),
{
    lemma_precedes_total(a, b);
    lemma_precedes_total(b, c);
    if precedes(c, a) && a != b && b != c {
        lemma_precedes_transitive(c, a, b);
    }
}

/// Whether no text of `s` comes before an earlier one: `s` is in
/// lexicographic order.
pub open spec fn sorted(s: Seq<Seq<char>>) -> bool {
    forall|i: int, j: int| 0 <= i < j < s.len() ==> !precedes(s[j], s[i])
}

/// Whether each text of `s` precedes all the later ones: `s` is in
/// lexicographic order and holds nothing twice.
pub open spec fn strictly_sorted(s: Seq<Seq<char>>) -> bool {
    forall|i: int, j: int| 0 <= i < j < s.len() ==> precedes(s[i], s[j])
}

/// Where `inserted` puts `x`: behind the last element that `x` does not
/// precede.
pub open spec fn insertion_point(s: Seq<Seq<char>>, x: Seq<char>) -> int
    decreases s.len(),
{
    if s.len() > 0 && precedes(x, s.last()) {
        insertion_point(s.drop_last(), x)
    } else {
        s.len() as int
    }
}

/// `inserted` adds `x` at the insertion point and moves nothing else.
pub proof fn lemma_inserted_is_insert(s: Seq<Seq<char>>, x: Seq<char>)
    ensures
        0 <= insertion_point(s, x) <= s.len(),
        inserted(s, x) == s.insert(insertion_point(s, x), x),
        insertion_point(s, x) > 0 ==> !precedes(x, s[insertion_point(s, x) - 1]),
    decreases s.len(),
{
    if s.len() > 0 && precedes(x, s.last()) {
        lemma_inserted_is_insert(s.drop_last(), x);
    }
}

/// `inserted` holds what `s` holds, and `x`.
pub proof fn lemma_inserted_contains(s: Seq<Seq<char>>, x: Seq<char>, y: Seq<char>)
    ensures
        inserted(s, x).contains(y) <==> s.contains(y) || y == x,
        inserted(s, x).len() == s.len() + 1,
{
    lemma_inserted_is_insert(s, x);
    let k = insertion_point(s, x);
    let t = s.insert(k, x);
    if s.contains(y) {
        let i = choose|i: int| 0 <= i < s.len() && s[i] == y;
        if i < k {
            assert(t[i] == y);
        } else {
            assert(t[i + 1] == y);
        }
    }
    assert(t[k] == x);
}

/// In a sorted sequence, everything from the insertion point on comes after
/// `x`.
proof fn lemma_after_insertion_point(s: Seq<Seq<char>>, x: Seq<char>, j: int)
    requires
        sorted(s),
        insertion_point(s, x) <= j < s.len(),
    ensures
        precedes(x, s[j]),
    decreases s.len(),
{
    lemma_inserted_is_insert(s, x);
    if s.len() > 0 && precedes(x, s.last()) {
        if j < s.len() - 1 {
            let t = s.drop_last();
            assert(sorted(t)) by {
                assert forall|a: int, b: int| 0 <= a < b < t.len() implies !precedes(
                    t[b],
                    t[a],
                ) by {}
            }
            lemma_after_insertion_point(t, x, j);
        }
    }
}

/// Putting a text into a sorted sequence keeps it sorted.
pub proof fn lemma_inserted_sorted(s: Seq<Seq<char>>, x: Seq<char>)
    requires
        sorted(s),
    ensures
        sorted(inserted(s, x)),
{
    lemma_inserted_is_insert(s, x);
    let k = insertion_point(s, x);
    let t = s.insert(k, x);
    assert forall|i: int, j: int| 0 <= i < j < t.len() implies !precedes(t[j], t[i]) by {
        if j == k {
            // t[i] is s[i], which does not come after s[k - 1], which does
            // not come after x
            if i < k - 1 {
                lemma_not_after_transitive(s[i], s[k - 1], x);
            }
        } else if i == k {
            lemma_after_insertion_point(s, x, j - 1);
            lemma_precedes_asymmetric(x, s[j - 1]);
        }
    }
}

/// Putting a text into a strictly sorted sequence that does not hold it
/// keeps the sequence strictly sorted.
pub proof fn lemma_inserted_strictly_sorted(s: Seq<Seq<char>>, x: Seq<char>)
    requires
        strictly_sorted(s),
        !s.contains(x),
    ensures
        strictly_sorted(inserted(s, x)),
{
    assert(sorted(s)) by {
        assert forall|i: int, j: int| 0 <= i < j < s.len() implies !precedes(s[j], s[i]) by {
            lemma_precedes_asymmetric(s[i], s[j]);
        }
    }
    lemma_inserted_sorted(s, x);
    let t = inserted(s, x);
    lemma_inserted_is_insert(s, x);
    let k = insertion_point(s, x);
    assert forall|i: int, j: int| 0 <= i < j < t.len() implies precedes(t[i], t[j]) by {
        lemma_precedes_total(t[i], t[j]);
        if t[i] == t[j] && i != k && j != k {
            lemma_precedes_irreflexive(t[i]);
        }
    }
}

} // verus!
