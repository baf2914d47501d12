//! Facts about searching and filtering sequences.
use vstd::prelude::*;

verus! {

/// The index of the first element of `s` that satisfies `p`, if any.
pub open spec fn first_index<A>(s: Seq<A>, p: spec_fn(A) -> bool) -> Option<int>
    decreases s.len(),
{
    if s.len() == 0 {
        None
    } else {
        match first_index(s.drop_last(), p) {
            Some(i) => Some(i),
            None => if p(s.last()) {
                Some(s.len() - 1)
            } else {
                None
            },
        }
    }
}

/// What `first_index` finds in a prefix, it finds in the whole sequence.
pub proof fn lemma_first_index_prefix<A>(s: Seq<A>, p: spec_fn(A) -> bool, k: int)
    requires
        0 <= k <= s.len(),
        first_index(s.take(k), p) is Some,
    ensures
        first_index(s, p) == first_index(s.take(k), p),
    decreases s.len() - k,
{
    if k < s.len() {
        assert(s.take(k + 1).drop_last() =~= s.take(k));
        lemma_first_index_prefix(s, p, k + 1);
    } else {
        assert(s.take(k) =~= s);
    }
}

/// One more element searched: the first match in `s.take(i + 1)`.
pub proof fn lemma_first_index_step<A>(s: Seq<A>, p: spec_fn(A) -> bool, i: int)
    requires
        0 <= i < s.len(),
    ensures
        first_index(s.take(i + 1), p) == match first_index(s.take(i), p) {
            Some(j) => Some(j),
            None => if p(s[i]) {
                Some(i)
            } else {
                None
            },
        },
{
    assert(s.take(i + 1).drop_last() =~= s.take(i));
}

/// The first match is a match, and no element before it matches.
pub proof fn lemma_first_index_spec<A>(s: Seq<A>, p: spec_fn(A) -> bool)
    ensures
        match first_index(s, p) {
            Some(i) => 0 <= i < s.len() && p(s[i]) && forall|j: int| 0 <= j < i ==> !p(#[trigger] s[j]),
            None => forall|j: int| 0 <= j < s.len() ==> !p(#[trigger] s[j]),
        },
    decreases s.len(),
{
    if s.len() > 0 {
        lemma_first_index_spec(s.drop_last(), p);
        assert forall|j: int| 0 <= j < s.len() - 1 implies s.drop_last()[j] == s[j] by {}
    }
}

/// A match with no match before it is the first match.
pub proof fn lemma_first_index_at<A>(s: Seq<A>, p: spec_fn(A) -> bool, i: int)
    requires
        0 <= i < s.len(),
        p(s[i]),
        forall|j: int| 0 <= j < i ==> !p(#[trigger] s[j]),
    ensures
        first_index(s, p) == Some(i),
{
    lemma_first_index_spec(s, p);
}

/// Replacing an element that does not match by another that does not match
/// leaves the first match where it was.
pub proof fn lemma_first_index_update_other<A>(s: Seq<A>, p: spec_fn(A) -> bool, i: int, v: A)
    requires
        0 <= i < s.len(),
        !p(s[i]),
        !p(v),
    ensures
        first_index(s.update(i, v), p) == first_index(s, p),
{
    let t = s.update(i, v);
    lemma_first_index_spec(s, p);
    lemma_first_index_spec(t, p);
    match first_index(s, p) {
        Some(k) => {
            assert(t[k] == s[k]);
            assert forall|j: int| 0 <= j < k implies !p(#[trigger] t[j]) by {
                assert(t[j] == s[j] || j == i);
            }
            lemma_first_index_at(t, p, k);
        },
        None => {
            if first_index(t, p) is Some {
                let k = first_index(t, p)->0;
                assert(t[k] == s[k] || k == i);
            }
        },
    }
}

/// Replacing the first match by another match keeps it the first match.
pub proof fn lemma_first_index_update_same<A>(s: Seq<A>, p: spec_fn(A) -> bool, i: int, v: A)
    requires
        first_index(s, p) == Some(i),
        p(v),
    ensures
        first_index(s.update(i, v), p) == Some(i),
{
    let t = s.update(i, v);
    lemma_first_index_spec(s, p);
    assert forall|j: int| 0 <= j < i implies !p(#[trigger] t[j]) by {
        assert(t[j] == s[j]);
    }
    lemma_first_index_at(t, p, i);
}

/// Appending an element: the first match stays, or the new element is it.
pub proof fn lemma_first_index_push<A>(s: Seq<A>, p: spec_fn(A) -> bool, v: A)
    ensures
        first_index(s.push(v), p) == match first_index(s, p) {
            Some(i) => Some(i),
            None => if p(v) {
                Some(s.len() as int)
            } else {
                None
            },
        },
{
    assert(s.push(v).drop_last() =~= s);
}

/// The elements of `s.take(i + 1)` that satisfy `p`.
pub proof fn lemma_filter_step<A>(s: Seq<A>, p: spec_fn(A) -> bool, i: int)
    requires
        0 <= i < s.len(),
    ensures
        s.take(i + 1).filter(p) == if p(s[i]) {
            s.take(i).filter(p).push(s[i])
        } else {
            s.take(i).filter(p)
        },
{
    reveal(Seq::filter);
    assert(s.take(i + 1).drop_last() =~= s.take(i));
}

/// A relation that holds between every element and each later one still
/// holds after filtering.
pub proof fn lemma_filter_pairwise<A>(s: Seq<A>, p: spec_fn(A) -> bool, rel: spec_fn(A, A) -> bool)
    requires
        forall|a: int, b: int| 0 <= a < b < s.len() ==> rel(#[trigger] s[a], #[trigger] s[b]),
    ensures
        forall|a: int, b: int|
            0 <= a < b < s.filter(p).len() ==> rel(#[trigger] s.filter(p)[a], #[trigger] s.filter(p)[b]),
    decreases s.len(),
{
    reveal(Seq::filter);
    if s.len() > 0 {
        let d = s.drop_last();
        let l = s.last();
        assert forall|a: int, b: int| 0 <= a < b < d.len() implies rel(#[trigger] d[a], #[trigger] d[b]) by {
            assert(d[a] == s[a] && d[b] == s[b]);
        }
        lemma_filter_pairwise(d, p, rel);
        let fd = d.filter(p);
        if p(l) {
            let t = fd.push(l);
            assert(s.filter(p) == t);
            assert forall|a: int, b: int| 0 <= a < b < t.len() implies rel(#[trigger] t[a], #[trigger] t[b]) by {
                if b == t.len() - 1 {
                    let x = fd[a];
                    assert(fd.contains(x));
                    d.lemma_filter_contains_rev(p, x);
                    let k = choose|k: int| 0 <= k < d.len() && d[k] == x;
                    assert(s[k] == x);
                    assert(s[s.len() - 1] == l);
                    assert(rel(s[k], s[s.len() - 1]));
                } else {
                    assert(t[a] == fd[a] && t[b] == fd[b]);
                }
            }
        }
    }
}

} // verus!
