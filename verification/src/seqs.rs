//! "First element that satisfies a predicate", the lookup rule of the
//! drawing's ordered tables and lists.
use vstd::prelude::*;

verus! {

/// `i` is the first position of `s` whose element satisfies `p`.
pub open spec fn is_first<A>(s: Seq<A>, p: spec_fn(A) -> bool, i: int) -> bool {
    &&& 0 <= i < s.len()
    &&& p(s[i])
    &&& forall|j: int| 0 <= j < i ==> !p(#[trigger] s[j])
}

/// The first position of `s` whose element satisfies `p`, or -1.
pub open spec fn first_index<A>(s: Seq<A>, p: spec_fn(A) -> bool) -> int {
    if exists|i: int| is_first(s, p, i) {
        choose|i: int| is_first(s, p, i)
    } else {
        -1
    }
}

/// The first element of `s` that satisfies `p`.
pub open spec fn first_match<A>(s: Seq<A>, p: spec_fn(A) -> bool) -> Option<A> {
    let i = first_index(s, p);
    if i >= 0 {
        Some(s[i])
    } else {
        None
    }
}

pub proof fn lemma_first_index_is<A>(s: Seq<A>, p: spec_fn(A) -> bool, i: int)
    requires
        is_first(s, p, i),
    ensures
        first_index(s, p) == i,
        first_match(s, p) == Some(s[i]),
{
    let k = choose|k: int| is_first(s, p, k);
    assert(is_first(s, p, k));
    if k < i {
        assert(!p(s[k]));
    } else if k > i {
        assert(!p(s[i]));
    }
}

pub proof fn lemma_first_index_none<A>(s: Seq<A>, p: spec_fn(A) -> bool)
    requires
        forall|j: int| 0 <= j < s.len() ==> !p(#[trigger] s[j]),
    ensures
        first_index(s, p) == -1,
        first_match(s, p) is None,
{
    if exists|i: int| is_first(s, p, i) {
        let k = choose|k: int| is_first(s, p, k);
        assert(p(s[k]));
    }
}

/// What `first_index` says about positions.
pub proof fn lemma_first_index_facts<A>(s: Seq<A>, p: spec_fn(A) -> bool)
    ensures
        first_index(s, p) >= 0 ==> is_first(s, p, first_index(s, p)),
        first_index(s, p) < 0 ==> first_index(s, p) == -1 && forall|j: int|
            0 <= j < s.len() ==> !p(#[trigger] s[j]),
{
    if first_index(s, p) < 0 {
        assert forall|j: int| 0 <= j < s.len() implies !p(#[trigger] s[j]) by {
            if p(s[j]) {
                // the smallest such position is a first one
                lemma_some_first(s, p, j);
            }
        }
    }
}

pub proof fn lemma_some_first<A>(s: Seq<A>, p: spec_fn(A) -> bool, j: int)
    requires
        0 <= j < s.len(),
        p(s[j]),
    ensures
        exists|i: int| is_first(s, p, i),
    decreases j,
{
    if forall|k: int| 0 <= k < j ==> !p(#[trigger] s[k]) {
        assert(is_first(s, p, j));
    } else {
        let k = choose|k: int| 0 <= k < j && p(#[trigger] s[k]);
        lemma_some_first(s, p, k);
    }
}

/// Changing one element that satisfies neither before nor after leaves the
/// first match in place; likewise for elements after the first match.
pub proof fn lemma_first_index_update<A>(s: Seq<A>, p: spec_fn(A) -> bool, k: int, a: A)
    requires
        0 <= k < s.len(),
        p(s[k]) == p(a),
        first_index(s, p) < 0 || first_index(s, p) != k,
    ensures
        first_index(s.update(k, a), p) == first_index(s, p),
{
    lemma_first_index_facts(s, p);
    let t = s.update(k, a);
    let i = first_index(s, p);
    if i >= 0 {
        assert(is_first(t, p, i)) by {
            assert forall|j: int| 0 <= j < i implies !p(#[trigger] t[j]) by {
                assert(!p(s[j]));
            }
        }
        lemma_first_index_is(t, p, i);
    } else {
        assert forall|j: int| 0 <= j < t.len() implies !p(#[trigger] t[j]) by {
            assert(!p(s[j]));
        }
        lemma_first_index_none(t, p);
    }
}

} // verus!

verus! {

/// The first match in a concatenation: in the first part if it has one,
/// otherwise in the second.
pub proof fn lemma_first_match_concat<A>(a: Seq<A>, b: Seq<A>, p: spec_fn(A) -> bool)
    ensures
        first_match(a + b, p) == (if first_match(a, p) is Some {
            first_match(a, p)
        } else {
            first_match(b, p)
        }),
{
    lemma_first_index_facts(a, p);
    lemma_first_index_facts(b, p);
    let s = a + b;
    let i = first_index(a, p);
    if i >= 0 {
        assert(is_first(s, p, i)) by {
            assert forall|j: int| 0 <= j < i implies !p(#[trigger] s[j]) by {
                assert(s[j] == a[j]);
                assert(!p(a[j]));
            }
            assert(s[i] == a[i]);
        }
        lemma_first_index_is(s, p, i);
    } else {
        let k = first_index(b, p);
        if k >= 0 {
            assert(is_first(s, p, a.len() + k)) by {
                assert forall|j: int| 0 <= j < a.len() + k implies !p(#[trigger] s[j]) by {
                    if j < a.len() {
                        assert(s[j] == a[j]);
                        assert(!p(a[j]));
                    } else {
                        assert(s[j] == b[j - a.len()]);
                        assert(!p(b[j - a.len()]));
                    }
                }
                assert(s[a.len() + k] == b[k]);
            }
            lemma_first_index_is(s, p, a.len() + k);
        } else {
            assert forall|j: int| 0 <= j < s.len() implies !p(#[trigger] s[j]) by {
                if j < a.len() {
                    assert(s[j] == a[j]);
                    assert(!p(a[j]));
                } else {
                    assert(s[j] == b[j - a.len()]);
                    assert(!p(b[j - a.len()]));
                }
            }
            lemma_first_index_none(s, p);
        }
    }
}

/// A one-element sequence matches exactly when its element does.
pub proof fn lemma_first_match_single<A>(x: A, p: spec_fn(A) -> bool)
    ensures
        first_match(seq![x], p) == (if p(x) {
            Some(x)
        } else {
            None
        }),
{
    let s = seq![x];
    if p(x) {
        assert(is_first(s, p, 0));
        lemma_first_index_is(s, p, 0);
    } else {
        assert forall|j: int| 0 <= j < s.len() implies !p(#[trigger] s[j]) by {
            assert(s[j] == x);
        }
        lemma_first_index_none(s, p);
    }
}

} // verus!

verus! {

/// The first position in a concatenation.
pub proof fn lemma_first_index_concat<A>(a: Seq<A>, b: Seq<A>, p: spec_fn(A) -> bool)
    ensures
        first_index(a + b, p) == (if first_index(a, p) >= 0 {
            first_index(a, p)
        } else if first_index(b, p) >= 0 {
            a.len() + first_index(b, p)
        } else {
            -1
        }),
{
    lemma_first_index_facts(a, p);
    lemma_first_index_facts(b, p);
    let s = a + b;
    let i = first_index(a, p);
    if i >= 0 {
        assert(is_first(s, p, i)) by {
            assert forall|j: int| 0 <= j < i implies !p(#[trigger] s[j]) by {
                assert(s[j] == a[j]);
                assert(!p(a[j]));
            }
            assert(s[i] == a[i]);
        }
        lemma_first_index_is(s, p, i);
    } else {
        let k = first_index(b, p);
        if k >= 0 {
            assert(is_first(s, p, a.len() + k)) by {
                assert forall|j: int| 0 <= j < a.len() + k implies !p(#[trigger] s[j]) by {
                    if j < a.len() {
                        assert(s[j] == a[j]);
                        assert(!p(a[j]));
                    } else {
                        assert(s[j] == b[j - a.len()]);
                        assert(!p(b[j - a.len()]));
                    }
                }
                assert(s[a.len() + k] == b[k]);
            }
            lemma_first_index_is(s, p, a.len() + k);
        } else {
            assert forall|j: int| 0 <= j < s.len() implies !p(#[trigger] s[j]) by {
                if j < a.len() {
                    assert(s[j] == a[j]);
                    assert(!p(a[j]));
                } else {
                    assert(s[j] == b[j - a.len()]);
                    assert(!p(b[j - a.len()]));
                }
            }
            lemma_first_index_none(s, p);
        }
    }
}

} // verus!

verus! {

/// Removing an element that does not satisfy `p` keeps the first match.
pub proof fn lemma_first_match_remove<A>(s: Seq<A>, p: spec_fn(A) -> bool, i: int)
    requires
        0 <= i < s.len(),
        !p(s[i]),
    ensures
        first_match(s.remove(i), p) == first_match(s, p),
{
    let a = s.take(i);
    let b = s.skip(i + 1);
    assert(s.remove(i) =~= a + b);
    assert(s =~= a + (seq![s[i]] + b));
    lemma_first_match_concat(a, b, p);
    lemma_first_match_concat(a, seq![s[i]] + b, p);
    lemma_first_match_concat(seq![s[i]], b, p);
    lemma_first_match_single(s[i], p);
}

/// Replacing an element by one that satisfies `p` exactly when the old one
/// did keeps the first match, unless the replaced element was it.
pub proof fn lemma_first_match_update<A>(s: Seq<A>, p: spec_fn(A) -> bool, i: int, x: A)
    requires
        0 <= i < s.len(),
        !p(s[i]),
        !p(x),
    ensures
        first_match(s.update(i, x), p) == first_match(s, p),
{
    let a = s.take(i);
    let b = s.skip(i + 1);
    assert(s.update(i, x) =~= a + (seq![x] + b));
    assert(s =~= a + (seq![s[i]] + b));
    lemma_first_match_concat(a, seq![x] + b, p);
    lemma_first_match_concat(a, seq![s[i]] + b, p);
    lemma_first_match_concat(seq![x], b, p);
    lemma_first_match_concat(seq![s[i]], b, p);
    lemma_first_match_single(s[i], p);
    lemma_first_match_single(x, p);
}

/// Appending an element keeps an existing first match; otherwise the new
/// element is the first match when it satisfies `p`.
pub proof fn lemma_first_match_push<A>(s: Seq<A>, p: spec_fn(A) -> bool, x: A)
    ensures
        first_match(s.push(x), p) == (if first_match(s, p) is Some {
            first_match(s, p)
        } else if p(x) {
            Some(x)
        } else {
            None
        }),
{
    assert(s.push(x) =~= s + seq![x]);
    lemma_first_match_concat(s, seq![x], p);
    lemma_first_match_single(x, p);
}

} // verus!

verus! {

/// Removing an element other than the first match keeps the first match.
pub proof fn lemma_first_match_remove_other<A>(s: Seq<A>, p: spec_fn(A) -> bool, i: int)
    requires
        0 <= i < s.len(),
        first_index(s, p) != i,
    ensures
        first_match(s.remove(i), p) == first_match(s, p),
{
    lemma_first_index_facts(s, p);
    let f = first_index(s, p);
    let t = s.remove(i);
    if f >= 0 && f > i {
        assert(!p(s[i]));
        lemma_first_match_remove(s, p, i);
    } else if f >= 0 {
        assert(is_first(t, p, f)) by {
            assert forall|j: int| 0 <= j < f implies !p(#[trigger] t[j]) by {
                assert(t[j] == s[j]);
            }
            assert(t[f] == s[f]);
        }
        lemma_first_index_is(t, p, f);
    } else {
        lemma_first_match_remove(s, p, i);
    }
}

/// Replacing an element other than the first match by one that satisfies
/// `p` exactly when the old one did keeps the first match.
pub proof fn lemma_first_match_update_other<A>(s: Seq<A>, p: spec_fn(A) -> bool, i: int, x: A)
    requires
        0 <= i < s.len(),
        p(s[i]) == p(x),
        first_index(s, p) != i,
    ensures
        first_match(s.update(i, x), p) == first_match(s, p),
{
    lemma_first_index_update(s, p, i, x);
    lemma_first_index_facts(s, p);
    let f = first_index(s, p);
    if f >= 0 {
        assert(s.update(i, x)[f] == s[f]);
    }
}

} // verus!
