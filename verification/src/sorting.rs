//! Insertion sorting by a strict order, and what it guarantees: the result
//! is ordered and holds the same elements.
use vstd::prelude::*;

verus! {

broadcast use vstd::seq_lib::group_to_multiset_ensures;

/// `x` inserted into `r` before the first element it comes strictly before.
pub open spec fn insert_by<A>(r: Seq<A>, x: A, lt: spec_fn(A, A) -> bool) -> Seq<A>
    decreases r.len(),
{
    if r.len() == 0 {
        seq![x]
    } else if lt(x, r[0]) {
        seq![x] + r
    } else {
        seq![r[0]] + insert_by(r.drop_first(), x, lt)
    }
}

/// `s` sorted by insertion, element by element from the first.
pub open spec fn sort_by<A>(s: Seq<A>, lt: spec_fn(A, A) -> bool) -> Seq<A>
    decreases s.len(),
{
    if s.len() == 0 {
        s
    } else {
        insert_by(sort_by(s.drop_last(), lt), s.last(), lt)
    }
}

/// No element of `s` comes strictly before an earlier one.
pub open spec fn sorted_by<A>(s: Seq<A>, lt: spec_fn(A, A) -> bool) -> bool {
    forall|i: int, j: int| 0 <= i < j < s.len() ==> !lt(#[trigger] s[j], #[trigger] s[i])
}

/// `lt` is a strict order: irreflexive and transitive.
pub open spec fn strict_order<A>(lt: spec_fn(A, A) -> bool) -> bool {
    &&& forall|a: A| !#[trigger] lt(a, a)
    &&& forall|a: A, b: A, c: A| #[trigger] lt(a, b) && #[trigger] lt(b, c) ==> lt(a, c)
}

/// Where insertion puts `x`: after every element it does not come before,
/// in front of the first one it does.
pub proof fn lemma_insert_position<A>(r: Seq<A>, x: A, lt: spec_fn(A, A) -> bool) -> (k: int)
    ensures
        0 <= k <= r.len(),
        insert_by(r, x, lt) == r.insert(k, x),
        forall|i: int| 0 <= i < k ==> !lt(x, #[trigger] r[i]),
        k < r.len() ==> lt(x, r[k]),
    decreases r.len(),
{
    if r.len() == 0 {
        assert(seq![x] =~= r.insert(0, x));
        0
    } else if lt(x, r[0]) {
        assert(seq![x] + r =~= r.insert(0, x));
        0
    } else {
        let k1 = lemma_insert_position(r.drop_first(), x, lt);
        assert(seq![r[0]] + r.drop_first().insert(k1, x) =~= r.insert(k1 + 1, x));
        assert forall|i: int| 0 <= i < k1 + 1 implies !lt(x, #[trigger] r[i]) by {
            if i > 0 {
                assert(r[i] == r.drop_first()[i - 1]);
            }
        }
        if k1 + 1 < r.len() {
            assert(r[k1 + 1] == r.drop_first()[k1]);
        }
        k1 + 1
    }
}

/// Inserting into a sorted sequence keeps it sorted and adds exactly `x`.
pub proof fn lemma_insert_sorted<A>(r: Seq<A>, x: A, lt: spec_fn(A, A) -> bool)
    requires
        strict_order(lt),
        sorted_by(r, lt),
    ensures
        sorted_by(insert_by(r, x, lt), lt),
        insert_by(r, x, lt).to_multiset() == r.to_multiset().insert(x),
{
    let k = lemma_insert_position(r, x, lt);
    let s = insert_by(r, x, lt);
    assert(s.len() == r.len() + 1);
    assert forall|i: int, j: int| 0 <= i < j < s.len() implies !lt(#[trigger] s[j], #[trigger] s[i]) by {
        if j < k {
            assert(s[i] == r[i] && s[j] == r[j]);
        } else if j == k {
            assert(s[j] == x && s[i] == r[i]);
        } else if i < k {
            assert(s[i] == r[i] && s[j] == r[j - 1]);
            if j - 1 >= k {
                if lt(r[j - 1], r[i]) {
                }
            }
        } else if i == k {
            assert(s[i] == x && s[j] == r[j - 1]);
            if lt(r[j - 1], x) {
                if j - 1 == k {
                    assert(lt(r[k], r[k]));
                } else {
                    assert(lt(r[j - 1], r[k]));
                }
            }
        } else {
            assert(s[i] == r[i - 1] && s[j] == r[j - 1]);
        }
    }
}

/// Insertion sorting by a strict order yields a sorted rearrangement.
pub proof fn lemma_sort_by<A>(s: Seq<A>, lt: spec_fn(A, A) -> bool)
    requires
        strict_order(lt),
    ensures
        sorted_by(sort_by(s, lt), lt),
        sort_by(s, lt).to_multiset() == s.to_multiset(),
    decreases s.len(),
{
    if s.len() > 0 {
        lemma_sort_by(s.drop_last(), lt);
        lemma_insert_sorted(sort_by(s.drop_last(), lt), s.last(), lt);
        assert(s.drop_last().push(s.last()) =~= s);
    }
}

} // verus!
