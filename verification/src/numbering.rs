//! Sequences of indices: the numbers `0..n`, and what it means to hold the
//! same items in another order.

use vstd::prelude::*;

verus! {

/// The numbers `0..n` in order.
pub open spec fn count_up(n: int) -> Seq<usize> {
    Seq::new(n as nat, |i: int| i as usize)
}

/// Whether one sequence is the other in another order.
pub open spec fn same_items(a: Seq<usize>, b: Seq<usize>) -> bool {
    a.to_multiset() == b.to_multiset()
}

/// Whether `perm` holds every number below its length once.
pub open spec fn is_permutation(perm: Seq<usize>) -> bool {
    same_items(perm, count_up(perm.len() as int))
}

/// `0..n` as a vector.
pub fn numbered(n: usize) -> (r: Vec<usize>)
    ensures
        r@ == count_up(n as int),
{
    let mut out: Vec<usize> = Vec::new();
    let mut i: usize = 0;
    while i < n
        invariant
            i <= n,
            out@ == count_up(i as int),
        decreases n - i,
    {
        out.push(i);
        i += 1;
    }
    out
}

/// The numbers `0..n` do not repeat.
pub proof fn lemma_count_up_no_duplicates(n: int)
    requires
        0 <= n <= usize::MAX,
    ensures
        count_up(n).no_duplicates(),
{
}

/// Items that do not repeat stay so in another order, and stay as many.
pub proof fn lemma_same_items_no_duplicates(a: Seq<usize>, b: Seq<usize>)
    requires
        same_items(a, b),
        b.no_duplicates(),
    ensures
        a.no_duplicates(),
        a.len() == b.len(),
{
    a.to_multiset_ensures();
    b.to_multiset_ensures();
    b.lemma_multiset_has_no_duplicates();
    a.lemma_multiset_has_no_duplicates_conv();
}

/// What one order holds, the other holds.
pub proof fn lemma_same_items_contains(a: Seq<usize>, b: Seq<usize>, x: usize)
    requires
        same_items(a, b),
        a.contains(x),
    ensures
        b.contains(x),
{
    a.to_multiset_ensures();
    b.to_multiset_ensures();
    assert(a.to_multiset().count(x) > 0);
    assert(b.to_multiset().count(x) > 0);
}

/// Exchanging two items gives the same items in another order.
pub proof fn lemma_swap_keeps_items(s: Seq<usize>, i: int, j: int)
    requires
        0 <= i < s.len(),
        0 <= j < s.len(),
    ensures
        same_items(s.update(i, s[j]).update(j, s[i]), s),
{
    broadcast use vstd::multiset::group_multiset_axioms;

    let half = s.update(i, s[j]);
    vstd::seq_lib::to_multiset_update(s, i, s[j]);
    vstd::seq_lib::to_multiset_update(half, j, s[i]);
    s.to_multiset_ensures();
    assert(s.contains(s[i]));
    assert(s.contains(s[j]));
    assert(half.update(j, s[i]).to_multiset() =~= s.to_multiset());
}

/// A permutation has no entry as large as its length.
pub proof fn lemma_permutation_is_below(perm: Seq<usize>)
    requires
        is_permutation(perm),
        perm.len() <= usize::MAX,
    ensures
        forall|i: int| 0 <= i < perm.len() ==> #[trigger] perm[i] < perm.len(),
{
    let id = count_up(perm.len() as int);
    assert forall|i: int| 0 <= i < perm.len() implies #[trigger] perm[i] < perm.len() by {
        assert(perm.contains(perm[i]));
        lemma_same_items_contains(perm, id, perm[i]);
        let k = choose|k: int| 0 <= k < id.len() && id[k] == perm[i];
        assert(id[k] == k);
    }
}

/// A table without repeats whose entries are all below its length holds every
/// number below its length once.
pub proof fn lemma_full_table_is_permutation(perm: Seq<usize>)
    requires
        perm.len() <= usize::MAX,
        perm.no_duplicates(),
        forall|i: int| 0 <= i < perm.len() ==> #[trigger] perm[i] < perm.len(),
    ensures
        is_permutation(perm),
{
    let n = perm.len() as int;
    let id = count_up(n);
    lemma_count_up_no_duplicates(n);
    perm.to_multiset_ensures();
    id.to_multiset_ensures();
    perm.lemma_multiset_has_no_duplicates();
    id.lemma_multiset_has_no_duplicates();
    // the entries of `perm` are `n` different numbers below `n`: all of them
    let held = perm.to_set();
    let below = id.to_set();
    perm.unique_seq_to_set();
    id.unique_seq_to_set();
    assert forall|v: usize| held.contains(v) implies below.contains(v) by {
        let k = choose|k: int| 0 <= k < perm.len() && perm[k] == v;
        assert(id[v as int] == v);
    }
    vstd::set_lib::lemma_set_subset_finite(below, held);
    vstd::set_lib::lemma_subset_equality(held, below);
    assert forall|v: usize| perm.to_multiset().count(v) == id.to_multiset().count(v) by {
        if perm.contains(v) {
            assert(held.contains(v));
            assert(below.contains(v));
            assert(id.contains(v));
        } else {
            assert(!held.contains(v));
            assert(!id.contains(v));
        }
    }
    assert(perm.to_multiset() =~= id.to_multiset());
}

} // verus!
