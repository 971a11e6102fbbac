//! A data-independent sort: a fixed schedule of compare-exchange steps whose
//! positions never depend on the values being sorted.

use vstd::prelude::*;
use crate::select::{flag, select_u8};

verus! {

/// `s` with the values at positions `i` and `j` exchanged.
pub open spec fn exchanged(s: Seq<u8>, i: int, j: int) -> Seq<u8> {
    s.update(i, s[j]).update(j, s[i])
}

/// `s` reads from high to low.
pub open spec fn is_descending(s: Seq<u8>) -> bool {
    forall|i: int, j: int| 0 <= i <= j < s.len() ==> s[i] >= s[j]
}

/// Exchanging two positions keeps every value as often as it was.
pub proof fn lemma_exchange_keeps_values(s: Seq<u8>, i: int, j: int)
    requires
        0 <= i < s.len(),
        0 <= j < s.len(),
    ensures
        exchanged(s, i, j).to_multiset() == s.to_multiset(),
{
    broadcast use vstd::seq_lib::to_multiset_update;
    broadcast use vstd::multiset::group_multiset_axioms;
    broadcast use vstd::seq_lib::group_to_multiset_ensures;

    let t = s.update(i, s[j]);
    assert(t.to_multiset() =~= s.to_multiset().insert(s[j]).remove(s[i]));
    assert(t[j] == s[j] || i == j);
    assert(exchanged(s, i, j).to_multiset() =~= t.to_multiset().insert(s[i]).remove(t[j]));
    assert(s.to_multiset().count(s[i]) > 0);
    assert(s.to_multiset().count(s[j]) > 0);
    assert(exchanged(s, i, j).to_multiset() =~= s.to_multiset());
}

/// One compare-exchange step: afterwards position `i` holds the larger and
/// position `j` the smaller of the two values.
pub fn compare_exchange<const N: usize>(a: &mut [u8; N], i: usize, j: usize)
    requires
        i < j < N,
    ensures
        final(a)@ == if old(a)@[i as int] < old(a)@[j as int] {
            exchanged(old(a)@, i as int, j as int)
        } else {
            old(a)@
        },
{
    let x: u8 = a[i];
    let y: u8 = a[j];
    let out_of_order: u8 = flag(x < y);
    a[i] = select_u8(out_of_order, y, x);
    a[j] = select_u8(out_of_order, x, y);
    assert(a@ =~= if x < y { exchanged(old(a)@, i as int, j as int) } else { old(a)@ });
}

/// Sorts `a` from high to low with a fixed schedule of compare-exchange
/// steps: pass `p` walks the first `N - p + 1` positions and leaves the
/// smallest of them at the end of that stretch. Which positions are compared,
/// and how often, depends on `N` alone.
pub fn sort_descending<const N: usize>(a: &mut [u8; N])
    ensures
        is_descending(final(a)@),
        final(a)@.to_multiset() == old(a)@.to_multiset(),
{
    let mut settled: usize = 0;
    while N - settled > 1
        invariant
            settled <= N,
            a@.to_multiset() == old(a)@.to_multiset(),
            forall|i: int, j: int| N - settled <= i <= j < N ==> a@[i] >= a@[j],
            forall|i: int, j: int| 0 <= i < N - settled <= j < N ==> a@[i] >= a@[j],
        decreases N - settled,
    {
        let mut k: usize = 0;
        while N - settled - k > 1
            invariant
                N - settled > 1,
                k < N - settled,
                a@.to_multiset() == old(a)@.to_multiset(),
                forall|i: int, j: int| N - settled <= i <= j < N ==> a@[i] >= a@[j],
                forall|i: int, j: int| 0 <= i < N - settled <= j < N ==> a@[i] >= a@[j],
                forall|i: int| 0 <= i <= k ==> a@[i] >= a@[k as int],
            decreases N - k,
        {
            proof {
                lemma_exchange_keeps_values(a@, k as int, k + 1);
            }
            compare_exchange(a, k, k + 1);
            k += 1;
        }
        settled += 1;
    }
}

} // verus!
