//! Ordering the kickers of a hand from its rank histogram: ranks held more
//! often first and, among ranks held as often, the higher rank first.
//!
//! Each rank is packed with its count into one number, count on top, the
//! thirteen numbers are sorted from high to low, and each is then written out
//! as many times as its count says.

use vstd::prelude::*;
use vstd::relations::sorted_by;
use crate::select::{both, flag, select_u8};
use crate::sorting::{is_descending, sort_descending};

verus! {

/// The sum of the entries of a histogram: the number of cards it counts.
pub open spec fn histogram_total(counts: Seq<u8>) -> nat
    decreases counts.len(),
{
    if counts.len() == 0 {
        0
    } else {
        histogram_total(counts.drop_last()) + counts.last() as nat
    }
}

/// The number of cards of `rank` that the histogram counts; none for a
/// number that is no rank.
pub open spec fn count_at(counts: Seq<u8>, rank: u8) -> nat {
    if rank < counts.len() {
        counts[rank as int] as nat
    } else {
        0
    }
}

/// The order of kickers that a histogram gives: `first` stands before
/// `second` when it is held by more cards, or by as many and is the higher
/// rank.
pub open spec fn histogram_order(counts: Seq<u8>) -> spec_fn(u8, u8) -> bool {
    |first: u8, second: u8|
        count_at(counts, first) > count_at(counts, second) || (count_at(counts, first)
            == count_at(counts, second) && first >= second)
}

/// A rank packed with its count: the count in the upper four bits, the rank
/// in the lower four.
pub open spec fn packed_bucket(counts: Seq<u8>, rank: u8) -> int {
    count_at(counts, rank) * 16 + rank
}

/// The sum of the counts held in the upper four bits of each packed number.
spec fn copies_in(packed: Seq<u8>) -> nat
    decreases packed.len(),
{
    if packed.len() == 0 {
        0
    } else {
        copies_in(packed.drop_last()) + (packed.last() / 16) as nat
    }
}

/// No entry of a histogram exceeds its total.
pub proof fn lemma_entry_within_total(counts: Seq<u8>, r: int)
    requires
        0 <= r < counts.len(),
    ensures
        counts[r] <= histogram_total(counts),
    decreases counts.len(),
{
    if r < counts.len() - 1 {
        lemma_entry_within_total(counts.drop_last(), r);
    }
}

/// Packed numbers hold as many copies as the histogram they were packed from
/// counts cards.
proof fn lemma_copies_match_total(packed: Seq<u8>, counts: Seq<u8>)
    requires
        packed.len() == counts.len(),
        forall|r: int| 0 <= r < counts.len() ==> #[trigger] packed[r] / 16 == counts[r],
    ensures
        copies_in(packed) == histogram_total(counts),
    decreases packed.len(),
{
    if packed.len() > 0 {
        lemma_copies_match_total(packed.drop_last(), counts.drop_last());
    }
}

/// Taking one packed number out takes its copies out of the sum.
proof fn lemma_copies_without(packed: Seq<u8>, i: int)
    requires
        0 <= i < packed.len(),
    ensures
        copies_in(packed) == copies_in(packed.remove(i)) + packed[i] / 16,
    decreases packed.len(),
{
    if i == packed.len() - 1 {
        assert(packed.remove(i) =~= packed.drop_last());
    } else {
        lemma_copies_without(packed.drop_last(), i);
        assert(packed.remove(i).drop_last() =~= packed.drop_last().remove(i));
        assert(packed.remove(i).last() == packed.last());
    }
}

/// The sum of copies does not depend on the order of the packed numbers.
proof fn lemma_copies_rearranged(first: Seq<u8>, second: Seq<u8>)
    requires
        first.to_multiset() == second.to_multiset(),
    ensures
        copies_in(first) == copies_in(second),
    decreases first.len(),
{
    broadcast use vstd::seq_lib::group_to_multiset_ensures;
    broadcast use vstd::multiset::group_multiset_axioms;

    first.to_multiset_ensures();
    second.to_multiset_ensures();
    assert(first.len() == second.len());
    if first.len() > 0 {
        let x = first.last();
        assert(first.contains(x));
        assert(second.to_multiset().count(x) > 0);
        assert(second.contains(x));
        let i = choose|i: int| 0 <= i < second.len() && second[i] == x;
        assert(first.drop_last() =~= first.remove(first.len() - 1));
        assert(first.drop_last().to_multiset() =~= first.to_multiset().remove(x));
        assert(second.remove(i).to_multiset() =~= second.to_multiset().remove(x));
        lemma_copies_rearranged(first.drop_last(), second.remove(i));
        lemma_copies_without(second, i);
    }
}

/// The copies held by the first `n` packed numbers, and how the sum grows
/// with `n` up to the sum of all.
proof fn lemma_copies_of_prefix(packed: Seq<u8>, n: int)
    requires
        0 <= n < packed.len(),
    ensures
        copies_in(packed.take(n + 1)) == copies_in(packed.take(n)) + packed[n] / 16,
        copies_in(packed.take(n + 1)) <= copies_in(packed),
    decreases packed.len() - n,
{
    assert(packed.take(n + 1).drop_last() =~= packed.take(n));
    if n + 1 < packed.len() {
        lemma_copies_of_prefix(packed, n + 1);
    } else {
        assert(packed.take(n + 1) =~= packed);
    }
}

/// Packs each rank with its count: entry `r` becomes `16 * counts[r] + r`.
pub fn pack_buckets(counts: &[u8; 13]) -> (packed: [u8; 13])
    requires
        forall|r: int| 0 <= r < 13 ==> counts@[r] <= 15,
    ensures
        forall|r: int| 0 <= r < 13 ==> packed@[r] == packed_bucket(counts@, r as u8),
{
    let mut packed: [u8; 13] = [0u8; 13];
    let mut r: u8 = 0;
    while r < 13
        invariant
            r <= 13,
            forall|q: int| 0 <= q < 13 ==> counts@[q] <= 15,
            forall|q: int| 0 <= q < r ==> packed@[q] == packed_bucket(counts@, q as u8),
        decreases 13 - r,
    {
        packed[r as usize] = counts[r as usize] * 16 + r;
        r += 1;
    }
    packed
}

/// Writes `rank` into position `at` of the kickers when `wanted` holds and
/// `at` is one of the five positions, and changes nothing otherwise. All five
/// positions are rewritten either way.
pub fn place(kickers: &mut [u8; 5], at: u8, rank: u8, wanted: u8)
    requires
        wanted <= 1,
    ensures
        final(kickers)@ == if wanted == 1 && at < 5 {
            old(kickers)@.update(at as int, rank)
        } else {
            old(kickers)@
        },
{
    let mut slot: u8 = 0;
    while slot < 5
        invariant
            slot <= 5,
            wanted <= 1,
            forall|s: int|
                0 <= s < slot ==> kickers@[s] == if wanted == 1 && at == s {
                    rank
                } else {
                    old(kickers)@[s]
                },
            forall|s: int| slot <= s < 5 ==> kickers@[s] == old(kickers)@[s],
        decreases 5 - slot,
    {
        let here: u8 = both(wanted, flag(at == slot));
        kickers[slot as usize] = select_u8(here, rank, kickers[slot as usize]);
        slot += 1;
    }
    assert(kickers@ =~= if wanted == 1 && at < 5 {
        old(kickers)@.update(at as int, rank)
    } else {
        old(kickers)@
    });
}

/// The packed buckets of `counts` in sorted order: each entry is a rank
/// packed with its own count, the entries fall strictly, every rank has its
/// entry, and together they hold as many copies as the histogram counts
/// cards.
spec fn is_sorted_packing(packed: Seq<u8>, counts: Seq<u8>) -> bool {
    &&& packed.len() == 13
    &&& forall|j: int|
        0 <= j < 13 ==> (#[trigger] packed[j]) % 16 < 13 && packed[j] == packed_bucket(
            counts,
            (packed[j] % 16) as u8,
        )
    &&& forall|a: int, b: int| 0 <= a < b < 13 ==> packed[a] > packed[b]
    &&& forall|rank: u8|
        rank < 13 ==> exists|j: int|
            0 <= j < 13 && packed[j] == #[trigger] packed_bucket(counts, rank)
    &&& copies_in(packed) == histogram_total(counts)
}

/// Sorting the packed buckets of a histogram from high to low gives a sorted
/// packing of it.
proof fn lemma_sorted_packing(unsorted: Seq<u8>, sorted: Seq<u8>, counts: Seq<u8>)
    requires
        counts.len() == 13,
        forall|r: int| 0 <= r < 13 ==> counts[r] <= 15,
        unsorted.len() == 13,
        forall|r: int| 0 <= r < 13 ==> unsorted[r] == packed_bucket(counts, r as u8),
        is_descending(sorted),
        sorted.to_multiset() == unsorted.to_multiset(),
    ensures
        is_sorted_packing(sorted, counts),
{
    broadcast use vstd::multiset::group_multiset_axioms;

    sorted.to_multiset_ensures();
    unsorted.to_multiset_ensures();
    assert(sorted.len() == 13);
    assert forall|j: int| 0 <= j < 13 implies (#[trigger] sorted[j]) % 16 < 13 && sorted[j]
        == packed_bucket(counts, (sorted[j] % 16) as u8) by {
        assert(sorted.contains(sorted[j]));
        assert(sorted.to_multiset().count(sorted[j]) > 0);
        assert(unsorted.to_multiset().count(sorted[j]) > 0);
        assert(unsorted.contains(sorted[j]));
        let r = choose|r: int| 0 <= r < 13 && unsorted[r] == sorted[j];
        assert(unsorted[r] == packed_bucket(counts, r as u8));
    }
    assert forall|rank: u8| rank < 13 implies exists|j: int|
        0 <= j < 13 && sorted[j] == #[trigger] packed_bucket(counts, rank) by {
        assert(unsorted[rank as int] == packed_bucket(counts, rank));
        assert(unsorted.contains(unsorted[rank as int]));
        assert(unsorted.to_multiset().count(unsorted[rank as int]) > 0);
        assert(sorted.to_multiset().count(unsorted[rank as int]) > 0);
        assert(sorted.contains(unsorted[rank as int]));
    }
    assert(unsorted.no_duplicates()) by {
        assert forall|a: int, b: int| 0 <= a < 13 && 0 <= b < 13 && a != b implies unsorted[a]
            != unsorted[b] by {
            assert(unsorted[a] == packed_bucket(counts, a as u8));
            assert(unsorted[b] == packed_bucket(counts, b as u8));
        }
    }
    unsorted.lemma_multiset_has_no_duplicates();
    sorted.lemma_multiset_has_no_duplicates_conv();
    assert forall|a: int, b: int| 0 <= a < b < 13 implies sorted[a] > sorted[b] by {
        assert(sorted[a] != sorted[b]);
    }
    lemma_copies_rearranged(sorted, unsorted);
    lemma_copies_match_total(unsorted, counts);
}

/// The packed number that the kickers written so far stay above: the entry
/// that comes next, or a number below all of them once none is left.
spec fn next_bucket(packed: Seq<u8>, i: int) -> int {
    if i < packed.len() {
        packed[i] as int
    } else {
        -1
    }
}

/// The five kickers that a rank histogram gives: each rank as often as the
/// histogram counts it, ranks held more often first and, among ranks held as
/// often, the higher first.
///
/// The packed buckets are sorted from high to low; then, for each of the
/// thirteen in turn and five times over, a copy of its rank is placed when
/// its count is not yet used up. Nothing in what is executed depends on the
/// histogram.
pub fn order_kickers(counts: &[u8; 13]) -> (kickers: [u8; 5])
    requires
        histogram_total(counts@) == 5,
    ensures
        forall|rank: u8| #[trigger] kickers@.to_multiset().count(rank) == count_at(counts@, rank),
        sorted_by(kickers@, histogram_order(counts@)),
{
    proof {
        assert forall|r: int| 0 <= r < 13 implies counts@[r] <= 15 by {
            lemma_entry_within_total(counts@, r);
        }
    }
    let mut packed: [u8; 13] = pack_buckets(counts);
    let ghost unsorted = packed@;
    sort_descending(&mut packed);
    proof {
        lemma_sorted_packing(unsorted, packed@, counts@);
        assert(packed@.take(0) =~= Seq::<u8>::empty());
    }
    let mut kickers: [u8; 5] = [0u8; 5];
    let mut filled: u8 = 0;
    let mut i: usize = 0;
    proof {
        broadcast use vstd::seq_lib::group_to_multiset_ensures;
        broadcast use vstd::multiset::group_multiset_axioms;

        assert(kickers@.take(0) =~= Seq::<u8>::empty());
        assert(kickers@.take(0).to_multiset().len() == 0);
    }
    while i < 13
        invariant
            i <= 13,
            filled <= 5,
            is_sorted_packing(packed@, counts@),
            histogram_total(counts@) == 5,
            filled == copies_in(packed@.take(i as int)),
            forall|s: int|
                0 <= s < filled ==> (#[trigger] kickers@[s]) < 13 && packed_bucket(
                    counts@,
                    kickers@[s],
                ) > next_bucket(packed@, i as int),
            sorted_by(kickers@.take(filled as int), histogram_order(counts@)),
            forall|rank: u8|
                #[trigger] kickers@.take(filled as int).to_multiset().count(rank) == if rank < 13
                    && packed_bucket(counts@, rank) > next_bucket(packed@, i as int) {
                    count_at(counts@, rank)
                } else {
                    0
                },
        decreases 13 - i,
    {
        let count: u8 = packed[i] / 16;
        let rank: u8 = packed[i] % 16;
        let ghost start = filled;
        proof {
            lemma_copies_of_prefix(packed@, i as int);
            lemma_entry_within_total(counts@, rank as int);
        }
        let mut copy: u8 = 0;
        while copy < 5
            invariant
                copy <= 5,
                i < 13,
                filled <= 5,
                count == packed@[i as int] / 16,
                rank == packed@[i as int] % 16,
                count <= 5,
                is_sorted_packing(packed@, counts@),
                start + count <= 5,
                filled == start + if copy < count { copy } else { count },
                forall|s: int|
                    0 <= s < filled ==> (#[trigger] kickers@[s]) < 13 && packed_bucket(
                        counts@,
                        kickers@[s],
                    ) >= packed@[i as int],
                sorted_by(kickers@.take(filled as int), histogram_order(counts@)),
                forall|v: u8|
                    #[trigger] kickers@.take(filled as int).to_multiset().count(v) == if v < 13
                        && packed_bucket(counts@, v) > packed@[i as int] {
                        count_at(counts@, v)
                    } else if v == rank {
                        if copy < count {
                            copy as nat
                        } else {
                            count as nat
                        }
                    } else {
                        0
                    },
            decreases 5 - copy,
        {
            let wanted: u8 = both(flag(count > copy), flag(filled < 5));
            let ghost before = kickers@;
            place(&mut kickers, filled, rank, wanted);
            proof {
                if count > copy {
                    broadcast use vstd::seq_lib::to_multiset_build;
                    broadcast use vstd::multiset::group_multiset_axioms;

                    assert(wanted == 1);
                    let prefix = before.take(filled as int);
                    assert(kickers@.take(filled + 1) =~= prefix.push(rank));
                    assert(packed_bucket(counts@, rank) == packed@[i as int]);
                    assert forall|a: int, b: int| 0 <= a < b < filled + 1 implies (
                    #[trigger] histogram_order(counts@)(
                        kickers@.take(filled + 1)[a],
                        kickers@.take(filled + 1)[b],
                    )) by {
                        if b < filled {
                            assert(histogram_order(counts@)(prefix[a], prefix[b]));
                        } else {
                            assert(before[a] < 13);
                            assert(packed_bucket(counts@, before[a]) >= packed@[i as int]);
                        }
                    }
                } else {
                    assert(kickers@ == before);
                }
            }
            filled += wanted;
            copy += 1;
        }
        i += 1;
        proof {
            let last = packed@[i - 1];
            assert forall|v: u8| v < 13 implies ((packed_bucket(counts@, v) > next_bucket(
                packed@,
                i as int,
            )) <==> (packed_bucket(counts@, v) > last || v == rank)) by {
                let j = choose|j: int| 0 <= j < 13 && packed@[j] == packed_bucket(counts@, v);
                if j < i - 1 {
                    assert(packed@[j] > packed@[i - 1]);
                } else if j > i - 1 {
                    assert(packed@[i - 1] > packed@[j]);
                    if j > i {
                        assert(packed@[i as int] > packed@[j]);
                    }
                } else {
                    assert(v == rank);
                }
                if i < 13 {
                    assert(packed@[i - 1] > packed@[i as int]);
                }
            }
        }
    }
    proof {
        assert(packed@.take(13) =~= packed@);
        assert(kickers@.take(5) =~= kickers@);
    }
    kickers
}

} // verus!
