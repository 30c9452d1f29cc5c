//! Ordering files by age.
use vstd::prelude::*;
use vstd::relations::sorted_by;
use vstd::relations::total_ordering;
use vstd::seq_lib::lemma_multiset_commutative;
use vstd::seq_lib::lemma_sorted_unique;

verus! {

/// Oldest first; of two equally old, the one listed first. A stamp is a
/// modification time and a position in the listing.
pub open spec fn older() -> spec_fn((i128, usize), (i128, usize)) -> bool {
    |a: (i128, usize), b: (i128, usize)| a.0 < b.0 || (a.0 == b.0 && a.1 <= b.1)
}

/// `stamps`, oldest first.
pub open spec fn by_age(stamps: Seq<(i128, usize)>) -> Seq<(i128, usize)> {
    stamps.sort_by(older())
}

/// Any two stamps are ordered one way, or are the same.
pub proof fn older_is_total()
    ensures
        total_ordering(older()),
{
}

/// Ordering by age keeps every stamp as often as it was there, and puts each
/// before those that are younger.
pub proof fn by_age_sorts(stamps: Seq<(i128, usize)>)
    ensures
        by_age(stamps).to_multiset() == stamps.to_multiset(),
        by_age(stamps).len() == stamps.len(),
        sorted_by(by_age(stamps), older()),
{
    older_is_total();
    stamps.lemma_sort_by_ensures(older());
    stamps.to_multiset_ensures();
    by_age(stamps).to_multiset_ensures();
}

proof fn one_more_taken(a: Seq<(i128, usize)>, i: int, b: Seq<(i128, usize)>, j: int)
    requires
        0 <= i <= a.len(),
        0 <= j <= b.len(),
    ensures
        i < a.len() ==> (a.take(i + 1) + b.take(j)).to_multiset() == (a.take(i)
            + b.take(j)).to_multiset().insert(a[i]),
        j < b.len() ==> (a.take(i) + b.take(j + 1)).to_multiset() == (a.take(i)
            + b.take(j)).to_multiset().insert(b[j]),
{
    broadcast use vstd::multiset::group_multiset_axioms;

    lemma_multiset_commutative(a.take(i), b.take(j));
    if i < a.len() {
        lemma_multiset_commutative(a.take(i + 1), b.take(j));
        assert(a.take(i + 1) =~= a.take(i).push(a[i]));
        a.take(i).to_multiset_ensures();
        assert((a.take(i + 1) + b.take(j)).to_multiset() =~= (a.take(i)
            + b.take(j)).to_multiset().insert(a[i]));
    }
    if j < b.len() {
        lemma_multiset_commutative(a.take(i), b.take(j + 1));
        assert(b.take(j + 1) =~= b.take(j).push(b[j]));
        b.take(j).to_multiset_ensures();
        assert((a.take(i) + b.take(j + 1)).to_multiset() =~= (a.take(i)
            + b.take(j)).to_multiset().insert(b[j]));
    }
}

fn merge(left: &Vec<(i128, usize)>, right: &Vec<(i128, usize)>) -> (merged: Vec<(i128, usize)>)
    requires
        sorted_by(left@, older()),
        sorted_by(right@, older()),
    ensures
        sorted_by(merged@, older()),
        merged@.to_multiset() == (left@ + right@).to_multiset(),
{
    let mut merged: Vec<(i128, usize)> = Vec::new();
    let mut i: usize = 0;
    let mut j: usize = 0;
    proof {
        assert(left@.take(0) + right@.take(0) =~= merged@);
    }
    while i < left.len() || j < right.len()
        invariant
            i <= left.len(),
            j <= right.len(),
            sorted_by(left@, older()),
            sorted_by(right@, older()),
            sorted_by(merged@, older()),
            merged@.to_multiset() == (left@.take(i as int) + right@.take(j as int)).to_multiset(),
            forall|m: int, k: int|
                0 <= m < merged.len() && i <= k < left.len() ==> #[trigger] older()(
                    merged@[m],
                    left@[k],
                ),
            forall|m: int, k: int|
                0 <= m < merged.len() && j <= k < right.len() ==> #[trigger] older()(
                    merged@[m],
                    right@[k],
                ),
        decreases left.len() - i + right.len() - j,
    {
        let from_left = if i >= left.len() {
            false
        } else if j >= right.len() {
            true
        } else {
            left[i].0 < right[j].0 || (left[i].0 == right[j].0 && left[i].1 <= right[j].1)
        };
        proof {
            one_more_taken(left@, i as int, right@, j as int);
            merged@.to_multiset_ensures();
        }
        let ghost before = merged@;
        if from_left {
            proof {
                assert forall|k: int| j <= k < right.len() implies #[trigger] older()(
                    left@[i as int],
                    right@[k],
                ) by {
                    if k > j {
                        assert(older()(right@[j as int], right@[k]));
                    }
                }
                assert forall|m: int| 0 <= m < before.len() implies #[trigger] older()(
                    before[m],
                    left@[i as int],
                ) by {}
            }
            merged.push(left[i]);
            i = i + 1;
        } else {
            proof {
                assert forall|k: int| i <= k < left.len() implies #[trigger] older()(
                    right@[j as int],
                    left@[k],
                ) by {
                    if k > i {
                        assert(older()(left@[i as int], left@[k]));
                    }
                }
                assert forall|m: int| 0 <= m < before.len() implies #[trigger] older()(
                    before[m],
                    right@[j as int],
                ) by {}
            }
            merged.push(right[j]);
            j = j + 1;
        }
        proof {
            assert forall|a: int, b: int| 0 <= a < b < merged.len() implies #[trigger] older()(
                merged@[a],
                merged@[b],
            ) by {
                if b < before.len() {
                    assert(older()(before[a], before[b]));
                } else {
                    assert(merged@[a] == before[a]);
                }
            }
        }
    }
    proof {
        assert(left@.take(i as int) + right@.take(j as int) =~= left@ + right@);
    }
    merged
}

fn sort_part(stamps: &Vec<(i128, usize)>, lo: usize, hi: usize) -> (sorted: Vec<(i128, usize)>)
    requires
        lo <= hi <= stamps.len(),
    ensures
        sorted_by(sorted@, older()),
        sorted@.to_multiset() == stamps@.subrange(lo as int, hi as int).to_multiset(),
    decreases hi - lo,
{
    if hi - lo <= 1 {
        let mut sorted: Vec<(i128, usize)> = Vec::new();
        if lo < hi {
            sorted.push(stamps[lo]);
        }
        proof {
            assert(sorted@ =~= stamps@.subrange(lo as int, hi as int));
        }
        sorted
    } else {
        let mid: usize = lo + (hi - lo) / 2;
        let left = sort_part(stamps, lo, mid);
        let right = sort_part(stamps, mid, hi);
        let sorted = merge(&left, &right);
        proof {
            let first = stamps@.subrange(lo as int, mid as int);
            let second = stamps@.subrange(mid as int, hi as int);
            assert(stamps@.subrange(lo as int, hi as int) =~= first + second);
            lemma_multiset_commutative(first, second);
            lemma_multiset_commutative(left@, right@);
        }
        sorted
    }
}

/// Puts stamps in order, oldest first; equally old ones keep their order in the
/// listing.
pub fn oldest_first(stamps: &Vec<(i128, usize)>) -> (sorted: Vec<(i128, usize)>)
    ensures
        sorted@ == by_age(stamps@),
{
    let sorted = sort_part(stamps, 0, stamps.len());
    proof {
        assert(stamps@.subrange(0, stamps@.len() as int) =~= stamps@);
        older_is_total();
        by_age_sorts(stamps@);
        lemma_sorted_unique(sorted@, by_age(stamps@), older());
    }
    sorted
}

} // verus!
