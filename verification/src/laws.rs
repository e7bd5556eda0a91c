//! Laws of the packer: packing loses no package, duplicates none, respects
//! the capacity whenever every package fits, and is deterministic.

use crate::packing::all_fit;
use crate::packing::fill_bins;
use crate::packing::fit_step;
use crate::packing::insert_desc;
use crate::packing::lemma_sum_sizes_push;
use crate::packing::pack_spec;
use crate::packing::sort_desc;
use crate::packing::sorted_desc;
use crate::packing::sum_sizes;
use crate::packing::Package;
use vstd::multiset::lemma_multiset_empty_len;
use vstd::multiset::Multiset;
use vstd::prelude::*;
use vstd::seq_lib::lemma_multiset_commutative;
use vstd::seq_lib::to_multiset_build;

verus! {

/// The total size of the packages in a sequence of bins.
pub open spec fn sum_bins(bins: Seq<Seq<Package>>) -> int
    decreases bins.len(),
{
    if bins.len() == 0 {
        0
    } else {
        sum_bins(bins.drop_last()) + sum_sizes(bins.last())
    }
}

/// The number of packages in a sequence of bins.
pub open spec fn count_bins(bins: Seq<Seq<Package>>) -> int
    decreases bins.len(),
{
    if bins.len() == 0 {
        0
    } else {
        count_bins(bins.drop_last()) + bins.last().len()
    }
}

proof fn lemma_insert_desc_sum_len(s: Seq<Package>, p: Package)
    ensures
        sum_sizes(insert_desc(s, p)) == sum_sizes(s) + p.size,
        insert_desc(s, p).len() == s.len() + 1,
    decreases s.len(),
{
    if s.len() == 0 {
        assert(insert_desc(s, p) =~= seq![p]);
        assert(seq![p].drop_first() =~= Seq::<Package>::empty());
        assert(sum_sizes(seq![p]) == p.size + sum_sizes(seq![p].drop_first()));
    } else if s[0].size >= p.size {
        lemma_insert_desc_sum_len(s.drop_first(), p);
        let tail = insert_desc(s.drop_first(), p);
        assert((seq![s[0]] + tail).drop_first() =~= tail);
        assert((seq![s[0]] + tail)[0] == s[0]);
        assert(sum_sizes(seq![s[0]] + tail) == s[0].size + sum_sizes(tail));
        assert(sum_sizes(s) == s[0].size + sum_sizes(s.drop_first()));
    } else {
        assert((seq![p] + s).drop_first() =~= s);
        assert((seq![p] + s)[0] == p);
        assert(sum_sizes(seq![p] + s) == p.size + sum_sizes(s));
    }
}

proof fn lemma_sort_desc_sum_len(s: Seq<Package>)
    ensures
        sum_sizes(sort_desc(s)) == sum_sizes(s),
        sort_desc(s).len() == s.len(),
    decreases s.len(),
{
    if s.len() > 0 {
        lemma_sort_desc_sum_len(s.drop_last());
        lemma_insert_desc_sum_len(sort_desc(s.drop_last()), s.last());
        lemma_sum_sizes_push(s.drop_last(), s.last());
        assert(s.drop_last().push(s.last()) =~= s);
    }
}

proof fn lemma_fit_step_sum_count(capacity: u32, bins: Seq<Seq<Package>>, p: Package)
    ensures
        sum_bins(fit_step(capacity, bins, p)) == sum_bins(bins) + p.size,
        count_bins(fit_step(capacity, bins, p)) == count_bins(bins) + 1,
{
    assert(sum_sizes(seq![p]) == p.size + sum_sizes(seq![p].drop_first()));
    assert(seq![p].drop_first() =~= Seq::<Package>::empty());
    if bins.len() > 0 && sum_sizes(bins.last()) + p.size <= capacity {
        let stepped = fit_step(capacity, bins, p);
        assert(stepped.drop_last() =~= bins.drop_last());
        assert(stepped.last() == bins.last().push(p));
        lemma_sum_sizes_push(bins.last(), p);
    } else {
        let stepped = fit_step(capacity, bins, p);
        assert(stepped.drop_last() =~= bins);
        assert(stepped.last() == seq![p]);
    }
}

proof fn lemma_fill_bins_sum_count(capacity: u32, bins: Seq<Seq<Package>>, items: Seq<Package>)
    ensures
        sum_bins(fill_bins(capacity, bins, items)) == sum_bins(bins) + sum_sizes(items),
        count_bins(fill_bins(capacity, bins, items)) == count_bins(bins) + items.len(),
    decreases items.len(),
{
    if items.len() > 0 {
        lemma_fit_step_sum_count(capacity, bins, items[0]);
        lemma_fill_bins_sum_count(capacity, fit_step(capacity, bins, items[0]), items.drop_first());
    }
}

/// Conservation: the total size of the packages across all returned bins
/// equals the total size of the input packages — none is lost or duplicated.
pub proof fn lemma_conservation(capacity: u32, items: Seq<Package>)
    ensures
        sum_bins(pack_spec(capacity, items)) == sum_sizes(items),
{
    lemma_sort_desc_sum_len(items);
    lemma_fill_bins_sum_count(capacity, Seq::<Seq<Package>>::empty(), sort_desc(items));
}

/// Count invariant: the number of packages across all returned bins equals
/// the number of input packages.
pub proof fn lemma_count_invariant(capacity: u32, items: Seq<Package>)
    ensures
        count_bins(pack_spec(capacity, items)) == items.len(),
{
    lemma_sort_desc_sum_len(items);
    lemma_fill_bins_sum_count(capacity, Seq::<Seq<Package>>::empty(), sort_desc(items));
}

proof fn lemma_insert_desc_fit(capacity: u32, s: Seq<Package>, p: Package)
    requires
        all_fit(capacity, s),
        p.size <= capacity,
    ensures
        all_fit(capacity, insert_desc(s, p)),
    decreases s.len(),
{
    if s.len() == 0 {
        assert(insert_desc(s, p) =~= seq![p]);
    } else if s[0].size >= p.size {
        assert(all_fit(capacity, s.drop_first()));
        lemma_insert_desc_fit(capacity, s.drop_first(), p);
        assert(forall|i: int|
            0 <= i < insert_desc(s, p).len() ==> insert_desc(s, p)[i] == (if i == 0 {
                s[0]
            } else {
                insert_desc(s.drop_first(), p)[i - 1]
            }));
    } else {
        assert(forall|i: int|
            0 <= i < insert_desc(s, p).len() ==> insert_desc(s, p)[i] == (if i == 0 {
                p
            } else {
                s[i - 1]
            }));
    }
}

proof fn lemma_sort_desc_fit(capacity: u32, s: Seq<Package>)
    requires
        all_fit(capacity, s),
    ensures
        all_fit(capacity, sort_desc(s)),
    decreases s.len(),
{
    if s.len() > 0 {
        assert(all_fit(capacity, s.drop_last()));
        lemma_sort_desc_fit(capacity, s.drop_last());
        lemma_insert_desc_fit(capacity, sort_desc(s.drop_last()), s.last());
    }
}

/// Every bin total stays at most the capacity.
pub open spec fn bins_within(capacity: u32, bins: Seq<Seq<Package>>) -> bool {
    forall|k: int| 0 <= k < bins.len() ==> sum_sizes(bins[k]) <= capacity
}

proof fn lemma_fill_bins_within(capacity: u32, bins: Seq<Seq<Package>>, items: Seq<Package>)
    requires
        bins_within(capacity, bins),
        all_fit(capacity, items),
    ensures
        bins_within(capacity, fill_bins(capacity, bins, items)),
    decreases items.len(),
{
    if items.len() > 0 {
        let p = items[0];
        let stepped = fit_step(capacity, bins, p);
        if bins.len() > 0 && sum_sizes(bins.last()) + p.size <= capacity {
            lemma_sum_sizes_push(bins.last(), p);
            assert(bins_within(capacity, stepped));
        } else {
            assert(sum_sizes(seq![p]) == p.size + sum_sizes(seq![p].drop_first()));
            assert(seq![p].drop_first() =~= Seq::<Package>::empty());
            assert(bins_within(capacity, stepped));
        }
        assert(all_fit(capacity, items.drop_first()));
        lemma_fill_bins_within(capacity, stepped, items.drop_first());
    }
}

/// Capacity invariant: when every package fits in a bin on its own — exactly
/// the inputs `pack` accepts — every returned bin total is at most the
/// capacity.
pub proof fn lemma_capacity_invariant(capacity: u32, items: Seq<Package>)
    requires
        all_fit(capacity, items),
    ensures
        bins_within(capacity, pack_spec(capacity, items)),
{
    lemma_sort_desc_fit(capacity, items);
    lemma_fill_bins_within(capacity, Seq::<Seq<Package>>::empty(), sort_desc(items));
}

proof fn lemma_insert_desc_sorted(s: Seq<Package>, p: Package)
    requires
        sorted_desc(s),
    ensures
        sorted_desc(insert_desc(s, p)),
    decreases s.len(),
{
    if s.len() == 0 {
        assert(insert_desc(s, p) =~= seq![p]);
    } else if s[0].size >= p.size {
        assert(sorted_desc(s.drop_first()));
        lemma_insert_desc_sorted(s.drop_first(), p);
        assert(all_fit(s[0].size, s.drop_first()));
        lemma_insert_desc_fit(s[0].size, s.drop_first(), p);
        let inserted = insert_desc(s, p);
        assert(forall|i: int|
            0 <= i < inserted.len() ==> inserted[i] == (if i == 0 {
                s[0]
            } else {
                insert_desc(s.drop_first(), p)[i - 1]
            }));
        assert(forall|i: int, j: int|
            0 <= i < j < inserted.len() ==> inserted[i].size >= inserted[j].size);
    } else {
        let inserted = insert_desc(s, p);
        assert(forall|i: int|
            0 <= i < inserted.len() ==> inserted[i] == (if i == 0 {
                p
            } else {
                s[i - 1]
            }));
        assert(forall|i: int, j: int|
            0 <= i < j < inserted.len() ==> inserted[i].size >= inserted[j].size);
    }
}

/// Decreasing order: the sort puts the packages in non-increasing size order.
pub proof fn lemma_sort_desc_sorted(s: Seq<Package>)
    ensures
        sorted_desc(sort_desc(s)),
    decreases s.len(),
{
    if s.len() > 0 {
        lemma_sort_desc_sorted(s.drop_last());
        lemma_insert_desc_sorted(sort_desc(s.drop_last()), s.last());
    }
}

/// All packages held by a sequence of bins, as a multiset.
pub open spec fn bins_multiset(bins: Seq<Seq<Package>>) -> Multiset<Package>
    decreases bins.len(),
{
    if bins.len() == 0 {
        Multiset::<Package>::empty()
    } else {
        bins_multiset(bins.drop_last()).add(bins.last().to_multiset())
    }
}

proof fn lemma_empty_to_multiset()
    ensures
        Seq::<Package>::empty().to_multiset() == Multiset::<Package>::empty(),
{
    Seq::<Package>::empty().to_multiset_ensures();
    lemma_multiset_empty_len(Seq::<Package>::empty().to_multiset());
    assert(Seq::<Package>::empty().to_multiset() =~= Multiset::<Package>::empty());
}

proof fn lemma_insert_desc_multiset(s: Seq<Package>, p: Package)
    ensures
        insert_desc(s, p).to_multiset() == s.to_multiset().insert(p),
    decreases s.len(),
{
    if s.len() == 0 {
        assert(insert_desc(s, p) =~= s.push(p));
        to_multiset_build(s, p);
    } else if s[0].size >= p.size {
        lemma_insert_desc_multiset(s.drop_first(), p);
        lemma_multiset_commutative(seq![s[0]], insert_desc(s.drop_first(), p));
        assert(seq![s[0]] + s.drop_first() =~= s);
        lemma_multiset_commutative(seq![s[0]], s.drop_first());
        assert(seq![s[0]].to_multiset().add(s.drop_first().to_multiset().insert(p)) =~= seq![
            s[0],
        ].to_multiset().add(s.drop_first().to_multiset()).insert(p));
    } else {
        lemma_multiset_commutative(seq![p], s);
        assert(seq![p] =~= Seq::<Package>::empty().push(p));
        to_multiset_build(Seq::<Package>::empty(), p);
        lemma_empty_to_multiset();
        assert(Multiset::<Package>::empty().insert(p).add(s.to_multiset())
            =~= s.to_multiset().insert(p));
    }
}

proof fn lemma_sort_desc_multiset(s: Seq<Package>)
    ensures
        sort_desc(s).to_multiset() == s.to_multiset(),
    decreases s.len(),
{
    if s.len() == 0 {
        assert(s =~= Seq::<Package>::empty());
    } else {
        lemma_sort_desc_multiset(s.drop_last());
        lemma_insert_desc_multiset(sort_desc(s.drop_last()), s.last());
        to_multiset_build(s.drop_last(), s.last());
        assert(s.drop_last().push(s.last()) =~= s);
    }
}

proof fn lemma_fit_step_multiset(capacity: u32, bins: Seq<Seq<Package>>, p: Package)
    ensures
        bins_multiset(fit_step(capacity, bins, p)) == bins_multiset(bins).insert(p),
{
    let stepped = fit_step(capacity, bins, p);
    if bins.len() > 0 && sum_sizes(bins.last()) + p.size <= capacity {
        assert(stepped.drop_last() =~= bins.drop_last());
        assert(stepped.last() == bins.last().push(p));
        to_multiset_build(bins.last(), p);
        assert(bins_multiset(bins.drop_last()).add(bins.last().to_multiset().insert(p))
            =~= bins_multiset(bins.drop_last()).add(bins.last().to_multiset()).insert(p));
    } else {
        assert(stepped.drop_last() =~= bins);
        assert(stepped.last() == seq![p]);
        assert(seq![p] =~= Seq::<Package>::empty().push(p));
        to_multiset_build(Seq::<Package>::empty(), p);
        lemma_empty_to_multiset();
        assert(bins_multiset(bins).add(Multiset::<Package>::empty().insert(p)) =~= bins_multiset(
            bins,
        ).insert(p));
    }
}

proof fn lemma_fill_bins_multiset(capacity: u32, bins: Seq<Seq<Package>>, items: Seq<Package>)
    ensures
        bins_multiset(fill_bins(capacity, bins, items)) == bins_multiset(bins).add(
            items.to_multiset(),
        ),
    decreases items.len(),
{
    if items.len() == 0 {
        assert(items =~= Seq::<Package>::empty());
        lemma_empty_to_multiset();
        assert(bins_multiset(bins).add(Multiset::<Package>::empty()) =~= bins_multiset(bins));
    } else {
        let stepped = fit_step(capacity, bins, items[0]);
        lemma_fit_step_multiset(capacity, bins, items[0]);
        lemma_fill_bins_multiset(capacity, stepped, items.drop_first());
        assert(seq![items[0]] + items.drop_first() =~= items);
        lemma_multiset_commutative(seq![items[0]], items.drop_first());
        assert(seq![items[0]] =~= Seq::<Package>::empty().push(items[0]));
        to_multiset_build(Seq::<Package>::empty(), items[0]);
        lemma_empty_to_multiset();
        assert(bins_multiset(bins).insert(items[0]).add(items.drop_first().to_multiset())
            =~= bins_multiset(bins).add(items.to_multiset()));
    }
}

/// Partition: the returned bins hold exactly the input packages — each ends
/// up in exactly one bin, never duplicated, never dropped.
pub proof fn lemma_partition(capacity: u32, items: Seq<Package>)
    ensures
        bins_multiset(pack_spec(capacity, items)) == items.to_multiset(),
{
    lemma_sort_desc_multiset(items);
    lemma_fill_bins_multiset(capacity, Seq::<Seq<Package>>::empty(), sort_desc(items));
    assert(Multiset::<Package>::empty().add(items.to_multiset()) =~= items.to_multiset());
}

/// Determinism: two packings of the same packages with the same capacity
/// return bins with identical contents in identical order.
pub proof fn lemma_deterministic(
    capacity: u32,
    items: Seq<Package>,
    bins1: Seq<Seq<Package>>,
    bins2: Seq<Seq<Package>>,
)
    requires
        bins1 == pack_spec(capacity, items),
        bins2 == pack_spec(capacity, items),
    ensures
        bins1 == bins2,
{
}

/// Empty input: packing no packages opens no bin.
pub proof fn lemma_empty_input(capacity: u32)
    ensures
        pack_spec(capacity, Seq::<Package>::empty()) == Seq::<Seq<Package>>::empty(),
{
}

} // verus!
