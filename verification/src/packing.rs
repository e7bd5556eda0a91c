//! The packer: types for packages and bins, the stable descending sort,
//! and the greedy first-fit-into-current-bin pass.

use vstd::prelude::*;

verus! {

/// An item to be placed into a bin; its only attribute is a non-negative size.
#[derive(Clone, Copy, PartialEq, Eq, Structural, Debug)]
pub struct Package {
    pub size: u32,
}

/// A container holding the packages assigned to it, in insertion order.
pub struct Bin {
    packages: Vec<Package>,
}

impl View for Bin {
    type V = Seq<Package>;

    closed spec fn view(&self) -> Seq<Package> {
        self.packages@
    }
}

/// The total size of a sequence of packages.
pub open spec fn sum_sizes(s: Seq<Package>) -> int
    decreases s.len(),
{
    if s.len() == 0 {
        0
    } else {
        s[0].size + sum_sizes(s.drop_first())
    }
}

pub(crate) proof fn lemma_sum_sizes_push(s: Seq<Package>, p: Package)
    ensures
        sum_sizes(s.push(p)) == sum_sizes(s) + p.size,
    decreases s.len(),
{
    if s.len() == 0 {
        assert(s.push(p)[0] == p);
        assert(s.push(p).drop_first() =~= Seq::<Package>::empty());
        assert(sum_sizes(s.push(p)) == p.size + sum_sizes(s.push(p).drop_first()));
        assert(sum_sizes(Seq::<Package>::empty()) == 0);
        assert(sum_sizes(s) == 0);
    } else {
        assert(s.push(p)[0] == s[0]);
        assert(s.push(p).drop_first() =~= s.drop_first().push(p));
        lemma_sum_sizes_push(s.drop_first(), p);
        assert(sum_sizes(s.push(p)) == s[0].size + sum_sizes(s.drop_first().push(p)));
        assert(sum_sizes(s) == s[0].size + sum_sizes(s.drop_first()));
    }
}

pub(crate) proof fn lemma_sum_sizes_nonneg(s: Seq<Package>)
    ensures
        sum_sizes(s) >= 0,
    decreases s.len(),
{
    if s.len() > 0 {
        lemma_sum_sizes_nonneg(s.drop_first());
    }
}

proof fn lemma_sum_sizes_take_le(s: Seq<Package>, i: int)
    requires
        0 <= i <= s.len(),
    ensures
        sum_sizes(s.take(i)) <= sum_sizes(s),
    decreases s.len(),
{
    if i == 0 {
        assert(s.take(0) =~= Seq::<Package>::empty());
        lemma_sum_sizes_nonneg(s);
    } else {
        assert(s.take(i).drop_first() =~= s.drop_first().take(i - 1));
        lemma_sum_sizes_take_le(s.drop_first(), i - 1);
    }
}

impl Bin {
    /// A bin starts out empty.
    pub fn new() -> (bin: Bin)
        ensures
            bin@ == Seq::<Package>::empty(),
    {
        Bin { packages: Vec::new() }
    }

    /// Appends a package; a bin only ever gains packages.
    pub fn add_package(&mut self, package: &Package)
        ensures
            final(self)@ == old(self)@.push(*package),
    {
        self.packages.push(*package);
    }

    /// The packages held so far, in insertion order.
    pub fn get_packages(&self) -> (packages: &Vec<Package>)
        ensures
            packages@ == self@,
    {
        &self.packages
    }

    /// The total size of the packages held so far.
    pub fn get_size(&self) -> (size: u32)
        requires
            sum_sizes(self@) <= u32::MAX,
        ensures
            size == sum_sizes(self@),
    {
        let mut total: u32 = 0;
        let mut i: usize = 0;
        while i < self.packages.len()
            invariant
                i <= self.packages@.len(),
                total == sum_sizes(self.packages@.take(i as int)),
                sum_sizes(self.packages@) <= u32::MAX,
            decreases self.packages@.len() - i,
        {
            proof {
                assert(self.packages@.take(i + 1) =~= self.packages@.take(i as int).push(
                    self.packages@[i as int],
                ));
                lemma_sum_sizes_push(self.packages@.take(i as int), self.packages@[i as int]);
                lemma_sum_sizes_take_le(self.packages@, i + 1);
                lemma_sum_sizes_nonneg(self.packages@.take(i as int));
            }
            total = total + self.packages[i].size;
            i = i + 1;
        }
        proof {
            assert(self.packages@.take(self.packages@.len() as int) =~= self.packages@);
        }
        total
    }
}

/// Whether a sequence of packages is ordered by non-increasing size.
pub open spec fn sorted_desc(s: Seq<Package>) -> bool {
    forall|i: int, j: int| 0 <= i < j < s.len() ==> s[i].size >= s[j].size
}

/// Inserts `p` directly after every package whose size is at least `p.size`:
/// on a descending-sorted sequence this keeps the order and, for equal sizes,
/// places the newcomer last (a stable insertion).
pub open spec fn insert_desc(s: Seq<Package>, p: Package) -> Seq<Package>
    decreases s.len(),
{
    if s.len() == 0 {
        seq![p]
    } else if s[0].size >= p.size {
        seq![s[0]] + insert_desc(s.drop_first(), p)
    } else {
        seq![p] + s
    }
}

/// The stable descending sort: packages in non-increasing order of size,
/// packages of equal size keeping their relative input order.
pub open spec fn sort_desc(s: Seq<Package>) -> Seq<Package>
    decreases s.len(),
{
    if s.len() == 0 {
        Seq::<Package>::empty()
    } else {
        insert_desc(sort_desc(s.drop_last()), s.last())
    }
}

proof fn lemma_insert_desc_at(s: Seq<Package>, p: Package, k: int)
    requires
        0 <= k <= s.len(),
        forall|i: int| 0 <= i < k ==> s[i].size >= p.size,
        k < s.len() ==> s[k].size < p.size,
    ensures
        insert_desc(s, p) == s.insert(k, p),
    decreases s.len(),
{
    if s.len() == 0 {
        assert(insert_desc(s, p) =~= s.insert(0, p));
    } else if k == 0 {
        assert(seq![p] + s =~= s.insert(0, p));
    } else {
        assert(s[0].size >= p.size);
        assert(forall|i: int| 0 <= i < k - 1 ==> s.drop_first()[i].size >= p.size);
        lemma_insert_desc_at(s.drop_first(), p, k - 1);
        assert(seq![s[0]] + s.drop_first().insert(k - 1, p) =~= s.insert(k, p));
    }
}

/// Inserts `package` into `sorted` just before the first package of strictly
/// smaller size, matching the stable insertion of the sort specification.
fn insert_sorted_desc(sorted: &mut Vec<Package>, package: Package)
    ensures
        final(sorted)@ == insert_desc(old(sorted)@, package),
{
    let mut idx: usize = 0;
    while idx < sorted.len() && sorted[idx].size >= package.size
        invariant
            idx <= sorted@.len(),
            forall|i: int| 0 <= i < idx ==> sorted@[i].size >= package.size,
        decreases sorted@.len() - idx,
    {
        idx = idx + 1;
    }
    proof {
        lemma_insert_desc_at(sorted@, package, idx as int);
    }
    sorted.insert(idx, package);
}

/// Sorts the packages by size, largest first, keeping the relative order of
/// packages of equal size.
fn sort_packages_desc(packages: &Vec<Package>) -> (sorted: Vec<Package>)
    ensures
        sorted@ == sort_desc(packages@),
{
    let mut sorted: Vec<Package> = Vec::new();
    let mut i: usize = 0;
    while i < packages.len()
        invariant
            i <= packages@.len(),
            sorted@ == sort_desc(packages@.take(i as int)),
        decreases packages@.len() - i,
    {
        insert_sorted_desc(&mut sorted, packages[i]);
        proof {
            assert(packages@.take(i + 1).drop_last() =~= packages@.take(i as int));
            assert(packages@.take(i + 1).last() == packages@[i as int]);
        }
        i = i + 1;
    }
    proof {
        assert(packages@.take(packages@.len() as int) =~= packages@);
    }
    sorted
}

/// The contents of a sequence of bins.
pub open spec fn bins_view(bins: Seq<Bin>) -> Seq<Seq<Package>> {
    bins.map_values(|b: Bin| b@)
}

/// Places one package: into the current (last) bin when it fits, otherwise
/// into a fresh bin that becomes the new current bin. Earlier bins are never
/// revisited.
pub open spec fn fit_step(capacity: u32, bins: Seq<Seq<Package>>, p: Package) -> Seq<
    Seq<Package>,
> {
    if bins.len() > 0 && sum_sizes(bins.last()) + p.size <= capacity {
        bins.update(bins.len() - 1, bins.last().push(p))
    } else {
        bins.push(seq![p])
    }
}

/// Folds `fit_step` over the packages, left to right.
pub open spec fn fill_bins(capacity: u32, bins: Seq<Seq<Package>>, items: Seq<Package>) -> Seq<
    Seq<Package>,
>
    decreases items.len(),
{
    if items.len() == 0 {
        bins
    } else {
        fill_bins(capacity, fit_step(capacity, bins, items[0]), items.drop_first())
    }
}

/// What packing returns: the greedy current-bin-only pass over the packages
/// sorted by decreasing size.
pub open spec fn pack_spec(capacity: u32, items: Seq<Package>) -> Seq<Seq<Package>> {
    fill_bins(capacity, Seq::<Seq<Package>>::empty(), sort_desc(items))
}

/// Every bin either respects the capacity or holds a single oversized package.
pub open spec fn bins_bounded(capacity: u32, bins: Seq<Seq<Package>>) -> bool {
    forall|k: int|
        0 <= k < bins.len() ==> sum_sizes(bins[k]) <= capacity || bins[k].len() == 1
}

/// Packs the packages into bins: sorts them by decreasing size, then places
/// each into the most recently opened bin when it fits and into a new bin
/// otherwise. A package larger than `bin_size` is placed alone in a bin whose
/// total then exceeds the capacity; `pack` rejects such inputs instead.
pub fn optimize(bin_size: u32, packages: Vec<Package>) -> (bins: Vec<Bin>)
    ensures
        bins_view(bins@) == pack_spec(bin_size, packages@),
        bins_bounded(bin_size, bins_view(bins@)),
{
    let sorted = sort_packages_desc(&packages);
    let ghost target = pack_spec(bin_size, packages@);
    let mut bins: Vec<Bin> = Vec::new();
    let mut i: usize = 0;
    proof {
        assert(bins_view(bins@) =~= Seq::<Seq<Package>>::empty());
        assert(sorted@.skip(0) =~= sorted@);
    }
    while i < sorted.len()
        invariant
            i <= sorted@.len(),
            fill_bins(bin_size, bins_view(bins@), sorted@.skip(i as int)) == target,
            bins_bounded(bin_size, bins_view(bins@)),
        decreases sorted@.len() - i,
    {
        let package = sorted[i];
        let ghost bins_before = bins_view(bins@);
        proof {
            assert(sorted@.skip(i as int)[0] == sorted@[i as int]);
            assert(sorted@.skip(i as int).drop_first() =~= sorted@.skip(i + 1));
        }
        if bins.len() > 0 {
            let mut current = bins.pop().unwrap();
            proof {
                assert(bins_before.last() == current@);
                if current@.len() == 1 {
                    assert(sum_sizes(current@) == current@[0].size + sum_sizes(
                        current@.drop_first(),
                    ));
                    assert(current@.drop_first() =~= Seq::<Package>::empty());
                }
                lemma_sum_sizes_nonneg(current@);
            }
            let current_size = current.get_size();
            if current_size as u64 + package.size as u64 <= bin_size as u64 {
                current.add_package(&package);
                bins.push(current);
                proof {
                    lemma_sum_sizes_push(bins_before.last(), package);
                    assert(bins_view(bins@) =~= fit_step(bin_size, bins_before, package));
                }
            } else {
                bins.push(current);
                let mut fresh = Bin::new();
                fresh.add_package(&package);
                bins.push(fresh);
                proof {
                    assert(fresh@ =~= seq![package]);
                    assert(sum_sizes(seq![package]) == package.size + sum_sizes(
                        seq![package].drop_first(),
                    ));
                    assert(seq![package].drop_first() =~= Seq::<Package>::empty());
                    assert(bins_view(bins@) =~= fit_step(bin_size, bins_before, package));
                }
            }
        } else {
            let mut fresh = Bin::new();
            fresh.add_package(&package);
            bins.push(fresh);
            proof {
                assert(fresh@ =~= seq![package]);
                assert(sum_sizes(seq![package]) == package.size + sum_sizes(
                    seq![package].drop_first(),
                ));
                assert(seq![package].drop_first() =~= Seq::<Package>::empty());
                assert(bins_view(bins@) =~= fit_step(bin_size, bins_before, package));
            }
        }
        i = i + 1;
    }
    proof {
        assert(sorted@.skip(sorted@.len() as int) =~= Seq::<Package>::empty());
    }
    bins
}

/// Why a packing request was rejected.
#[derive(Clone, Copy, PartialEq, Eq, Structural, Debug)]
pub enum PackError {
    /// Some package is larger than the bin capacity, so it cannot be placed
    /// without a bin exceeding its capacity.
    ItemTooLarge,
}

/// Whether every package fits in a bin of the given capacity on its own.
pub open spec fn all_fit(capacity: u32, items: Seq<Package>) -> bool {
    forall|i: int| 0 <= i < items.len() ==> items[i].size <= capacity
}

/// Packs the packages into bins under the reject-oversized policy: a package
/// larger than `capacity` makes the whole input invalid and the packing fails
/// with `ItemTooLarge`; otherwise the result is the greedy decreasing
/// current-bin-only packing and every bin total is at most `capacity`.
pub fn pack(capacity: u32, items: Vec<Package>) -> (result: Result<Vec<Bin>, PackError>)
    ensures
        result is Ok <==> all_fit(capacity, items@),
        result matches Ok(bins) ==> bins_view(bins@) == pack_spec(capacity, items@),
        result matches Err(e) ==> e == PackError::ItemTooLarge,
{
    let mut i: usize = 0;
    while i < items.len()
        invariant
            i <= items@.len(),
            forall|j: int| 0 <= j < i ==> items@[j].size <= capacity,
        decreases items@.len() - i,
    {
        if items[i].size > capacity {
            return Err(PackError::ItemTooLarge);
        }
        i = i + 1;
    }
    Ok(optimize(capacity, items))
}

} // verus!
