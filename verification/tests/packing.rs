use bin_packer::generate::packages;
use bin_packer::packing::optimize;
use bin_packer::packing::pack;
use bin_packer::packing::Bin;
use bin_packer::packing::PackError;
use bin_packer::packing::Package;

fn sizes_of(bin: &Bin) -> Vec<u32> {
    bin.get_packages().iter().map(|p| p.size).collect()
}

fn from_sizes(sizes: &[u32]) -> Vec<Package> {
    sizes.iter().map(|&size| Package { size }).collect()
}

#[test]
fn check_optimize() {
    let packages = packages(100);
    let packages_copy = packages.to_owned();
    let bins = optimize(400, packages);
    let packages_size = packages_copy.iter().fold(0, |a, b| a + b.size);
    let bins_size = bins.iter().fold(0, |a, b| a + b.get_size());

    assert_eq!(
        packages_size, bins_size,
        "check that the packages and the bins have the same size"
    );
    assert!(
        bins.iter().all(|bin| (bin.get_size() <= 400)),
        "check that all the bins have the correct size"
    );
}

#[test]
fn empty_input_returns_no_bins() {
    let bins = pack(17, Vec::new()).unwrap();
    assert_eq!(bins.len(), 0);
    assert_eq!(optimize(17, Vec::new()).len(), 0);
}

#[test]
fn single_item_fitting_exactly() {
    let bins = pack(10, from_sizes(&[10])).unwrap();
    assert_eq!(bins.len(), 1);
    assert_eq!(sizes_of(&bins[0]), vec![10]);
    assert_eq!(bins[0].get_size(), 10);
}

#[test]
fn current_bin_only_fit_policy() {
    let bins = pack(10, from_sizes(&[6, 5, 4])).unwrap();
    assert_eq!(bins.len(), 2);
    assert_eq!(sizes_of(&bins[0]), vec![6]);
    assert_eq!(sizes_of(&bins[1]), vec![5, 4]);
    assert_eq!(bins[0].get_size(), 6);
    assert_eq!(bins[1].get_size(), 9);
}

#[test]
fn oversized_item_is_rejected() {
    assert!(matches!(
        pack(5, from_sizes(&[7])),
        Err(PackError::ItemTooLarge)
    ));
    assert!(matches!(
        pack(5, from_sizes(&[3, 7, 1])),
        Err(PackError::ItemTooLarge)
    ));
}

#[test]
fn oversized_item_overflows_one_bin_in_optimize() {
    let bins = optimize(5, from_sizes(&[7]));
    assert_eq!(bins.len(), 1);
    assert_eq!(sizes_of(&bins[0]), vec![7]);
    assert_eq!(bins[0].get_size(), 7);
}

#[test]
fn conservation_and_count() {
    let input = [3, 9, 1, 9, 2, 8];
    let bins = pack(10, from_sizes(&input)).unwrap();
    let total: u32 = bins.iter().map(|bin| bin.get_size()).sum();
    let count: usize = bins.iter().map(|bin| bin.get_packages().len()).sum();
    assert_eq!(total, input.iter().sum::<u32>());
    assert_eq!(count, input.len());
}

#[test]
fn capacity_invariant_holds() {
    let bins = pack(10, from_sizes(&[4, 4, 4, 4, 4, 10, 1, 1])).unwrap();
    assert!(bins.iter().all(|bin| bin.get_size() <= 10));
}

#[test]
fn packing_is_deterministic() {
    let input = [2, 7, 4, 4, 6, 1, 9];
    let first = pack(12, from_sizes(&input)).unwrap();
    let second = pack(12, from_sizes(&input)).unwrap();
    let first_sizes: Vec<Vec<u32>> = first.iter().map(sizes_of).collect();
    let second_sizes: Vec<Vec<u32>> = second.iter().map(sizes_of).collect();
    assert_eq!(first_sizes, second_sizes);
}

#[test]
fn packs_sorted_descending_with_stable_ties() {
    let bins = pack(9, from_sizes(&[1, 8, 3, 8])).unwrap();
    let partition: Vec<Vec<u32>> = bins.iter().map(sizes_of).collect();
    assert_eq!(partition, vec![vec![8], vec![8], vec![3, 1]]);
}

#[test]
fn bin_starts_empty_and_grows() {
    let mut bin = Bin::new();
    assert_eq!(bin.get_packages().len(), 0);
    assert_eq!(bin.get_size(), 0);
    bin.add_package(&Package { size: 2 });
    bin.add_package(&Package { size: 3 });
    bin.add_package(&Package { size: 4 });
    assert_eq!(sizes_of(&bin), vec![2, 3, 4]);
    assert_eq!(bin.get_size(), 9);
}

#[test]
fn generated_packages_have_bounded_sizes() {
    let generated = packages(50);
    assert_eq!(generated.len(), 50);
    assert!(generated.iter().all(|p| p.size < 100));
}
