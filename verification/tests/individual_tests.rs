use genalg::individual::{count_occurrences, is_valid_permutation, Individual, Kind};

#[test]
fn count_occurrences_counts_exactly() {
    let values = vec![3usize, 1, 3, 3, 0];
    assert_eq!(count_occurrences(3, &values), 3);
    assert_eq!(count_occurrences(1, &values), 1);
    assert_eq!(count_occurrences(0, &values), 1);
    assert_eq!(count_occurrences(7, &values), 0);
    let empty: Vec<usize> = vec![];
    assert_eq!(count_occurrences(0, &empty), 0);
}

#[test]
fn valid_permutations_are_accepted() {
    assert!(is_valid_permutation(&vec![0usize, 1, 2, 3, 4]));
    assert!(is_valid_permutation(&vec![4usize, 2, 0, 3, 1]));
    assert!(is_valid_permutation(&vec![0usize]));
    assert!(is_valid_permutation(&vec![]));
}

#[test]
fn invalid_permutations_are_rejected() {
    // a duplicate
    assert!(!is_valid_permutation(&vec![0usize, 1, 1]));
    // a value out of range
    assert!(!is_valid_permutation(&vec![0usize, 1, 3]));
    // both
    assert!(!is_valid_permutation(&vec![5usize, 5, 5]));
}

#[test]
fn individual_reports_length_and_kind() {
    let cont = Individual::Continuous(vec![1u64, 2, 3]);
    assert_eq!(cont.len(), 3);
    assert_eq!(cont.kind(), Kind::Continuous);
    let perm = Individual::Permutation(vec![1usize, 0]);
    assert_eq!(perm.len(), 2);
    assert_eq!(perm.kind(), Kind::Permutation);
}

#[test]
fn duplicate_copies_genes_exactly() {
    let original = Individual::Continuous(vec![7u64, 0, u64::MAX]);
    let copy = original.duplicate();
    match (original, copy) {
        (Individual::Continuous(a), Individual::Continuous(b)) => assert_eq!(a, b),
        _ => panic!("genotype family changed under duplication"),
    }
    let perm = Individual::Permutation(vec![2usize, 0, 1]);
    let perm_copy = perm.clone();
    match (perm, perm_copy) {
        (Individual::Permutation(a), Individual::Permutation(b)) => assert_eq!(a, b),
        _ => panic!("genotype family changed under cloning"),
    }
}
