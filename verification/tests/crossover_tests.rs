use genalg::crossover::{
    crossover, crossover_continuous_at, crossover_permutation_at, ox_child, Crossover,
};
use genalg::individual::{is_valid_permutation, Individual};
use genalg::population::Population;

#[test]
fn continuous_crossover_splices_exactly() {
    let p1 = vec![1u64, 2, 3, 4, 5];
    let p2 = vec![10u64, 20, 30, 40, 50];
    let (c1, c2) = crossover_continuous_at(&p1, &p2, 2);
    assert_eq!(c1, vec![1u64, 2, 30, 40, 50]);
    assert_eq!(c2, vec![10u64, 20, 3, 4, 5]);
}

#[test]
fn continuous_crossover_reconstructs_parents() {
    // re-splicing the children at the same point rebuilds both parents
    let p1 = vec![1u64, 2, 3, 4];
    let p2 = vec![5u64, 6, 7, 8];
    for point in 0..=4usize {
        let (c1, c2) = crossover_continuous_at(&p1, &p2, point);
        let mut rebuilt1: Vec<u64> = c1[..point].to_vec();
        rebuilt1.extend_from_slice(&c2[point..]);
        assert_eq!(rebuilt1, p1);
        let mut rebuilt2: Vec<u64> = c2[..point].to_vec();
        rebuilt2.extend_from_slice(&c1[point..]);
        assert_eq!(rebuilt2, p2);
    }
}

#[test]
fn random_point_crossover_keeps_length_and_gene_values() {
    let p1 = vec![1u64, 2, 3, 4, 5, 6];
    let p2 = vec![9u64, 9, 9, 9, 9, 9];
    for _ in 0..20 {
        let (c1, c2) = crossover(&p1, &p2);
        assert_eq!(c1.len(), 6);
        assert_eq!(c2.len(), 6);
        for k in 0..6 {
            assert!(c1[k] == p1[k] || c1[k] == p2[k]);
            assert!(c2[k] == p1[k] || c2[k] == p2[k]);
        }
    }
}

#[test]
fn order_crossover_known_example() {
    let p1 = vec![0usize, 1, 2, 3, 4];
    let p2 = vec![4usize, 3, 2, 1, 0];
    let (c1, c2) = crossover_permutation_at(&p1, &p2, 1, 2);
    // child 1: segment [1, 2] kept from p1; the rest of p2's genes in
    // order (4, 3, 0), filled from position 3 and wrapping
    assert_eq!(c1, vec![0usize, 1, 2, 4, 3]);
    // child 2 symmetric: segment [3, 2] from p2; from p1 remain (0, 1, 4)
    assert_eq!(c2, vec![4usize, 3, 2, 0, 1]);
}

#[test]
fn order_crossover_segment_matches_parent() {
    let p1 = vec![3usize, 0, 4, 1, 2];
    let p2 = vec![1usize, 4, 0, 2, 3];
    for start in 0..5usize {
        for end in start..5usize {
            let (c1, c2) = crossover_permutation_at(&p1, &p2, start, end);
            assert_eq!(&c1[start..=end], &p1[start..=end]);
            assert_eq!(&c2[start..=end], &p2[start..=end]);
            assert!(is_valid_permutation(&c1));
            assert!(is_valid_permutation(&c2));
        }
    }
}

#[test]
fn order_crossover_children_are_permutations() {
    let p1 = vec![5usize, 3, 1, 0, 2, 4, 6];
    let p2 = vec![6usize, 5, 4, 3, 2, 1, 0];
    let child = ox_child(&p1, &p2, 2, 4);
    assert!(is_valid_permutation(&child));
    let mut sorted = child.clone();
    sorted.sort();
    assert_eq!(sorted, vec![0usize, 1, 2, 3, 4, 5, 6]);
}

#[test]
fn population_crossover_dispatches_on_family() {
    let pop = Population::new(vec![
        Individual::Permutation(vec![0usize, 1, 2, 3]),
        Individual::Permutation(vec![3usize, 2, 1, 0]),
    ]);
    for _ in 0..10 {
        let (c1, c2) = pop.crossover(0, 1);
        match (c1, c2) {
            (Individual::Permutation(g1), Individual::Permutation(g2)) => {
                assert!(is_valid_permutation(&g1));
                assert!(is_valid_permutation(&g2));
            },
            _ => panic!("crossover changed the genotype family"),
        }
    }
    let cont = Population::new(vec![
        Individual::Continuous(vec![1u64, 2, 3]),
        Individual::Continuous(vec![4u64, 5, 6]),
    ]);
    let (c1, c2) = cont.crossover(0, 1);
    match (c1, c2) {
        (Individual::Continuous(g1), Individual::Continuous(g2)) => {
            assert_eq!(g1.len(), 3);
            assert_eq!(g2.len(), 3);
        },
        _ => panic!("crossover changed the genotype family"),
    }
}
