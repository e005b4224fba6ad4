use genalg::individual::Individual;
use genalg::population::Population;
use genalg::select::{rank_table, rank_selection_cdf, select_index};

#[test]
fn rank_table_for_four_is_cumulative_weights() {
    let cum = rank_table(4);
    assert_eq!(cum, vec![4u64, 7, 9, 10]);
}

#[test]
fn rank_table_last_entry_is_total_rank() {
    for n in 1usize..20 {
        let cum = rank_table(n);
        assert_eq!(cum.len(), n);
        let total: u64 = (1..=n as u64).sum();
        assert_eq!(cum[n - 1], total);
    }
}

#[test]
fn select_index_maps_draws_to_rank_slots() {
    // population of 4: slots of width 4, 3, 2, 1 over draws 0..10
    let cum = rank_table(4);
    let expected = [0usize, 0, 0, 0, 1, 1, 1, 2, 2, 3];
    for (t, want) in expected.iter().enumerate() {
        assert_eq!(select_index(&cum, t as u64), *want);
    }
}

#[test]
fn selection_frequency_of_best_exceeds_worst() {
    // the exact slot widths: the best rank owns n of total_rank draws,
    // the worst owns 1
    let n = 6usize;
    let cum = rank_table(n);
    let total = cum[n - 1];
    let mut counts = vec![0usize; n];
    for t in 0..total {
        counts[select_index(&cum, t)] += 1;
    }
    for i in 0..n {
        assert_eq!(counts[i], n - i);
    }
    assert!(counts[0] > counts[n - 1]);
}

#[test]
fn rank_selection_returns_same_size_population_of_members() {
    let individuals = vec![
        Individual::Permutation(vec![0usize, 1, 2]),
        Individual::Permutation(vec![2usize, 1, 0]),
        Individual::Permutation(vec![1usize, 0, 2]),
    ];
    let pop = Population::new(individuals);
    let selected = rank_selection_cdf(&pop);
    assert_eq!(selected.len(), 3);
    let originals: Vec<Vec<usize>> = vec![vec![0, 1, 2], vec![2, 1, 0], vec![1, 0, 2]];
    for ind in selected {
        match ind {
            Individual::Permutation(genes) => assert!(originals.contains(&genes)),
            _ => panic!("selection changed the genotype family"),
        }
    }
}

#[test]
fn best_score_can_decrease_between_generations() {
    // No elitism: every selection draw may land in the worst rank's slot,
    // so a whole generation can consist of copies of the worst individual
    // and the best score then drops.  Draw t = 9 selects rank 3 (the
    // worst) in a population of 4.
    let cum = rank_table(4);
    let scores = [40u64, 30, 20, 10];
    let mut next_best: u64 = 0;
    for _ in 0..4 {
        let picked = select_index(&cum, 9);
        assert_eq!(picked, 3);
        if scores[picked] > next_best {
            next_best = scores[picked];
        }
    }
    assert_eq!(next_best, 10);
    assert!(next_best < scores[0]);
}
