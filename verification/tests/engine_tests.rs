use genalg::config::Config;
use genalg::ga::GA;
use genalg::individual::{is_valid_permutation, Individual};
use genalg::init::{
    ContinuousOptimizationInitialization, Initialization, InitializationStrategy,
    RandomInitialization, SudokuInitialization, TSPInitialization,
};
use genalg::population::{GetPopulation, Population};

fn encode(x: f64) -> u64 {
    let bits = x.to_bits();
    if bits >> 63 == 1 {
        !bits
    } else {
        bits | 0x8000_0000_0000_0000
    }
}

fn decode(word: u64) -> f64 {
    if word >> 63 == 1 {
        f64::from_bits(word & 0x7FFF_FFFF_FFFF_FFFF)
    } else {
        f64::from_bits(!word)
    }
}

fn negated_sum(ind: &Individual) -> u64 {
    match ind {
        Individual::Continuous(genes) => {
            let sum: f64 = genes.iter().map(|w| decode(*w)).sum();
            encode(-sum)
        },
        Individual::Permutation(genes) => genes.first().copied().unwrap_or(0) as u64,
    }
}

#[test]
fn encoding_round_trips() {
    for x in [-10.0f64, -1.0, -0.125, 0.0, 0.5, 3.25, 10.0] {
        assert_eq!(decode(encode(x)), x);
    }
}

#[test]
fn continuous_step_keeps_size_shape_and_range() {
    // population 4, three genes in [-1, 1]; after one step all four
    // individuals still have three genes, every one inside the range
    let lo = encode(-1.0);
    let hi = encode(1.0);
    let config = Config::new(4, 3, lo, hi, 1, 10).unwrap();
    let strategy = InitializationStrategy::Continuous(RandomInitialization);
    let mut engine = GA::new(strategy, negated_sum, config);
    engine.step();
    let individuals = engine.population.get_individuals();
    assert_eq!(individuals.len(), 4);
    for ind in individuals {
        match ind {
            Individual::Continuous(genes) => {
                assert_eq!(genes.len(), 3);
                for w in genes {
                    assert!(lo <= w && w <= hi);
                    let value = decode(w);
                    assert!(-1.0 <= value && value <= 1.0);
                }
            },
            _ => panic!("continuous run produced a permutation individual"),
        }
    }
}

#[test]
fn permutation_generations_stay_permutations() {
    // five genes: after every generation each individual sorts to
    // 0, 1, 2, 3, 4
    let config = Config::new(4, 5, 0, 1, 3, 10).unwrap();
    let strategy = InitializationStrategy::Permutation(TSPInitialization);
    let mut engine = GA::new(strategy, negated_sum, config);
    for _ in 0..4 {
        engine.step();
        let individuals = engine.population.get_individuals();
        assert_eq!(individuals.len(), 4);
        for ind in individuals {
            match ind {
                Individual::Permutation(genes) => {
                    assert!(is_valid_permutation(&genes));
                    let mut sorted = genes.clone();
                    sorted.sort();
                    assert_eq!(sorted, vec![0usize, 1, 2, 3, 4]);
                },
                _ => panic!("permutation run produced a continuous individual"),
            }
        }
    }
}

#[test]
fn evaluate_returns_one_score_per_individual() {
    let config = Config::new(6, 2, encode(-1.0), encode(1.0), 1, 10).unwrap();
    let strategy = InitializationStrategy::Continuous(RandomInitialization);
    let engine = GA::new(strategy, negated_sum, config);
    let scores = engine.evaluate();
    assert_eq!(scores.len(), 6);
}

#[test]
fn evaluate_individual_handles_out_of_bounds() {
    let config = Config::new(3, 2, encode(-1.0), encode(1.0), 1, 10).unwrap();
    let strategy = InitializationStrategy::Continuous(RandomInitialization);
    let engine = GA::new(strategy, negated_sum, config);
    assert!(engine.evaluate_individual(0).is_some());
    assert!(engine.evaluate_individual(2).is_some());
    assert!(engine.evaluate_individual(3).is_none());
    assert!(engine.evaluate_individual(100).is_none());
}

#[test]
fn mating_even_population_keeps_size() {
    let config = Config::new(6, 3, encode(-1.0), encode(1.0), 1, 10).unwrap();
    let strategy = InitializationStrategy::Continuous(RandomInitialization);
    let engine = GA::new(strategy, negated_sum, config);
    let mated = engine.mate_population();
    assert_eq!(mated.len(), 6);
}

#[test]
fn mating_odd_population_drops_the_unpaired() {
    let config = Config::new(5, 3, encode(-1.0), encode(1.0), 1, 10).unwrap();
    let strategy = InitializationStrategy::Continuous(RandomInitialization);
    let engine = GA::new(strategy, negated_sum, config);
    let mated = engine.mate_population();
    assert_eq!(mated.len(), 4);
}

#[test]
fn sort_orders_population_by_scores() {
    // known genes, identity-style fitness: after sort the first
    // individual carries the highest score
    let config = Config::new(3, 1, encode(-10.0), encode(10.0), 0, 1).unwrap();
    let strategy = InitializationStrategy::Continuous(RandomInitialization);
    let mut engine = GA::new(strategy, negated_sum, config);
    engine.update(Population::new(vec![
        Individual::Continuous(vec![encode(3.0)]),
        Individual::Continuous(vec![encode(-7.0)]),
        Individual::Continuous(vec![encode(1.0)]),
    ]));
    let evals = engine.evaluate();
    engine.sort(evals);
    // fitness is the negated sum: -(-7) = 7 ranks first
    match engine.population.get_individual_at(0).unwrap() {
        Individual::Continuous(genes) => assert_eq!(decode(genes[0]), -7.0),
        _ => panic!("sorting changed the genotype family"),
    }
    match engine.population.get_individual_at(2).unwrap() {
        Individual::Continuous(genes) => assert_eq!(decode(genes[0]), 3.0),
        _ => panic!("sorting changed the genotype family"),
    }
}

#[test]
fn evolve_records_one_best_score_per_generation() {
    let config = Config::new(4, 2, encode(-1.0), encode(1.0), 1, 10).unwrap();
    let strategy = InitializationStrategy::Continuous(RandomInitialization);
    let mut engine = GA::new(strategy, negated_sum, config);
    let history = engine.evolve(5);
    assert_eq!(history.len(), 5);
    for best in history {
        // every recorded best decodes to a finite value inside the reach
        // of three genes in [-1, 1]
        let value = decode(best);
        assert!(value.is_finite());
        assert!(-2.0 <= value && value <= 2.0);
    }
}

#[test]
fn mutation_keeps_permutations_valid() {
    let config = Config::new(4, 6, 0, 1, 10, 10).unwrap();
    let strategy = InitializationStrategy::Permutation(TSPInitialization);
    let engine = GA::new(strategy, negated_sum, config);
    for _ in 0..5 {
        let mutated = engine.mutate();
        assert_eq!(mutated.len(), 4);
        let individuals = mutated.get_individuals();
        for ind in individuals {
            match ind {
                Individual::Permutation(genes) => assert!(is_valid_permutation(&genes)),
                _ => panic!("mutation changed the genotype family"),
            }
        }
    }
}

#[test]
fn mutation_resamples_continuous_genes_inside_range() {
    // mutation rate 1: every gene is resampled, all must stay in range
    let lo = encode(-1.0);
    let hi = encode(1.0);
    let config = Config::new(3, 4, lo, hi, 1, 1).unwrap();
    let strategy = InitializationStrategy::Continuous(RandomInitialization);
    let engine = GA::new(strategy, negated_sum, config);
    let mutated = engine.mutate();
    for ind in mutated.get_individuals() {
        match ind {
            Individual::Continuous(genes) => {
                for w in genes {
                    assert!(lo <= w && w <= hi);
                }
            },
            _ => panic!("mutation changed the genotype family"),
        }
    }
}

#[test]
fn tsp_initialization_builds_uniform_permutations() {
    let config = Config::new(7, 5, 0, 1, 1, 10).unwrap();
    let pop = TSPInitialization.initialize(&config);
    assert_eq!(pop.len(), 7);
    for ind in pop.get_individuals() {
        match ind {
            Individual::Permutation(genes) => {
                assert_eq!(genes.len(), 5);
                assert!(is_valid_permutation(&genes));
            },
            _ => panic!("tour initialization produced a continuous individual"),
        }
    }
}

#[test]
fn random_initialization_respects_range() {
    let lo = encode(-2.5);
    let hi = encode(2.5);
    let config = Config::new(5, 4, lo, hi, 1, 10).unwrap();
    let pop = RandomInitialization.initialize(&config);
    assert_eq!(pop.len(), 5);
    for ind in pop.get_individuals() {
        match ind {
            Individual::Continuous(genes) => {
                assert_eq!(genes.len(), 4);
                for w in genes {
                    assert!(lo <= w && w <= hi);
                    let value = decode(w);
                    assert!(-2.5 <= value && value <= 2.5);
                }
            },
            _ => panic!("continuous initialization produced a permutation"),
        }
    }
}

#[test]
fn initialize_with_range_bounds_every_gene() {
    let lo = encode(0.0);
    let hi = encode(4.0);
    let pop = Population::initialize_with_range(3, 2, lo, hi);
    assert_eq!(pop.len(), 3);
    for ind in pop.get_individuals() {
        match ind {
            Individual::Continuous(genes) => {
                for w in genes {
                    let value = decode(w);
                    assert!(0.0 <= value && value <= 4.0);
                }
            },
            _ => panic!("ranged initialization produced a permutation"),
        }
    }
}

#[test]
fn continuous_optimization_initialization_uses_default_range() {
    let pop = ContinuousOptimizationInitialization.initialize(4, 6);
    assert_eq!(pop.len(), 4);
    for ind in pop.get_individuals() {
        match ind {
            Individual::Continuous(genes) => {
                assert_eq!(genes.len(), 6);
                for w in genes {
                    let value = decode(w);
                    assert!(-10.0 <= value && value <= 10.0);
                }
            },
            _ => panic!("continuous initialization produced a permutation"),
        }
    }
}

#[test]
fn sudoku_initialization_builds_digit_grids() {
    let config = Config::new(3, 9, 0, 1, 1, 10).unwrap();
    let grids = SudokuInitialization.initialize(&config);
    assert_eq!(grids.len(), 3);
    for grid in grids {
        assert_eq!(grid.len(), 81);
        for cell in grid {
            assert!(cell < 10);
        }
    }
}

#[test]
fn get_individual_trait_returns_copies_or_none() {
    let pop = Population::new(vec![
        Individual::Permutation(vec![1usize, 0]),
        Individual::Permutation(vec![0usize, 1]),
    ]);
    match pop.get_individual(1) {
        Some(Individual::Permutation(genes)) => assert_eq!(genes, vec![0usize, 1]),
        _ => panic!("expected the second individual"),
    }
    assert!(pop.get_individual(2).is_none());
    assert!(pop.get_individual_at(5).is_none());
}

#[test]
fn update_replaces_the_whole_population() {
    let mut pop = Population::new(vec![Individual::Permutation(vec![0usize])]);
    assert_eq!(pop.len(), 1);
    pop.update(vec![
        Individual::Permutation(vec![0usize, 1]),
        Individual::Permutation(vec![1usize, 0]),
    ]);
    assert_eq!(pop.len(), 2);
}
