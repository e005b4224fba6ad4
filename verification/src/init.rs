use vstd::prelude::*;
use crate::config::{Config, DEFAULT_RANGE_HI, DEFAULT_RANGE_LO};
use crate::individual::{Individual, Kind, is_permutation};
use crate::population::{Population, population_in_range, uniform_population, views};
use crate::random::{rand_index, rand_word, shuffle};

verus! {

/// A pluggable initialization strategy: one implementation per genotype
/// family, so one engine skeleton serves continuous and permutation
/// problems alike.
pub trait Initialization {
    /// The genotype family this strategy produces.
    spec fn family(&self) -> Kind;

    /// A fresh population of `config.num_individuals` valid individuals
    /// with `config.num_genes` genes each; continuous gene words lie in
    /// the configured range.
    fn initialize(&self, config: &Config) -> (pop: Population)
        requires
            config.wf(),
        ensures
            pop@.len() == config.num_individuals,
            uniform_population(pop@, self.family(), config.num_genes as nat),
            population_in_range(pop@, config.range_lo, config.range_hi),
    ;
}

/// Uniform random gene words for the continuous family.
pub struct RandomInitialization;

/// Uniform random permutations, the tour representation of ordering
/// problems.
pub struct TSPInitialization;

/// Random digit grids: an example of a discrete genotype that is not a
/// permutation, kept outside the engine's permutation contracts.
pub struct SudokuInitialization;

/// `count` fresh words, each drawn uniformly from `[lo, hi]`.
fn random_words(count: usize, lo: u64, hi: u64) -> (genes: Vec<u64>)
    requires
        lo <= hi,
    ensures
        genes@.len() == count,
        forall|k: int| 0 <= k < count ==> lo <= #[trigger] genes@[k] <= hi,
{
    let mut genes: Vec<u64> = Vec::new();
    let mut k: usize = 0;
    while k < count
        invariant
            k <= count,
            lo <= hi,
            genes@.len() == k,
            forall|j: int| 0 <= j < k ==> lo <= #[trigger] genes@[j] <= hi,
        decreases count - k,
    {
        genes.push(rand_word(lo, hi));
        k = k + 1;
    }
    genes
}

/// The identity tour `0, 1, ..., count - 1`.
fn identity_indices(count: usize) -> (genes: Vec<usize>)
    ensures
        genes@.len() == count,
        forall|k: int| 0 <= k < count ==> #[trigger] genes@[k] == k,
        is_permutation(genes@),
{
    let mut genes: Vec<usize> = Vec::new();
    let mut k: usize = 0;
    while k < count
        invariant
            k <= count,
            genes@.len() == k,
            forall|j: int| 0 <= j < k ==> #[trigger] genes@[j] == j,
        decreases count - k,
    {
        genes.push(k);
        k = k + 1;
    }
    genes
}

/// A uniformly shuffled permutation of `0..count`.
fn random_permutation(count: usize) -> (genes: Vec<usize>)
    ensures
        genes@.len() == count,
        is_permutation(genes@),
{
    let mut genes = identity_indices(count);
    let ghost before = genes@;
    shuffle(&mut genes);
    proof {
        before.to_multiset_ensures();
        genes@.to_multiset_ensures();
        before.lemma_multiset_has_no_duplicates();
        assert forall|i: int| 0 <= i < genes@.len() implies genes@[i] < genes@.len() by {
            assert(genes@.contains(genes@[i]));
            assert(genes@.to_multiset().count(genes@[i]) > 0);
            assert(before.contains(genes@[i]));
        };
        assert forall|x: usize|
            genes@.to_multiset().contains(x) implies genes@.to_multiset().count(x) == 1 by {
            assert(before.to_multiset().contains(x));
        };
        genes@.lemma_multiset_has_no_duplicates_conv();
    }
    genes
}

impl Initialization for RandomInitialization {
    open spec fn family(&self) -> Kind {
        Kind::Continuous
    }

    fn initialize(&self, config: &Config) -> (pop: Population) {
        let mut individuals: Vec<Individual> = Vec::new();
        let mut i: usize = 0;
        while i < config.num_individuals
            invariant
                i <= config.num_individuals,
                config.wf(),
                individuals@.len() == i,
                uniform_population(views(individuals@), Kind::Continuous, config.num_genes as nat),
                population_in_range(views(individuals@), config.range_lo, config.range_hi),
            decreases config.num_individuals - i,
        {
            let genes = random_words(config.num_genes, config.range_lo, config.range_hi);
            let ghost prefix = views(individuals@);
            individuals.push(Individual::Continuous(genes));
            proof {
                assert(views(individuals@) =~= prefix.push(Individual::Continuous(genes)@));
            }
            i = i + 1;
        }
        Population::new(individuals)
    }
}

impl Initialization for TSPInitialization {
    open spec fn family(&self) -> Kind {
        Kind::Permutation
    }

    fn initialize(&self, config: &Config) -> (pop: Population) {
        let mut individuals: Vec<Individual> = Vec::new();
        let mut i: usize = 0;
        while i < config.num_individuals
            invariant
                i <= config.num_individuals,
                config.wf(),
                individuals@.len() == i,
                uniform_population(views(individuals@), Kind::Permutation, config.num_genes as nat),
            decreases config.num_individuals - i,
        {
            let genes = random_permutation(config.num_genes);
            let ghost prefix = views(individuals@);
            individuals.push(Individual::Permutation(genes));
            proof {
                assert(views(individuals@) =~= prefix.push(Individual::Permutation(genes)@));
            }
            i = i + 1;
        }
        let pop = Population::new(individuals);
        proof {
            assert(population_in_range(pop@, config.range_lo, config.range_hi));
        }
        pop
    }
}

impl SudokuInitialization {
    /// `config.num_individuals` raw digit grids of 81 cells, each cell a
    /// digit below ten.  Grids are plain gene vectors, not engine
    /// individuals: they satisfy no permutation invariant.
    pub fn initialize(&self, config: &Config) -> (grids: Vec<Vec<usize>>)
        ensures
            grids@.len() == config.num_individuals,
            forall|i: int| 0 <= i < grids@.len() ==>
                {
                    &&& (#[trigger] grids@[i])@.len() == 81
                    &&& forall|k: int| 0 <= k < 81 ==> (#[trigger] grids@[i]@[k]) < 10
                },
    {
        let mut grids: Vec<Vec<usize>> = Vec::new();
        let mut i: usize = 0;
        while i < config.num_individuals
            invariant
                i <= config.num_individuals,
                grids@.len() == i,
                forall|j: int| 0 <= j < i ==>
                    {
                        &&& (#[trigger] grids@[j])@.len() == 81
                        &&& forall|k: int| 0 <= k < 81 ==> (#[trigger] grids@[j]@[k]) < 10
                    },
            decreases config.num_individuals - i,
        {
            let mut grid: Vec<usize> = Vec::new();
            let mut k: usize = 0;
            while k < 81
                invariant
                    k <= 81,
                    grid@.len() == k,
                    forall|j: int| 0 <= j < k ==> (#[trigger] grid@[j]) < 10,
                decreases 81 - k,
            {
                grid.push(rand_index(10));
                k = k + 1;
            }
            grids.push(grid);
            i = i + 1;
        }
        grids
    }
}

/// The continuous initializer of the earliest engine version: dimensions
/// given directly, gene words drawn from the default range.
pub struct ContinuousOptimizationInitialization;

impl ContinuousOptimizationInitialization {
    pub fn initialize(&self, population_size: usize, num_dimensions: usize) -> (pop: Population)
        ensures
            pop@.len() == population_size,
            uniform_population(pop@, Kind::Continuous, num_dimensions as nat),
            population_in_range(pop@, DEFAULT_RANGE_LO, DEFAULT_RANGE_HI),
    {
        let mut individuals: Vec<Individual> = Vec::new();
        let mut i: usize = 0;
        while i < population_size
            invariant
                i <= population_size,
                individuals@.len() == i,
                uniform_population(views(individuals@), Kind::Continuous, num_dimensions as nat),
                population_in_range(views(individuals@), DEFAULT_RANGE_LO, DEFAULT_RANGE_HI),
            decreases population_size - i,
        {
            let genes = random_words(num_dimensions, DEFAULT_RANGE_LO, DEFAULT_RANGE_HI);
            let ghost prefix = views(individuals@);
            individuals.push(Individual::Continuous(genes));
            proof {
                assert(views(individuals@) =~= prefix.push(Individual::Continuous(genes)@));
            }
            i = i + 1;
        }
        Population::new(individuals)
    }
}

impl Population {
    /// A continuous population drawn uniformly from a caller-given word
    /// range rather than the configured default.
    pub fn initialize_with_range(
        num_individuals: usize,
        num_genes: usize,
        range_lo: u64,
        range_hi: u64,
    ) -> (pop: Population)
        requires
            range_lo <= range_hi,
        ensures
            pop@.len() == num_individuals,
            uniform_population(pop@, Kind::Continuous, num_genes as nat),
            population_in_range(pop@, range_lo, range_hi),
    {
        let mut individuals: Vec<Individual> = Vec::new();
        let mut i: usize = 0;
        while i < num_individuals
            invariant
                i <= num_individuals,
                range_lo <= range_hi,
                individuals@.len() == i,
                uniform_population(views(individuals@), Kind::Continuous, num_genes as nat),
                population_in_range(views(individuals@), range_lo, range_hi),
            decreases num_individuals - i,
        {
            let genes = random_words(num_genes, range_lo, range_hi);
            let ghost prefix = views(individuals@);
            individuals.push(Individual::Continuous(genes));
            proof {
                assert(views(individuals@) =~= prefix.push(Individual::Continuous(genes)@));
            }
            i = i + 1;
        }
        Population::new(individuals)
    }
}

/// Which initialization the engine runs, by genotype family.
pub enum InitializationStrategy {
    Continuous(RandomInitialization),
    Permutation(TSPInitialization),
}

impl InitializationStrategy {
    /// The genotype family the chosen strategy produces.
    pub open spec fn family(self) -> Kind {
        match self {
            InitializationStrategy::Continuous(_) => Kind::Continuous,
            InitializationStrategy::Permutation(_) => Kind::Permutation,
        }
    }

    pub fn initialize(&self, config: &Config) -> (pop: Population)
        requires
            config.wf(),
        ensures
            pop@.len() == config.num_individuals,
            uniform_population(pop@, self.family(), config.num_genes as nat),
            population_in_range(pop@, config.range_lo, config.range_hi),
    {
        match self {
            InitializationStrategy::Continuous(init) => init.initialize(config),
            InitializationStrategy::Permutation(init) => init.initialize(config),
        }
    }
}

} // verus!
