use vstd::prelude::*;
use vstd::multiset::Multiset;
use crate::config::Config;
use crate::crossover::Crossover;
use crate::individual::{Genotype, Individual, Kind};
use crate::init::InitializationStrategy;
use crate::population::{chosen_from, Population, population_in_range, uniform_population, views};

verus! {

/// Scores in descending order: ranking puts the best first.
pub open spec fn descending(scores: Seq<u64>) -> bool {
    forall|i: int, j: int| 0 <= i <= j < scores.len() ==> scores[i] >= scores[j]
}

/// A score attached to each individual, as the ranking phase pairs them.
pub open spec fn pair_views(s: Seq<(u64, Individual)>) -> Seq<(u64, Genotype)> {
    s.map_values(|p: (u64, Individual)| (p.0, p.1@))
}

pub open spec fn score_seq(s: Seq<(u64, Genotype)>) -> Seq<u64> {
    s.map_values(|p: (u64, Genotype)| p.0)
}

pub open spec fn genotype_seq(s: Seq<(u64, Genotype)>) -> Seq<Genotype> {
    s.map_values(|p: (u64, Genotype)| p.1)
}

/// Sort score-individual pairs by score, best first, preserving the pairs
/// as a multiset: insertion sort, written out so that both properties are
/// proved.
fn sort_pairs_desc(pairs: Vec<(u64, Individual)>) -> (sorted: Vec<(u64, Individual)>)
    ensures
        sorted@.len() == pairs@.len(),
        pair_views(sorted@).to_multiset() == pair_views(pairs@).to_multiset(),
        descending(score_seq(pair_views(sorted@))),
{
    broadcast use vstd::seq_lib::group_to_multiset_ensures;

    let ghost original = pair_views(pairs@);
    let mut rest = pairs;
    let mut sorted: Vec<(u64, Individual)> = Vec::new();
    proof {
        assert(pair_views(sorted@) =~= Seq::<(u64, Genotype)>::empty());
        vstd::seq::Seq::<(u64, Genotype)>::empty().to_multiset_ensures();
        assert(pair_views(sorted@).to_multiset().add(pair_views(rest@).to_multiset())
            =~= original.to_multiset());
    }
    while rest.len() > 0
        invariant
            pair_views(sorted@).to_multiset().add(pair_views(rest@).to_multiset())
                == original.to_multiset(),
            descending(score_seq(pair_views(sorted@))),
            sorted@.len() + rest@.len() == original.len(),
        decreases rest@.len(),
    {
        let ghost rest_before = pair_views(rest@);
        let p = match rest.pop() {
            Some(p) => p,
            None => vstd::pervasive::unreached(),
        };
        let ghost pv = (p.0, p.1@);
        proof {
            assert(pair_views(rest@) =~= rest_before.drop_last());
            assert(rest_before.drop_last().push(pv) =~= rest_before);
            vstd::seq_lib::to_multiset_build(rest_before.drop_last(), pv);
            assert(rest_before.drop_last().to_multiset().insert(pv)
                =~= rest_before.to_multiset());
        }
        let mut idx: usize = 0;
        while idx < sorted.len() && sorted[idx].0 >= p.0
            invariant
                idx <= sorted@.len(),
                forall|j: int| 0 <= j < idx ==> pair_views(sorted@)[j].0 >= pv.0,
                pv.0 == p.0,
            decreases sorted@.len() - idx,
        {
            idx = idx + 1;
        }
        let ghost sorted_before = pair_views(sorted@);
        sorted.insert(idx, p);
        proof {
            assert(pair_views(sorted@) =~= sorted_before.insert(idx as int, pv));
            vstd::seq_lib::to_multiset_insert(sorted_before, idx as int, pv);
            assert(pair_views(sorted@).to_multiset().add(pair_views(rest@).to_multiset())
                =~= original.to_multiset());
            let after = score_seq(pair_views(sorted@));
            assert forall|a: int, b: int| 0 <= a <= b < after.len() implies after[a]
                >= after[b] by {
                let before = score_seq(sorted_before);
                if a < idx && b == idx {
                    assert(after[a] == before[a]);
                } else if a == idx && b > idx {
                    assert(after[b] == before[b - 1]);
                    if idx < before.len() {
                        assert(before[idx as int] < pv.0);
                    }
                } else if a < idx && b > idx {
                    assert(after[a] == before[a] && after[b] == before[b - 1]);
                } else if a > idx && b > idx {
                    assert(after[a] == before[a - 1] && after[b] == before[b - 1]);
                } else if a < idx && b < idx {
                    assert(after[a] == before[a] && after[b] == before[b]);
                }
            };
        }
    }
    proof {
        assert(pair_views(rest@) =~= Seq::<(u64, Genotype)>::empty());
        vstd::seq::Seq::<(u64, Genotype)>::empty().to_multiset_ensures();
        assert(pair_views(sorted@).to_multiset().add(Multiset::empty())
            =~= pair_views(sorted@).to_multiset());
    }
    sorted
}

/// Scores and genotypes side by side, as ranking pairs them.
pub open spec fn paired(scores: Seq<u64>, genotypes: Seq<Genotype>) -> Seq<(u64, Genotype)> {
    Seq::new(scores.len(), |i: int| (scores[i], genotypes[i]))
}

/// Equal pair multisets mean every genotype on one side occurs on the
/// other: sorting only reorders individuals.
proof fn lemma_pairs_chosen_from(a: Seq<(u64, Genotype)>, b: Seq<(u64, Genotype)>)
    requires
        b.to_multiset() == a.to_multiset(),
    ensures
        chosen_from(genotype_seq(b), genotype_seq(a)),
{
    a.to_multiset_ensures();
    b.to_multiset_ensures();
    assert forall|j: int| 0 <= j < genotype_seq(b).len() implies genotype_seq(a).contains(
        #[trigger] genotype_seq(b)[j],
    ) by {
        assert(b.contains(b[j]));
        assert(a.to_multiset().count(b[j]) > 0);
        assert(a.contains(b[j]));
        let i = choose|i: int| 0 <= i < a.len() && a[i] == b[j];
        assert(genotype_seq(a)[i] == genotype_seq(b)[j]);
    };
}

/// The two genotypes are children of one crossover of two members of
/// `pop`.
pub open spec fn mated_pair_from(pop: Seq<Genotype>, c1: Genotype, c2: Genotype) -> bool {
    exists|ia: int, ib: int|
        0 <= ia < pop.len() && 0 <= ib < pop.len() && #[trigger] crate::crossover::crossover_children(
            pop[ia],
            pop[ib],
            c1,
            c2,
        )
}

/// The evolution engine: the population it owns, the caller's fitness
/// function, the configuration, and the initialization strategy it was
/// built from.
pub struct GA<F> where F: Fn(&Individual) -> u64 {
    pub initialization: InitializationStrategy,
    pub population: Population,
    pub fitness: F,
    pub config: Config,
}

impl<F> GA<F> where F: Fn(&Individual) -> u64 {
    /// The genotype family this engine evolves.
    pub open spec fn family(&self) -> Kind {
        self.initialization.family()
    }

    /// The caller's fitness function must accept every valid individual:
    /// it is total over the genotype's value space.
    pub open spec fn fitness_total(&self) -> bool {
        forall|ind: &Individual| (#[trigger] ind@).wf() ==> call_requires(self.fitness, (ind,))
    }

    /// Engine invariant: a valid configuration and a uniform population of
    /// the engine's family and genome length.
    pub open spec fn wf(&self) -> bool {
        &&& self.config.wf()
        &&& uniform_population(self.population@, self.family(), self.config.num_genes as nat)
    }

    /// Scores that the fitness function could have produced for these
    /// individuals, one for each in order.
    pub open spec fn consistent_scores(
        &self,
        individuals: Seq<Individual>,
        scores: Seq<u64>,
    ) -> bool {
        &&& scores.len() == individuals.len()
        &&& forall|i: int|
            0 <= i < scores.len() ==> call_ensures(
                self.fitness,
                (&individuals[i],),
                #[trigger] scores[i],
            )
    }

    /// Build the engine: run the chosen initialization once and keep its
    /// population.
    pub fn new(initialization: InitializationStrategy, fitness: F, config: Config) -> (engine: GA<
        F,
    >)
        requires
            config.wf(),
            forall|ind: &Individual| (#[trigger] ind@).wf() ==> call_requires(fitness, (ind,)),
        ensures
            engine.wf(),
            engine.fitness_total(),
            engine.population@.len() == config.num_individuals,
            population_in_range(engine.population@, config.range_lo, config.range_hi),
            engine.config == config,
            engine.initialization == initialization,
            engine.fitness == fitness,
    {
        let population = initialization.initialize(&config);
        GA { initialization, population, fitness, config }
    }

    /// Replace the population with the next phase's output.
    pub fn update(&mut self, new_population: Population)
        ensures
            final(self).population.individuals@ == new_population.individuals@,
            final(self).population@ == new_population@,
            final(self).config == old(self).config,
            final(self).initialization == old(self).initialization,
            final(self).fitness == old(self).fitness,
    {
        self.population = new_population;
    }

    /// A score the fitness function can return for some individual of
    /// this genotype.
    pub open spec fn possible_score(&self, genotype: Genotype, score: u64) -> bool {
        exists|ind: Individual| ind@ == genotype && call_ensures(self.fitness, (&ind,), score)
    }

    /// A score the fitness function can return for some valid individual
    /// of the engine's family and genome length: what a recorded
    /// generation best must be.
    pub open spec fn generation_best(&self, score: u64) -> bool {
        exists|ind: Individual|
            {
                &&& (#[trigger] ind@).wf()
                &&& ind@.kind() == self.family()
                &&& ind@.gene_count() == self.config.num_genes
                &&& call_ensures(self.fitness, (&ind,), score)
            }
    }

    /// Apply the fitness function to each individual in order: a score
    /// sequence of exactly the population's length, entry `i` a value the
    /// fitness function can return for individual `i`.
    pub fn evaluate(&self) -> (scores: Vec<u64>)
        requires
            self.wf(),
            self.fitness_total(),
        ensures
            scores@.len() == self.population@.len(),
            self.consistent_scores(self.population.individuals@, scores@),
            forall|i: int|
                0 <= i < scores@.len() ==> self.possible_score(
                    self.population@[i],
                    #[trigger] scores@[i],
                ),
    {
        let mut scores: Vec<u64> = Vec::new();
        let mut i: usize = 0;
        while i < self.population.individuals.len()
            invariant
                i <= self.population.individuals@.len(),
                self.population@.len() == self.population.individuals@.len(),
                self.wf(),
                self.fitness_total(),
                scores@.len() == i,
                forall|j: int|
                    0 <= j < i ==> call_ensures(
                        self.fitness,
                        (&self.population.individuals@[j],),
                        #[trigger] scores@[j],
                    ),
            decreases self.population.individuals@.len() - i,
        {
            proof {
                assert(self.population@[i as int] == self.population.individuals@[i as int]@);
            }
            let score = (self.fitness)(&self.population.individuals[i]);
            scores.push(score);
            i = i + 1;
        }
        proof {
            assert forall|i: int| 0 <= i < scores@.len() implies self.possible_score(
                self.population@[i],
                #[trigger] scores@[i],
            ) by {
                let witness = self.population.individuals@[i];
                assert(witness@ == self.population@[i]);
                assert(call_ensures(self.fitness, (&witness,), scores@[i]));
            };
        }
        scores
    }

    /// The score of the individual at `index`, or nothing when the index
    /// is out of bounds; never a panic.
    pub fn evaluate_individual(&self, index: usize) -> (result: Option<u64>)
        requires
            self.wf(),
            self.fitness_total(),
        ensures
            match result {
                Some(score) => index < self.population@.len() && call_ensures(
                    self.fitness,
                    (&self.population.individuals@[index as int],),
                    score,
                ),
                None => index >= self.population@.len(),
            },
    {
        if index < self.population.individuals.len() {
            proof {
                assert(self.population@[index as int]
                    == self.population.individuals@[index as int]@);
            }
            Some((self.fitness)(&self.population.individuals[index]))
        } else {
            None
        }
    }

    /// Rank the population by the given parallel scores, best first: the
    /// individuals are reordered exactly as some descending arrangement of
    /// the score-individual pairs dictates, and nothing else changes.
    pub fn sort(&mut self, evals: Vec<u64>)
        requires
            old(self).wf(),
            evals@.len() == old(self).population@.len(),
        ensures
            final(self).wf(),
            final(self).population@.len() == old(self).population@.len(),
            final(self).config == old(self).config,
            final(self).initialization == old(self).initialization,
            final(self).fitness == old(self).fitness,
            chosen_from(final(self).population@, old(self).population@),
            exists|sorted_pairs: Seq<(u64, Genotype)>|
                {
                    &&& #[trigger] sorted_pairs.to_multiset() == paired(
                        evals@,
                        old(self).population@,
                    ).to_multiset()
                    &&& descending(score_seq(sorted_pairs))
                    &&& genotype_seq(sorted_pairs) == final(self).population@
                },
    {
        let n = self.population.individuals.len();
        let mut pairs: Vec<(u64, Individual)> = Vec::new();
        let mut k: usize = 0;
        while k < n
            invariant
                k <= n,
                n == self.population.individuals@.len(),
                n == self.population@.len(),
                evals@.len() == n,
                pairs@.len() == k,
                forall|j: int|
                    0 <= j < k ==> #[trigger] pair_views(pairs@)[j] == (
                        evals@[j],
                        self.population@[j],
                    ),
            decreases n - k,
        {
            let ghost before = pair_views(pairs@);
            let score = evals[k];
            let copy = self.population.individuals[k].duplicate();
            let ghost copy_view = copy@;
            pairs.push((score, copy));
            proof {
                assert(pair_views(pairs@) =~= before.push((score, copy_view)));
                assert(self.population@[k as int] == self.population.individuals@[k as int]@);
            }
            k = k + 1;
        }
        proof {
            assert(pair_views(pairs@) =~= paired(evals@, self.population@));
        }
        let sorted = sort_pairs_desc(pairs);
        let ghost sorted_views = pair_views(sorted@);
        let ghost m = sorted_views.len();
        let mut rest = sorted;
        let mut new_individuals: Vec<Individual> = Vec::new();
        proof {
            assert(views(new_individuals@) =~= genotype_seq(sorted_views).take(0));
            assert(pair_views(rest@) =~= sorted_views.skip(0));
        }
        while rest.len() > 0
            invariant
                new_individuals@.len() + rest@.len() == m,
                m == sorted_views.len(),
                views(new_individuals@) == genotype_seq(sorted_views).take(
                    new_individuals@.len() as int,
                ),
                pair_views(rest@) == sorted_views.skip(new_individuals@.len() as int),
            decreases rest@.len(),
        {
            let ghost done = new_individuals@.len() as int;
            let ghost rest_before = rest@;
            let pr = rest.remove(0);
            let ghost pr_view = pr.1@;
            new_individuals.push(pr.1);
            proof {
                assert(pair_views(rest_before)[0] == sorted_views.skip(done)[0]);
                assert(pr_view == sorted_views[done].1);
                assert(views(new_individuals@) =~= genotype_seq(sorted_views).take(done + 1));
                assert(pair_views(rest@) =~= pair_views(rest_before).remove(0));
                assert(pair_views(rest@) =~= sorted_views.skip(done + 1));
            }
        }
        proof {
            assert(views(new_individuals@) =~= genotype_seq(sorted_views));
            lemma_pairs_chosen_from(paired(evals@, self.population@), sorted_views);
            crate::population::lemma_chosen_uniform(
                genotype_seq(sorted_views),
                self.population@,
                self.family(),
                self.config.num_genes as nat,
            );
        }
        self.population.update(new_individuals);
    }

    /// Rank-based roulette selection over the (already sorted) population:
    /// a same-size population of copies, biased toward the best ranks.
    pub fn rank_selection_cdf(&self) -> (selected: Population)
        requires
            self.wf(),
            1 <= self.population@.len() <= 0x8000_0000,
        ensures
            selected@.len() == self.population@.len(),
            chosen_from(selected@, self.population@),
            uniform_population(selected@, self.family(), self.config.num_genes as nat),
    {
        let chosen = crate::select::rank_selection_cdf(&self.population);
        let selected = Population::new(chosen);
        proof {
            crate::population::lemma_chosen_uniform(
                selected@,
                self.population@,
                self.family(),
                self.config.num_genes as nat,
            );
        }
        selected
    }

    /// Shuffle the population uniformly, pair neighbours `(2k, 2k + 1)`,
    /// and recombine each pair.  A trailing unpaired individual of an odd
    /// population is dropped, so the offspring count is `2 * (n / 2)`.
    /// Every consecutive offspring pair is a crossover of two population
    /// members, and range-bounded continuous parents beget range-bounded
    /// children.
    pub fn mate_population(&self) -> (mated: Population)
        requires
            self.wf(),
        ensures
            mated@.len() == 2 * (self.population@.len() / 2),
            uniform_population(mated@, self.family(), self.config.num_genes as nat),
            forall|k: int|
                0 <= k < mated@.len() / 2 ==> mated_pair_from(
                    self.population@,
                    #[trigger] mated@[2 * k],
                    mated@[2 * k + 1],
                ),
            population_in_range(self.population@, self.config.range_lo, self.config.range_hi)
                ==> population_in_range(mated@, self.config.range_lo, self.config.range_hi),
    {
        let ghost lo = self.config.range_lo;
        let ghost hi = self.config.range_hi;
        let mut shuffled = self.population.get_individuals();
        let ghost before_shuffle = shuffled@;
        crate::random::shuffle(&mut shuffled);
        proof {
            crate::population::lemma_multiset_chosen_from(before_shuffle, shuffled@);
            assert(views(before_shuffle) == self.population@);
            crate::population::lemma_chosen_uniform(
                views(shuffled@),
                self.population@,
                self.family(),
                self.config.num_genes as nat,
            );
            if population_in_range(self.population@, lo, hi) {
                crate::population::lemma_chosen_in_range(views(shuffled@), self.population@, lo, hi);
            }
        }
        let parents = Population::new(shuffled);
        let n = parents.len();
        let mut offspring: Vec<Individual> = Vec::new();
        let mut i: usize = 0;
        while i + 1 < n
            invariant
                i <= n,
                i % 2 == 0,
                n == parents@.len(),
                self.wf(),
                parents@.len() == parents.individuals@.len(),
                uniform_population(parents@, self.family(), self.config.num_genes as nat),
                chosen_from(parents@, self.population@),
                population_in_range(self.population@, lo, hi) ==> population_in_range(
                    parents@,
                    lo,
                    hi,
                ),
                lo == self.config.range_lo,
                hi == self.config.range_hi,
                offspring@.len() == i,
                uniform_population(views(offspring@), self.family(), self.config.num_genes as nat),
                forall|k: int|
                    0 <= k < i / 2 ==> mated_pair_from(
                        self.population@,
                        #[trigger] views(offspring@)[2 * k],
                        views(offspring@)[2 * k + 1],
                    ),
                population_in_range(self.population@, lo, hi) ==> population_in_range(
                    views(offspring@),
                    lo,
                    hi,
                ),
            decreases n - i,
        {
            let children = parents.crossover(i, i + 1);
            let ghost c1 = children.0@;
            let ghost c2 = children.1@;
            let ghost prefix = views(offspring@);
            offspring.push(children.0);
            offspring.push(children.1);
            proof {
                assert(views(offspring@) =~= prefix.push(c1).push(c2));
                assert(self.population@.contains(parents@[i as int]));
                assert(self.population@.contains(parents@[i + 1]));
                let ia = choose|w: int|
                    0 <= w < self.population@.len() && self.population@[w] == parents@[i as int];
                let ib = choose|w: int|
                    0 <= w < self.population@.len() && self.population@[w] == parents@[i + 1];
                assert(crate::crossover::crossover_children(
                    self.population@[ia],
                    self.population@[ib],
                    c1,
                    c2,
                ));
                assert(mated_pair_from(self.population@, c1, c2));
                assert forall|k: int| 0 <= k < (i + 2) / 2 implies mated_pair_from(
                    self.population@,
                    #[trigger] views(offspring@)[2 * k],
                    views(offspring@)[2 * k + 1],
                ) by {
                    if k < i / 2 {
                        assert(views(offspring@)[2 * k] == prefix[2 * k]);
                        assert(views(offspring@)[2 * k + 1] == prefix[2 * k + 1]);
                    } else {
                        assert(2 * k == i);
                        assert(views(offspring@)[2 * k] == c1);
                        assert(views(offspring@)[2 * k + 1] == c2);
                    }
                };
                if population_in_range(self.population@, lo, hi) {
                    crate::crossover::lemma_crossover_in_range(
                        parents@[i as int],
                        parents@[i + 1],
                        c1,
                        c2,
                        lo,
                        hi,
                    );
                }
            }
            i = i + 2;
        }
        Population::new(offspring)
    }

    /// A mutated copy of the population: continuous genes resample inside
    /// the configured range with the configured probability, permutation
    /// individuals swap two positions.
    pub fn mutate(&self) -> (mutated: Population)
        requires
            self.wf(),
            self.config.num_genes >= 1,
        ensures
            mutated@.len() == self.population@.len(),
            uniform_population(mutated@, self.family(), self.config.num_genes as nat),
            forall|i: int|
                0 <= i < mutated@.len() ==> crate::mutate::mutated_from(
                    self.population@[i],
                    #[trigger] mutated@[i],
                    self.config.range_lo,
                    self.config.range_hi,
                ),
            population_in_range(self.population@, self.config.range_lo, self.config.range_hi)
                ==> population_in_range(mutated@, self.config.range_lo, self.config.range_hi),
    {
        let ghost lo = self.config.range_lo;
        let ghost hi = self.config.range_hi;
        let out = crate::mutate::mutate_population(&self.population, &self.config);
        let mutated = Population::new(out);
        proof {
            if population_in_range(self.population@, lo, hi) {
                assert forall|i: int| 0 <= i < mutated@.len() implies
                    crate::population::genotype_in_range(#[trigger] mutated@[i], lo, hi) by {
                    crate::mutate::lemma_mutated_in_range(
                        self.population@[i],
                        mutated@[i],
                        lo,
                        hi,
                    );
                };
            }
        }
        mutated
    }

    /// Scores possible for one side of a pair multiset are possible for
    /// the other: sorting does not invent score-individual pairs.
    proof fn lemma_sorted_possible(&self, a: Seq<(u64, Genotype)>, b: Seq<(u64, Genotype)>)
        requires
            b.to_multiset() == a.to_multiset(),
            forall|i: int| 0 <= i < a.len() ==> self.possible_score((#[trigger] a[i]).1, a[i].0),
        ensures
            forall|j: int| 0 <= j < b.len() ==> self.possible_score((#[trigger] b[j]).1, b[j].0),
    {
        a.to_multiset_ensures();
        b.to_multiset_ensures();
        assert forall|j: int| 0 <= j < b.len() implies self.possible_score(
            (#[trigger] b[j]).1,
            b[j].0,
        ) by {
            assert(b.contains(b[j]));
            assert(a.to_multiset().count(b[j]) > 0);
            assert(a.contains(b[j]));
            let i = choose|i: int| 0 <= i < a.len() && a[i] == b[j];
            assert(self.possible_score(a[i].1, a[i].0));
        };
    }

    /// One generation: evaluate, rank, select, mate, mutate, re-evaluate
    /// and re-rank, then report a score of the new best-ranked individual.
    /// The population emerges valid, uniform, of size `2 * (n / 2)`, and
    /// still inside the configured gene range if it started there.
    pub fn step(&mut self) -> (best: u64)
        requires
            old(self).wf(),
            old(self).fitness_total(),
            2 <= old(self).population@.len() <= 0x8000_0000,
        ensures
            final(self).wf(),
            final(self).config == old(self).config,
            final(self).initialization == old(self).initialization,
            final(self).fitness == old(self).fitness,
            final(self).population@.len() == 2 * (old(self).population@.len() / 2),
            population_in_range(
                old(self).population@,
                old(self).config.range_lo,
                old(self).config.range_hi,
            ) ==> population_in_range(
                final(self).population@,
                old(self).config.range_lo,
                old(self).config.range_hi,
            ),
            exists|scores: Seq<u64>|
                {
                    &&& #[trigger] scores.len() == final(self).population@.len()
                    &&& descending(scores)
                    &&& forall|j: int|
                        0 <= j < scores.len() ==> final(self).possible_score(
                            final(self).population@[j],
                            #[trigger] scores[j],
                        )
                },
            final(self).possible_score(final(self).population@[0], best),
    {
        let ghost lo = self.config.range_lo;
        let ghost hi = self.config.range_hi;
        let ghost pop0 = self.population@;
        let ghost in_range0 = population_in_range(pop0, lo, hi);

        let evals = self.evaluate();
        self.sort(evals);
        proof {
            if in_range0 {
                crate::population::lemma_chosen_in_range(self.population@, pop0, lo, hi);
            }
        }
        let selected = self.rank_selection_cdf();
        let ghost pop1 = self.population@;
        self.update(selected);
        proof {
            if in_range0 {
                crate::population::lemma_chosen_in_range(self.population@, pop1, lo, hi);
            }
        }
        let mated = self.mate_population();
        let ghost mated_len = mated@.len();
        self.update(mated);
        let mutated = self.mutate();
        self.update(mutated);
        let ghost pop4 = self.population@;
        let evals2 = self.evaluate();
        let ghost pre_sort_scores = evals2@;
        self.sort(evals2);
        proof {
            if in_range0 {
                crate::population::lemma_chosen_in_range(self.population@, pop4, lo, hi);
            }
            let sorted_pairs = choose|sorted_pairs: Seq<(u64, Genotype)>|
                {
                    &&& #[trigger] sorted_pairs.to_multiset() == paired(
                        pre_sort_scores,
                        pop4,
                    ).to_multiset()
                    &&& descending(score_seq(sorted_pairs))
                    &&& genotype_seq(sorted_pairs) == self.population@
                };
            assert forall|i: int| 0 <= i < paired(pre_sort_scores, pop4).len() implies self
                .possible_score(
                (#[trigger] paired(pre_sort_scores, pop4)[i]).1,
                paired(pre_sort_scores, pop4)[i].0,
            ) by {
                assert(paired(pre_sort_scores, pop4)[i] == (pre_sort_scores[i], pop4[i]));
            };
            self.lemma_sorted_possible(paired(pre_sort_scores, pop4), sorted_pairs);
            let scores = score_seq(sorted_pairs);
            assert(scores.len() == self.population@.len());
            assert forall|j: int| 0 <= j < scores.len() implies self.possible_score(
                self.population@[j],
                #[trigger] scores[j],
            ) by {
                assert(sorted_pairs[j].1 == genotype_seq(sorted_pairs)[j]);
                assert(sorted_pairs[j].0 == scores[j]);
            };
        }
        let evals3 = self.evaluate();
        evals3[0]
    }

    /// Run `num_steps` generations, recording each generation's reported
    /// best score: the fitness history, one entry per generation.
    pub fn evolve(&mut self, num_steps: usize) -> (history: Vec<u64>)
        requires
            old(self).wf(),
            old(self).fitness_total(),
            2 <= old(self).population@.len() <= 0x8000_0000,
        ensures
            history@.len() == num_steps,
            final(self).wf(),
            final(self).config == old(self).config,
            final(self).initialization == old(self).initialization,
            final(self).fitness == old(self).fitness,
            2 <= final(self).population@.len() <= 0x8000_0000,
            num_steps >= 1 ==> final(self).population@.len() == 2 * (old(
                self,
            ).population@.len() / 2),
            forall|k: int|
                0 <= k < history@.len() ==> final(self).generation_best(#[trigger] history@[k]),
    {
        let mut history: Vec<u64> = Vec::new();
        let mut k: usize = 0;
        while k < num_steps
            invariant
                k <= num_steps,
                self.wf(),
                self.fitness_total(),
                self.config == old(self).config,
                self.initialization == old(self).initialization,
                self.fitness == old(self).fitness,
                2 <= self.population@.len() <= 0x8000_0000,
                history@.len() == k,
                k == 0 ==> self.population@.len() == old(self).population@.len(),
                k >= 1 ==> self.population@.len() == 2 * (old(self).population@.len() / 2),
                forall|j: int|
                    0 <= j < history@.len() ==> self.generation_best(#[trigger] history@[j]),
            decreases num_steps - k,
        {
            let best = self.step();
            proof {
                assert(self.population@[0].wf() && self.population@[0].kind() == self.family()
                    && self.population@[0].gene_count() == self.config.num_genes);
                let witness = choose|ind: Individual|
                    ind@ == self.population@[0] && call_ensures(self.fitness, (&ind,), best);
                assert(witness@.wf() && witness@.kind() == self.family() && witness@.gene_count()
                    == self.config.num_genes && call_ensures(self.fitness, (&witness,), best));
                assert(self.generation_best(best));
            }
            history.push(best);
            k = k + 1;
        }
        history
    }
}

} // verus!
