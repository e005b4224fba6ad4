use vstd::prelude::*;
use crate::config::Config;
use crate::individual::{Genotype, Individual, is_permutation};
use crate::population::{Population, views};
use crate::random::{bernoulli, rand_index, rand_word};

verus! {

/// How a mutated individual may differ from its original: a continuous
/// individual has each gene either kept or resampled inside `[lo, hi]`;
/// a permutation individual holds exactly the original genes, possibly
/// reordered by a swap.
pub open spec fn mutated_from(before: Genotype, after: Genotype, lo: u64, hi: u64) -> bool {
    match (before, after) {
        (Genotype::Continuous(g), Genotype::Continuous(h)) => {
            &&& h.len() == g.len()
            &&& forall|k: int| 0 <= k < h.len() ==> h[k] == g[k] || lo <= #[trigger] h[k] <= hi
        },
        (Genotype::Permutation(g), Genotype::Permutation(h)) => {
            &&& h.len() == g.len()
            &&& h.to_multiset() == g.to_multiset()
        },
        _ => false,
    }
}

/// Continuous mutation: every gene is independently resampled from the
/// configured range with probability `mutation_num / mutation_den`, and
/// kept unchanged otherwise.
pub fn mutate_genes_continuous(genes: &Vec<u64>, config: &Config) -> (out: Vec<u64>)
    requires
        config.wf(),
    ensures
        out@.len() == genes@.len(),
        forall|k: int|
            0 <= k < out@.len() ==> out@[k] == genes@[k] || config.range_lo <= #[trigger] out@[k]
                <= config.range_hi,
{
    let mut out: Vec<u64> = Vec::new();
    let mut k: usize = 0;
    while k < genes.len()
        invariant
            k <= genes@.len(),
            config.wf(),
            out@.len() == k,
            forall|j: int|
                0 <= j < k ==> out@[j] == genes@[j] || config.range_lo <= #[trigger] out@[j]
                    <= config.range_hi,
        decreases genes@.len() - k,
    {
        if bernoulli(config.mutation_num, config.mutation_den) {
            out.push(rand_word(config.range_lo, config.range_hi));
        } else {
            out.push(genes[k]);
        }
        k = k + 1;
    }
    out
}

/// Permutation mutation: with probability `mutation_num / mutation_den`
/// two positions drawn uniformly (possibly equal, a harmless no-op) are
/// swapped.  A swap can never break the permutation invariant.
pub fn mutate_genes_permutation(genes: &Vec<usize>, config: &Config) -> (out: Vec<usize>)
    requires
        config.wf(),
        genes@.len() >= 1,
        is_permutation(genes@),
    ensures
        out@.len() == genes@.len(),
        is_permutation(out@),
        out@.to_multiset() == genes@.to_multiset(),
{
    let mut out = crate::individual::copy_indices(genes);
    if bernoulli(config.mutation_num, config.mutation_den) {
        let index1 = rand_index(out.len());
        let index2 = rand_index(out.len());
        let first = out[index1];
        let second = out[index2];
        let ghost before = out@;
        out.set(index1, second);
        out.set(index2, first);
        proof {
            lemma_swap_is_permutation(before, out@, index1 as int, index2 as int);
        }
    }
    proof {
        genes@.to_multiset_ensures();
    }
    out
}

/// A swap of two positions keeps both the permutation invariant and the
/// gene multiset.
proof fn lemma_swap_is_permutation(before: Seq<usize>, after: Seq<usize>, i1: int, i2: int)
    requires
        is_permutation(before),
        0 <= i1 < before.len(),
        0 <= i2 < before.len(),
        after == before.update(i1, before[i2]).update(i2, before[i1]),
    ensures
        after.len() == before.len(),
        is_permutation(after),
        after.to_multiset() == before.to_multiset(),
{
    assert forall|a: int, b: int| 0 <= a < after.len() && 0 <= b < after.len() && a != b
        implies after[a] != after[b] by {
        assert(after[a] == before[swap_source(a, i1, i2)]);
        assert(after[b] == before[swap_source(b, i1, i2)]);
    };
    if i1 == i2 {
        assert(after =~= before);
    } else {
        before.to_multiset_ensures();
        vstd::seq_lib::to_multiset_update(before, i1, before[i2]);
        let mid = before.update(i1, before[i2]);
        vstd::seq_lib::to_multiset_update(mid, i2, before[i1]);
        assert(mid[i2] == before[i2]);
        assert(after.to_multiset() =~= before.to_multiset());
    }
}

/// The position a swapped sequence reads its value from.
pub open spec fn swap_source(k: int, i1: int, i2: int) -> int {
    if k == i2 {
        i1
    } else if k == i1 {
        i2
    } else {
        k
    }
}

/// Mutation inside a range keeps a range-bounded individual range-bounded.
pub proof fn lemma_mutated_in_range(before: Genotype, after: Genotype, lo: u64, hi: u64)
    requires
        mutated_from(before, after, lo, hi),
        crate::population::genotype_in_range(before, lo, hi),
    ensures
        crate::population::genotype_in_range(after, lo, hi),
{
    match (before, after) {
        (Genotype::Continuous(g), Genotype::Continuous(h)) => {
            assert forall|k: int| 0 <= k < h.len() implies lo <= #[trigger] h[k] <= hi by {
                if h[k] == g[k] {
                    assert(lo <= g[k] <= hi);
                }
            };
        },
        _ => {
        },
    }
}

/// One mutated copy of each individual, genotype dispatch included.  The
/// population need not be uniform: each individual mutates within its own
/// family.
pub fn mutate_population(pop: &Population, config: &Config) -> (out: Vec<Individual>)
    requires
        config.wf(),
        forall|i: int| 0 <= i < pop@.len() ==> (#[trigger] pop@[i]).wf(),
        forall|i: int| 0 <= i < pop@.len() ==> (#[trigger] pop@[i]).gene_count() >= 1,
    ensures
        out@.len() == pop@.len(),
        forall|i: int| 0 <= i < out@.len() ==> (#[trigger] views(out@)[i]).wf(),
        forall|i: int|
            0 <= i < out@.len() ==> mutated_from(
                pop@[i],
                #[trigger] views(out@)[i],
                config.range_lo,
                config.range_hi,
            ),
        forall|i: int|
            0 <= i < out@.len() ==> (#[trigger] views(out@)[i]).kind() == pop@[i].kind() && views(
                out@,
            )[i].gene_count() == pop@[i].gene_count(),
{
    let mut out: Vec<Individual> = Vec::new();
    let mut i: usize = 0;
    while i < pop.individuals.len()
        invariant
            i <= pop@.len(),
            pop@.len() == pop.individuals@.len(),
            config.wf(),
            forall|j: int| 0 <= j < pop@.len() ==> (#[trigger] pop@[j]).wf(),
            forall|j: int| 0 <= j < pop@.len() ==> (#[trigger] pop@[j]).gene_count() >= 1,
            out@.len() == i,
            forall|j: int| 0 <= j < i ==> (#[trigger] views(out@)[j]).wf(),
            forall|j: int|
                0 <= j < i ==> mutated_from(
                    pop@[j],
                    #[trigger] views(out@)[j],
                    config.range_lo,
                    config.range_hi,
                ),
            forall|j: int|
                0 <= j < i ==> (#[trigger] views(out@)[j]).kind() == pop@[j].kind() && views(
                    out@,
                )[j].gene_count() == pop@[j].gene_count(),
        decreases pop@.len() - i,
    {
        let ghost prefix = views(out@);
        proof {
            assert(pop@[i as int] == pop.individuals@[i as int]@);
        }
        let mutated = match &pop.individuals[i] {
            Individual::Continuous(genes) => Individual::Continuous(
                mutate_genes_continuous(genes, config),
            ),
            Individual::Permutation(genes) => Individual::Permutation(
                mutate_genes_permutation(genes, config),
            ),
        };
        let ghost mutated_view = mutated@;
        out.push(mutated);
        proof {
            assert(views(out@) =~= prefix.push(mutated_view));
        }
        i = i + 1;
    }
    out
}

} // verus!
