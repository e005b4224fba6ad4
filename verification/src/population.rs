use vstd::prelude::*;
use crate::individual::{Genotype, Individual, Kind};

verus! {

/// The genotypes of a vector of individuals: the model every population
/// contract is stated over.
pub open spec fn views(v: Seq<Individual>) -> Seq<Genotype> {
    v.map_values(|ind: Individual| ind@)
}

/// Every individual is valid, and all share one family and one genome
/// length.
pub open spec fn uniform_population(s: Seq<Genotype>, kind: Kind, num_genes: nat) -> bool {
    forall|i: int| 0 <= i < s.len() ==>
        {
            &&& (#[trigger] s[i]).wf()
            &&& s[i].kind() == kind
            &&& s[i].gene_count() == num_genes
        }
}

/// Continuous gene words all lie in the closed word range `[lo, hi]`;
/// permutation genes are not range-bound.
pub open spec fn genotype_in_range(g: Genotype, lo: u64, hi: u64) -> bool {
    match g {
        Genotype::Continuous(genes) => forall|k: int|
            0 <= k < genes.len() ==> lo <= #[trigger] genes[k] <= hi,
        Genotype::Permutation(_) => true,
    }
}

pub open spec fn population_in_range(s: Seq<Genotype>, lo: u64, hi: u64) -> bool {
    forall|i: int| 0 <= i < s.len() ==> genotype_in_range(#[trigger] s[i], lo, hi)
}

/// Every genotype of `sel` occurs somewhere in `from`: what selection and
/// shuffling leave of a population.
pub open spec fn chosen_from(sel: Seq<Genotype>, from: Seq<Genotype>) -> bool {
    forall|j: int| 0 <= j < sel.len() ==> from.contains(#[trigger] sel[j])
}

/// Copies drawn from a uniform population form a uniform population of
/// the same family and genome length.
pub proof fn lemma_chosen_uniform(
    sel: Seq<Genotype>,
    from: Seq<Genotype>,
    kind: Kind,
    num_genes: nat,
)
    requires
        chosen_from(sel, from),
        uniform_population(from, kind, num_genes),
    ensures
        uniform_population(sel, kind, num_genes),
{
    assert forall|i: int| 0 <= i < sel.len() implies {
        &&& (#[trigger] sel[i]).wf()
        &&& sel[i].kind() == kind
        &&& sel[i].gene_count() == num_genes
    } by {
        assert(from.contains(sel[i]));
        let w = choose|w: int| 0 <= w < from.len() && from[w] == sel[i];
        assert(from[w].wf() && from[w].kind() == kind && from[w].gene_count() == num_genes);
    };
}

/// Copies drawn from a range-bounded population stay range-bounded.
pub proof fn lemma_chosen_in_range(sel: Seq<Genotype>, from: Seq<Genotype>, lo: u64, hi: u64)
    requires
        chosen_from(sel, from),
        population_in_range(from, lo, hi),
    ensures
        population_in_range(sel, lo, hi),
{
    assert forall|i: int| 0 <= i < sel.len() implies genotype_in_range(
        #[trigger] sel[i],
        lo,
        hi,
    ) by {
        assert(from.contains(sel[i]));
        let w = choose|w: int| 0 <= w < from.len() && from[w] == sel[i];
        assert(genotype_in_range(from[w], lo, hi));
    };
}

/// Reordering individuals (equal multisets) keeps every genotype present:
/// what a shuffle does to a population.
pub proof fn lemma_multiset_chosen_from(a: Seq<Individual>, b: Seq<Individual>)
    requires
        b.to_multiset() == a.to_multiset(),
    ensures
        chosen_from(views(b), views(a)),
{
    a.to_multiset_ensures();
    b.to_multiset_ensures();
    assert forall|j: int| 0 <= j < views(b).len() implies views(a).contains(
        #[trigger] views(b)[j],
    ) by {
        assert(b.contains(b[j]));
        assert(a.to_multiset().count(b[j]) > 0);
        assert(a.contains(b[j]));
        let i = choose|i: int| 0 <= i < a.len() && a[i] == b[j];
        assert(views(a)[i] == views(b)[j]);
    };
}

/// An ordered sequence of individuals of one genotype family; the evolution
/// loop owns it and replaces it wholesale between generation phases.
#[derive(Debug)]
pub struct Population {
    pub individuals: Vec<Individual>,
}

impl View for Population {
    type V = Seq<Genotype>;

    open spec fn view(&self) -> Seq<Genotype> {
        views(self.individuals@)
    }
}

/// Read access to single individuals, for observers that only need copies.
pub trait GetPopulation {
    spec fn model(&self) -> Seq<Genotype>;

    /// A copy of the individual at `index`, or nothing when `index` is out
    /// of bounds; never a panic.
    fn get_individual(&self, index: usize) -> (result: Option<Individual>)
        ensures
            match result {
                Some(ind) => index < self.model().len() && ind@ == self.model()[index as int],
                None => index >= self.model().len(),
            },
    ;
}

impl GetPopulation for Population {
    open spec fn model(&self) -> Seq<Genotype> {
        self@
    }

    fn get_individual(&self, index: usize) -> (result: Option<Individual>)
    {
        if index < self.individuals.len() {
            Some(self.individuals[index].duplicate())
        } else {
            None
        }
    }
}

impl Population {
    /// Wrap a caller-built sequence of individuals.
    pub fn new(individuals: Vec<Individual>) -> (pop: Population)
        ensures
            pop@ == views(individuals@),
    {
        Population { individuals }
    }

    pub fn len(&self) -> (n: usize)
        ensures
            n == self@.len(),
    {
        self.individuals.len()
    }

    /// Replace the whole individual sequence.  The per-run size invariant
    /// is the caller's to keep: the engine itself only shrinks a population
    /// when mating drops an odd trailing individual.
    pub fn update(&mut self, new_individuals: Vec<Individual>)
        ensures
            final(self)@ == views(new_individuals@),
    {
        self.individuals = new_individuals;
    }

    /// A copy of the individual at `index`, or nothing when out of bounds.
    pub fn get_individual_at(&self, index: usize) -> (result: Option<Individual>)
        ensures
            match result {
                Some(ind) => index < self@.len() && ind@ == self@[index as int],
                None => index >= self@.len(),
            },
    {
        if index < self.individuals.len() {
            Some(self.individuals[index].duplicate())
        } else {
            None
        }
    }

    /// A copy of the whole individual sequence.
    pub fn get_individuals(&self) -> (result: Vec<Individual>)
        ensures
            views(result@) == self@,
    {
        let mut result: Vec<Individual> = Vec::new();
        let mut i: usize = 0;
        while i < self.individuals.len()
            invariant
                i <= self.individuals@.len(),
                result@.len() == i as int,
                forall|k: int| 0 <= k < i ==> result@[k]@ == self.individuals@[k]@,
            decreases self.individuals@.len() - i,
        {
            result.push(self.individuals[i].duplicate());
            i = i + 1;
        }
        proof {
            assert(views(result@) =~= self@);
        }
        result
    }
}

} // verus!
