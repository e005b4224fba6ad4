use vstd::prelude::*;

verus! {

/// Which of the two genotype families an individual belongs to.
#[derive(Clone, Copy, PartialEq, Eq, Structural, Debug)]
pub enum Kind {
    Continuous,
    Permutation,
}

/// The mathematical content of an individual: its family and its gene
/// sequence.  This is the type the contracts speak about.
pub enum Genotype {
    Continuous(Seq<u64>),
    Permutation(Seq<usize>),
}

/// One candidate solution: an ordered sequence of genes.
///
/// A continuous individual holds opaque 64-bit order words; the engine only
/// copies them, so any caller-chosen order-preserving encoding of real
/// numbers works.  A permutation individual holds each index `0..len`
/// exactly once; keeping that invariant through crossover and mutation is
/// the engine's central obligation.
#[derive(Debug)]
pub enum Individual {
    Continuous(Vec<u64>),
    Permutation(Vec<usize>),
}

/// A sequence of indices is a permutation of `0..len`: every entry is below
/// the length and no entry repeats (so, by counting, none is omitted).
pub open spec fn is_permutation(s: Seq<usize>) -> bool {
    &&& forall|i: int| 0 <= i < s.len() ==> s[i] < s.len()
    &&& s.no_duplicates()
}

/// How many times `value` occurs in `s`.
pub open spec fn occurrences(s: Seq<usize>, value: usize) -> nat {
    s.to_multiset().count(value)
}

impl Genotype {
    pub open spec fn kind(self) -> Kind {
        match self {
            Genotype::Continuous(_) => Kind::Continuous,
            Genotype::Permutation(_) => Kind::Permutation,
        }
    }

    /// The genome length.
    pub open spec fn gene_count(self) -> nat {
        match self {
            Genotype::Continuous(genes) => genes.len(),
            Genotype::Permutation(genes) => genes.len(),
        }
    }

    /// Validity: continuous gene words are unconstrained; a permutation
    /// individual must be a permutation of `0..gene_count`.
    pub open spec fn wf(self) -> bool {
        match self {
            Genotype::Continuous(_) => true,
            Genotype::Permutation(genes) => is_permutation(genes),
        }
    }
}

impl View for Individual {
    type V = Genotype;

    open spec fn view(&self) -> Genotype {
        match self {
            Individual::Continuous(genes) => Genotype::Continuous(genes@),
            Individual::Permutation(genes) => Genotype::Permutation(genes@),
        }
    }
}

impl Individual {
    pub fn len(&self) -> (n: usize)
        ensures
            n == self@.gene_count(),
    {
        match self {
            Individual::Continuous(genes) => genes.len(),
            Individual::Permutation(genes) => genes.len(),
        }
    }

    pub fn kind(&self) -> (k: Kind)
        ensures
            k == self@.kind(),
    {
        match self {
            Individual::Continuous(_) => Kind::Continuous,
            Individual::Permutation(_) => Kind::Permutation,
        }
    }

    /// An exact copy; written out so that the copy provably carries the
    /// same genes.
    pub fn duplicate(&self) -> (copy: Individual)
        ensures
            copy@ == self@,
    {
        match self {
            Individual::Continuous(genes) => Individual::Continuous(copy_words(genes)),
            Individual::Permutation(genes) => Individual::Permutation(copy_indices(genes)),
        }
    }
}

impl Clone for Individual {
    fn clone(&self) -> (copy: Individual)
        ensures
            copy@ == self@,
    {
        self.duplicate()
    }
}

pub(crate) fn copy_words(v: &Vec<u64>) -> (r: Vec<u64>)
    ensures
        r@ == v@,
{
    let mut r: Vec<u64> = Vec::new();
    let mut i: usize = 0;
    while i < v.len()
        invariant
            i <= v.len(),
            r@ == v@.take(i as int),
        decreases v.len() - i,
    {
        r.push(v[i]);
        proof {
            assert(v@.take(i + 1) =~= v@.take(i as int).push(v@[i as int]));
        }
        i = i + 1;
    }
    proof {
        assert(v@.take(v@.len() as int) =~= v@);
    }
    r
}

pub(crate) fn copy_indices(v: &Vec<usize>) -> (r: Vec<usize>)
    ensures
        r@ == v@,
{
    let mut r: Vec<usize> = Vec::new();
    let mut i: usize = 0;
    while i < v.len()
        invariant
            i <= v.len(),
            r@ == v@.take(i as int),
        decreases v.len() - i,
    {
        r.push(v[i]);
        proof {
            assert(v@.take(i + 1) =~= v@.take(i as int).push(v@[i as int]));
        }
        i = i + 1;
    }
    proof {
        assert(v@.take(v@.len() as int) =~= v@);
    }
    r
}

/// The set `{0, 1, ..., n - 1}` of legal permutation genes.
pub open spec fn indices_below(n: nat) -> Set<usize> {
    Set::new(|v: usize| v < n)
}

pub proof fn lemma_indices_below_card(n: nat)
    requires
        n <= usize::MAX,
    ensures
        indices_below(n).finite(),
        indices_below(n).len() == n,
    decreases n,
{
    if n == 0 {
        assert(indices_below(0) =~= Set::empty());
    } else {
        lemma_indices_below_card((n - 1) as nat);
        assert(indices_below(n) =~= indices_below((n - 1) as nat).insert((n - 1) as usize));
    }
}

/// A permutation of `0..len` takes every value below its length: its value
/// set is exactly `{0, ..., len - 1}`.
pub proof fn lemma_permutation_covers(s: Seq<usize>)
    requires
        is_permutation(s),
        s.len() <= usize::MAX,
    ensures
        s.to_set() =~= indices_below(s.len()),
        forall|v: usize| v < s.len() ==> s.contains(v),
{
    broadcast use vstd::seq_lib::seq_to_set_is_finite;

    s.unique_seq_to_set();
    lemma_indices_below_card(s.len());
    assert(s.to_set().subset_of(indices_below(s.len())));
    vstd::set_lib::lemma_subset_equality(s.to_set(), indices_below(s.len()));
    assert forall|v: usize| v < s.len() implies s.contains(v) by {
        assert(indices_below(s.len()).contains(v));
    };
}

/// Law: a valid permutation holds every value below its length exactly
/// once — no duplicates, and by counting, no omissions either.
pub proof fn lemma_permutation_each_value_once(s: Seq<usize>)
    requires
        is_permutation(s),
        s.len() <= usize::MAX,
    ensures
        forall|v: usize| v < s.len() ==> occurrences(s, v) == 1,
        forall|v: usize| v >= s.len() ==> occurrences(s, v) == 0,
{
    s.to_multiset_ensures();
    s.lemma_multiset_has_no_duplicates();
    lemma_permutation_covers(s);
    assert forall|v: usize| v >= s.len() implies occurrences(s, v) == 0 by {
        if s.to_multiset().count(v) > 0 {
            assert(s.contains(v));
        }
    };
}

/// How many entries of `vec` equal `value`.
pub fn count_occurrences(value: usize, vec: &Vec<usize>) -> (count: usize)
    ensures
        count == occurrences(vec@, value),
{
    proof {
        let empty = vec@.take(0);
        empty.to_multiset_ensures();
        assert(!empty.contains(value));
    }
    let mut count: usize = 0;
    let mut i: usize = 0;
    while i < vec.len()
        invariant
            i <= vec.len(),
            count == occurrences(vec@.take(i as int), value),
            count <= i,
        decreases vec.len() - i,
    {
        proof {
            assert(vec@.take(i + 1) =~= vec@.take(i as int).push(vec@[i as int]));
            vec@.take(i as int).to_multiset_ensures();
        }
        if vec[i] == value {
            count = count + 1;
        }
        i = i + 1;
    }
    proof {
        assert(vec@.take(vec@.len() as int) =~= vec@);
    }
    count
}

/// Runtime check of the permutation invariant, for callers that assemble
/// individuals outside the engine.
pub fn is_valid_permutation(vec: &Vec<usize>) -> (valid: bool)
    ensures
        valid == is_permutation(vec@),
{
    let n = vec.len();
    let mut seen: Vec<bool> = Vec::new();
    let mut i: usize = 0;
    while i < n
        invariant
            i <= n,
            seen@.len() == i,
            forall|k: int| 0 <= k < i ==> !seen@[k],
        decreases n - i,
    {
        seen.push(false);
        i = i + 1;
    }
    let mut j: usize = 0;
    while j < n
        invariant
            j <= n,
            n == vec@.len(),
            seen@.len() == n,
            forall|v: int| 0 <= v < n ==>
                (seen@[v] == exists|k: int| 0 <= k < j && vec@[k] == v),
            forall|k: int| 0 <= k < j ==> vec@[k] < n,
            forall|k1: int, k2: int| 0 <= k1 < k2 < j ==> vec@[k1] != vec@[k2],
        decreases n - j,
    {
        let g = vec[j];
        if g >= n {
            return false;
        }
        if seen[g] {
            return false;
        }
        seen.set(g, true);
        j = j + 1;
    }
    true
}

} // verus!
