use vstd::prelude::*;
use crate::individual::{
    Genotype, Individual, indices_below, is_permutation, lemma_indices_below_card,
    lemma_permutation_covers,
};
use crate::population::Population;
use crate::random::rand_index;

verus! {

// ------------------------------------------------------------------
// Continuous single-point crossover
// ------------------------------------------------------------------

fn splice(head: &Vec<u64>, tail: &Vec<u64>, point: usize) -> (child: Vec<u64>)
    requires
        head@.len() == tail@.len(),
        point <= head@.len(),
    ensures
        child@ == head@.take(point as int) + tail@.skip(point as int),
{
    let mut child: Vec<u64> = Vec::new();
    let mut i: usize = 0;
    while i < point
        invariant
            i <= point <= head@.len(),
            child@ == head@.take(i as int),
        decreases point - i,
    {
        child.push(head[i]);
        proof {
            assert(head@.take(i + 1) =~= head@.take(i as int).push(head@[i as int]));
        }
        i = i + 1;
    }
    while i < tail.len()
        invariant
            point <= i <= tail@.len(),
            head@.len() == tail@.len(),
            child@ == head@.take(point as int) + tail@.subrange(point as int, i as int),
        decreases tail@.len() - i,
    {
        child.push(tail[i]);
        proof {
            assert(tail@.subrange(point as int, i + 1) =~= tail@.subrange(
                point as int,
                i as int,
            ).push(tail@[i as int]));
            assert(head@.take(point as int) + tail@.subrange(point as int, i + 1) =~= (head@.take(
                point as int,
            ) + tail@.subrange(point as int, i as int)).push(tail@[i as int]));
        }
        i = i + 1;
    }
    proof {
        assert(tail@.subrange(point as int, tail@.len() as int) =~= tail@.skip(point as int));
    }
    child
}

/// Single-point crossover of two continuous parents at a fixed point:
/// child 1 is parent 1's prefix before `point` followed by parent 2's
/// suffix from `point`; child 2 is the complementary splice.
pub fn crossover_continuous_at(parent1: &Vec<u64>, parent2: &Vec<u64>, point: usize) -> (children: (
    Vec<u64>,
    Vec<u64>,
))
    requires
        parent1@.len() == parent2@.len(),
        point <= parent1@.len(),
    ensures
        children.0@ == parent1@.take(point as int) + parent2@.skip(point as int),
        children.1@ == parent2@.take(point as int) + parent1@.skip(point as int),
        children.0@.len() == parent1@.len(),
        children.1@.len() == parent1@.len(),
{
    let child1 = splice(parent1, parent2, point);
    let child2 = splice(parent2, parent1, point);
    (child1, child2)
}

/// Law: splicing at a fixed point moves genes without altering them — the
/// children's slices are exactly the parents' slices, and re-splicing the
/// children rebuilds both parents gene for gene.
pub proof fn lemma_crossover_continuous_reconstruction(
    p1: Seq<u64>,
    p2: Seq<u64>,
    c1: Seq<u64>,
    c2: Seq<u64>,
    point: int,
)
    requires
        p1.len() == p2.len(),
        0 <= point <= p1.len(),
        c1 == p1.take(point) + p2.skip(point),
        c2 == p2.take(point) + p1.skip(point),
    ensures
        c1.take(point) == p1.take(point),
        c1.skip(point) == p2.skip(point),
        c1.take(point) + c2.skip(point) == p1,
        c2.take(point) + c1.skip(point) == p2,
{
    assert(c1.take(point) =~= p1.take(point));
    assert(c1.skip(point) =~= p2.skip(point));
    assert(c2.take(point) =~= p2.take(point));
    assert(c2.skip(point) =~= p1.skip(point));
    assert(c1.take(point) + c2.skip(point) =~= p1);
    assert(c2.take(point) + c1.skip(point) =~= p2);
}

/// Single-point crossover at a uniformly random point, as the mating phase
/// draws it.
pub fn crossover(parent1: &Vec<u64>, parent2: &Vec<u64>) -> (children: (Vec<u64>, Vec<u64>))
    requires
        parent1@.len() == parent2@.len(),
        parent1@.len() >= 1,
    ensures
        exists|point: int|
            0 <= point < parent1@.len() && children.0@ == p1_splice(parent1@, parent2@, point)
                && children.1@ == p1_splice(parent2@, parent1@, point),
        children.0@.len() == parent1@.len(),
        children.1@.len() == parent1@.len(),
{
    let point = rand_index(parent1.len());
    let children = crossover_continuous_at(parent1, parent2, point);
    proof {
        assert(children.0@ == p1_splice(parent1@, parent2@, point as int) && children.1@
            == p1_splice(parent2@, parent1@, point as int));
    }
    children
}

/// The head of one parent up to `point`, then the tail of the other.
pub open spec fn p1_splice(head: Seq<u64>, tail: Seq<u64>, point: int) -> Seq<u64> {
    head.take(point) + tail.skip(point)
}

// ------------------------------------------------------------------
// Permutation order crossover (OX)
// ------------------------------------------------------------------

/// Value `v` occurs in the copied segment `start..=end` of `seg_parent`.
pub open spec fn in_segment(seg_parent: Seq<usize>, start: int, end: int, v: usize) -> bool {
    exists|k: int| start <= k <= end && seg_parent[k] == v
}

/// Keep a gene of the filling parent only when the copied segment does not
/// already hold it.
pub open spec fn ox_pred(seg_parent: Seq<usize>, start: int, end: int) -> spec_fn(usize) -> bool {
    |v: usize| !in_segment(seg_parent, start, end, v)
}

/// The genes that fill the positions outside the copied segment: the
/// filling parent's genes, in their original order, with the segment's
/// genes skipped.
pub open spec fn ox_fill(
    seg_parent: Seq<usize>,
    fill_parent: Seq<usize>,
    start: int,
    end: int,
) -> Seq<usize> {
    fill_parent.filter(ox_pred(seg_parent, start, end))
}

/// One order-crossover child: the segment `start..=end` copied verbatim
/// from `seg_parent`, the remaining positions filled from `ox_fill`,
/// starting just after the segment and wrapping around.
pub open spec fn ox_child_spec(
    seg_parent: Seq<usize>,
    fill_parent: Seq<usize>,
    start: int,
    end: int,
) -> Seq<usize> {
    let n = seg_parent.len() as int;
    let fill = ox_fill(seg_parent, fill_parent, start, end);
    Seq::new(
        seg_parent.len(),
        |i: int|
            if i < start {
                fill[n - 1 - end + i]
            } else if i <= end {
                seg_parent[i]
            } else {
                fill[i - end - 1]
            },
    )
}

/// Linear scan of the copied segment.
fn segment_contains(seg_parent: &Vec<usize>, start: usize, end: usize, v: usize) -> (found: bool)
    requires
        start <= end < seg_parent@.len(),
    ensures
        found == in_segment(seg_parent@, start as int, end as int, v),
{
    let len = seg_parent.len();
    let mut k = start;
    while k <= end
        invariant
            start <= k <= end + 1,
            end < len,
            len == seg_parent@.len(),
            forall|j: int| start <= j < k ==> seg_parent@[j] != v,
        decreases end + 1 - k,
    {
        if seg_parent[k] == v {
            return true;
        }
        k = k + 1;
    }
    false
}

proof fn lemma_filter_snoc(s: Seq<usize>, x: usize, pred: spec_fn(usize) -> bool)
    ensures
        pred(x) ==> s.push(x).filter(pred) == s.filter(pred).push(x),
        !pred(x) ==> s.push(x).filter(pred) == s.filter(pred),
{
    reveal(Seq::filter);
    assert(s.push(x).drop_last() =~= s);
    assert(s.push(x).last() == x);
}

/// The genes of `fill_parent`, in order, that the copied segment of
/// `seg_parent` does not already hold.  For two permutations these are
/// exactly the genes missing from the segment, so their count matches the
/// positions left to fill.
fn remainder_genes(
    seg_parent: &Vec<usize>,
    fill_parent: &Vec<usize>,
    start: usize,
    end: usize,
) -> (fill: Vec<usize>)
    requires
        start <= end < seg_parent@.len(),
        seg_parent@.len() == fill_parent@.len(),
        is_permutation(seg_parent@),
        is_permutation(fill_parent@),
    ensures
        fill@ == ox_fill(seg_parent@, fill_parent@, start as int, end as int),
        fill@.len() == fill_parent@.len() - (end - start + 1),
        fill@.no_duplicates(),
        forall|a: int|
            0 <= a < fill@.len() ==> (#[trigger] fill@[a]) < fill_parent@.len() && !in_segment(
                seg_parent@,
                start as int,
                end as int,
                fill@[a],
            ),
{
    let ghost pred = ox_pred(seg_parent@, start as int, end as int);
    let n = fill_parent.len();
    let mut fill: Vec<usize> = Vec::new();
    proof {
        reveal(Seq::filter);
        assert(fill_parent@.take(0) =~= Seq::<usize>::empty());
        assert(fill@ == ox_fill(seg_parent@, fill_parent@.take(0), start as int, end as int));
    }
    let mut j: usize = 0;
    while j < n
        invariant
            j <= n,
            n == fill_parent@.len(),
            seg_parent@.len() == n,
            start <= end < n,
            is_permutation(fill_parent@),
            pred == ox_pred(seg_parent@, start as int, end as int),
            fill@ == ox_fill(seg_parent@, fill_parent@.take(j as int), start as int, end as int),
            fill@.no_duplicates(),
            forall|v: usize|
                #[trigger] fill@.contains(v) <==> (fill_parent@.take(j as int).contains(v)
                    && pred(v)),
        decreases n - j,
    {
        let gene = fill_parent[j];
        let keep = !segment_contains(seg_parent, start, end, gene);
        let ghost prefix = fill_parent@.take(j as int);
        let ghost prefix1 = fill_parent@.take(j + 1);
        let ghost fill_before = fill@;
        proof {
            assert(prefix1 =~= prefix.push(gene));
            lemma_filter_snoc(prefix, gene, pred);
            assert(keep == pred(gene));
            if keep {
                // the new gene is not yet in the fill: it would otherwise
                // occur twice in the filling parent
                if fill_before.contains(gene) {
                    let a = choose|a: int| 0 <= a < prefix.len() && prefix[a] == gene;
                    assert(fill_parent@[a] == fill_parent@[j as int]);
                    assert(false);
                }
            }
        }
        if keep {
            fill.push(gene);
        }
        proof {
            assert forall|v: usize| #[trigger] fill@.contains(v) implies (prefix1.contains(v)
                && pred(v)) by {
                let a = choose|a: int| 0 <= a < fill@.len() && fill@[a] == v;
                if keep && a == fill@.len() - 1 {
                    assert(v == gene);
                    assert(prefix1[j as int] == v);
                } else {
                    assert(fill_before[a] == v);
                    assert(fill_before.contains(v));
                    assert(prefix.contains(v));
                    let b = choose|b: int| 0 <= b < prefix.len() && prefix[b] == v;
                    assert(prefix1[b] == v);
                }
            };
            assert forall|v: usize| (prefix1.contains(v) && pred(v)) implies #[trigger] fill@
                .contains(v) by {
                let a = choose|a: int| 0 <= a < prefix1.len() && prefix1[a] == v;
                if a < j {
                    assert(prefix[a] == v);
                    assert(prefix.contains(v));
                    assert(fill_before.contains(v));
                    let b = choose|b: int| 0 <= b < fill_before.len() && fill_before[b] == v;
                    assert(fill@[b] == v);
                } else {
                    assert(v == gene);
                    assert(fill@[fill@.len() - 1] == gene);
                }
            };
            assert(fill@.no_duplicates());
        }
        j = j + 1;
    }
    proof {
        assert(fill_parent@.take(n as int) =~= fill_parent@);
        assert(fill_parent@.len() <= usize::MAX);
        lemma_remainder_count(seg_parent@, fill_parent@, fill@, start as int, end as int);
        assert forall|a: int| 0 <= a < fill@.len() implies (#[trigger] fill@[a])
            < fill_parent@.len() && !in_segment(seg_parent@, start as int, end as int, fill@[a]) by {
            assert(fill@.contains(fill@[a]));
            assert(fill_parent@.contains(fill@[a]));
            let b = choose|b: int| 0 <= b < fill_parent@.len() && fill_parent@[b] == fill@[a];
            assert(fill_parent@[b] < fill_parent@.len());
            assert(pred(fill@[a]));
        };
    }
    fill
}

/// One order-crossover child.  The segment `start..=end` is copied
/// verbatim from `seg_parent`; the remaining positions are filled with the
/// genes missing from that segment, in `fill_parent`'s order, starting
/// just after the segment and wrapping around.  The child is always a
/// valid permutation.
pub fn ox_child(
    seg_parent: &Vec<usize>,
    fill_parent: &Vec<usize>,
    start: usize,
    end: usize,
) -> (child: Vec<usize>)
    requires
        start <= end < seg_parent@.len(),
        seg_parent@.len() == fill_parent@.len(),
        is_permutation(seg_parent@),
        is_permutation(fill_parent@),
    ensures
        child@ == ox_child_spec(seg_parent@, fill_parent@, start as int, end as int),
        child@.len() == seg_parent@.len(),
        is_permutation(child@),
        child@.subrange(start as int, end + 1) == seg_parent@.subrange(start as int, end + 1),
{
    let fill = remainder_genes(seg_parent, fill_parent, start, end);
    let n = seg_parent.len();
    let mut child: Vec<usize> = Vec::new();
    let ghost target = ox_child_spec(seg_parent@, fill_parent@, start as int, end as int);
    let mut i: usize = 0;
    while i < n
        invariant
            i <= n,
            n == seg_parent@.len(),
            n == fill_parent@.len(),
            start <= end < n,
            fill@.len() == n - (end - start + 1),
            fill@ == ox_fill(seg_parent@, fill_parent@, start as int, end as int),
            target == ox_child_spec(seg_parent@, fill_parent@, start as int, end as int),
            child@.len() == i,
            forall|k: int| 0 <= k < i ==> child@[k] == target[k],
        decreases n - i,
    {
        if i < start {
            child.push(fill[n - 1 - end + i]);
        } else if i <= end {
            child.push(seg_parent[i]);
        } else {
            child.push(fill[i - end - 1]);
        }
        i = i + 1;
    }
    proof {
        assert(child@ =~= target);
        let s = start as int;
        let e = end as int;
        let m = n as int;
        // every gene is below the length
        assert forall|k: int| 0 <= k < m implies child@[k] < m by {
            if k < s || k > e {
                let idx = if k < s { m - 1 - e + k } else { k - e - 1 };
                assert(child@[k] == fill@[idx]);
            }
        };
        // and no gene repeats: segment genes are in the segment, fill
        // genes are not, and distinct positions read distinct fill slots
        assert forall|a: int, b: int| 0 <= a < b < m implies child@[a] != child@[b] by {
            let ia = if a < s { m - 1 - e + a } else { a - e - 1 };
            let ib = if b < s { m - 1 - e + b } else { b - e - 1 };
            if s <= a <= e && s <= b <= e {
                assert(child@[a] == seg_parent@[a]);
                assert(child@[b] == seg_parent@[b]);
            } else if s <= a <= e {
                assert(in_segment(seg_parent@, s, e, child@[a]));
                assert(child@[b] == fill@[ib]);
                assert(!in_segment(seg_parent@, s, e, fill@[ib]));
            } else if s <= b <= e {
                assert(in_segment(seg_parent@, s, e, child@[b]));
                assert(child@[a] == fill@[ia]);
                assert(!in_segment(seg_parent@, s, e, fill@[ia]));
            } else {
                assert(child@[a] == fill@[ia]);
                assert(child@[b] == fill@[ib]);
                assert(ia != ib);
                assert(fill@[ia] != fill@[ib]);
            }
        };
        assert(child@.subrange(s, e + 1) =~= seg_parent@.subrange(s, e + 1));
    }
    child
}

/// Order crossover of two permutation parents over a fixed segment:
/// child 1 keeps parent 1's segment and is filled from parent 2, child 2
/// keeps parent 2's segment and is filled from parent 1.  Both children
/// are valid permutations whose copied segments match their parents
/// exactly.
pub fn crossover_permutation_at(
    parent1: &Vec<usize>,
    parent2: &Vec<usize>,
    start: usize,
    end: usize,
) -> (children: (Vec<usize>, Vec<usize>))
    requires
        start <= end < parent1@.len(),
        parent1@.len() == parent2@.len(),
        is_permutation(parent1@),
        is_permutation(parent2@),
    ensures
        children.0@ == ox_child_spec(parent1@, parent2@, start as int, end as int),
        children.1@ == ox_child_spec(parent2@, parent1@, start as int, end as int),
        is_permutation(children.0@),
        is_permutation(children.1@),
        children.0@.len() == parent1@.len(),
        children.1@.len() == parent1@.len(),
        children.0@.subrange(start as int, end + 1) == parent1@.subrange(start as int, end + 1),
        children.1@.subrange(start as int, end + 1) == parent2@.subrange(start as int, end + 1),
{
    let child1 = ox_child(parent1, parent2, start, end);
    let child2 = ox_child(parent2, parent1, start, end);
    (child1, child2)
}

/// What recombining two same-family parents yields: a complementary
/// splice at one point for continuous parents, a pair of order-crossover
/// children over one segment for permutation parents.
pub open spec fn crossover_children(m1: Genotype, m2: Genotype, c1: Genotype, c2: Genotype) -> bool {
    match (m1, m2) {
        (Genotype::Continuous(g1), Genotype::Continuous(g2)) => exists|point: int|
            #![trigger p1_splice(g1, g2, point)]
            0 <= point < g1.len() && c1 == Genotype::Continuous(p1_splice(g1, g2, point)) && c2
                == Genotype::Continuous(p1_splice(g2, g1, point)),
        (Genotype::Permutation(g1), Genotype::Permutation(g2)) => exists|s: int, e: int|
            #![trigger ox_child_spec(g1, g2, s, e)]
            0 <= s <= e < g1.len() && c1 == Genotype::Permutation(ox_child_spec(g1, g2, s, e)) && c2
                == Genotype::Permutation(ox_child_spec(g2, g1, s, e)),
        _ => false,
    }
}

/// Recombination of two individuals picked by index, the crossover point
/// or segment drawn uniformly at random.
pub trait Crossover {
    spec fn model(&self) -> Seq<Genotype>;

    fn crossover(&self, index1: usize, index2: usize) -> (children: (Individual, Individual))
        requires
            index1 < self.model().len(),
            index2 < self.model().len(),
            self.model()[index1 as int].wf(),
            self.model()[index2 as int].wf(),
            self.model()[index1 as int].kind() == self.model()[index2 as int].kind(),
            self.model()[index1 as int].gene_count() == self.model()[index2 as int].gene_count(),
            self.model()[index1 as int].gene_count() >= 1,
        ensures
            crossover_children(
                self.model()[index1 as int],
                self.model()[index2 as int],
                children.0@,
                children.1@,
            ),
            children.0@.wf(),
            children.1@.wf(),
            children.0@.kind() == self.model()[index1 as int].kind(),
            children.1@.kind() == self.model()[index1 as int].kind(),
            children.0@.gene_count() == self.model()[index1 as int].gene_count(),
            children.1@.gene_count() == self.model()[index1 as int].gene_count(),
    ;
}

impl Crossover for Population {
    open spec fn model(&self) -> Seq<Genotype> {
        self@
    }

    fn crossover(&self, index1: usize, index2: usize) -> (children: (Individual, Individual)) {
        match (&self.individuals[index1], &self.individuals[index2]) {
            (Individual::Continuous(g1), Individual::Continuous(g2)) => {
                let point = rand_index(g1.len());
                let spliced = crossover_continuous_at(g1, g2, point);
                proof {
                    assert(spliced.0@ == p1_splice(g1@, g2@, point as int));
                    assert(spliced.1@ == p1_splice(g2@, g1@, point as int));
                }
                (Individual::Continuous(spliced.0), Individual::Continuous(spliced.1))
            },
            (Individual::Permutation(g1), Individual::Permutation(g2)) => {
                let n = g1.len();
                let start = rand_index(n);
                let end = start + rand_index(n - start);
                let crossed = crossover_permutation_at(g1, g2, start, end);
                proof {
                    assert(ox_child_spec(g1@, g2@, start as int, end as int) == crossed.0@);
                }
                (Individual::Permutation(crossed.0), Individual::Permutation(crossed.1))
            },
            _ => {
                proof {
                    assert(false);
                }
                vstd::pervasive::unreached()
            },
        }
    }
}

/// Crossover moves genes without altering them: children of range-bounded
/// parents are range-bounded.
pub proof fn lemma_crossover_in_range(
    m1: Genotype,
    m2: Genotype,
    c1: Genotype,
    c2: Genotype,
    lo: u64,
    hi: u64,
)
    requires
        crossover_children(m1, m2, c1, c2),
        m1.gene_count() == m2.gene_count(),
        crate::population::genotype_in_range(m1, lo, hi),
        crate::population::genotype_in_range(m2, lo, hi),
    ensures
        crate::population::genotype_in_range(c1, lo, hi),
        crate::population::genotype_in_range(c2, lo, hi),
{
    match (m1, m2) {
        (Genotype::Continuous(g1), Genotype::Continuous(g2)) => {
            let point = choose|point: int|
                #![trigger p1_splice(g1, g2, point)]
                0 <= point < g1.len() && c1 == Genotype::Continuous(p1_splice(g1, g2, point)) && c2
                    == Genotype::Continuous(p1_splice(g2, g1, point));
            let h1 = p1_splice(g1, g2, point);
            let h2 = p1_splice(g2, g1, point);
            assert forall|k: int| 0 <= k < h1.len() implies lo <= #[trigger] h1[k] <= hi by {
                assert(g1.take(point).len() == point);
                if k < point {
                    assert(h1[k] == g1.take(point)[k]);
                    assert(g1.take(point)[k] == g1[k]);
                } else {
                    assert(h1[k] == g2.skip(point)[k - point]);
                    assert(g2.skip(point)[k - point] == g2[k]);
                }
            };
            assert forall|k: int| 0 <= k < h2.len() implies lo <= #[trigger] h2[k] <= hi by {
                assert(g2.take(point).len() == point);
                if k < point {
                    assert(h2[k] == g2.take(point)[k]);
                    assert(g2.take(point)[k] == g2[k]);
                } else {
                    assert(h2[k] == g1.skip(point)[k - point]);
                    assert(g1.skip(point)[k - point] == g1[k]);
                }
            };
        },
        (Genotype::Permutation(_), Genotype::Permutation(_)) => {
        },
        _ => {
        },
    }
}

/// Counting argument: the fill of two same-length permutations has exactly
/// one gene for every position outside the copied segment.
proof fn lemma_remainder_count(
    seg_parent: Seq<usize>,
    fill_parent: Seq<usize>,
    fill: Seq<usize>,
    start: int,
    end: int,
)
    requires
        0 <= start <= end < seg_parent.len(),
        seg_parent.len() == fill_parent.len(),
        is_permutation(seg_parent),
        is_permutation(fill_parent),
        fill_parent.len() <= usize::MAX,
        fill.no_duplicates(),
        forall|v: usize|
            #[trigger] fill.contains(v) <==> (fill_parent.contains(v) && !in_segment(
                seg_parent,
                start,
                end,
                v,
            )),
    ensures
        fill.len() == fill_parent.len() - (end - start + 1),
{
    broadcast use vstd::seq_lib::seq_to_set_is_finite;

    let n = fill_parent.len();
    let segment = seg_parent.subrange(start, end + 1);
    assert(segment.no_duplicates());
    segment.unique_seq_to_set();
    fill.unique_seq_to_set();
    lemma_permutation_covers(fill_parent);
    lemma_indices_below_card(n);
    // a value is in the segment's set exactly when it is in the segment
    assert forall|v: usize| #[trigger] segment.to_set().contains(v) implies in_segment(
        seg_parent,
        start,
        end,
        v,
    ) by {
        let a = choose|a: int| 0 <= a < segment.len() && segment[a] == v;
        assert(seg_parent[start + a] == v);
    };
    assert forall|v: usize| in_segment(seg_parent, start, end, v) implies #[trigger] segment.to_set()
        .contains(v) by {
        let k = choose|k: int| start <= k <= end && seg_parent[k] == v;
        assert(segment[k - start] == v);
    };
    // the fill holds exactly the values outside the segment
    assert(fill.to_set() =~= indices_below(n).difference(segment.to_set()));
    // and the segment's values all lie below n
    assert(segment.to_set().subset_of(indices_below(n)));
    vstd::set_lib::lemma_set_difference_len(indices_below(n), segment.to_set());
    assert(indices_below(n).intersect(segment.to_set()) =~= segment.to_set());
}

} // verus!
