use vstd::prelude::*;
use vstd::set_lib::{lemma_int_range, set_int_range};
use crate::individual::{Genotype, Individual};
use crate::population::{chosen_from, views, Population};
use crate::random::rand_word;

verus! {

/// The selection weight of rank `i` among `n` ranks, best rank first: the
/// best individual weighs `n`, the worst weighs `1`.
pub open spec fn rank_weight(n: int, i: int) -> int {
    n - i
}

/// The sum of the selection weights of the ranks below `i`: the start of
/// rank `i`'s slot on the integer roulette wheel.
pub open spec fn cum_weight(n: int, i: int) -> int
    decreases i,
{
    if i <= 0 {
        0
    } else {
        cum_weight(n, i - 1) + rank_weight(n, i - 1)
    }
}

/// The whole wheel: `n + (n-1) + ... + 1`.
pub open spec fn total_rank(n: int) -> int {
    cum_weight(n, n)
}

/// Draw `t` lands in rank `i`'s slot.
pub open spec fn selects(n: int, t: int, i: int) -> bool {
    cum_weight(n, i) <= t < cum_weight(n, i + 1)
}

/// All draws that land in rank `i`'s slot.
pub open spec fn draws_selecting(n: int, i: int) -> Set<int> {
    Set::new(|t: int| selects(n, t, i))
}

pub proof fn lemma_cum_weight_bound(n: int, i: int)
    requires
        0 <= i <= n,
    ensures
        i <= cum_weight(n, i) <= i * n,
    decreases i,
{
    if i > 0 {
        lemma_cum_weight_bound(n, i - 1);
        assert((i - 1) * n + n == i * n) by (nonlinear_arith);
    }
}

/// Law: the integer roulette wheel gives rank `i` a slot of exactly
/// `n - i` draws out of the `total_rank(n)` equally likely draws, so the
/// empirical selection frequency of the best rank converges to
/// `n / total_rank(n)` and strictly exceeds the frequency of every worse
/// rank.
pub proof fn lemma_rank_selection_distribution(n: int, i: int)
    requires
        1 <= n,
        0 <= i < n,
    ensures
        draws_selecting(n, i).finite(),
        draws_selecting(n, i).len() == rank_weight(n, i),
        draws_selecting(n, 0).len() == n,
        i > 0 ==> draws_selecting(n, i).len() < draws_selecting(n, 0).len(),
{
    lemma_slot_size(n, i);
    lemma_slot_size(n, 0);
}

proof fn lemma_slot_size(n: int, i: int)
    requires
        1 <= n,
        0 <= i < n,
    ensures
        draws_selecting(n, i).finite(),
        draws_selecting(n, i).len() == rank_weight(n, i),
{
    assert(draws_selecting(n, i) =~= set_int_range(cum_weight(n, i), cum_weight(n, i + 1)));
    lemma_cum_weight_bound(n, i);
    lemma_int_range(cum_weight(n, i), cum_weight(n, i + 1));
}

/// No draw lands in two slots, and every draw below `total_rank(n)` lands
/// in some slot: the selection scan is a total function of the draw.
pub proof fn lemma_selection_slots_partition(n: int, t: int)
    requires
        1 <= n,
        0 <= t < total_rank(n),
    ensures
        exists|i: int| 0 <= i < n && selects(n, t, i),
        forall|i: int, j: int|
            0 <= i < n && 0 <= j < n && selects(n, t, i) && selects(n, t, j) ==> i == j,
{
    lemma_some_slot(n, n, t);
    assert forall|i: int, j: int|
        0 <= i < n && 0 <= j < n && selects(n, t, i) && selects(n, t, j) implies i == j by {
        if i < j {
            lemma_cum_weight_monotone(n, i + 1, j);
        } else if j < i {
            lemma_cum_weight_monotone(n, j + 1, i);
        }
    };
}

proof fn lemma_cum_weight_monotone(n: int, i: int, j: int)
    requires
        0 <= i <= j <= n,
    ensures
        cum_weight(n, i) <= cum_weight(n, j),
    decreases j - i,
{
    if i < j {
        lemma_cum_weight_monotone(n, i, j - 1);
    }
}

proof fn lemma_some_slot(n: int, m: int, t: int)
    requires
        1 <= n,
        0 <= m <= n,
        0 <= t < cum_weight(n, m),
    ensures
        exists|i: int| 0 <= i < m && selects(n, t, i),
    decreases m,
{
    if m > 0 {
        if t >= cum_weight(n, m - 1) {
            assert(selects(n, t, m - 1));
        } else {
            lemma_some_slot(n, m - 1, t);
        }
    }
}

/// The cumulative rank table for a population of `n`: entry `i` holds the
/// end of rank `i`'s slot, and the last entry is the whole wheel.
pub fn rank_table(n: usize) -> (cum: Vec<u64>)
    requires
        1 <= n <= 0x8000_0000,
    ensures
        cum@.len() == n,
        forall|i: int| 0 <= i < n ==> #[trigger] cum@[i] == cum_weight(n as int, i + 1),
{
    let mut cum: Vec<u64> = Vec::new();
    let mut sum: u64 = 0;
    let mut k: usize = 0;
    while k < n
        invariant
            k <= n,
            n <= 0x8000_0000,
            sum == cum_weight(n as int, k as int),
            cum@.len() == k,
            forall|i: int| 0 <= i < k ==> #[trigger] cum@[i] == cum_weight(n as int, i + 1),
        decreases n - k,
    {
        proof {
            lemma_cum_weight_bound(n as int, k as int);
            assert(cum_weight(n as int, k + 1) == cum_weight(n as int, k as int) + (n - k));
            assert(cum_weight(n as int, k + 1) <= (k + 1) * (n as int)) by {
                lemma_cum_weight_bound(n as int, k + 1);
            };
            assert((k + 1) * (n as int) <= (n as int) * (n as int)) by (nonlinear_arith)
                requires
                    0 <= k + 1 <= n as int,
            ;
            assert((n as int) * (n as int) <= 0x8000_0000 * 0x8000_0000) by (nonlinear_arith)
                requires
                    0 <= n as int <= 0x8000_0000,
            ;
        }
        sum = sum + (n - k) as u64;
        cum.push(sum);
        k = k + 1;
    }
    cum
}

/// The deterministic half of the roulette draw: scan the cumulative table
/// in ascending rank order and take the first slot that holds `t`.
pub fn select_index(cum: &Vec<u64>, t: u64) -> (chosen: usize)
    requires
        1 <= cum@.len() <= 0x8000_0000,
        forall|i: int| 0 <= i < cum@.len() ==> #[trigger] cum@[i] == cum_weight(
            cum@.len() as int,
            i + 1,
        ),
        t < cum@[cum@.len() - 1],
    ensures
        chosen < cum@.len(),
        selects(cum@.len() as int, t as int, chosen as int),
{
    let ghost n = cum@.len() as int;
    let mut i: usize = 0;
    while i < cum.len()
        invariant
            0 <= i <= n,
            n == cum@.len(),
            t < cum@[n - 1],
            forall|k: int| 0 <= k < n ==> #[trigger] cum@[k] == cum_weight(n, k + 1),
            t >= cum_weight(n, i as int),
        decreases n - i,
    {
        if t < cum[i] {
            return i;
        }
        i = i + 1;
    }
    proof {
        assert(t >= cum_weight(n, n));
        assert(false);
    }
    vstd::pervasive::unreached()
}

/// One pass of the single-probability variant of rank selection: walk the
/// ranks once, best first, and accept each individual independently with
/// probability `(n - rank) / total_rank(n)`, stopping once `remaining`
/// acceptances are collected.  A pass may select fewer; the caller
/// repeats passes until its quota is full.
pub fn rank_selection_single_prob_pass(pop: &Population, remaining: usize) -> (selected: Vec<
    Individual,
>)
    requires
        1 <= pop@.len() <= 0x8000_0000,
    ensures
        selected@.len() <= remaining,
        chosen_from(views(selected@), pop@),
{
    let n = pop.individuals.len();
    let cum = rank_table(n);
    proof {
        lemma_cum_weight_bound(n as int, n as int);
    }
    let total = cum[n - 1];
    let mut selected: Vec<Individual> = Vec::new();
    let mut rank: usize = 0;
    while rank < n
        invariant
            rank <= n,
            n == pop@.len(),
            1 <= n <= 0x8000_0000,
            total == cum_weight(n as int, n as int),
            total >= 1,
            selected@.len() <= remaining,
            chosen_from(views(selected@), pop@),
        decreases n - rank,
    {
        if selected.len() == remaining {
            return selected;
        }
        if crate::random::rand_word(0, total - 1) < (n - rank) as u64 {
            let ghost prefix = views(selected@);
            let picked = pop.individuals[rank].duplicate();
            let ghost picked_view = picked@;
            selected.push(picked);
            proof {
                assert(views(selected@) =~= prefix.push(picked_view));
                assert(picked_view == pop@[rank as int]);
                assert forall|k: int| 0 <= k < views(selected@).len() implies pop@.contains(
                    #[trigger] views(selected@)[k],
                ) by {
                    if k < prefix.len() {
                        assert(views(selected@)[k] == prefix[k]);
                    } else {
                        assert(views(selected@)[k] == pop@[rank as int]);
                        assert(pop@.contains(pop@[rank as int]));
                    }
                };
            }
        }
        rank = rank + 1;
    }
    selected
}

/// Rank-based roulette selection over an already rank-sorted population
/// (index 0 best): draw `n` independent uniform integers from the wheel
/// and copy the individual whose slot each draw lands in.  Parents may be
/// selected many times; the input population is untouched.
pub fn rank_selection_cdf(pop: &Population) -> (selected: Vec<Individual>)
    requires
        1 <= pop@.len() <= 0x8000_0000,
    ensures
        selected@.len() == pop@.len(),
        chosen_from(views(selected@), pop@),
{
    let n = pop.individuals.len();
    let cum = rank_table(n);
    proof {
        lemma_cum_weight_bound(n as int, n as int);
    }
    let total = cum[n - 1];
    let mut selected: Vec<Individual> = Vec::new();
    let mut j: usize = 0;
    while j < n
        invariant
            j <= n,
            n == pop@.len(),
            1 <= n <= 0x8000_0000,
            cum@.len() == n,
            forall|i: int| 0 <= i < n ==> #[trigger] cum@[i] == cum_weight(n as int, i + 1),
            total == cum@[n - 1],
            total >= 1,
            selected@.len() == j,
            chosen_from(views(selected@), pop@),
        decreases n - j,
    {
        let t = rand_word(0, total - 1);
        let chosen = select_index(&cum, t);
        let ghost prefix = views(selected@);
        let picked = pop.individuals[chosen].duplicate();
        let ghost picked_view = picked@;
        selected.push(picked);
        proof {
            assert(views(selected@) =~= prefix.push(picked_view));
            assert(picked_view == pop@[chosen as int]);
            assert forall|k: int| 0 <= k < views(selected@).len() implies pop@.contains(
                #[trigger] views(selected@)[k],
            ) by {
                if k < prefix.len() {
                    assert(views(selected@)[k] == prefix[k]);
                } else {
                    assert(views(selected@)[k] == pop@[chosen as int]);
                    assert(pop@.contains(pop@[chosen as int]));
                }
            };
        }
        j = j + 1;
    }
    selected
}

} // verus!
