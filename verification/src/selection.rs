//! Roulette selection: a chromosome is picked with a chance in proportion to
//! its weight, and the weight falls with the fitness as `1 / (fitness + 1)`.
//!
//! Weights are whole numbers: the weight of an exact solution is
//! `WEIGHT_SCALE`, the unit of the scale, and a fitness `f` weighs the
//! `f + 1`-th part of it, rounded down. The wheel is the line from 0 to the
//! sum of all weights, with the chromosomes laid on it in the population's
//! order; a draw is a point of that line, and it falls on the first
//! chromosome whose weights, summed up from the start, exceed it.
use crate::chromosome::Chromosome;
use crate::genetic::{genes_of, uniform, Genetic};
use crate::random::below;
use rand::rngs::StdRng;
use vstd::prelude::*;

verus! {

/// The weight of an exact solution: 2 to the power 64.
pub const WEIGHT_SCALE: u128 = 0x1_0000_0000_0000_0000;

/// The weight of a chromosome with fitness `f`.
pub open spec fn weight(f: u64) -> nat {
    (WEIGHT_SCALE as int / (f + 1)) as nat
}

/// The summed weight of the first `n` chromosomes.
pub open spec fn cumulative(f_obj: Seq<u64>, n: int) -> nat
    decreases n,
{
    if n <= 0 {
        0
    } else {
        cumulative(f_obj, n - 1) + weight(f_obj[n - 1])
    }
}

/// The first chromosome, from `i` on, whose cumulative weight exceeds the
/// draw; the population's size where there is none.
pub open spec fn winner_from(f_obj: Seq<u64>, draw: nat, i: int) -> int
    decreases f_obj.len() - i,
{
    if i >= f_obj.len() || draw < cumulative(f_obj, i + 1) {
        i
    } else {
        winner_from(f_obj, draw, i + 1)
    }
}

/// The chromosome on which a draw falls.
pub open spec fn winner(f_obj: Seq<u64>, draw: nat) -> int {
    winner_from(f_obj, draw, 0)
}

/// A weight is at least 1 and at most the scale, whatever the fitness.
pub proof fn lemma_weight_bounds(f: u64)
    ensures
        1 <= weight(f) <= WEIGHT_SCALE,
{
    let d = f + 1;
    vstd::arithmetic::div_mod::lemma_div_non_zero(WEIGHT_SCALE as int, d);
    vstd::arithmetic::div_mod::lemma_div_is_ordered_by_denominator(WEIGHT_SCALE as int, 1, d);
}

/// Cumulative weights grow strictly, by at most the scale for each
/// chromosome.
pub proof fn lemma_cumulative_grows(f_obj: Seq<u64>, n: int)
    requires
        0 <= n,
    ensures
        n <= cumulative(f_obj, n) <= n * WEIGHT_SCALE,
        cumulative(f_obj, n) < cumulative(f_obj, n + 1),
    decreases n,
{
    lemma_weight_bounds(f_obj[n]);
    if n > 0 {
        lemma_cumulative_grows(f_obj, n - 1);
        lemma_weight_bounds(f_obj[n - 1]);
        assert(n * WEIGHT_SCALE == (n - 1) * WEIGHT_SCALE + WEIGHT_SCALE) by (nonlinear_arith);
    }
}

/// A draw below the total weight falls on a chromosome, and on the one
/// whose stretch of the wheel holds it: the weights before the winner do not
/// exceed the draw, and with the winner's they do.
pub proof fn lemma_winner_holds_draw(f_obj: Seq<u64>, draw: nat)
    requires
        draw < cumulative(f_obj, f_obj.len() as int),
    ensures
        0 <= winner(f_obj, draw) < f_obj.len(),
        cumulative(f_obj, winner(f_obj, draw)) <= draw < cumulative(
            f_obj,
            winner(f_obj, draw) + 1,
        ),
{
    lemma_winner_from(f_obj, draw, 0);
}

proof fn lemma_winner_from(f_obj: Seq<u64>, draw: nat, i: int)
    requires
        0 <= i <= f_obj.len(),
        draw < cumulative(f_obj, f_obj.len() as int),
        cumulative(f_obj, i) <= draw,
    ensures
        i <= winner_from(f_obj, draw, i) < f_obj.len(),
        cumulative(f_obj, winner_from(f_obj, draw, i)) <= draw < cumulative(
            f_obj,
            winner_from(f_obj, draw, i) + 1,
        ),
    decreases f_obj.len() - i,
{
    if i < f_obj.len() && draw >= cumulative(f_obj, i + 1) {
        lemma_winner_from(f_obj, draw, i + 1);
    }
}

/// Only one chromosome's stretch of the wheel holds a draw: a chromosome
/// whose own weight carries the sum over the draw is the winner.
pub proof fn lemma_winner_is_unique(f_obj: Seq<u64>, draw: nat, i: int)
    requires
        0 <= i < f_obj.len(),
        cumulative(f_obj, i) <= draw < cumulative(f_obj, i + 1),
    ensures
        winner(f_obj, draw) == i,
{
    lemma_scan_reaches(f_obj, draw, 0, i);
}

proof fn lemma_scan_reaches(f_obj: Seq<u64>, draw: nat, from: int, i: int)
    requires
        0 <= from <= i < f_obj.len(),
        cumulative(f_obj, i) <= draw < cumulative(f_obj, i + 1),
    ensures
        winner_from(f_obj, draw, from) == i,
    decreases i - from,
{
    if from < i {
        lemma_cumulative_ordered(f_obj, from + 1, i);
        lemma_scan_reaches(f_obj, draw, from + 1, i);
    }
}

/// Selection is in proportion to the weights: of the points of the wheel,
/// as many fall on a chromosome as its weight counts, those from the summed
/// weight before it on.
pub proof fn lemma_share_is_the_weight(f_obj: Seq<u64>, draw: nat, i: int)
    requires
        0 <= i < f_obj.len(),
        draw < cumulative(f_obj, f_obj.len() as int),
    ensures
        winner(f_obj, draw) == i <==> cumulative(f_obj, i) <= draw < cumulative(f_obj, i)
            + weight(f_obj[i]),
{
    lemma_winner_holds_draw(f_obj, draw);
    if cumulative(f_obj, i) <= draw < cumulative(f_obj, i + 1) {
        lemma_winner_is_unique(f_obj, draw, i);
    }
}

/// The fitter of two chromosomes weighs no less, and an exact solution
/// weighs most: the whole scale.
pub proof fn lemma_fitter_weighs_more(fitter: u64, other: u64)
    requires
        fitter <= other,
    ensures
        weight(fitter) >= weight(other),
        weight(0) == WEIGHT_SCALE,
{
    vstd::arithmetic::div_mod::lemma_div_is_ordered_by_denominator(
        WEIGHT_SCALE as int,
        fitter + 1,
        other + 1,
    );
}

/// Of two prefixes of the population the shorter weighs no more.
pub proof fn lemma_cumulative_ordered(f_obj: Seq<u64>, m: int, n: int)
    requires
        0 <= m <= n,
    ensures
        cumulative(f_obj, m) <= cumulative(f_obj, n),
    decreases n - m,
{
    if m < n {
        lemma_cumulative_ordered(f_obj, m, n - 1);
    }
}

/// The genes are those of some chromosome of the population.
pub open spec fn member_of(genes: Seq<i32>, pop: Seq<Chromosome>) -> bool {
    exists|i: int| 0 <= i < pop.len() && (#[trigger] pop[i])@ == genes
}

/// The population `after` is what the draws select from `before`: as many
/// chromosomes as there are draws, the `k`-th with the genes of the one on
/// which the `k`-th draw falls.
pub open spec fn drawn_by(
    f_obj: Seq<u64>,
    before: Seq<Seq<i32>>,
    after: Seq<Seq<i32>>,
    draws: Seq<u128>,
) -> bool {
    &&& after.len() == draws.len()
    &&& forall|k: int|
        0 <= k < draws.len() ==> #[trigger] draws[k] < cumulative(f_obj, f_obj.len() as int)
    &&& forall|k: int|
        0 <= k < draws.len() ==> #[trigger] after[k] == before[winner(f_obj, draws[k] as nat)]
}

/// The population `after` is a selection from `before`: some draws, one for
/// each chromosome, select it.
pub open spec fn selection_step(f_obj: Seq<u64>, before: Seq<Seq<i32>>, after: Seq<Seq<i32>>) -> bool {
    exists|draws: Seq<u128>|
        draws.len() == before.len() && #[trigger] drawn_by(f_obj, before, after, draws)
}

/// The weights of a population summed up from its start: entry `i` is the
/// summed weight of the chromosomes `0..=i`.
pub fn cumulative_weights(f_obj: &[u64]) -> (sums: Vec<u128>)
    ensures
        sums@.len() == f_obj@.len(),
        forall|i: int| 0 <= i < sums@.len() ==> #[trigger] sums@[i] == cumulative(f_obj@, i + 1),
{
    let mut sums: Vec<u128> = Vec::new();
    let mut sum: u128 = 0;
    let mut i: usize = 0;
    while i < f_obj.len()
        invariant
            i <= f_obj@.len(),
            sums@.len() == i,
            sum == cumulative(f_obj@, i as int),
            forall|j: int| 0 <= j < i ==> #[trigger] sums@[j] == cumulative(f_obj@, j + 1),
        decreases f_obj@.len() - i,
    {
        proof {
            lemma_cumulative_grows(f_obj@, i as int);
            lemma_cumulative_grows(f_obj@, i + 1);
            lemma_weight_bounds(f_obj@[i as int]);
            assert((i + 1) * WEIGHT_SCALE <= usize::MAX * WEIGHT_SCALE) by (nonlinear_arith)
                requires
                    i + 1 <= usize::MAX,
            ;
        }
        sum = sum + WEIGHT_SCALE / (f_obj[i] as u128 + 1);
        sums.push(sum);
        i += 1;
    }
    sums
}

/// The place of the first entry of `sums` that exceeds the draw; the
/// length of `sums` where none does.
pub fn roulette(sums: &[u128], draw: u128) -> (picked: usize)
    ensures
        picked <= sums@.len(),
        forall|j: int| 0 <= j < picked ==> sums@[j] <= draw,
        picked < sums@.len() ==> draw < sums@[picked as int],
{
    let mut i: usize = 0;
    while i < sums.len() && draw >= sums[i]
        invariant
            i <= sums@.len(),
            forall|j: int| 0 <= j < i ==> sums@[j] <= draw,
        decreases sums@.len() - i,
    {
        i += 1;
    }
    i
}

/// The population drawn by the given points of the wheel: its `k`-th member
/// is a copy of the chromosome on which the `k`-th draw falls.
pub fn select(f_obj: &[u64], pop: &Vec<Chromosome>, draws: &[u128]) -> (chosen: Vec<Chromosome>)
    requires
        f_obj@.len() == pop@.len(),
        forall|k: int|
            0 <= k < draws@.len() ==> #[trigger] draws@[k] < cumulative(
                f_obj@,
                f_obj@.len() as int,
            ),
    ensures
        chosen@.len() == draws@.len(),
        drawn_by(f_obj@, genes_of(pop@), genes_of(chosen@), draws@),
        forall|k: int|
            0 <= k < draws@.len() ==> 0 <= winner(f_obj@, #[trigger] draws@[k] as nat) < pop@.len(),
        forall|k: int|
            0 <= k < draws@.len() ==> (#[trigger] chosen@[k])@ == pop@[winner(
                f_obj@,
                draws@[k] as nat,
            )]@,
{
    let sums = cumulative_weights(f_obj);
    let mut chosen: Vec<Chromosome> = Vec::new();
    let mut k: usize = 0;
    while k < draws.len()
        invariant
            k <= draws@.len(),
            chosen@.len() == k,
            f_obj@.len() == pop@.len(),
            sums@.len() == f_obj@.len(),
            forall|i: int|
                0 <= i < sums@.len() ==> #[trigger] sums@[i] == cumulative(f_obj@, i + 1),
            forall|j: int|
                0 <= j < draws@.len() ==> #[trigger] draws@[j] < cumulative(
                    f_obj@,
                    f_obj@.len() as int,
                ),
            forall|j: int|
                0 <= j < k ==> 0 <= winner(f_obj@, #[trigger] draws@[j] as nat) < pop@.len(),
            forall|j: int|
                0 <= j < k ==> (#[trigger] chosen@[j])@ == pop@[winner(
                    f_obj@,
                    draws@[j] as nat,
                )]@,
        decreases draws@.len() - k,
    {
        let draw = draws[k];
        let picked = roulette(sums.as_slice(), draw);
        proof {
            assert(draws@[k as int] < cumulative(f_obj@, f_obj@.len() as int));
            if picked > 0 {
                assert(sums@[picked - 1] == cumulative(f_obj@, (picked - 1) + 1));
                assert(cumulative(f_obj@, picked as int) <= draw);
            }
            assert(picked < sums@.len());
            assert(sums@[picked as int] == cumulative(f_obj@, picked + 1));
            lemma_winner_is_unique(f_obj@, draw as nat, picked as int);
            assert(winner(f_obj@, draws@[k as int] as nat) == picked);
        }
        let copy = pop[picked].clone();
        chosen.push(copy);
        proof {
            assert(chosen@[k as int]@ == pop@[picked as int]@);
        }
        k += 1;
    }
    proof {
        assert forall|k: int| 0 <= k < draws@.len() implies #[trigger] genes_of(chosen@)[k]
            == genes_of(pop@)[winner(f_obj@, draws@[k] as nat)] by {
            assert(0 <= winner(f_obj@, draws@[k] as nat) < pop@.len());
            assert(chosen@[k]@ == pop@[winner(f_obj@, draws@[k] as nat)]@);
        }
    }
    chosen
}

impl Genetic {
    /// Replaces the population by one of the same size, drawn from it by
    /// roulette: as many draws as it has chromosomes, each a fresh point of
    /// the wheel, the new population in the order of the draws.
    pub fn selection(&self, f_obj: &[u64], pop: &mut Vec<Chromosome>, rng: &mut StdRng)
        requires
            f_obj@.len() == old(pop)@.len(),
        ensures
            final(pop)@.len() == old(pop)@.len(),
            selection_step(f_obj@, genes_of(old(pop)@), genes_of(final(pop)@)),
            forall|k: int|
                0 <= k < final(pop)@.len() ==> member_of((#[trigger] final(pop)@[k])@, old(pop)@),
            forall|n: nat| uniform(old(pop)@, n) ==> uniform(final(pop)@, n),
    {
        let size = pop.len();
        let mut draws: Vec<u128> = Vec::new();
        if size > 0 {
            let sums = cumulative_weights(f_obj);
            let whole = sums[size - 1];
            proof {
                lemma_cumulative_grows(f_obj@, size as int - 1);
            }
            let mut k: usize = 0;
            while k < size
                invariant
                    k <= size,
                    draws@.len() == k,
                    whole == cumulative(f_obj@, f_obj@.len() as int),
                    whole > 0,
                    forall|j: int| 0 <= j < k ==> #[trigger] draws@[j] < whole,
                decreases size - k,
            {
                let draw = below(rng, whole);
                draws.push(draw);
                k += 1;
            }
        }
        let chosen = select(f_obj, pop, draws.as_slice());
        proof {
            assert(drawn_by(f_obj@, genes_of(pop@), genes_of(chosen@), draws@));
            assert forall|k: int| 0 <= k < chosen@.len() implies member_of(
                (#[trigger] chosen@[k])@,
                pop@,
            ) by {
                let i = winner(f_obj@, draws@[k] as nat);
                assert(0 <= winner(f_obj@, draws@[k] as nat) < pop@.len());
                assert(pop@[i]@ == chosen@[k]@);
            }
        }
        *pop = chosen;
    }
}

} // verus!
