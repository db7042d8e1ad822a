//! Mutation: a share of all genes, picked by chance, is drawn anew.
//!
//! The genes of a population are counted through from the first gene of the
//! first chromosome: gene `g` is gene `g % n_bits` of chromosome
//! `g / n_bits`. A hit names such a gene and its new value. Hits fall one
//! after another, so a gene hit twice keeps the later value.
use crate::chromosome::Chromosome;
use crate::genetic::{genes_of, uniform, Genetic};
use crate::random::below;
use rand::rngs::StdRng;
use vstd::prelude::*;

verus! {

/// The population with gene `flat` set to `value`.
pub open spec fn struck(pop: Seq<Seq<i32>>, n_bits: int, flat: int, value: i32) -> Seq<Seq<i32>> {
    pop.update(flat / n_bits, pop[flat / n_bits].update(flat % n_bits, value))
}

/// The population after the first `n` of the hits.
pub open spec fn mutated(pop: Seq<Seq<i32>>, n_bits: int, hits: Seq<(u128, i32)>, n: int) -> Seq<
    Seq<i32>,
>
    decreases n,
{
    if n <= 0 {
        pop
    } else {
        struck(mutated(pop, n_bits, hits, n - 1), n_bits, hits[n - 1].0 as int, hits[n - 1].1)
    }
}

/// The population `after` is a mutation of `before`: some `count` hits,
/// each on one of its genes and with a value of `0..target`, give it.
pub open spec fn mutation_step(
    count: nat,
    n_bits: nat,
    target: int,
    before: Seq<Seq<i32>>,
    after: Seq<Seq<i32>>,
) -> bool {
    exists|hits: Seq<(u128, i32)>|
        {
            &&& hits.len() == count
            &&& forall|k: int|
                0 <= k < hits.len() ==> (#[trigger] hits[k]).0 < before.len() * n_bits && 0
                    <= hits[k].1 < target
            &&& #[trigger] mutated(before, n_bits as int, hits, hits.len() as int) == after
        }
}

/// What the first `n` hits do depends on those hits alone.
pub proof fn lemma_earlier_hits_stand(
    pop: Seq<Seq<i32>>,
    n_bits: int,
    hits: Seq<(u128, i32)>,
    more: Seq<(u128, i32)>,
    n: int,
)
    requires
        0 <= n <= hits.len() <= more.len(),
        forall|j: int| 0 <= j < hits.len() ==> hits[j] == more[j],
    ensures
        mutated(pop, n_bits, hits, n) == mutated(pop, n_bits, more, n),
    decreases n,
{
    if n > 0 {
        lemma_earlier_hits_stand(pop, n_bits, hits, more, n - 1);
    }
}

/// The share of `count` that a fraction gives can be had from the quotient
/// and the remainder of `count` by the denominator.
proof fn lemma_share_in_parts(count: int, numer: int, denom: int)
    requires
        0 <= count,
        0 <= numer <= denom,
        0 < denom,
    ensures
        count * numer / denom == (count / denom) * numer + (count % denom) * numer / denom,
        0 <= (count / denom) * numer <= count,
        0 <= (count % denom) * numer <= denom * denom,
        count * numer / denom <= count,
{
    let q = count / denom;
    let r = count % denom;
    vstd::arithmetic::div_mod::lemma_fundamental_div_mod(count, denom);
    vstd::arithmetic::div_mod::lemma_mod_bound(count, denom);
    vstd::arithmetic::div_mod::lemma_div_pos_is_pos(count, denom);
    assert(count * numer == r * numer + (q * numer) * denom) by (nonlinear_arith)
        requires
            count == denom * q + r,
    ;
    vstd::arithmetic::div_mod::lemma_hoist_over_denominator(r * numer, q * numer, denom as nat);
    assert(0 <= q * numer <= q * denom) by (nonlinear_arith)
        requires
            0 <= q,
            0 <= numer <= denom,
    ;
    assert(q * denom <= count) by (nonlinear_arith)
        requires
            count == denom * q + r,
            0 <= r,
    ;
    assert(0 <= r * numer <= denom * denom) by (nonlinear_arith)
        requires
            0 <= r < denom,
            0 <= numer <= denom,
    ;
    assert(count * numer <= count * denom) by (nonlinear_arith)
        requires
            0 <= count,
            0 <= numer <= denom,
    ;
    vstd::arithmetic::div_mod::lemma_div_is_ordered(count * numer, count * denom, denom);
    vstd::arithmetic::div_mod::lemma_div_by_multiple(count, denom);
}

impl Genetic {
    /// How many hits a mutation makes on a population of `size`
    /// chromosomes: the share `r_mut` of all its genes, rounded down.
    pub open spec fn mutation_count(&self, size: nat) -> nat {
        self.r_mut.share(size * self.n_bits as nat)
    }

    /// The count of hits that a mutation makes on a population of `size`
    /// chromosomes.
    pub fn count_hits(&self, size: u64) -> (count: u128)
        ensures
            count == self.mutation_count(size as nat),
            count <= size * self.n_bits,
    {
        let numer = self.r_mut.numer() as u128;
        let denom = self.r_mut.denom() as u128;
        let width = self.n_bits as u128;
        proof {
            assert(size * width <= u64::MAX * u64::MAX) by (nonlinear_arith)
                requires
                    size <= u64::MAX,
                    width <= u64::MAX,
            ;
        }
        let all: u128 = size as u128 * width;
        proof {
            lemma_share_in_parts(all as int, numer as int, denom as int);
            assert(denom * denom <= u32::MAX * u32::MAX) by (nonlinear_arith)
                requires
                    denom <= u32::MAX,
            ;
        }
        (all / denom) * numer + (all % denom) * numer / denom
    }

    /// Sets the gene that is counted `flat` to `value`.
    pub fn strike(&self, pop: &mut Vec<Chromosome>, flat: u128, value: i32)
        requires
            uniform(old(pop)@, self.n_bits as nat),
            flat < old(pop)@.len() * self.n_bits,
        ensures
            final(pop)@.len() == old(pop)@.len(),
            uniform(final(pop)@, self.n_bits as nat),
            genes_of(final(pop)@) == struck(
                genes_of(old(pop)@),
                self.n_bits as int,
                flat as int,
                value,
            ),
    {
        proof {
            assert(pop@.len() > 0 && self.n_bits > 0) by (nonlinear_arith)
                requires
                    flat < pop@.len() * self.n_bits,
            ;
            assert(pop@[0]@.len() == self.n_bits);
        }
        let size = pop.len();
        let width = pop[0].genes.len();
        let quotient: u128 = flat / width as u128;
        let rest: u128 = flat % width as u128;
        proof {
            assert(quotient < size) by (nonlinear_arith)
                requires
                    flat < size * width,
                    quotient == flat as int / width as int,
                    width > 0,
            ;
        }
        let row = quotient as usize;
        let col = rest as usize;
        proof {
            assert(row == flat as int / self.n_bits as int);
            assert(col == flat as int % self.n_bits as int);
            assert(pop@[row as int]@.len() == self.n_bits);
        }
        let ghost before = pop@;
        pop[row].genes[col] = value;
        proof {
            assert(genes_of(pop@) =~= struck(
                genes_of(before),
                self.n_bits as int,
                flat as int,
                value,
            ));
        }
    }

    /// Mutation with the hits given, in their order.
    pub fn mutation_by(&self, pop: &mut Vec<Chromosome>, hits: &[(u128, i32)])
        requires
            uniform(old(pop)@, self.n_bits as nat),
            forall|k: int|
                0 <= k < hits@.len() ==> (#[trigger] hits@[k]).0 < old(pop)@.len() * self.n_bits,
        ensures
            final(pop)@.len() == old(pop)@.len(),
            uniform(final(pop)@, self.n_bits as nat),
            genes_of(final(pop)@) == mutated(
                genes_of(old(pop)@),
                self.n_bits as int,
                hits@,
                hits@.len() as int,
            ),
    {
        let mut k: usize = 0;
        while k < hits.len()
            invariant
                k <= hits@.len(),
                pop@.len() == old(pop)@.len(),
                uniform(pop@, self.n_bits as nat),
                forall|j: int|
                    0 <= j < hits@.len() ==> (#[trigger] hits@[j]).0 < old(pop)@.len()
                        * self.n_bits,
                genes_of(pop@) == mutated(
                    genes_of(old(pop)@),
                    self.n_bits as int,
                    hits@,
                    k as int,
                ),
            decreases hits@.len() - k,
        {
            let (flat, value) = hits[k];
            proof {
                assert(hits@[k as int].0 < old(pop)@.len() * self.n_bits);
            }
            self.strike(pop, flat, value);
            k += 1;
        }
    }

    /// Mutation by chance: `mutation_count` hits, each on a gene drawn from
    /// all genes of the population, with a value drawn from `0..target`. The
    /// same gene may be hit more than once. For each hit the gene is drawn
    /// first, then the value. Where the count is 0 nothing changes.
    pub fn mutation(&self, pop: &mut Vec<Chromosome>, rng: &mut StdRng)
        requires
            uniform(old(pop)@, self.n_bits as nat),
            self.target > 0 || self.mutation_count(old(pop)@.len()) == 0,
        ensures
            final(pop)@.len() == old(pop)@.len(),
            uniform(final(pop)@, self.n_bits as nat),
            mutation_step(
                self.mutation_count(old(pop)@.len()),
                self.n_bits as nat,
                self.target as int,
                genes_of(old(pop)@),
                genes_of(final(pop)@),
            ),
            self.mutation_count(old(pop)@.len()) == 0 ==> genes_of(final(pop)@) == genes_of(
                old(pop)@,
            ),
    {
        let size = pop.len() as u64;
        let count = self.count_hits(size);
        proof {
            assert(size * self.n_bits <= u64::MAX * u64::MAX) by (nonlinear_arith)
                requires
                    size <= u64::MAX,
                    self.n_bits <= u64::MAX,
            ;
        }
        let all: u128 = size as u128 * self.n_bits as u128;
        let ghost start = genes_of(pop@);
        let ghost mut hits: Seq<(u128, i32)> = Seq::empty();
        let mut k: u128 = 0;
        while k < count
            invariant
                k <= count,
                hits.len() == k,
                count <= all,
                count > 0 ==> self.target > 0,
                all == old(pop)@.len() * self.n_bits,
                pop@.len() == old(pop)@.len(),
                uniform(pop@, self.n_bits as nat),
                start == genes_of(old(pop)@),
                forall|j: int|
                    0 <= j < hits.len() ==> (#[trigger] hits[j]).0 < all && 0 <= hits[j].1
                        < self.target,
                genes_of(pop@) == mutated(start, self.n_bits as int, hits, k as int),
            decreases count - k,
        {
            let flat = below(rng, all);
            let value = below(rng, self.target as u128) as i32;
            let ghost earlier = hits;
            proof {
                hits = hits.push((flat, value));
                lemma_earlier_hits_stand(start, self.n_bits as int, earlier, hits, k as int);
            }
            self.strike(pop, flat, value);
            k += 1;
        }
        proof {
            assert(mutated(start, self.n_bits as int, hits, hits.len() as int) == genes_of(pop@));
        }
    }
}

} // verus!
