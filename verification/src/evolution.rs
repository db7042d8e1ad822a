//! One generation, and what every generation keeps.
//!
//! A generation is selection, then crossover, then mutation, on one
//! population and with one generator. Whatever the generator gives, the
//! population keeps its size and each chromosome its gene count.
use crate::chromosome::Chromosome;
use crate::crossover::{
    crossed, crossover_step, is_row, lemma_parents_are_members, marks_fit, offspring, parents_of,
    partner,
};
use crate::genetic::{genes_of, rectangular, uniform, Genetic};
use crate::mutation::{mutated, mutation_step, struck};
use crate::rate::Rate;
use crate::selection::{
    cumulative, drawn_by, lemma_winner_holds_draw, selection_step, winner,
};
use rand::rngs::StdRng;
use vstd::prelude::*;

verus! {

/// Selection keeps the size of the population, and every chromosome that it
/// gives is one of the population before: it makes up no genes.
pub proof fn lemma_selection_draws_members(
    f_obj: Seq<u64>,
    before: Seq<Seq<i32>>,
    after: Seq<Seq<i32>>,
)
    requires
        f_obj.len() == before.len(),
        selection_step(f_obj, before, after),
    ensures
        after.len() == before.len(),
        forall|k: int| 0 <= k < after.len() ==> before.contains(#[trigger] after[k]),
        forall|n: nat| rectangular(before, n) ==> rectangular(after, n),
{
    let draws = choose|draws: Seq<u128>|
        draws.len() == before.len() && #[trigger] drawn_by(f_obj, before, after, draws);
    assert forall|k: int| 0 <= k < after.len() implies before.contains(#[trigger] after[k]) by {
        assert(draws[k] < cumulative(f_obj, f_obj.len() as int));
        lemma_winner_holds_draw(f_obj, draws[k] as nat);
        assert(after[k] == before[winner(f_obj, draws[k] as nat)]);
    }
    assert forall|n: nat| rectangular(before, n) implies rectangular(after, n) by {
        assert forall|k: int| 0 <= k < after.len() implies (#[trigger] after[k]).len() == n by {
            assert(before.contains(after[k]));
            let i = choose|i: int| 0 <= i < before.len() && before[i] == after[k];
            assert(before[i].len() == n);
        }
    }
}

/// Crossover keeps the size of the population and the gene count of every
/// chromosome.
pub proof fn lemma_crossover_keeps_shape(
    rate: Rate,
    n_bits: nat,
    before: Seq<Seq<i32>>,
    after: Seq<Seq<i32>>,
)
    requires
        rectangular(before, n_bits),
        crossover_step(rate, n_bits, before, after),
    ensures
        after.len() == before.len(),
        rectangular(after, n_bits),
{
    let (marks, cuts) = choose|marks: Seq<bool>, cuts: Seq<usize>|
        {
            &&& marks.len() == before.len()
            &&& marks_fit(rate, marks)
            &&& cuts.len() == parents_of(before, marks).len()
            &&& forall|i: int| 0 <= i < cuts.len() ==> #[trigger] cuts[i] < n_bits
            &&& #[trigger] crossed(before, marks, cuts) == after
        };
    let parents = parents_of(before, marks);
    lemma_parents_are_members(before, marks, before.len() as int);
    assert forall|k: int| 0 <= k < parents.len() implies (#[trigger] parents[k]).len()
        == n_bits by {
        assert(is_row(before, before.len() as int, parents[k]));
        let i = choose|i: int| 0 <= i < before.len() && #[trigger] before[i] == parents[k];
        assert(before[i].len() == n_bits);
    }
    assert forall|i: int| 0 <= i < after.len() implies (#[trigger] after[i]).len() == n_bits by {
        if i < parents.len() {
            let mate = partner(i, parents.len() as int);
            assert(cuts[i] < n_bits);
            assert(parents[i].len() == n_bits);
            assert(parents[mate].len() == n_bits);
            assert(after[i] == offspring(parents[i], parents[mate], cuts[i] as int));
        } else {
            assert(after[i] == before[i]);
        }
    }
}

/// Hits keep the size of the population and the gene count of every
/// chromosome.
pub proof fn lemma_hits_keep_shape(
    before: Seq<Seq<i32>>,
    n_bits: nat,
    hits: Seq<(u128, i32)>,
    n: int,
)
    requires
        rectangular(before, n_bits),
        0 <= n <= hits.len(),
        forall|k: int| 0 <= k < hits.len() ==> (#[trigger] hits[k]).0 < before.len() * n_bits,
    ensures
        mutated(before, n_bits as int, hits, n).len() == before.len(),
        rectangular(mutated(before, n_bits as int, hits, n), n_bits),
    decreases n,
{
    if n > 0 {
        lemma_hits_keep_shape(before, n_bits, hits, n - 1);
        let earlier = mutated(before, n_bits as int, hits, n - 1);
        let flat = hits[n - 1].0 as int;
        assert(flat < before.len() * n_bits);
        assert(n_bits > 0 && 0 <= flat / (n_bits as int) < before.len()) by (nonlinear_arith)
            requires
                0 <= flat < before.len() * n_bits,
        ;
        let now = struck(earlier, n_bits as int, flat, hits[n - 1].1);
        assert forall|i: int| 0 <= i < now.len() implies (#[trigger] now[i]).len() == n_bits by {
            assert(earlier[i].len() == n_bits);
        }
    }
}

/// Mutation keeps the size of the population and the gene count of every
/// chromosome.
pub proof fn lemma_mutation_keeps_shape(
    count: nat,
    n_bits: nat,
    target: int,
    before: Seq<Seq<i32>>,
    after: Seq<Seq<i32>>,
)
    requires
        rectangular(before, n_bits),
        mutation_step(count, n_bits, target, before, after),
    ensures
        after.len() == before.len(),
        rectangular(after, n_bits),
{
    let hits = choose|hits: Seq<(u128, i32)>|
        {
            &&& hits.len() == count
            &&& forall|k: int|
                0 <= k < hits.len() ==> (#[trigger] hits[k]).0 < before.len() * n_bits && 0
                    <= hits[k].1 < target
            &&& #[trigger] mutated(before, n_bits as int, hits, hits.len() as int) == after
        };
    lemma_hits_keep_shape(before, n_bits, hits, hits.len() as int);
}

impl Genetic {
    /// The population `after` is one generation on from `before`: a
    /// selection by the fitness `f_obj`, then a crossover of what was
    /// selected, then a mutation of that.
    pub open spec fn generation_step(
        &self,
        f_obj: Seq<u64>,
        before: Seq<Seq<i32>>,
        after: Seq<Seq<i32>>,
    ) -> bool {
        exists|picked: Seq<Seq<i32>>, mixed: Seq<Seq<i32>>|
            {
                &&& #[trigger] selection_step(f_obj, before, picked)
                &&& #[trigger] crossover_step(self.r_cross, self.n_bits as nat, picked, mixed)
                &&& mutation_step(
                    self.mutation_count(mixed.len()),
                    self.n_bits as nat,
                    self.target as int,
                    mixed,
                    after,
                )
            }
    }

    /// Every generation keeps the size of the population and the gene count
    /// of every chromosome.
    pub proof fn lemma_generation_keeps_shape(
        &self,
        f_obj: Seq<u64>,
        before: Seq<Seq<i32>>,
        after: Seq<Seq<i32>>,
    )
        requires
            f_obj.len() == before.len(),
            rectangular(before, self.n_bits as nat),
            self.generation_step(f_obj, before, after),
        ensures
            after.len() == before.len(),
            rectangular(after, self.n_bits as nat),
    {
        let (picked, mixed) = choose|picked: Seq<Seq<i32>>, mixed: Seq<Seq<i32>>|
            {
                &&& #[trigger] selection_step(f_obj, before, picked)
                &&& #[trigger] crossover_step(self.r_cross, self.n_bits as nat, picked, mixed)
                &&& mutation_step(
                    self.mutation_count(mixed.len()),
                    self.n_bits as nat,
                    self.target as int,
                    mixed,
                    after,
                )
            };
        lemma_selection_draws_members(f_obj, before, picked);
        lemma_crossover_keeps_shape(self.r_cross, self.n_bits as nat, picked, mixed);
        lemma_mutation_keeps_shape(
            self.mutation_count(mixed.len()),
            self.n_bits as nat,
            self.target as int,
            mixed,
            after,
        );
    }

    /// A generation can be evolved from the population with the fitness
    /// `f_obj`: there is one score for each chromosome; every chromosome has
    /// `n_bits` genes; a cut can be drawn wherever a parent may come up, and
    /// a value wherever a gene is to be redrawn.
    pub open spec fn admissible(&self, f_obj: Seq<u64>, pop: Seq<Chromosome>) -> bool {
        &&& f_obj.len() == pop.len()
        &&& uniform(pop, self.n_bits as nat)
        &&& (self.n_bits > 0 || pop.len() == 0 || self.r_cross.numerator() == 0)
        &&& (self.target > 0 || self.mutation_count(pop.len()) == 0)
    }

    /// Whether a generation can be evolved from the population.
    pub fn admits(&self, f_obj: &[u64], pop: &Vec<Chromosome>) -> (ok: bool)
        ensures
            ok == self.admissible(f_obj@, pop@),
    {
        if f_obj.len() != pop.len() {
            return false;
        }
        let mut i: usize = 0;
        while i < pop.len()
            invariant
                i <= pop@.len(),
                forall|j: int| 0 <= j < i ==> (#[trigger] pop@[j])@.len() == self.n_bits,
            decreases pop@.len() - i,
        {
            if pop[i].genes.len() as u64 != self.n_bits {
                return false;
            }
            i += 1;
        }
        if self.n_bits == 0 && pop.len() > 0 && self.r_cross.numer() != 0 {
            return false;
        }
        self.target > 0 || self.count_hits(pop.len() as u64) == 0
    }

    /// Evolves the population by one generation where one can be evolved,
    /// and says whether it did. Where none can, the population is left as it
    /// is and nothing is drawn.
    pub fn evolve(&self, f_obj: &[u64], pop: &mut Vec<Chromosome>, rng: &mut StdRng) -> (done: bool)
        ensures
            done == self.admissible(f_obj@, old(pop)@),
            done ==> self.generation_step(f_obj@, genes_of(old(pop)@), genes_of(final(pop)@)),
            done ==> uniform(final(pop)@, self.n_bits as nat),
            !done ==> *final(pop) == *old(pop),
            final(pop)@.len() == old(pop)@.len(),
    {
        if self.admits(f_obj, pop) {
            self.generation(f_obj, pop, rng);
            true
        } else {
            false
        }
    }

    /// Evolves the population by one generation: selection by the fitness
    /// `f_obj`, then crossover, then mutation, all three drawing from `rng`
    /// in this order.
    pub fn generation(&self, f_obj: &[u64], pop: &mut Vec<Chromosome>, rng: &mut StdRng)
        requires
            self.admissible(f_obj@, old(pop)@),
        ensures
            final(pop)@.len() == old(pop)@.len(),
            uniform(final(pop)@, self.n_bits as nat),
            self.generation_step(f_obj@, genes_of(old(pop)@), genes_of(final(pop)@)),
    {
        self.selection(f_obj, pop, rng);
        let ghost picked = genes_of(pop@);
        self.crossover(pop, rng);
        let ghost mixed = genes_of(pop@);
        self.mutation(pop, rng);
        proof {
            assert(selection_step(f_obj@, genes_of(old(pop)@), picked));
            assert(crossover_step(self.r_cross, self.n_bits as nat, picked, mixed));
        }
    }
}

} // verus!
