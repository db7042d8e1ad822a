//! A run as a state machine.
//!
//! A search holds a population and steps through the phases of a run: the
//! population waits for its fitness; the fitness arrives and the run goes on
//! or is over; where it goes on, a generation is evolved and the new
//! population waits for its fitness. The values that the fitness is made from
//! come from outside, since they are computed in floating point.
//!
//! In every state the population has `n_pop` chromosomes of `n_bits` genes;
//! once scored it has one score for each chromosome; and a scored population
//! with an exact solution, or the `n_iter`-th generation, is the last.
use crate::chromosome::{copies, Chromosome};
use crate::genetic::{distance, genes_of, Genetic};
use rand::rngs::StdRng;
use vstd::prelude::*;

verus! {

/// Where a run stands.
#[derive(Debug, Clone, Copy, PartialEq, Eq, Structural)]
pub enum Phase {
    /// The population waits for its fitness.
    Unscored,
    /// The population has its fitness, and the run goes on.
    Scored,
    /// The population has its fitness, and the run is over.
    Finished,
}

/// A run of the genetic search.
pub struct Search {
    genetic: Genetic,
    pop: Vec<Chromosome>,
    f_obj: Vec<u64>,
    generation: u64,
    phase: Phase,
}

impl Genetic {
    /// A run can be made with these parameters: genes can be drawn for the
    /// first population, and a generation can be evolved from every
    /// population of the run's size and gene count.
    pub open spec fn runnable(&self) -> bool {
        &&& self.target >= 0
        &&& (self.n_bits > 0 || self.n_pop == 0 || self.r_cross.numerator() == 0)
        &&& (self.target > 0 || self.mutation_count(self.n_pop as nat) == 0)
    }

    /// Whether a run can be made with these parameters.
    pub fn can_run(&self) -> (ok: bool)
        ensures
            ok == self.runnable(),
    {
        if self.target < 0 {
            return false;
        }
        if self.n_bits == 0 && self.n_pop > 0 && self.r_cross.numer() != 0 {
            return false;
        }
        self.target > 0 || self.count_hits(self.n_pop) == 0
    }
}

impl Search {
    #[verifier::type_invariant]
    spec fn sound(self) -> bool {
        self.holds()
    }

    /// The parameters of the run.
    pub closed spec fn config(&self) -> Genetic {
        self.genetic
    }

    /// The population.
    pub closed spec fn members(&self) -> Seq<Chromosome> {
        self.pop@
    }

    /// The fitness of the population, once it is scored.
    pub closed spec fn scores(&self) -> Seq<u64> {
        self.f_obj@
    }

    /// How many generations have been evolved.
    pub closed spec fn evolved(&self) -> u64 {
        self.generation
    }

    /// Where the run stands.
    pub closed spec fn stage(&self) -> Phase {
        self.phase
    }

    /// What holds of a run in every state.
    pub open spec fn holds(&self) -> bool {
        &&& self.config().runnable()
        &&& self.config().fits(self.members())
        &&& self.evolved() <= self.config().n_iter
        &&& (self.stage() != Phase::Unscored ==> self.scores().len() == self.members().len())
        &&& (self.stage() == Phase::Scored ==> self.config().goes_on(
            self.evolved(),
            self.scores(),
        ))
        &&& (self.stage() == Phase::Finished ==> !self.config().goes_on(
            self.evolved(),
            self.scores(),
        ))
    }

    /// A run with these parameters, where one can be made: its first
    /// population is drawn, and waits for its fitness.
    pub fn start(genetic: Genetic, rng: &mut StdRng) -> (made: Option<Search>)
        ensures
            made is Some <==> genetic.runnable(),
            made matches Some(search) ==> {
                &&& search.holds()
                &&& search.config() == genetic
                &&& search.stage() == Phase::Unscored
                &&& search.evolved() == 0
                &&& forall|i: int, j: int|
                    0 <= i < search.members().len() && 0 <= j < search.members()[i]@.len() ==> 0
                        <= #[trigger] search.members()[i]@[j] <= genetic.target
            },
    {
        if !genetic.can_run() {
            return None;
        }
        let pop = genetic.populate(rng);
        Some(Search { genetic, pop, f_obj: Vec::new(), generation: 0, phase: Phase::Unscored })
    }

    /// The parameters of the run.
    pub fn genetic(&self) -> (genetic: &Genetic)
        ensures
            *genetic == self.config(),
            self.holds(),
    {
        proof {
            use_type_invariant(self);
        }
        &self.genetic
    }

    /// The population.
    pub fn population(&self) -> (pop: &Vec<Chromosome>)
        ensures
            pop@ == self.members(),
            self.holds(),
    {
        proof {
            use_type_invariant(self);
        }
        &self.pop
    }

    /// The fitness of the population, where it is scored.
    pub fn fitness(&self) -> (f_obj: Option<&Vec<u64>>)
        ensures
            f_obj is Some <==> self.stage() != Phase::Unscored,
            f_obj matches Some(f) ==> f@ == self.scores(),
            self.holds(),
    {
        proof {
            use_type_invariant(self);
        }
        match self.phase {
            Phase::Unscored => None,
            _ => Some(&self.f_obj),
        }
    }

    /// How many generations have been evolved.
    pub fn generation(&self) -> (generation: u64)
        ensures
            generation == self.evolved(),
            self.holds(),
    {
        proof {
            use_type_invariant(self);
        }
        self.generation
    }

    /// Where the run stands.
    pub fn phase(&self) -> (phase: Phase)
        ensures
            phase == self.stage(),
            self.holds(),
    {
        proof {
            use_type_invariant(self);
        }
        self.phase
    }

    /// Takes the values of the population's expressions, one for each
    /// chromosome in the population's order, and scores the population by
    /// them. The run is over where a chromosome solves the equation or the
    /// last generation has been evolved, and goes on otherwise. Values are
    /// taken only where the population waits for them and there is one for
    /// each chromosome; the result says whether they were.
    pub fn score(&mut self, values: &[i32]) -> (taken: bool)
        ensures
            taken == (old(self).stage() == Phase::Unscored && values@.len() == old(
                self,
            ).members().len()),
            final(self).holds(),
            final(self).config() == old(self).config(),
            final(self).members() == old(self).members(),
            final(self).evolved() == old(self).evolved(),
            !taken ==> final(self).stage() == old(self).stage() && final(self).scores() == old(
                self,
            ).scores(),
            taken ==> final(self).scores().len() == values@.len(),
            taken ==> forall|i: int|
                0 <= i < values@.len() ==> #[trigger] final(self).scores()[i] == distance(
                    values@[i] as int,
                    old(self).config().target as int,
                ),
            taken ==> final(self).stage() == (if old(self).config().goes_on(
                old(self).evolved(),
                final(self).scores(),
            ) {
                Phase::Scored
            } else {
                Phase::Finished
            }),
    {
        proof {
            use_type_invariant(&*self);
        }
        if self.phase != Phase::Unscored || values.len() != self.pop.len() {
            return false;
        }
        let f_obj = self.genetic.evaluation(values);
        let phase = if self.genetic.continues(self.generation, f_obj.as_slice()) {
            Phase::Scored
        } else {
            Phase::Finished
        };
        self.f_obj = f_obj;
        self.phase = phase;
        true
    }

    /// Evolves the next generation, where the run goes on: the population
    /// is replaced by its selection, crossover and mutation, and waits for
    /// its fitness. Where the population is not scored or the run is over,
    /// nothing changes; the result says whether a generation was evolved.
    pub fn advance(&mut self, rng: &mut StdRng) -> (done: bool)
        ensures
            done == (old(self).stage() == Phase::Scored),
            final(self).holds(),
            final(self).config() == old(self).config(),
            !done ==> final(self).members() == old(self).members() && final(self).scores() == old(
                self,
            ).scores() && final(self).evolved() == old(self).evolved() && final(self).stage()
                == old(self).stage(),
            done ==> final(self).stage() == Phase::Unscored,
            done ==> final(self).evolved() == old(self).evolved() + 1,
            done ==> old(self).config().generation_step(
                old(self).scores(),
                genes_of(old(self).members()),
                genes_of(final(self).members()),
            ),
    {
        proof {
            use_type_invariant(&*self);
        }
        if self.phase != Phase::Scored {
            return false;
        }
        let mut next = copies(&self.pop);
        proof {
            assert(genes_of(next@) =~= genes_of(self.pop@));
        }
        self.genetic.generation(self.f_obj.as_slice(), &mut next, rng);
        self.pop = next;
        self.phase = Phase::Unscored;
        self.generation = self.generation + 1;
        true
    }
}

} // verus!
