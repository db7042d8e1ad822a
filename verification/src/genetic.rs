//! The search: its parameters, the first population, the fitness of a
//! population and the rule that ends a run.
//!
//! One generation is selection, then crossover, then mutation, each drawing
//! from the same generator in that order. The value of an expression is
//! computed in floating point by the caller; the engine hands the caller the
//! expressions to evaluate and takes the values back.
use crate::chromosome::Chromosome;
use crate::expr::{Expr, ParseError, Tree};
use crate::grammar::{outcome, sentence, CalculatorParser};
use crate::rate::Rate;
use crate::templater::{parse_equation, substitute};
use rand::rngs::StdRng;
use vstd::prelude::*;

verus! {

/// The parameters of a run.
#[derive(Debug, Clone, Copy)]
pub struct Genetic {
    /// The most generations that a run evolves.
    pub n_iter: u64,
    /// The genes of a chromosome.
    pub n_bits: u64,
    /// The chromosomes of a population.
    pub n_pop: u64,
    /// The chance that a chromosome becomes a parent in crossover.
    pub r_cross: Rate,
    /// The share of all genes that mutation redraws in a generation.
    pub r_mut: Rate,
    /// The value that the equation's left side is to reach.
    pub target: i32,
}

/// Every chromosome has `n_bits` genes.
pub open spec fn uniform(pop: Seq<Chromosome>, n_bits: nat) -> bool {
    forall|i: int| 0 <= i < pop.len() ==> (#[trigger] pop[i])@.len() == n_bits
}

/// Every row of genes has `n_bits` entries.
pub open spec fn rectangular(genes: Seq<Seq<i32>>, n_bits: nat) -> bool {
    forall|i: int| 0 <= i < genes.len() ==> (#[trigger] genes[i]).len() == n_bits
}

/// A population is uniform exactly where its genes are rectangular.
pub proof fn lemma_uniform_is_rectangular(pop: Seq<Chromosome>, n_bits: nat)
    ensures
        uniform(pop, n_bits) <==> rectangular(genes_of(pop), n_bits),
{
    if uniform(pop, n_bits) {
        assert forall|i: int| 0 <= i < genes_of(pop).len() implies (#[trigger] genes_of(
            pop,
        )[i]).len() == n_bits by {
            assert(pop[i]@.len() == n_bits);
        }
    }
    if rectangular(genes_of(pop), n_bits) {
        assert forall|i: int| 0 <= i < pop.len() implies (#[trigger] pop[i])@.len() == n_bits by {
            assert(genes_of(pop)[i].len() == n_bits);
        }
    }
}

/// The genes of each chromosome of a population, in its order.
pub open spec fn genes_of(pop: Seq<Chromosome>) -> Seq<Seq<i32>> {
    Seq::new(pop.len(), |i: int| pop[i]@)
}

/// The distance between a value and the target.
pub open spec fn distance(value: int, target: int) -> nat {
    if value >= target {
        (value - target) as nat
    } else {
        (target - value) as nat
    }
}

/// Some chromosome solves the equation exactly.
pub open spec fn has_solution(f_obj: Seq<u64>) -> bool {
    exists|i: int| 0 <= i < f_obj.len() && f_obj[i] == 0
}

/// The sum of the scores.
pub open spec fn total(score: Seq<u64>) -> nat
    decreases score.len(),
{
    if score.len() == 0 {
        0
    } else {
        total(score.drop_last()) + score.last() as nat
    }
}

/// What the equation reads as under the genes of one chromosome: the tree
/// of its arithmetic text, or the reason why that text is no expression.
pub open spec fn reading(equation: Seq<char>, genes: Seq<i32>) -> Result<Tree, ParseError> {
    sentence(substitute(equation, genes))
}

/// Reading is a function of the equation and the genes alone: two readings
/// of one equation under the same genes give the same tree, or fail at the
/// same place for the same reason.
pub proof fn lemma_reading_repeats(
    equation: Seq<char>,
    genes: Seq<i32>,
    first: Result<Expr, ParseError>,
    second: Result<Expr, ParseError>,
)
    requires
        outcome(first) == reading(equation, genes),
        outcome(second) == reading(equation, genes),
    ensures
        outcome(first) == outcome(second),
        first is Ok <==> second is Ok,
        first matches Ok(a) ==> second matches Ok(b) && a@ == b@,
        first matches Err(e) ==> second == Err::<Expr, ParseError>(e),
{
}

/// The expression that the equation is for one chromosome: the equation's
/// text with the genes in place of its letters, parsed.
pub fn expression(chromosome: &Chromosome, equation: &str) -> (result: Result<Expr, ParseError>)
    ensures
        outcome(result) == reading(equation@, chromosome@),
{
    let text = parse_equation(equation, chromosome.genes.as_slice());
    CalculatorParser::parse(&text)
}

/// The expressions of a whole population, in its order. Where the text of
/// some chromosome does not parse, the error of the first such chromosome is
/// returned: the generation cannot be evaluated.
pub fn expressions(pop: &Vec<Chromosome>, equation: &str) -> (result: Result<Vec<Expr>, ParseError>)
    ensures
        match result {
            Ok(exprs) => {
                &&& exprs@.len() == pop@.len()
                &&& forall|i: int|
                    #![trigger pop@[i]]
                    #![trigger exprs@[i]]
                    0 <= i < pop@.len() ==> reading(equation@, pop@[i]@) == Ok::<Tree, ParseError>(
                        exprs@[i]@,
                    )
            },
            Err(e) => exists|i: int|
                {
                    &&& 0 <= i < pop@.len()
                    &&& reading(equation@, (#[trigger] pop@[i])@) == Err::<Tree, ParseError>(e)
                    &&& forall|j: int|
                        0 <= j < i ==> reading(equation@, (#[trigger] pop@[j])@) is Ok
                },
        },
{
    let mut exprs: Vec<Expr> = Vec::new();
    let mut i: usize = 0;
    while i < pop.len()
        invariant
            i <= pop@.len(),
            exprs@.len() == i,
            forall|j: int|
                #![trigger pop@[j]]
                #![trigger exprs@[j]]
                0 <= j < i ==> reading(equation@, pop@[j]@) == Ok::<Tree, ParseError>(exprs@[j]@),
        decreases pop@.len() - i,
    {
        match expression(&pop[i], equation) {
            Ok(expr) => {
                exprs.push(expr);
            },
            Err(e) => {
                return Err(e);
            },
        }
        i += 1;
    }
    Ok(exprs)
}

impl Genetic {
    /// The parameters of a run, as given.
    pub fn new(ni: u64, nb: u64, np: u64, rc: Rate, rm: Rate, target: i32) -> (made: Genetic)
        ensures
            made.n_iter == ni,
            made.n_bits == nb,
            made.n_pop == np,
            made.r_cross == rc,
            made.r_mut == rm,
            made.target == target,
    {
        Genetic { n_iter: ni, n_bits: nb, n_pop: np, r_cross: rc, r_mut: rm, target }
    }

    /// The population has the size and the gene count of this run.
    pub open spec fn fits(&self, pop: Seq<Chromosome>) -> bool {
        pop.len() == self.n_pop && uniform(pop, self.n_bits as nat)
    }

    /// The first population: `n_pop` chromosomes of `n_bits` genes, each
    /// gene drawn from `0..=target`.
    pub fn populate(&self, rng: &mut StdRng) -> (pop: Vec<Chromosome>)
        requires
            self.target >= 0,
        ensures
            self.fits(pop@),
            forall|i: int, j: int|
                0 <= i < pop@.len() && 0 <= j < pop@[i]@.len() ==> 0 <= #[trigger] pop@[i]@[j]
                    <= self.target,
    {
        let mut pop: Vec<Chromosome> = Vec::new();
        let mut i: u64 = 0;
        while i < self.n_pop
            invariant
                self.target >= 0,
                i <= self.n_pop,
                pop@.len() == i,
                uniform(pop@, self.n_bits as nat),
                forall|k: int, j: int|
                    0 <= k < pop@.len() && 0 <= j < pop@[k]@.len() ==> 0 <= #[trigger] pop@[k]@[j]
                        <= self.target,
            decreases self.n_pop - i,
        {
            let made = Chromosome::construct(self.n_bits, self.target, rng);
            pop.push(made);
            i += 1;
        }
        pop
    }

    /// The fitness of a chromosome whose expression has the given value: how
    /// far the value is from the target. 0 means an exact solution.
    pub fn fitness(&self, value: i32) -> (f: u64)
        ensures
            f == distance(value as int, self.target as int),
    {
        let v = value as i64;
        let t = self.target as i64;
        if v >= t {
            (v - t) as u64
        } else {
            (t - v) as u64
        }
    }

    /// The fitness of a population, from the values of its expressions: one
    /// entry for each chromosome, in the population's order.
    pub fn evaluation(&self, values: &[i32]) -> (f_obj: Vec<u64>)
        ensures
            f_obj@.len() == values@.len(),
            forall|i: int|
                0 <= i < values@.len() ==> #[trigger] f_obj@[i] == distance(
                    values@[i] as int,
                    self.target as int,
                ),
    {
        let mut f_obj: Vec<u64> = Vec::new();
        let mut i: usize = 0;
        while i < values.len()
            invariant
                i <= values@.len(),
                f_obj@.len() == i,
                forall|j: int|
                    0 <= j < i ==> #[trigger] f_obj@[j] == distance(
                        values@[j] as int,
                        self.target as int,
                    ),
            decreases values@.len() - i,
        {
            f_obj.push(self.fitness(values[i]));
            i += 1;
        }
        f_obj
    }

    /// Whether some chromosome has fitness 0.
    pub fn solved(f_obj: &[u64]) -> (yes: bool)
        ensures
            yes == has_solution(f_obj@),
    {
        let mut i: usize = 0;
        while i < f_obj.len()
            invariant
                i <= f_obj@.len(),
                forall|j: int| 0 <= j < i ==> f_obj@[j] != 0,
            decreases f_obj@.len() - i,
        {
            if f_obj[i] == 0 {
                return true;
            }
            i += 1;
        }
        false
    }

    /// A run goes on after `generation` generations, the last with the
    /// fitness `f_obj`: no chromosome solves the equation yet, and fewer than
    /// `n_iter` generations have been evolved.
    pub open spec fn goes_on(&self, generation: u64, f_obj: Seq<u64>) -> bool {
        generation < self.n_iter && !has_solution(f_obj)
    }

    /// A generation with an exact solution ends the run, whichever
    /// generation it is: the run does not go on from it.
    pub proof fn lemma_solution_ends_run(&self, generation: u64, f_obj: Seq<u64>, i: int)
        requires
            0 <= i < f_obj.len(),
            f_obj[i] == 0,
        ensures
            !self.goes_on(generation, f_obj),
    {
    }

    /// No run goes on beyond `n_iter` generations.
    pub proof fn lemma_run_is_bounded(&self, generation: u64, f_obj: Seq<u64>)
        requires
            generation >= self.n_iter,
        ensures
            !self.goes_on(generation, f_obj),
    {
    }

    /// Whether a run goes on to evolve another generation, when
    /// `generation` of them have been evolved and the last has the fitness
    /// `f_obj`. A run ends as soon as a chromosome solves the equation, and
    /// at the latest after `n_iter` generations.
    pub fn continues(&self, generation: u64, f_obj: &[u64]) -> (go: bool)
        ensures
            go == self.goes_on(generation, f_obj@),
    {
        generation < self.n_iter && !Self::solved(f_obj)
    }

    /// The point of the convergence curve for one generation: its number,
    /// and the average of its scores as an exact fraction, the sum of the
    /// scores over their count. The division is the caller's, who has the
    /// numbers to divide in.
    pub fn avg_score_coordinate(&self, iter: u64, score: &[u64]) -> (point: (u64, u128, usize))
        requires
            score@.len() > 0,
        ensures
            point.0 == iter,
            point.1 == total(score@),
            point.2 == score@.len(),
    {
        let mut sum: u128 = 0;
        let mut i: usize = 0;
        while i < score.len()
            invariant
                i <= score@.len(),
                sum == total(score@.take(i as int)),
                sum <= i * u64::MAX,
            decreases score@.len() - i,
        {
            proof {
                assert(score@.take(i + 1).drop_last() == score@.take(i as int));
                assert((i + 1) * u64::MAX == i * u64::MAX + u64::MAX) by (nonlinear_arith);
                assert(i * u64::MAX <= usize::MAX * u64::MAX) by (nonlinear_arith)
                    requires
                        i <= usize::MAX,
                ;
            }
            sum = sum + score[i] as u128;
            i += 1;
        }
        proof {
            assert(score@.take(score@.len() as int) == score@);
        }
        (iter, sum, score.len())
    }
}

} // verus!
