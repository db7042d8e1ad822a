//! Crossover: the chromosomes that chance picks as parents are paired, each
//! with the next and the last with the first, and each pair gives one
//! offspring that is cut from the two.
//!
//! The offspring of the `i`-th parent is written to place `i` of the
//! population, not to the place that the parent came from. Places from the
//! number of parents on keep their chromosomes.
use crate::chromosome::Chromosome;
use crate::genetic::{genes_of, uniform, Genetic};
use crate::random::{below, chance};
use crate::rate::Rate;
use rand::rngs::StdRng;
use vstd::prelude::*;

verus! {

/// The parents among the first `n` chromosomes: those that are marked, in
/// the population's order.
pub open spec fn parents_upto(pop: Seq<Seq<i32>>, marks: Seq<bool>, n: int) -> Seq<Seq<i32>>
    decreases n,
{
    if n <= 0 {
        Seq::empty()
    } else if marks[n - 1] {
        parents_upto(pop, marks, n - 1).push(pop[n - 1])
    } else {
        parents_upto(pop, marks, n - 1)
    }
}

/// The parents of a population under the given marks.
pub open spec fn parents_of(pop: Seq<Seq<i32>>, marks: Seq<bool>) -> Seq<Seq<i32>> {
    parents_upto(pop, marks, pop.len() as int)
}

/// The place of the parent that the `i`-th of `count` parents is paired
/// with: the next one, and for the last one the first.
pub open spec fn partner(i: int, count: int) -> int {
    if i + 1 < count {
        i + 1
    } else {
        0
    }
}

/// The offspring of two parents at a cut: the genes of the first before the
/// cut, those of the second from the cut on.
pub open spec fn offspring(first: Seq<i32>, second: Seq<i32>, cut: int) -> Seq<i32> {
    first.take(cut) + second.skip(cut)
}

/// The population after crossover with the given parents and cuts.
pub open spec fn crossed(pop: Seq<Seq<i32>>, marks: Seq<bool>, cuts: Seq<usize>) -> Seq<Seq<i32>> {
    let parents = parents_of(pop, marks);
    Seq::new(
        pop.len(),
        |i: int|
            if i < parents.len() {
                offspring(parents[i], parents[partner(i, parents.len() as int)], cuts[i] as int)
            } else {
                pop[i]
            },
    )
}

/// Marks that the rate can give: none at rate 0, where no chromosome is
/// ever a parent, and all at rate 1, where every chromosome is one.
pub open spec fn marks_fit(rate: Rate, marks: Seq<bool>) -> bool {
    &&& rate.numerator() == 0 ==> forall|i: int| 0 <= i < marks.len() ==> !#[trigger] marks[i]
    &&& rate.numerator() == rate.denominator() ==> forall|i: int|
        0 <= i < marks.len() ==> #[trigger] marks[i]
}

/// The marks that make every one of `n` chromosomes a parent.
pub open spec fn all_marked(n: nat) -> Seq<bool> {
    Seq::new(n, |i: int| true)
}

/// The population `after` is a crossover of `before` at the given rate:
/// some marks that the rate can give and some cuts, each cut within a
/// chromosome, give it.
pub open spec fn crossover_step(
    rate: Rate,
    n_bits: nat,
    before: Seq<Seq<i32>>,
    after: Seq<Seq<i32>>,
) -> bool {
    exists|marks: Seq<bool>, cuts: Seq<usize>|
        {
            &&& marks.len() == before.len()
            &&& marks_fit(rate, marks)
            &&& cuts.len() == parents_of(before, marks).len()
            &&& forall|i: int| 0 <= i < cuts.len() ==> #[trigger] cuts[i] < n_bits
            &&& #[trigger] crossed(before, marks, cuts) == after
        }
}

/// The population `after` is what `before` becomes where every chromosome
/// is a parent: some cuts, one for each chromosome and each within it, give
/// it.
pub open spec fn crosses_all(n_bits: nat, before: Seq<Seq<i32>>, after: Seq<Seq<i32>>) -> bool {
    exists|cuts: Seq<usize>|
        {
            &&& cuts.len() == before.len()
            &&& forall|i: int| 0 <= i < cuts.len() ==> #[trigger] cuts[i] < n_bits
            &&& #[trigger] crossed(before, all_marked(before.len()), cuts) == after
        }
}

/// Without parents crossover changes nothing.
pub proof fn lemma_no_parents_no_change(pop: Seq<Seq<i32>>, marks: Seq<bool>, cuts: Seq<usize>)
    requires
        parents_of(pop, marks).len() == 0,
    ensures
        crossed(pop, marks, cuts) == pop,
{
    assert(crossed(pop, marks, cuts) =~= pop);
}

/// Where everything is marked every chromosome is a parent, in its place.
pub proof fn lemma_all_marks_all_parents(pop: Seq<Seq<i32>>, marks: Seq<bool>, n: int)
    requires
        0 <= n <= pop.len(),
        n <= marks.len(),
        forall|i: int| 0 <= i < n ==> marks[i],
    ensures
        parents_upto(pop, marks, n) == pop.take(n),
    decreases n,
{
    if n > 0 {
        lemma_all_marks_all_parents(pop, marks, n - 1);
        assert(pop.take(n - 1).push(pop[n - 1]) =~= pop.take(n));
    } else {
        assert(pop.take(0) =~= Seq::<Seq<i32>>::empty());
    }
}

/// At rate 0 crossover leaves the population as it is.
pub proof fn lemma_rate_zero_crosses_nothing(
    rate: Rate,
    n_bits: nat,
    before: Seq<Seq<i32>>,
    after: Seq<Seq<i32>>,
)
    requires
        rate.numerator() == 0,
        crossover_step(rate, n_bits, before, after),
    ensures
        after == before,
{
    let (marks, cuts) = choose|marks: Seq<bool>, cuts: Seq<usize>|
        {
            &&& marks.len() == before.len()
            &&& marks_fit(rate, marks)
            &&& cuts.len() == parents_of(before, marks).len()
            &&& forall|i: int| 0 <= i < cuts.len() ==> #[trigger] cuts[i] < n_bits
            &&& #[trigger] crossed(before, marks, cuts) == after
        };
    lemma_no_marks_no_parents(before, marks, before.len() as int);
    lemma_no_parents_no_change(before, marks, cuts);
}

/// At rate 1 crossover makes every chromosome a parent.
pub proof fn lemma_rate_one_crosses_all(
    rate: Rate,
    n_bits: nat,
    before: Seq<Seq<i32>>,
    after: Seq<Seq<i32>>,
)
    requires
        rate.numerator() == rate.denominator(),
        crossover_step(rate, n_bits, before, after),
    ensures
        crosses_all(n_bits, before, after),
{
    let (marks, cuts) = choose|marks: Seq<bool>, cuts: Seq<usize>|
        {
            &&& marks.len() == before.len()
            &&& marks_fit(rate, marks)
            &&& cuts.len() == parents_of(before, marks).len()
            &&& forall|i: int| 0 <= i < cuts.len() ==> #[trigger] cuts[i] < n_bits
            &&& #[trigger] crossed(before, marks, cuts) == after
        };
    lemma_all_marks_all_parents(before, marks, before.len() as int);
    assert(before.take(before.len() as int) =~= before);
    assert(marks =~= all_marked(before.len()));
    assert(crossed(before, all_marked(before.len()), cuts) == after);
}

/// The row is one of the first `n` rows of the population.
pub open spec fn is_row(pop: Seq<Seq<i32>>, n: int, row: Seq<i32>) -> bool {
    exists|i: int| 0 <= i < n && #[trigger] pop[i] == row
}

/// There are no more parents than chromosomes, and each parent is one of
/// them.
pub proof fn lemma_parents_are_members(pop: Seq<Seq<i32>>, marks: Seq<bool>, n: int)
    requires
        0 <= n <= pop.len(),
    ensures
        parents_upto(pop, marks, n).len() <= n,
        forall|k: int|
            0 <= k < parents_upto(pop, marks, n).len() ==> is_row(
                pop,
                n,
                #[trigger] parents_upto(pop, marks, n)[k],
            ),
    decreases n,
{
    if n > 0 {
        lemma_parents_are_members(pop, marks, n - 1);
        let before = parents_upto(pop, marks, n - 1);
        let now = parents_upto(pop, marks, n);
        assert forall|k: int| 0 <= k < now.len() implies is_row(pop, n, #[trigger] now[k]) by {
            if k < before.len() {
                assert(is_row(pop, n - 1, before[k]));
                let i = choose|i: int| 0 <= i < n - 1 && #[trigger] pop[i] == before[k];
                assert(now[k] == before[k]);
                assert(pop[i] == now[k]);
            } else {
                assert(pop[n - 1] == now[k]);
            }
        }
    }
}

/// Copies of the marked chromosomes, in the population's order.
pub fn parents(pop: &Vec<Chromosome>, marks: &[bool]) -> (chosen: Vec<Chromosome>)
    requires
        marks@.len() == pop@.len(),
    ensures
        genes_of(chosen@) == parents_of(genes_of(pop@), marks@),
        chosen@.len() <= pop@.len(),
{
    let mut chosen: Vec<Chromosome> = Vec::new();
    let mut i: usize = 0;
    while i < pop.len()
        invariant
            i <= pop@.len(),
            marks@.len() == pop@.len(),
            chosen@.len() <= i,
            genes_of(chosen@) == parents_upto(genes_of(pop@), marks@, i as int),
        decreases pop@.len() - i,
    {
        if marks[i] {
            let copy = pop[i].clone();
            chosen.push(copy);
        }
        i += 1;
    }
    chosen
}

/// The offspring of two parents at a cut.
pub fn cross(first: &Chromosome, second: &Chromosome, cut: usize) -> (child: Chromosome)
    requires
        cut <= first@.len(),
        cut <= second@.len(),
    ensures
        child@ == offspring(first@, second@, cut as int),
{
    let mut genes: Vec<i32> = Vec::new();
    let mut j: usize = 0;
    while j < cut
        invariant
            j <= cut <= first@.len(),
            genes@ == first@.take(j as int),
        decreases cut - j,
    {
        genes.push(first.genes[j]);
        j += 1;
    }
    while j < second.genes.len()
        invariant
            cut <= j <= second@.len(),
            cut <= first@.len(),
            genes@ == first@.take(cut as int) + second@.subrange(cut as int, j as int),
        decreases second@.len() - j,
    {
        genes.push(second.genes[j]);
        j += 1;
    }
    Chromosome { genes }
}

/// Where nothing is marked there are no parents.
pub proof fn lemma_no_marks_no_parents(pop: Seq<Seq<i32>>, marks: Seq<bool>, n: int)
    requires
        0 <= n <= marks.len(),
        forall|i: int| 0 <= i < n ==> !marks[i],
    ensures
        parents_upto(pop, marks, n).len() == 0,
    decreases n,
{
    if n > 0 {
        lemma_no_marks_no_parents(pop, marks, n - 1);
    }
}

/// Writes the offspring of the parents to the front of the population: to
/// place `i` the offspring of the `i`-th parent and its partner at the
/// `i`-th cut. The other places keep their chromosomes.
pub fn recombine(pop: &mut Vec<Chromosome>, chosen: &Vec<Chromosome>, cuts: &[usize])
    requires
        chosen@.len() <= old(pop)@.len(),
        cuts@.len() == chosen@.len(),
        forall|i: int|
            0 <= i < chosen@.len() ==> #[trigger] cuts@[i] <= chosen@[i]@.len() && cuts@[i]
                <= chosen@[partner(i, chosen@.len() as int)]@.len(),
    ensures
        final(pop)@.len() == old(pop)@.len(),
        forall|i: int|
            0 <= i < chosen@.len() ==> (#[trigger] final(pop)@[i])@ == offspring(
                chosen@[i]@,
                chosen@[partner(i, chosen@.len() as int)]@,
                cuts@[i] as int,
            ),
        forall|i: int|
            chosen@.len() <= i < final(pop)@.len() ==> #[trigger] final(pop)@[i] == old(pop)@[i],
{
    let count = chosen.len();
    let mut index: usize = 0;
    while index < count
        invariant
            index <= count,
            count == chosen@.len(),
            count <= pop@.len(),
            pop@.len() == old(pop)@.len(),
            cuts@.len() == chosen@.len(),
            forall|i: int|
                0 <= i < chosen@.len() ==> #[trigger] cuts@[i] <= chosen@[i]@.len() && cuts@[i]
                    <= chosen@[partner(i, chosen@.len() as int)]@.len(),
            forall|i: int|
                0 <= i < index ==> (#[trigger] pop@[i])@ == offspring(
                    chosen@[i]@,
                    chosen@[partner(i, chosen@.len() as int)]@,
                    cuts@[i] as int,
                ),
            forall|i: int| index <= i < pop@.len() ==> #[trigger] pop@[i] == old(pop)@[i],
        decreases count - index,
    {
        let mate = if index + 1 < count {
            index + 1
        } else {
            0
        };
        proof {
            assert(cuts@[index as int] <= chosen@[index as int]@.len());
        }
        let child = cross(&chosen[index], &chosen[mate], cuts[index]);
        pop.set(index, child);
        index += 1;
    }
}

impl Genetic {
    /// Crossover with the parents and the cuts given: the marked chromosomes
    /// are the parents, and `cuts` holds one cut for each of them.
    pub fn crossover_by(&self, pop: &mut Vec<Chromosome>, marks: &[bool], cuts: &[usize])
        requires
            uniform(old(pop)@, self.n_bits as nat),
            marks@.len() == old(pop)@.len(),
            cuts@.len() == parents_of(genes_of(old(pop)@), marks@).len(),
            forall|i: int| 0 <= i < cuts@.len() ==> #[trigger] cuts@[i] <= self.n_bits,
        ensures
            genes_of(final(pop)@) == crossed(genes_of(old(pop)@), marks@, cuts@),
            final(pop)@.len() == old(pop)@.len(),
            uniform(final(pop)@, self.n_bits as nat),
    {
        let chosen = parents(pop, marks);
        proof {
            lemma_parents_uniform(pop@, marks@, chosen@, self.n_bits as nat);
        }
        recombine(pop, &chosen, cuts);
        proof {
            let before = genes_of(old(pop)@);
            let list = parents_of(before, marks@);
            assert(list == genes_of(chosen@));
            assert forall|i: int| 0 <= i < pop@.len() implies #[trigger] genes_of(pop@)[i]
                == crossed(before, marks@, cuts@)[i] by {
                if i < chosen@.len() {
                    assert(list[i] == chosen@[i]@);
                    assert(list[partner(i, list.len() as int)] == chosen@[partner(
                        i,
                        chosen@.len() as int,
                    )]@);
                    assert(pop@[i]@ == offspring(
                        chosen@[i]@,
                        chosen@[partner(i, chosen@.len() as int)]@,
                        cuts@[i] as int,
                    ));
                } else {
                    assert(pop@[i] == old(pop)@[i]);
                }
            }
            assert(genes_of(pop@) =~= crossed(before, marks@, cuts@));
            assert forall|i: int| 0 <= i < pop@.len() implies (#[trigger] pop@[i])@.len()
                == self.n_bits by {
                if i < chosen@.len() {
                    assert(cuts@[i] <= self.n_bits);
                    assert(chosen@[i]@.len() == self.n_bits);
                    assert(chosen@[partner(i, chosen@.len() as int)]@.len() == self.n_bits);
                } else {
                    assert(pop@[i] == old(pop)@[i]);
                }
            }
        }
    }

    /// Crossover by chance: each chromosome becomes a parent with the chance
    /// `r_cross`, and each parent's cut is drawn from `0..n_bits`. The
    /// marks are drawn first, in the population's order, then the cuts.
    pub fn crossover(&self, pop: &mut Vec<Chromosome>, rng: &mut StdRng)
        requires
            uniform(old(pop)@, self.n_bits as nat),
            self.n_bits > 0 || old(pop)@.len() == 0 || self.r_cross.numerator() == 0,
        ensures
            final(pop)@.len() == old(pop)@.len(),
            uniform(final(pop)@, self.n_bits as nat),
            crossover_step(
                self.r_cross,
                self.n_bits as nat,
                genes_of(old(pop)@),
                genes_of(final(pop)@),
            ),
            self.r_cross.numerator() == 0 ==> genes_of(final(pop)@) == genes_of(old(pop)@),
            self.r_cross.numerator() == self.r_cross.denominator() ==> crosses_all(
                self.n_bits as nat,
                genes_of(old(pop)@),
                genes_of(final(pop)@),
            ),
    {
        let numer = self.r_cross.numer();
        let denom = self.r_cross.denom();
        let mut marks: Vec<bool> = Vec::new();
        let mut i: usize = 0;
        while i < pop.len()
            invariant
                i <= pop@.len(),
                marks@.len() == i,
                0 < denom,
                numer <= denom,
                numer == 0 ==> forall|j: int| 0 <= j < i ==> !marks@[j],
                numer == denom ==> forall|j: int| 0 <= j < i ==> marks@[j],
            decreases pop@.len() - i,
        {
            let hit = chance(rng, numer, denom);
            marks.push(hit);
            i += 1;
        }
        let chosen = parents(pop, marks.as_slice());
        proof {
            lemma_parents_uniform(pop@, marks@, chosen@, self.n_bits as nat);
            if numer == 0 {
                lemma_no_marks_no_parents(genes_of(pop@), marks@, pop@.len() as int);
            }
        }
        let mut cuts: Vec<usize> = Vec::new();
        if chosen.len() > 0 {
            let width = chosen[0].genes.len();
            let mut k: usize = 0;
            while k < chosen.len()
                invariant
                    k <= chosen@.len(),
                    cuts@.len() == k,
                    width == self.n_bits,
                    width > 0,
                    forall|j: int| 0 <= j < k ==> #[trigger] cuts@[j] < self.n_bits,
                decreases chosen@.len() - k,
            {
                let cut = below(rng, width as u128) as usize;
                cuts.push(cut);
                k += 1;
            }
        }
        self.crossover_by(pop, marks.as_slice(), cuts.as_slice());
        proof {
            let before = genes_of(old(pop)@);
            assert(marks_fit(self.r_cross, marks@));
            assert(crossed(before, marks@, cuts@) == genes_of(pop@));
            assert(crossover_step(self.r_cross, self.n_bits as nat, before, genes_of(pop@)));
            if self.r_cross.numerator() == 0 {
                lemma_rate_zero_crosses_nothing(
                    self.r_cross,
                    self.n_bits as nat,
                    before,
                    genes_of(pop@),
                );
            }
            if self.r_cross.numerator() == self.r_cross.denominator() {
                lemma_rate_one_crosses_all(
                    self.r_cross,
                    self.n_bits as nat,
                    before,
                    genes_of(pop@),
                );
            }
        }
    }
}

/// Parents drawn from a population of one gene count have that gene count.
proof fn lemma_parents_uniform(
    pop: Seq<Chromosome>,
    marks: Seq<bool>,
    chosen: Seq<Chromosome>,
    n_bits: nat,
)
    requires
        uniform(pop, n_bits),
        genes_of(chosen) == parents_of(genes_of(pop), marks),
    ensures
        uniform(chosen, n_bits),
        chosen.len() <= pop.len(),
{
    let all = genes_of(pop);
    lemma_parents_are_members(all, marks, pop.len() as int);
    assert forall|k: int| 0 <= k < chosen.len() implies (#[trigger] chosen[k])@.len() == n_bits by {
        let list = parents_of(all, marks);
        assert(genes_of(chosen)[k] == chosen[k]@);
        assert(is_row(all, pop.len() as int, list[k]));
        let i = choose|i: int| 0 <= i < pop.len() && #[trigger] all[i] == list[k];
        assert(all[i] == pop[i]@);
    }
    assert(genes_of(chosen).len() == chosen.len());
}

} // verus!
