//! Candidates: one integer for each variable of the equation.
use crate::random::below;
use crate::templater::{is_letter, letter, variables, variables_from};
use crate::text::{alphabetic, characters, is_alphabetic};
use rand::rngs::StdRng;
use vstd::prelude::*;

verus! {

/// A candidate solution. Its genes are the values of the equation's
/// variables, in the order in which the variables occur.
#[derive(Debug, PartialEq, Eq)]
pub struct Chromosome {
    pub genes: Vec<i32>,
}

impl View for Chromosome {
    type V = Seq<i32>;

    open spec fn view(&self) -> Seq<i32> {
        self.genes@
    }
}

impl Clone for Chromosome {
    fn clone(&self) -> (copy: Self)
        ensures
            copy@ == self@,
    {
        Chromosome { genes: self.genes.clone() }
    }
}

/// Copies of the chromosomes, in their order.
pub fn copies(pop: &Vec<Chromosome>) -> (made: Vec<Chromosome>)
    ensures
        made@.len() == pop@.len(),
        forall|i: int| 0 <= i < pop@.len() ==> (#[trigger] made@[i])@ == pop@[i]@,
{
    let mut made: Vec<Chromosome> = Vec::new();
    let mut i: usize = 0;
    while i < pop.len()
        invariant
            i <= pop@.len(),
            made@.len() == i,
            forall|j: int| 0 <= j < i ==> (#[trigger] made@[j])@ == pop@[j]@,
        decreases pop@.len() - i,
    {
        let copy = pop[i].clone();
        made.push(copy);
        i += 1;
    }
    made
}

/// How many of the flags from position `i` on are set.
pub open spec fn marked_from(flags: Seq<bool>, i: int) -> nat
    decreases flags.len() - i,
{
    if i < 0 || i >= flags.len() {
        0
    } else if flags[i] {
        1 + marked_from(flags, i + 1)
    } else {
        marked_from(flags, i + 1)
    }
}

/// How many of the flags are set.
pub open spec fn marked(flags: Seq<bool>) -> nat {
    marked_from(flags, 0)
}

/// For each character of a text, whether it is alphabetic.
pub open spec fn alphabetic_flags(s: Seq<char>) -> Seq<bool> {
    Seq::new(s.len(), |i: int| alphabetic(s[i]))
}

/// How many of the characters are alphabetic.
pub open spec fn alphabetic_count(s: Seq<char>) -> nat {
    marked(alphabetic_flags(s))
}

/// The equation has one gene for each variable: its alphabetic characters
/// are the letters `a` to `z` and `A` to `Z`, and no letter stands behind
/// an `=`.
pub open spec fn binds_each(equation: Seq<char>) -> bool {
    &&& forall|k: int|
        0 <= k < equation.len() ==> alphabetic(#[trigger] equation[k]) == is_letter(equation[k])
    &&& forall|j: int, k: int|
        0 <= j < k < equation.len() && #[trigger] equation[j] == '=' ==> !is_letter(
            #[trigger] equation[k],
        )
}

/// The gene count of an equation is the count of its variables, one gene
/// for each value that the templater binds, where the equation's alphabetic
/// characters are the letters `a` to `z` and `A` to `Z` and none stands
/// behind an `=`.
pub proof fn lemma_gene_count_is_variable_count(equation: Seq<char>)
    requires
        binds_each(equation),
    ensures
        alphabetic_count(equation) == variables(equation),
{
    lemma_counts_agree_from(equation, 0);
}

proof fn lemma_counts_agree_from(equation: Seq<char>, i: int)
    requires
        0 <= i,
        binds_each(equation),
    ensures
        marked_from(alphabetic_flags(equation), i) == variables_from(equation, i),
    decreases equation.len() - i,
{
    if i < equation.len() {
        if equation[i] == '=' {
            lemma_no_letters_behind(equation, i, i + 1);
        } else {
            lemma_counts_agree_from(equation, i + 1);
        }
    }
}

proof fn lemma_no_letters_behind(equation: Seq<char>, at: int, i: int)
    requires
        0 <= at < i,
        at < equation.len(),
        equation[at] == '=',
        binds_each(equation),
    ensures
        marked_from(alphabetic_flags(equation), i) == 0,
    decreases equation.len() - i,
{
    if i < equation.len() {
        assert(!is_letter(equation[i]));
        lemma_no_letters_behind(equation, at, i + 1);
    }
}

/// The count of the flags that are set.
pub fn count_marked(flags: &[bool]) -> (count: u64)
    ensures
        count == marked(flags@),
{
    let mut count: u64 = 0;
    let mut i: usize = 0;
    while i < flags.len()
        invariant
            i <= flags@.len(),
            count <= i,
            count + marked_from(flags@, i as int) == marked(flags@),
        decreases flags@.len() - i,
    {
        if flags[i] {
            count += 1;
        }
        i += 1;
    }
    count
}

/// For each character of the text, in order, whether it is alphabetic.
pub fn alphabetic_marks(text: &str) -> (flags: Vec<bool>)
    ensures
        flags@ == alphabetic_flags(text@),
{
    let chars = characters(text);
    let mut flags: Vec<bool> = Vec::new();
    let mut i: usize = 0;
    while i < chars.len()
        invariant
            i <= chars@.len(),
            flags@.len() == i,
            forall|k: int| 0 <= k < i ==> flags@[k] == alphabetic(chars@[k]),
        decreases chars@.len() - i,
    {
        flags.push(is_alphabetic(chars[i]));
        i += 1;
    }
    proof {
        assert(flags@ =~= alphabetic_flags(chars@));
    }
    flags
}

/// Whether the equation has one gene for each variable. Where it has, the
/// gene count is the count of the values that the templater binds.
pub fn gene_for_each_variable(equation: &str) -> (yes: bool)
    ensures
        yes == binds_each(equation@),
        yes ==> alphabetic_count(equation@) == variables(equation@),
{
    let chars = characters(equation);
    let flags = alphabetic_marks(equation);
    let mut behind = false;
    let ghost mut at: int = 0;
    let mut i: usize = 0;
    while i < chars.len()
        invariant
            i <= chars@.len(),
            chars@ == equation@,
            flags@ == alphabetic_flags(chars@),
            forall|k: int| 0 <= k < i ==> alphabetic(#[trigger] chars@[k]) == is_letter(chars@[k]),
            forall|j: int, k: int|
                0 <= j < k < i && #[trigger] chars@[j] == '=' ==> !is_letter(#[trigger] chars@[k]),
            behind ==> 0 <= at < i && chars@[at] == '=',
            !behind ==> forall|j: int| 0 <= j < i ==> chars@[j] != '=',
        decreases chars@.len() - i,
    {
        let is_letter_here = letter(chars[i]);
        if flags[i] != is_letter_here {
            proof {
                assert(flags@[i as int] == alphabetic(chars@[i as int]));
                assert(alphabetic(chars@[i as int]) != is_letter(chars@[i as int]));
            }
            return false;
        }
        if behind && is_letter_here {
            proof {
                assert(chars@[at] == '=' && is_letter(chars@[i as int]));
            }
            return false;
        }
        if chars[i] == '=' {
            behind = true;
            proof {
                at = i as int;
            }
        }
        i += 1;
    }
    proof {
        lemma_gene_count_is_variable_count(chars@);
    }
    true
}

impl Chromosome {
    /// A candidate of `n_bits` genes, each drawn from `0..=limit`.
    pub fn construct(n_bits: u64, limit: i32, rng: &mut StdRng) -> (made: Chromosome)
        requires
            limit >= 0,
        ensures
            made@.len() == n_bits,
            forall|i: int| 0 <= i < made@.len() ==> 0 <= #[trigger] made@[i] <= limit,
    {
        let mut genes: Vec<i32> = Vec::new();
        let mut i: u64 = 0;
        while i < n_bits
            invariant
                limit >= 0,
                i <= n_bits,
                genes@.len() == i,
                forall|j: int| 0 <= j < genes@.len() ==> 0 <= #[trigger] genes@[j] <= limit,
            decreases n_bits - i,
        {
            let gene = below(rng, limit as u128 + 1) as i32;
            genes.push(gene);
            i += 1;
        }
        Chromosome { genes }
    }

    /// The number of genes that an equation asks for: one for each
    /// alphabetic character in it.
    pub fn countbits_from(equation: &str) -> (n_bits: u64)
        ensures
            n_bits == alphabetic_count(equation@),
    {
        let flags = alphabetic_marks(equation);
        count_marked(flags.as_slice())
    }
}

} // verus!
