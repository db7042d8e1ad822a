//! Writing an expression out, and reading it back.
//!
//! Every tree whose numbers are digit strings has a text: each operand of
//! a binary operator, and that of a minus sign, in parentheses of its own.
//! The language reads that text as the same tree. So the parser reaches
//! every expression, and writing followed by reading changes nothing.
use crate::expr::{Op, ParseError, Tree};
use crate::grammar::{
    atom, climb, digits, extend, infix_of, is_digit, primary, remaining, right_binding, sentence,
    spaces,
};
use vstd::prelude::*;

verus! {

/// The character that writes a binary operator.
pub open spec fn op_char(op: Op) -> char {
    match op {
        Op::Add => '+',
        Op::Subtract => '-',
        Op::Multiply => '*',
        Op::Divide => '/',
        Op::Modulo => '%',
        Op::Pow => '^',
    }
}

/// A literal of the language: one digit or more, and digits only.
pub open spec fn is_number(text: Seq<char>) -> bool {
    text.len() > 0 && forall|k: int| 0 <= k < text.len() ==> is_digit(#[trigger] text[k])
}

/// Every number of the tree is a literal of the language.
pub open spec fn well_formed(tree: Tree) -> bool
    decreases tree,
{
    match tree {
        Tree::Number(text) => is_number(text),
        Tree::Negate(operand) => well_formed(*operand),
        Tree::Binary(lhs, _, rhs) => well_formed(*lhs) && well_formed(*rhs),
    }
}

/// The text of a tree, with every operand in parentheses.
pub open spec fn render(tree: Tree) -> Seq<char>
    decreases tree,
{
    match tree {
        Tree::Number(text) => text,
        Tree::Negate(operand) => seq!['-', '('] + render(*operand) + seq![')'],
        Tree::Binary(lhs, op, rhs) => seq!['('] + render(*lhs) + seq![')', op_char(op), '(']
            + render(*rhs) + seq![')'],
    }
}

/// The text of a tree as an operand: in parentheses.
pub open spec fn group(tree: Tree) -> Seq<char> {
    seq!['('] + render(tree) + seq![')']
}

/// The text `part` stands in `s` at position `i`.
pub open spec fn stands_at(s: Seq<char>, i: int, part: Seq<char>) -> bool {
    0 <= i && i + part.len() <= s.len() && s.subrange(i, i + part.len()) == part
}

/// Nothing that could go on an expression stands at `j`: the text ends
/// there, or a `)` stands there.
pub open spec fn closes(s: Seq<char>, j: int) -> bool {
    j >= s.len() || (0 <= j && s[j] == ')')
}

/// Reading a text that was written from a tree gives the tree back.
pub proof fn lemma_reads_what_was_written(tree: Tree)
    requires
        well_formed(tree),
    ensures
        sentence(render(tree)) == Ok::<Tree, ParseError>(tree),
{
    let s = render(tree);
    assert(s.subrange(0, s.len() as int) == s);
    lemma_reads_expression(s, 0, tree);
    assert(spaces(s, s.len() as int) == 0);
}

/// A run of digits that is closed is counted whole.
proof fn lemma_digit_run(s: Seq<char>, i: int, n: int)
    requires
        0 <= i,
        0 <= n,
        i + n <= s.len(),
        forall|k: int| i <= k < i + n ==> is_digit(#[trigger] s[k]),
        closes(s, i + n),
    ensures
        digits(s, i) == n,
    decreases n,
{
    if n > 0 {
        lemma_digit_run(s, i + 1, n - 1);
    }
}

/// Where an expression is closed, nothing extends it.
pub proof fn lemma_extend_stops(s: Seq<char>, lhs: Tree, j: int, bound: int)
    requires
        0 <= j,
        closes(s, j),
    ensures
        extend(s, lhs, j, bound) == Ok::<(Tree, nat), ParseError>((lhs, 0)),
{
    assert(spaces(s, j) == 0);
}

/// A part of a text that stands somewhere stands there at its own place.
pub proof fn lemma_part_stands(s: Seq<char>, i: int, whole: Seq<char>, from: int, part: Seq<char>)
    requires
        stands_at(s, i, whole),
        0 <= from,
        from + part.len() <= whole.len(),
        whole.subrange(from, from + part.len()) == part,
    ensures
        stands_at(s, i + from, part),
{
    let found = s.subrange(i + from, i + from + part.len());
    assert forall|k: int| 0 <= k < part.len() implies found[k] == part[k] by {
        assert(s.subrange(i, i + whole.len())[from + k] == s[i + from + k]);
        assert(whole.subrange(from, from + part.len())[k] == whole[from + k]);
    }
    assert(found =~= part);
}

/// A character of a text that stands somewhere stands at its own place.
pub proof fn lemma_char_stands(s: Seq<char>, i: int, whole: Seq<char>, k: int)
    requires
        stands_at(s, i, whole),
        0 <= k < whole.len(),
    ensures
        s[i + k] == whole[k],
{
    assert(s.subrange(i, i + whole.len())[k] == s[i + k]);
}

/// A closed number is read as itself.
proof fn lemma_climbs_number(s: Seq<char>, i: int, literal: Seq<char>)
    requires
        is_number(literal),
        stands_at(s, i, literal),
        closes(s, i + literal.len()),
    ensures
        climb(s, i, 0) == Ok::<(Tree, nat), ParseError>((Tree::Number(literal), literal.len())),
{
    let n = literal.len() as int;
    assert forall|k: int| i <= k < i + n implies is_digit(#[trigger] s[k]) by {
        lemma_char_stands(s, i, literal, k - i);
    }
    lemma_digit_run(s, i, n);
    assert(is_digit(s[i]));
    assert(spaces(s, i) == 0);
    assert(primary(s, i) == Ok::<(Tree, nat), ParseError>((Tree::Number(literal), n as nat)));
    assert(atom(s, i) == Ok::<(Tree, nat), ParseError>((Tree::Number(literal), n as nat)));
    lemma_extend_stops(s, Tree::Number(literal), i + n, 0);
}

/// A minus sign before a primary that is closed is read as its negation.
proof fn lemma_climbs_negation(s: Seq<char>, i: int, operand: Tree, m: nat)
    requires
        0 <= i < s.len(),
        s[i] == '-',
        primary(s, i + 1) == Ok::<(Tree, nat), ParseError>((operand, m)),
        closes(s, i + 1 + m),
    ensures
        climb(s, i, 0) == Ok::<(Tree, nat), ParseError>(
            (Tree::Negate(Box::new(operand)), 1 + m),
        ),
{
    let whole = Tree::Negate(Box::new(operand));
    assert(spaces(s, i) == 0);
    assert(atom(s, i) == Ok::<(Tree, nat), ParseError>((whole, 1 + m)));
    lemma_extend_stops(s, whole, i + 1 + m, 0);
}

/// Two primaries in parentheses with an operator between them, closed, are
/// read as the operator applied to the two.
proof fn lemma_climbs_binary(s: Seq<char>, i: int, lhs: Tree, a: nat, op: Op, rhs: Tree, b: nat)
    requires
        0 <= i < s.len(),
        s[i] == '(',
        primary(s, i) == Ok::<(Tree, nat), ParseError>((lhs, a)),
        i + a + 1 < s.len(),
        s[i + a] == op_char(op),
        s[i + a + 1] == '(',
        primary(s, i + a + 1) == Ok::<(Tree, nat), ParseError>((rhs, b)),
        closes(s, i + a + 1 + b),
    ensures
        climb(s, i, 0) == Ok::<(Tree, nat), ParseError>(
            (Tree::Binary(Box::new(lhs), op, Box::new(rhs)), a + 1 + b),
        ),
{
    let whole = Tree::Binary(Box::new(lhs), op, Box::new(rhs));
    let j = i + a;
    let e = j + 1 + b;
    let down = right_binding(op);
    assert(spaces(s, i) == 0);
    assert(atom(s, i) == Ok::<(Tree, nat), ParseError>((lhs, a)));
    assert(spaces(s, j) == 0);
    assert(infix_of(s[j]) == Some(op));
    assert(spaces(s, j + 1) == 0);
    assert(atom(s, j + 1) == Ok::<(Tree, nat), ParseError>((rhs, b)));
    lemma_extend_stops(s, rhs, e, down);
    assert(climb(s, j + 1, down) == Ok::<(Tree, nat), ParseError>((rhs, b)));
    lemma_extend_stops(s, whole, e, 0);
    assert(extend(s, lhs, j, 0) == Ok::<(Tree, nat), ParseError>((whole, 1 + b)));
}

/// A written tree that is closed is read whole as an expression.
pub proof fn lemma_reads_expression(s: Seq<char>, i: int, tree: Tree)
    requires
        well_formed(tree),
        stands_at(s, i, render(tree)),
        closes(s, i + render(tree).len()),
    ensures
        climb(s, i, 0) == Ok::<(Tree, nat), ParseError>((tree, render(tree).len())),
    decreases tree, 0nat,
{
    let text = render(tree);
    match tree {
        Tree::Number(literal) => {
            lemma_climbs_number(s, i, literal);
        },
        Tree::Negate(operand) => {
            let inner = render(*operand);
            let whole = group(*operand);
            assert(text.subrange(1, 1 + whole.len() as int) == whole);
            lemma_part_stands(s, i, text, 1, whole);
            lemma_char_stands(s, i, text, 0);
            lemma_reads_group(s, i + 1, *operand);
            lemma_climbs_negation(s, i, *operand, inner.len() + 2);
        },
        Tree::Binary(lhs, op, rhs) => {
            let left = render(*lhs);
            let right = render(*rhs);
            let a = left.len() as int;
            let first = group(*lhs);
            let second = group(*rhs);
            assert(text.subrange(0, first.len() as int) == first);
            assert(text.subrange(a + 3, a + 3 + second.len() as int) == second);
            lemma_part_stands(s, i, text, 0, first);
            lemma_part_stands(s, i, text, a + 3, second);
            lemma_char_stands(s, i, text, 0);
            lemma_char_stands(s, i, text, a + 2);
            lemma_char_stands(s, i, text, a + 3);
            lemma_reads_group(s, i, *lhs);
            lemma_reads_group(s, i + a + 3, *rhs);
            lemma_climbs_binary(s, i, *lhs, left.len() + 2, op, *rhs, right.len() + 2);
        },
    }
}

/// A written tree in parentheses is read whole as a primary.
pub proof fn lemma_reads_group(s: Seq<char>, i: int, tree: Tree)
    requires
        well_formed(tree),
        stands_at(s, i, group(tree)),
    ensures
        primary(s, i) == Ok::<(Tree, nat), ParseError>((tree, group(tree).len())),
        group(tree).len() == render(tree).len() + 2,
        s[i] == '(',
    decreases tree, 1nat,
{
    let inner = render(tree);
    let m = inner.len() as int;
    let whole = group(tree);
    assert(whole.subrange(1, 1 + m) == inner);
    lemma_part_stands(s, i, whole, 1, inner);
    lemma_char_stands(s, i, whole, 0);
    lemma_char_stands(s, i, whole, m + 1);
    lemma_reads_expression(s, i + 1, tree);
    assert(spaces(s, i) == 0);
    assert(spaces(s, i + 1 + m) == 0);
}

/// Every tree that is read from a text has literals for its numbers.
pub proof fn lemma_read_tree_is_well_formed(s: Seq<char>)
    ensures
        sentence(s) matches Ok(tree) ==> well_formed(tree),
{
    lemma_climb_is_well_formed(s, 0, 0);
}

/// The digits counted at a position are digits, and lie within the text.
proof fn lemma_digits_are_digits(s: Seq<char>, i: int)
    requires
        0 <= i,
    ensures
        i + digits(s, i) <= s.len() || digits(s, i) == 0,
        forall|k: int| i <= k < i + digits(s, i) ==> is_digit(#[trigger] s[k]),
    decreases s.len() - i,
{
    if i < s.len() && is_digit(s[i]) {
        lemma_digits_are_digits(s, i + 1);
    }
}

proof fn lemma_primary_is_well_formed(s: Seq<char>, i: int)
    requires
        0 <= i,
    ensures
        primary(s, i) matches Ok(read) ==> well_formed(read.0),
    decreases remaining(s, i), 0nat,
{
    let p = i + spaces(s, i);
    if p < s.len() {
        if is_digit(s[p]) {
            let d = digits(s, p);
            lemma_digits_are_digits(s, p);
            let literal = s.subrange(p, p + d);
            assert forall|k: int| 0 <= k < literal.len() implies is_digit(#[trigger] literal[k]) by {
                assert(literal[k] == s[p + k]);
            }
        } else if s[p] == '(' {
            lemma_climb_is_well_formed(s, p + 1, 0);
        }
    }
}

proof fn lemma_atom_is_well_formed(s: Seq<char>, i: int)
    requires
        0 <= i,
    ensures
        atom(s, i) matches Ok(read) ==> well_formed(read.0),
    decreases remaining(s, i), 1nat,
{
    let p = i + spaces(s, i);
    if p < s.len() && s[p] == '-' {
        lemma_primary_is_well_formed(s, p + 1);
    } else {
        lemma_primary_is_well_formed(s, i);
    }
}

proof fn lemma_extend_is_well_formed(s: Seq<char>, lhs: Tree, j: int, bound: int)
    requires
        0 <= j,
        well_formed(lhs),
    ensures
        extend(s, lhs, j, bound) matches Ok(read) ==> well_formed(read.0),
    decreases remaining(s, j), 2nat,
{
    let k = j + spaces(s, j);
    if k < s.len() && infix_of(s[k]) is Some && bound < infix_of(s[k])->0.spec_binding_power() {
        let op = infix_of(s[k])->0;
        lemma_climb_is_well_formed(s, k + 1, right_binding(op));
        match climb(s, k + 1, right_binding(op)) {
            Ok((rhs, n)) => {
                lemma_extend_is_well_formed(
                    s,
                    Tree::Binary(Box::new(lhs), op, Box::new(rhs)),
                    k + 1 + n,
                    bound,
                );
            },
            Err(_) => {},
        }
    }
}

proof fn lemma_climb_is_well_formed(s: Seq<char>, i: int, bound: int)
    requires
        0 <= i,
    ensures
        climb(s, i, bound) matches Ok(read) ==> well_formed(read.0),
    decreases remaining(s, i), 3nat,
{
    lemma_atom_is_well_formed(s, i);
    match atom(s, i) {
        Ok((lhs, n)) => {
            lemma_extend_is_well_formed(s, lhs, i + n, bound);
        },
        Err(_) => {},
    }
}

} // verus!
