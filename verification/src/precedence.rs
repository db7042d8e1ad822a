//! Which operator takes an operand that stands between two.
//!
//! In `x + y * z` the product takes `y`; in `x * y + z` and in `x - y - z`
//! the first operator does; in `x ^ y ^ z` the second. These laws state that
//! of every pair of operators and every three operands, and that a minus
//! sign before an operand is taken before any operator after it.
use crate::expr::{Op, ParseError, Tree};
use crate::grammar::{atom, climb, extend, infix_of, primary, right_binding, sentence, spaces};
use crate::rendering::{
    closes, group, lemma_extend_stops, lemma_part_stands, lemma_reads_group, op_char, well_formed,
};
use vstd::prelude::*;

verus! {

/// Of two operators around one operand the second takes it: it binds
/// tighter than the first, or as tight where the first groups from the right.
pub open spec fn second_takes(first: Op, second: Op) -> bool {
    second.spec_binding_power() > first.spec_binding_power() || (second.spec_binding_power()
        == first.spec_binding_power() && first.spec_right_associative())
}

/// `lhs first rhs`, as a tree.
pub open spec fn binary(lhs: Tree, op: Op, rhs: Tree) -> Tree {
    Tree::Binary(Box::new(lhs), op, Box::new(rhs))
}

/// The tree of `x first y second z`.
pub open spec fn chained(x: Tree, first: Op, y: Tree, second: Op, z: Tree) -> Tree {
    if second_takes(first, second) {
        binary(x, first, binary(y, second, z))
    } else {
        binary(binary(x, first, y), second, z)
    }
}

/// Three operands with an operator between each two are grouped by binding
/// power, and where the powers are equal by the direction of the first
/// operator.
pub proof fn lemma_chain_groups_by_power(x: Tree, first: Op, y: Tree, second: Op, z: Tree)
    requires
        well_formed(x),
        well_formed(y),
        well_formed(z),
    ensures
        sentence(group(x) + seq![op_char(first)] + group(y) + seq![op_char(second)] + group(z))
            == Ok::<Tree, ParseError>(chained(x, first, y, second, z)),
{
    let gx = group(x);
    let gy = group(y);
    let gz = group(z);
    let a = gx.len() as int;
    let b = gy.len() as int;
    let c = gz.len() as int;
    let s = gx + seq![op_char(first)] + gy + seq![op_char(second)] + gz;
    assert(s.subrange(0, s.len() as int) == s);
    assert(s.subrange(0, a) == gx);
    assert(s.subrange(a + 1, a + 1 + b) == gy);
    assert(s.subrange(a + b + 2, a + b + 2 + c) == gz);
    lemma_part_stands(s, 0, s, 0, gx);
    lemma_part_stands(s, 0, s, a + 1, gy);
    lemma_part_stands(s, 0, s, a + b + 2, gz);
    lemma_reads_group(s, 0, x);
    lemma_reads_group(s, a + 1, y);
    lemma_reads_group(s, a + b + 2, z);
    assert(s[a] == op_char(first));
    assert(s[a + 1 + b] == op_char(second));
    lemma_chain_at(s, 0, x, gx.len(), first, y, gy.len(), second, z, gz.len());
    assert(spaces(s, s.len() as int) == 0);
}

/// The chain law at a place in a text, for operands that are primaries.
pub proof fn lemma_chain_at(
    s: Seq<char>,
    i: int,
    x: Tree,
    a: nat,
    first: Op,
    y: Tree,
    b: nat,
    second: Op,
    z: Tree,
    c: nat,
)
    requires
        0 <= i,
        i + a + b + c + 2 <= s.len(),
        s[i] == '(',
        primary(s, i) == Ok::<(Tree, nat), ParseError>((x, a)),
        s[i + a] == op_char(first),
        s[i + a + 1] == '(',
        primary(s, i + a + 1) == Ok::<(Tree, nat), ParseError>((y, b)),
        s[i + a + 1 + b] == op_char(second),
        s[i + a + b + 2] == '(',
        primary(s, i + a + b + 2) == Ok::<(Tree, nat), ParseError>((z, c)),
        closes(s, i + a + b + c + 2),
    ensures
        climb(s, i, 0) == Ok::<(Tree, nat), ParseError>(
            (chained(x, first, y, second, z), a + b + c + 2),
        ),
{
    let j1 = i + a;
    let j2 = j1 + 1 + b;
    let e = j2 + 1 + c;
    let down1 = right_binding(first);
    let down2 = right_binding(second);
    assert(spaces(s, i) == 0);
    assert(atom(s, i) == Ok::<(Tree, nat), ParseError>((x, a)));
    assert(spaces(s, j1) == 0);
    assert(infix_of(s[j1]) == Some(first));
    assert(spaces(s, j1 + 1) == 0);
    assert(atom(s, j1 + 1) == Ok::<(Tree, nat), ParseError>((y, b)));
    assert(spaces(s, j2) == 0);
    assert(infix_of(s[j2]) == Some(second));
    assert(spaces(s, j2 + 1) == 0);
    assert(atom(s, j2 + 1) == Ok::<(Tree, nat), ParseError>((z, c)));
    lemma_extend_stops(s, z, e, down2);
    assert(climb(s, j2 + 1, down2) == Ok::<(Tree, nat), ParseError>((z, c)));
    assert(second_takes(first, second) <==> down1 < second.spec_binding_power());
    if second_takes(first, second) {
        let inner = binary(y, second, z);
        let whole = binary(x, first, inner);
        lemma_extend_stops(s, inner, e, down1);
        assert(extend(s, y, j2, down1) == Ok::<(Tree, nat), ParseError>((inner, 1 + c)));
        assert(climb(s, j1 + 1, down1) == Ok::<(Tree, nat), ParseError>((inner, b + 1 + c)));
        lemma_extend_stops(s, whole, e, 0);
        assert(extend(s, x, j1, 0) == Ok::<(Tree, nat), ParseError>((whole, 1 + b + 1 + c)));
    } else {
        let inner = binary(x, first, y);
        let whole = binary(inner, second, z);
        assert(extend(s, y, j2, down1) == Ok::<(Tree, nat), ParseError>((y, 0)));
        assert(climb(s, j1 + 1, down1) == Ok::<(Tree, nat), ParseError>((y, b)));
        lemma_extend_stops(s, whole, e, 0);
        assert(extend(s, inner, j2, 0) == Ok::<(Tree, nat), ParseError>((whole, 1 + c)));
        assert(extend(s, x, j1, 0) == Ok::<(Tree, nat), ParseError>((whole, 1 + b + 1 + c)));
    }
}

/// A minus sign before the first operand is taken before the operator
/// after it, whichever operator that is.
pub proof fn lemma_minus_binds_tightest(x: Tree, op: Op, y: Tree)
    requires
        well_formed(x),
        well_formed(y),
    ensures
        sentence(seq!['-'] + group(x) + seq![op_char(op)] + group(y)) == Ok::<Tree, ParseError>(
            binary(Tree::Negate(Box::new(x)), op, y),
        ),
{
    let gx = group(x);
    let gy = group(y);
    let a = gx.len() as int;
    let b = gy.len() as int;
    let s = seq!['-'] + gx + seq![op_char(op)] + gy;
    assert(s.subrange(0, s.len() as int) == s);
    assert(s.subrange(1, 1 + a) == gx);
    assert(s.subrange(a + 2, a + 2 + b) == gy);
    lemma_part_stands(s, 0, s, 1, gx);
    lemma_part_stands(s, 0, s, a + 2, gy);
    lemma_reads_group(s, 1, x);
    lemma_reads_group(s, a + 2, y);
    assert(s[0] == '-');
    assert(s[a + 1] == op_char(op));
    lemma_minus_at(s, 0, x, gx.len(), op, y, gy.len());
    assert(spaces(s, s.len() as int) == 0);
}

/// The law of the minus sign at a place in a text, for operands that are
/// primaries.
pub proof fn lemma_minus_at(s: Seq<char>, i: int, x: Tree, a: nat, op: Op, y: Tree, b: nat)
    requires
        0 <= i,
        i + a + b + 2 <= s.len(),
        s[i] == '-',
        primary(s, i + 1) == Ok::<(Tree, nat), ParseError>((x, a)),
        s[i + 1 + a] == op_char(op),
        s[i + a + 2] == '(',
        primary(s, i + a + 2) == Ok::<(Tree, nat), ParseError>((y, b)),
        closes(s, i + a + b + 2),
    ensures
        climb(s, i, 0) == Ok::<(Tree, nat), ParseError>(
            (binary(Tree::Negate(Box::new(x)), op, y), a + b + 2),
        ),
{
    let negated = Tree::Negate(Box::new(x));
    let whole = binary(negated, op, y);
    let down = right_binding(op);
    let j = i + 1 + a;
    let e = j + 1 + b;
    assert(spaces(s, i) == 0);
    assert(atom(s, i) == Ok::<(Tree, nat), ParseError>((negated, 1 + a)));
    assert(spaces(s, j) == 0);
    assert(infix_of(s[j]) == Some(op));
    assert(spaces(s, j + 1) == 0);
    assert(atom(s, j + 1) == Ok::<(Tree, nat), ParseError>((y, b)));
    lemma_extend_stops(s, y, e, down);
    assert(climb(s, j + 1, down) == Ok::<(Tree, nat), ParseError>((y, b)));
    lemma_extend_stops(s, whole, e, 0);
    assert(extend(s, negated, j, 0) == Ok::<(Tree, nat), ParseError>((whole, 1 + b)));
}

} // verus!
