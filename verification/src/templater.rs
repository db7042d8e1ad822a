//! From an equation with variables to an arithmetic text.
//!
//! Variables are bound by position, not by name: the first letter of the
//! equation stands for the first replacement value, the second letter for the
//! second, whatever the letters are.
use crate::text::characters;
use vstd::prelude::*;

verus! {

/// The letters that stand for variables: `a` to `z` and `A` to `Z`.
pub open spec fn is_letter(c: char) -> bool {
    ('a' <= c && c <= 'z') || ('A' <= c && c <= 'Z')
}

/// The character that writes a digit value below ten.
pub open spec fn digit_char(d: int) -> char {
    if d == 0 {
        '0'
    } else if d == 1 {
        '1'
    } else if d == 2 {
        '2'
    } else if d == 3 {
        '3'
    } else if d == 4 {
        '4'
    } else if d == 5 {
        '5'
    } else if d == 6 {
        '6'
    } else if d == 7 {
        '7'
    } else if d == 8 {
        '8'
    } else {
        '9'
    }
}

/// A natural number in decimal, without leading zeros.
pub open spec fn decimal_nat(n: nat) -> Seq<char>
    decreases n,
{
    if n < 10 {
        seq![digit_char(n as int)]
    } else {
        decimal_nat(n / 10).push(digit_char((n % 10) as int))
    }
}

/// An integer in decimal, with a minus sign before a negative one.
pub open spec fn decimal(v: int) -> Seq<char> {
    if v < 0 {
        seq!['-'] + decimal_nat((-v) as nat)
    } else {
        decimal_nat(v as nat)
    }
}

/// What stands in the output for the letter that is the `seen + 1`-th of the
/// equation: a `*` and the value bound to it, or nothing when the values have
/// run out.
pub open spec fn binding(replace: Seq<i32>, seen: nat) -> Seq<char> {
    if seen < replace.len() {
        seq!['*'] + decimal(replace[seen as int] as int)
    } else {
        Seq::empty()
    }
}

/// The output for the part of the equation from position `i` on, when
/// `seen` letters stand before `i`.
pub open spec fn substitute_from(equation: Seq<char>, replace: Seq<i32>, i: int, seen: nat) -> Seq<
    char,
>
    decreases equation.len() - i,
{
    if i < 0 || i >= equation.len() || equation[i] == '=' {
        Seq::empty()
    } else if equation[i] == ' ' {
        substitute_from(equation, replace, i + 1, seen)
    } else if is_letter(equation[i]) {
        binding(replace, seen) + substitute_from(equation, replace, i + 1, seen + 1)
    } else {
        seq![equation[i]] + substitute_from(equation, replace, i + 1, seen)
    }
}

/// How many variables the equation has from position `i` on: the letters
/// up to its first `=`.
pub open spec fn variables_from(equation: Seq<char>, i: int) -> nat
    decreases equation.len() - i,
{
    if i < 0 || i >= equation.len() || equation[i] == '=' {
        0
    } else if is_letter(equation[i]) {
        1 + variables_from(equation, i + 1)
    } else {
        variables_from(equation, i + 1)
    }
}

/// How many variables the equation has: the letters before its first `=`.
pub open spec fn variables(equation: Seq<char>) -> nat {
    variables_from(equation, 0)
}

/// The arithmetic text of an equation under the given values: the part
/// before the first `=`, without its spaces, each letter replaced by `*` and
/// the value in its turn, every other character kept.
pub open spec fn substitute(equation: Seq<char>, replace: Seq<i32>) -> Seq<char> {
    substitute_from(equation, replace, 0, 0)
}

/// The values run out before the variables do: some variable of the
/// equation has no value, and is dropped from the output with its `*`.
pub open spec fn exhausts(equation: Seq<char>, replace: Seq<i32>) -> bool {
    replace.len() < variables(equation)
}

/// Whether the character is a letter that stands for a variable.
pub fn letter(c: char) -> (yes: bool)
    ensures
        yes == is_letter(c),
{
    ('a' <= c && c <= 'z') || ('A' <= c && c <= 'Z')
}

/// The character that writes a digit value.
fn digit_of(d: u64) -> (c: char)
    requires
        d < 10,
    ensures
        c == digit_char(d as int),
{
    if d == 0 {
        '0'
    } else if d == 1 {
        '1'
    } else if d == 2 {
        '2'
    } else if d == 3 {
        '3'
    } else if d == 4 {
        '4'
    } else if d == 5 {
        '5'
    } else if d == 6 {
        '6'
    } else if d == 7 {
        '7'
    } else if d == 8 {
        '8'
    } else {
        '9'
    }
}

/// Appends a natural number in decimal.
fn push_decimal_nat(out: &mut String, n: u64)
    ensures
        final(out)@ == old(out)@ + decimal_nat(n as nat),
    decreases n,
{
    if n >= 10 {
        push_decimal_nat(out, n / 10);
    }
    out.push(digit_of(n % 10));
}

/// Appends an integer in decimal.
pub fn push_decimal(out: &mut String, v: i32)
    ensures
        final(out)@ == old(out)@ + decimal(v as int),
{
    let wide: i64 = v as i64;
    if wide < 0 {
        out.push('-');
        push_decimal_nat(out, (-wide) as u64);
    } else {
        push_decimal_nat(out, wide as u64);
    }
}

/// Writes the equation as an arithmetic text with the values of `replace`
/// in place of its letters.
pub fn parse_equation(equation: &str, replace: &[i32]) -> (text: Box<str>)
    ensures
        text@ == substitute(equation@, replace@),
{
    let chars = characters(equation);
    let mut out = String::new();
    let mut seen: usize = 0;
    let mut i: usize = 0;
    while i < chars.len() && chars[i] != '='
        invariant
            i <= chars@.len(),
            seen <= i,
            substitute(chars@, replace@) == out@ + substitute_from(
                chars@,
                replace@,
                i as int,
                seen as nat,
            ),
        decreases chars@.len() - i,
    {
        let c = chars[i];
        if c == ' ' {
        } else if letter(c) {
            if seen < replace.len() {
                out.push('*');
                push_decimal(&mut out, replace[seen]);
            }
            seen += 1;
        } else {
            out.push(c);
        }
        i += 1;
    }
    out.into_boxed_str()
}

/// The count of the equation's variables: its letters before the first `=`.
pub fn variable_count(equation: &str) -> (count: usize)
    ensures
        count == variables(equation@),
{
    let chars = characters(equation);
    let mut count: usize = 0;
    let mut i: usize = 0;
    while i < chars.len() && chars[i] != '='
        invariant
            i <= chars@.len(),
            count <= i,
            count + variables_from(chars@, i as int) == variables(chars@),
        decreases chars@.len() - i,
    {
        if letter(chars[i]) {
            count += 1;
        }
        i += 1;
    }
    count
}

/// Whether the values run out before the variables of the equation do.
pub fn is_exhausted(equation: &str, replace: &[i32]) -> (yes: bool)
    ensures
        yes == exhausts(equation@, replace@),
{
    replace.len() < variable_count(equation)
}

/// The characters that a decimal number is written with.
pub open spec fn is_decimal_char(c: char) -> bool {
    c == '-' || ('0' <= c && c <= '9')
}

/// A number in decimal is written with digits alone, after a minus sign
/// where it is negative, and has at least one digit.
pub proof fn lemma_decimal_chars(v: int)
    ensures
        decimal(v).len() >= 1,
        forall|k: int| 0 <= k < decimal(v).len() ==> is_decimal_char(#[trigger] decimal(v)[k]),
{
    if v < 0 {
        lemma_decimal_nat_chars((-v) as nat);
    } else {
        lemma_decimal_nat_chars(v as nat);
    }
}

proof fn lemma_decimal_nat_chars(n: nat)
    ensures
        decimal_nat(n).len() >= 1,
        forall|k: int|
            0 <= k < decimal_nat(n).len() ==> '0' <= #[trigger] decimal_nat(n)[k] && decimal_nat(
                n,
            )[k] <= '9',
    decreases n,
{
    if n >= 10 {
        lemma_decimal_nat_chars(n / 10);
    }
}

/// A text without variables: it holds no letter, no space and no `=`.
pub open spec fn is_plain(text: Seq<char>) -> bool {
    forall|k: int|
        0 <= k < text.len() ==> !is_letter(#[trigger] text[k]) && text[k] != ' ' && text[k] != '='
}

/// The output is a text without variables, whatever the equation and the
/// values.
pub proof fn lemma_substitute_is_plain(equation: Seq<char>, replace: Seq<i32>)
    ensures
        is_plain(substitute(equation, replace)),
{
    lemma_substitute_from_is_plain(equation, replace, 0, 0);
}

proof fn lemma_joined_is_plain(head: Seq<char>, rest: Seq<char>)
    requires
        is_plain(head),
        is_plain(rest),
    ensures
        is_plain(head + rest),
{
    assert forall|k: int| 0 <= k < (head + rest).len() implies !is_letter(
        #[trigger] (head + rest)[k],
    ) && (head + rest)[k] != ' ' && (head + rest)[k] != '=' by {
        if k < head.len() {
            assert((head + rest)[k] == head[k]);
        } else {
            assert((head + rest)[k] == rest[k - head.len()]);
        }
    }
}

proof fn lemma_binding_is_plain(replace: Seq<i32>, seen: nat)
    ensures
        is_plain(binding(replace, seen)),
{
    if seen < replace.len() {
        let number = decimal(replace[seen as int] as int);
        lemma_decimal_chars(replace[seen as int] as int);
        assert(is_plain(number)) by {
            assert forall|k: int| 0 <= k < number.len() implies !is_letter(#[trigger] number[k])
                && number[k] != ' ' && number[k] != '=' by {
                assert(is_decimal_char(number[k]));
            }
        }
        assert(is_plain(seq!['*']));
        lemma_joined_is_plain(seq!['*'], number);
    }
}

proof fn lemma_substitute_from_is_plain(
    equation: Seq<char>,
    replace: Seq<i32>,
    i: int,
    seen: nat,
)
    requires
        0 <= i,
    ensures
        is_plain(substitute_from(equation, replace, i, seen)),
    decreases equation.len() - i,
{
    if i >= equation.len() || equation[i] == '=' {
    } else if equation[i] == ' ' {
        lemma_substitute_from_is_plain(equation, replace, i + 1, seen);
    } else if is_letter(equation[i]) {
        lemma_substitute_from_is_plain(equation, replace, i + 1, seen + 1);
        lemma_binding_is_plain(replace, seen);
        lemma_joined_is_plain(
            binding(replace, seen),
            substitute_from(equation, replace, i + 1, seen + 1),
        );
    } else {
        lemma_substitute_from_is_plain(equation, replace, i + 1, seen);
        assert(is_plain(seq![equation[i]]));
        lemma_joined_is_plain(
            seq![equation[i]],
            substitute_from(equation, replace, i + 1, seen),
        );
    }
}

/// The output depends on one value for each variable and on no more:
/// values behind those are ignored.
pub proof fn lemma_substitute_takes_one_value_each(equation: Seq<char>, replace: Seq<i32>)
    requires
        replace.len() >= variables(equation),
    ensures
        substitute(equation, replace) == substitute(
            equation,
            replace.take(variables(equation) as int),
        ),
{
    lemma_substitute_from_takes_one_value_each(
        equation,
        replace,
        replace.take(variables(equation) as int),
        0,
        0,
    );
}

proof fn lemma_substitute_from_takes_one_value_each(
    equation: Seq<char>,
    replace: Seq<i32>,
    cut: Seq<i32>,
    i: int,
    seen: nat,
)
    requires
        0 <= i,
        cut.len() <= replace.len(),
        cut == replace.take(cut.len() as int),
        seen + variables_from(equation, i) <= cut.len(),
    ensures
        substitute_from(equation, replace, i, seen) == substitute_from(equation, cut, i, seen),
    decreases equation.len() - i,
{
    if i >= equation.len() || equation[i] == '=' {
    } else if equation[i] == ' ' {
        lemma_substitute_from_takes_one_value_each(equation, replace, cut, i + 1, seen);
    } else if is_letter(equation[i]) {
        lemma_substitute_from_takes_one_value_each(equation, replace, cut, i + 1, seen + 1);
        assert(cut[seen as int] == replace[seen as int]);
    } else {
        lemma_substitute_from_takes_one_value_each(equation, replace, cut, i + 1, seen);
    }
}

} // verus!
