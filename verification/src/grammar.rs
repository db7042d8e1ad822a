//! The arithmetic language: numbers, `+ - * / % ^`, a prefix minus and
//! parentheses, with spaces allowed between them.
//!
//! The language is given as spec functions over the characters of a text and
//! a position in it. Each reads one construct and says how many characters it
//! took, or where and why it failed. The executable parser is proved to
//! compute exactly these functions.
use crate::expr::{Expr, Op, ParseError, ParseErrorKind, Tree};
use crate::text::{characters, string_of};
use vstd::prelude::*;

verus! {

/// The decimal digits.
pub open spec fn is_digit(c: char) -> bool {
    '0' <= c && c <= '9'
}

/// The binary operator that a character writes, if it writes one.
pub open spec fn infix_of(c: char) -> Option<Op> {
    if c == '+' {
        Some(Op::Add)
    } else if c == '-' {
        Some(Op::Subtract)
    } else if c == '*' {
        Some(Op::Multiply)
    } else if c == '/' {
        Some(Op::Divide)
    } else if c == '%' {
        Some(Op::Modulo)
    } else if c == '^' {
        Some(Op::Pow)
    } else {
        None
    }
}

/// How many spaces stand at position `i` and after it, without a break.
pub open spec fn spaces(s: Seq<char>, i: int) -> nat
    decreases s.len() - i,
{
    if 0 <= i < s.len() && s[i] == ' ' {
        1 + spaces(s, i + 1)
    } else {
        0
    }
}

/// How many digits stand at position `i` and after it, without a break.
pub open spec fn digits(s: Seq<char>, i: int) -> nat
    decreases s.len() - i,
{
    if 0 <= i < s.len() && is_digit(s[i]) {
        1 + digits(s, i + 1)
    } else {
        0
    }
}

/// The error of the given kind at the given position.
pub open spec fn failure(kind: ParseErrorKind, position: int) -> ParseError {
    ParseError { kind, position: position as usize }
}

/// How much of the text is left at position `i`.
pub open spec fn remaining(s: Seq<char>, i: int) -> nat {
    if i <= s.len() {
        (s.len() - i) as nat
    } else {
        0
    }
}

/// What an operator hands down to its right operand: operators that bind
/// tighter than this join the operand. A left-associative operator hands down
/// its own power, so that an equal one to its right closes it; a
/// right-associative one hands down one less, so that an equal one nests.
pub open spec fn right_binding(op: Op) -> int {
    if op.spec_right_associative() {
        op.spec_binding_power() - 1
    } else {
        op.spec_binding_power() as int
    }
}

/// A number, or an expression in parentheses, after any spaces at `i`.
/// The result is the tree and the count of characters taken from `i` on.
pub open spec fn primary(s: Seq<char>, i: int) -> Result<(Tree, nat), ParseError>
    decreases remaining(s, i), 0nat,
{
    let w = spaces(s, i);
    let p = i + w;
    if p >= s.len() {
        Err(failure(ParseErrorKind::EmptyAtom, p))
    } else if is_digit(s[p]) {
        let d = digits(s, p);
        Ok((Tree::Number(s.subrange(p, p + d)), w + d))
    } else if s[p] == '(' {
        match climb(s, p + 1, 0) {
            Err(e) => Err(e),
            Ok((inner, n)) => {
                let v = spaces(s, p + 1 + n);
                let c = p + 1 + n + v;
                if c >= s.len() {
                    Err(failure(ParseErrorKind::UnmatchedGrouping, p))
                } else if s[c] == ')' {
                    Ok((inner, w + 1 + n + v + 1))
                } else {
                    Err(failure(ParseErrorKind::UnexpectedToken, c))
                }
            },
        }
    } else if s[p] == ')' || infix_of(s[p]) is Some {
        Err(failure(ParseErrorKind::EmptyAtom, p))
    } else {
        Err(failure(ParseErrorKind::UnexpectedToken, p))
    }
}

/// A primary, or a minus sign and a primary. The minus binds tighter than
/// every binary operator, and only one may stand before a primary.
pub open spec fn atom(s: Seq<char>, i: int) -> Result<(Tree, nat), ParseError>
    decreases remaining(s, i), 1nat,
{
    let w = spaces(s, i);
    let p = i + w;
    if p < s.len() && s[p] == '-' {
        match primary(s, p + 1) {
            Err(e) => Err(e),
            Ok((operand, n)) => Ok((Tree::Negate(Box::new(operand)), w + 1 + n)),
        }
    } else {
        primary(s, i)
    }
}

/// Extends the operand `lhs`, which ends at `j`, by the operators that
/// follow it and bind tighter than `bound`, each with its right operand.
/// The count in the result is taken from `j` on.
pub open spec fn extend(s: Seq<char>, lhs: Tree, j: int, bound: int) -> Result<
    (Tree, nat),
    ParseError,
>
    decreases remaining(s, j), 2nat,
{
    let w = spaces(s, j);
    let k = j + w;
    if 0 <= j && k < s.len() && infix_of(s[k]) is Some && bound < infix_of(
        s[k],
    )->0.spec_binding_power() {
        let op = infix_of(s[k])->0;
        match climb(s, k + 1, right_binding(op)) {
            Err(e) => Err(e),
            Ok((rhs, n)) => match extend(
                s,
                Tree::Binary(Box::new(lhs), op, Box::new(rhs)),
                k + 1 + n,
                bound,
            ) {
                Err(e) => Err(e),
                Ok((whole, m)) => Ok((whole, w + 1 + n + m)),
            },
        }
    } else {
        Ok((lhs, 0))
    }
}

/// An expression at `i` whose operators all bind tighter than `bound`: an
/// atom, extended as far as it goes. This is parsing by precedence climbing.
pub open spec fn climb(s: Seq<char>, i: int, bound: int) -> Result<(Tree, nat), ParseError>
    decreases remaining(s, i), 3nat,
{
    match atom(s, i) {
        Err(e) => Err(e),
        Ok((lhs, n)) => match extend(s, lhs, i + n, bound) {
            Err(e) => Err(e),
            Ok((whole, m)) => Ok((whole, n + m)),
        },
    }
}

/// The expression that a whole text is: one expression at any binding
/// power, then nothing but spaces.
pub open spec fn sentence(s: Seq<char>) -> Result<Tree, ParseError> {
    match climb(s, 0, 0) {
        Err(e) => Err(e),
        Ok((whole, n)) => {
            let c = n + spaces(s, n as int);
            if c >= s.len() {
                Ok(whole)
            } else if s[c as int] == ')' {
                Err(failure(ParseErrorKind::UnmatchedGrouping, c as int))
            } else {
                Err(failure(ParseErrorKind::UnexpectedToken, c as int))
            }
        },
    }
}

/// Whether the character is a decimal digit.
pub fn digit(c: char) -> (yes: bool)
    ensures
        yes == is_digit(c),
{
    '0' <= c && c <= '9'
}

/// The binary operator that the character writes, if it writes one.
pub fn infix(c: char) -> (op: Option<Op>)
    ensures
        op == infix_of(c),
{
    if c == '+' {
        Some(Op::Add)
    } else if c == '-' {
        Some(Op::Subtract)
    } else if c == '*' {
        Some(Op::Multiply)
    } else if c == '/' {
        Some(Op::Divide)
    } else if c == '%' {
        Some(Op::Modulo)
    } else if c == '^' {
        Some(Op::Pow)
    } else {
        None
    }
}

/// Steps over the spaces at `start`.
fn skip_spaces(text: &[char], start: usize) -> (end: usize)
    requires
        start <= text@.len(),
    ensures
        end == start + spaces(text@, start as int),
        end <= text@.len(),
{
    let mut pos = start;
    while pos < text.len() && text[pos] == ' '
        invariant
            start <= pos <= text@.len(),
            spaces(text@, start as int) == (pos - start) + spaces(text@, pos as int),
        decreases text@.len() - pos,
    {
        pos += 1;
    }
    pos
}

/// Steps over the digits at `start`.
fn skip_digits(text: &[char], start: usize) -> (end: usize)
    requires
        start <= text@.len(),
    ensures
        end == start + digits(text@, start as int),
        end <= text@.len(),
{
    let mut pos = start;
    while pos < text.len() && digit(text[pos])
        invariant
            start <= pos <= text@.len(),
            digits(text@, start as int) == (pos - start) + digits(text@, pos as int),
        decreases text@.len() - pos,
    {
        pos += 1;
    }
    pos
}

/// What a parser that started at `start` and stopped at the position in its
/// result has read, in the terms of the language: the tree and the count of
/// characters taken.
pub open spec fn taken(result: Result<(Expr, usize), ParseError>, start: int) -> Result<
    (Tree, nat),
    ParseError,
> {
    match result {
        Ok((expr, end)) => Ok((expr@, (end - start) as nat)),
        Err(e) => Err(e),
    }
}

/// A reading whose count is taken from `by` characters further left.
pub open spec fn shifted(reading: Result<(Tree, nat), ParseError>, by: int) -> Result<
    (Tree, nat),
    ParseError,
> {
    match reading {
        Ok((tree, n)) => Ok((tree, (by + n) as nat)),
        Err(e) => Err(e),
    }
}

/// The outcome of a parse with the expression as its tree.
pub open spec fn outcome(result: Result<Expr, ParseError>) -> Result<Tree, ParseError> {
    match result {
        Ok(expr) => Ok(expr@),
        Err(e) => Err(e),
    }
}

/// Reads a number or a parenthesized expression at `start`, and says where
/// it ends.
pub fn parse_primary(text: &[char], start: usize) -> (result: Result<(Expr, usize), ParseError>)
    ensures
        taken(result, start as int) == primary(text@, start as int),
        result matches Ok((_, end)) ==> start <= end <= text@.len(),
    decreases remaining(text@, start as int), 0nat,
{
    if start >= text.len() {
        return Err(ParseError { kind: ParseErrorKind::EmptyAtom, position: start });
    }
    let p = skip_spaces(text, start);
    if p >= text.len() {
        return Err(ParseError { kind: ParseErrorKind::EmptyAtom, position: p });
    }
    let c = text[p];
    if digit(c) {
        let end = skip_digits(text, p);
        let literal = string_of(text, p, end);
        Ok((Expr::Number(literal), end))
    } else if c == '(' {
        match parse_expr(text, p + 1, 0) {
            Err(e) => Err(e),
            Ok((inner, after)) => {
                let close = skip_spaces(text, after);
                if close >= text.len() {
                    Err(ParseError { kind: ParseErrorKind::UnmatchedGrouping, position: p })
                } else if text[close] == ')' {
                    Ok((inner, close + 1))
                } else {
                    Err(ParseError { kind: ParseErrorKind::UnexpectedToken, position: close })
                }
            },
        }
    } else if c == ')' || infix(c).is_some() {
        Err(ParseError { kind: ParseErrorKind::EmptyAtom, position: p })
    } else {
        Err(ParseError { kind: ParseErrorKind::UnexpectedToken, position: p })
    }
}

/// Reads a primary at `start`, with or without a minus sign before it.
pub fn parse_atom(text: &[char], start: usize) -> (result: Result<(Expr, usize), ParseError>)
    ensures
        taken(result, start as int) == atom(text@, start as int),
        result matches Ok((_, end)) ==> start <= end <= text@.len(),
    decreases remaining(text@, start as int), 1nat,
{
    if start >= text.len() {
        return parse_primary(text, start);
    }
    let p = skip_spaces(text, start);
    if p < text.len() && text[p] == '-' {
        match parse_primary(text, p + 1) {
            Err(e) => Err(e),
            Ok((operand, end)) => Ok((Expr::UnaryMinus(Box::new(operand)), end)),
        }
    } else {
        parse_primary(text, start)
    }
}

/// Reads at `start` the longest expression whose operators all bind tighter
/// than `bound`, by precedence climbing, and says where it ends. With
/// `bound` 0 every operator is taken.
pub fn parse_expr(text: &[char], start: usize, bound: u8) -> (result: Result<
    (Expr, usize),
    ParseError,
>)
    ensures
        taken(result, start as int) == climb(text@, start as int, bound as int),
        result matches Ok((_, end)) ==> start <= end <= text@.len(),
    decreases remaining(text@, start as int), 3nat,
{
    let (first, first_end) = match parse_atom(text, start) {
        Err(e) => {
            return Err(e);
        },
        Ok(reading) => reading,
    };
    let mut lhs = first;
    let mut pos = first_end;
    loop
        invariant
            start <= pos <= text@.len(),
            climb(text@, start as int, bound as int) == shifted(
                extend(text@, lhs@, pos as int, bound as int),
                pos - start,
            ),
        decreases text@.len() - pos,
    {
        let k = skip_spaces(text, pos);
        if k >= text.len() {
            return Ok((lhs, pos));
        }
        match infix(text[k]) {
            None => {
                return Ok((lhs, pos));
            },
            Some(op) => {
                if bound >= op.binding_power() {
                    return Ok((lhs, pos));
                }
                let next: u8 = if op.right_associative() {
                    op.binding_power() - 1
                } else {
                    op.binding_power()
                };
                match parse_expr(text, k + 1, next) {
                    Err(e) => {
                        return Err(e);
                    },
                    Ok((rhs, end)) => {
                        lhs = Expr::BinOp { lhs: Box::new(lhs), op, rhs: Box::new(rhs) };
                        pos = end;
                    },
                }
            },
        }
    }
}

/// The parser of the arithmetic language.
pub struct CalculatorParser;

impl CalculatorParser {
    /// Reads a whole text as one expression. It succeeds exactly on the
    /// texts of the language, and otherwise names the first place where the
    /// text leaves it.
    pub fn parse(input: &str) -> (result: Result<Expr, ParseError>)
        ensures
            outcome(result) == sentence(input@),
    {
        let chars = characters(input);
        let text = chars.as_slice();
        match parse_expr(text, 0, 0) {
            Err(e) => Err(e),
            Ok((whole, end)) => {
                let rest = skip_spaces(text, end);
                if rest >= text.len() {
                    Ok(whole)
                } else if text[rest] == ')' {
                    Err(ParseError { kind: ParseErrorKind::UnmatchedGrouping, position: rest })
                } else {
                    Err(ParseError { kind: ParseErrorKind::UnexpectedToken, position: rest })
                }
            },
        }
    }
}

} // verus!
