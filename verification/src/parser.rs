//! The parser: reads a formula's text into a tree, as the grammar says.

use vstd::prelude::*;
use crate::ast::{formulas, Expr, Formula, Operator};
use crate::chars::{chars_of, scan, starts_word, text_of, CharClass};
use crate::grammar::{
    arguments_rest, exponent_len, first_excess, identifier_len, lemma_first_excess_prefix,
    mantissa_len, number_len, open_after, parse_arguments, parse_call, parse_expr, parse_factor,
    parse_term, product_rest, remaining, sign_len, spaces, sum_rest, MAX_NESTING,
};

verus! {

/// Why a text is no formula. Positions count characters from the start of
/// the text.
#[derive(Debug, PartialEq, Eq)]
pub enum SyntaxError {
    /// The parenthesis at `position` is open inside more than
    /// [`MAX_NESTING`] others.
    NestingTooDeep { position: usize },
    /// No expression starts at `position`, the first character that is not
    /// whitespace (or the end of the text).
    ExpectedExpression { position: usize },
    /// An expression was read, but the text goes on at `position` with
    /// `remainder`, which does not continue it.
    UnexpectedInput { position: usize, remainder: String },
}

/// The model of a [`SyntaxError`].
pub enum SyntaxFault {
    NestingTooDeep { position: nat },
    ExpectedExpression { position: nat },
    UnexpectedInput { position: nat, remainder: Seq<char> },
}

impl View for SyntaxError {
    type V = SyntaxFault;

    open spec fn view(&self) -> SyntaxFault {
        match self {
            SyntaxError::NestingTooDeep { position } => SyntaxFault::NestingTooDeep {
                position: *position as nat,
            },
            SyntaxError::ExpectedExpression { position } => SyntaxFault::ExpectedExpression {
                position: *position as nat,
            },
            SyntaxError::UnexpectedInput { position, remainder } => SyntaxFault::UnexpectedInput {
                position: *position as nat,
                remainder: remainder@,
            },
        }
    }
}

/// What parsing the whole text `s` gives: the tree of the expression that
/// the text is, up to whitespace around it, or the reason why it is none.
/// A text that nests parentheses too deeply is refused before it is read.
pub open spec fn parse(s: Seq<char>) -> Result<Formula, SyntaxFault> {
    match first_excess(s, s.len() as int, MAX_NESTING as nat) {
        Some(at) => Err(SyntaxFault::NestingTooDeep { position: at as nat }),
        None => parse_whole(s),
    }
}

/// What reading the whole text `s` as an expression gives.
pub open spec fn parse_whole(s: Seq<char>) -> Result<Formula, SyntaxFault> {
    match parse_expr(s, 0) {
        Some((formula, n)) => {
            let end = n + spaces(s, n as int);
            if end >= s.len() {
                Ok(formula)
            } else {
                Err(
                    SyntaxFault::UnexpectedInput {
                        position: end,
                        remainder: s.subrange(end as int, s.len() as int),
                    },
                )
            }
        },
        None => Err(SyntaxFault::ExpectedExpression { position: spaces(s, 0) }),
    }
}

/// The model of what [`parse_formula`] returns.
pub open spec fn parsed_view(r: Result<Expr, SyntaxError>) -> Result<Formula, SyntaxFault> {
    match r {
        Ok(expr) => Ok(expr@),
        Err(error) => Err(error@),
    }
}

/// Whether `r`, read from position `start`, is what the grammar gives.
pub open spec fn agrees(r: Option<(Expr, usize)>, start: int, expected: Option<(Formula, nat)>)
    -> bool {
    match (r, expected) {
        (Some((expr, end)), Some((formula, n))) => expr@ == formula && end == start + n,
        (None, None) => true,
        _ => false,
    }
}

/// The position after the identifier that starts at `at`; `at` itself if
/// none does.
pub fn identifier_end(chars: &Vec<char>, at: usize) -> (end: usize)
    requires
        at <= chars.len(),
    ensures
        end == at + identifier_len(chars@, at as int),
        end <= chars.len(),
{
    if at < chars.len() && starts_word(chars[at]) {
        scan(chars, at + 1, CharClass::Word)
    } else {
        at
    }
}

/// The position after the sign at `at`, if one stands there.
fn sign_end(chars: &Vec<char>, at: usize) -> (end: usize)
    requires
        at <= chars.len(),
    ensures
        end == at + sign_len(chars@, at as int),
        end <= chars.len(),
{
    if at < chars.len() && (chars[at] == '+' || chars[at] == '-') {
        at + 1
    } else {
        at
    }
}

/// The position after the digits and the point of a number that start at
/// `at`; `at` itself if none do.
fn mantissa_end(chars: &Vec<char>, at: usize) -> (end: usize)
    requires
        at <= chars.len(),
    ensures
        end == at + mantissa_len(chars@, at as int),
        end <= chars.len(),
{
    let whole = scan(chars, at, CharClass::Digit);
    if whole > at {
        if whole < chars.len() && chars[whole] == '.' {
            scan(chars, whole + 1, CharClass::Digit)
        } else {
            whole
        }
    } else if at < chars.len() && chars[at] == '.' {
        let fraction = scan(chars, at + 1, CharClass::Digit);
        if fraction > at + 1 {
            fraction
        } else {
            at
        }
    } else {
        at
    }
}

/// The position after the exponent that starts at `at`; `at` itself if none
/// does.
fn exponent_end(chars: &Vec<char>, at: usize) -> (end: usize)
    requires
        at <= chars.len(),
    ensures
        end == at + exponent_len(chars@, at as int),
        end <= chars.len(),
{
    if at < chars.len() && (chars[at] == 'e' || chars[at] == 'E') {
        let signed = sign_end(chars, at + 1);
        let digits = scan(chars, signed, CharClass::Digit);
        if digits > signed {
            digits
        } else {
            at
        }
    } else {
        at
    }
}

/// The position after the number that starts at `at`; `at` itself if none
/// does.
pub fn number_end(chars: &Vec<char>, at: usize) -> (end: usize)
    requires
        at <= chars.len(),
    ensures
        end == at + number_len(chars@, at as int),
        end <= chars.len(),
{
    let signed = sign_end(chars, at);
    let mantissa = mantissa_end(chars, signed);
    if mantissa > signed {
        exponent_end(chars, mantissa)
    } else {
        at
    }
}

/// Reads an `expr` at `start`.
fn expr_at(chars: &Vec<char>, start: usize) -> (r: Option<(Expr, usize)>)
    requires
        start <= chars.len(),
    ensures
        agrees(r, start as int, parse_expr(chars@, start as int)),
        r matches Some((_, end)) ==> end <= chars.len(),
    decreases remaining(chars@, start as int), 3nat,
{
    proof {
        reveal(parse_expr);
        reveal(sum_rest);
        reveal(parse_term);
    }
    let (first, first_end) = match term_at(chars, start) {
        Some(read) => read,
        None => {
            return None;
        },
    };
    let ghost whole = parse_expr(chars@, start as int).unwrap();
    let mut left = first;
    let mut at: usize = first_end;
    loop
        invariant
            start <= at <= chars.len(),
            whole.0 == sum_rest(chars@, at as int, left@).0,
            whole.1 == (at - start) + sum_rest(chars@, at as int, left@).1,
        ensures
            start <= at <= chars.len(),
            whole == (left@, (at - start) as nat),
        decreases chars.len() - at,
    {
        proof {
            reveal(sum_rest);
            reveal(parse_term);
        }
        let sign = scan(chars, at, CharClass::Space);
        if sign >= chars.len() {
            break ;
        }
        let op = match chars[sign] {
            '+' => Operator::Add,
            '-' => Operator::Sub,
            _ => {
                break ;
            },
        };
        match term_at(chars, sign + 1) {
            Some((right, end)) => {
                left = Expr::BinaryOp { op, left: Box::new(left), right: Box::new(right) };
                at = end;
            },
            None => {
                break ;
            },
        }
    }
    Some((left, at))
}

/// Reads a `term` at `start`.
fn term_at(chars: &Vec<char>, start: usize) -> (r: Option<(Expr, usize)>)
    requires
        start <= chars.len(),
    ensures
        agrees(r, start as int, parse_term(chars@, start as int)),
        r matches Some((_, end)) ==> end <= chars.len(),
    decreases remaining(chars@, start as int), 2nat,
{
    proof {
        reveal(parse_term);
        reveal(product_rest);
        reveal(parse_factor);
    }
    let (first, first_end) = match factor_at(chars, start) {
        Some(read) => read,
        None => {
            return None;
        },
    };
    let ghost whole = parse_term(chars@, start as int).unwrap();
    let mut left = first;
    let mut at: usize = first_end;
    loop
        invariant
            start <= at <= chars.len(),
            whole.0 == product_rest(chars@, at as int, left@).0,
            whole.1 == (at - start) + product_rest(chars@, at as int, left@).1,
        ensures
            start <= at <= chars.len(),
            whole == (left@, (at - start) as nat),
        decreases chars.len() - at,
    {
        proof {
            reveal(product_rest);
            reveal(parse_factor);
        }
        let sign = scan(chars, at, CharClass::Space);
        if sign >= chars.len() {
            break ;
        }
        let op = match chars[sign] {
            '*' => Operator::Mul,
            '/' => Operator::Div,
            _ => {
                break ;
            },
        };
        match factor_at(chars, sign + 1) {
            Some((right, end)) => {
                left = Expr::BinaryOp { op, left: Box::new(left), right: Box::new(right) };
                at = end;
            },
            None => {
                break ;
            },
        }
    }
    Some((left, at))
}

/// Reads a `factor` at `start`.
fn factor_at(chars: &Vec<char>, start: usize) -> (r: Option<(Expr, usize)>)
    requires
        start <= chars.len(),
    ensures
        agrees(r, start as int, parse_factor(chars@, start as int)),
        r matches Some((_, end)) ==> end <= chars.len(),
    decreases remaining(chars@, start as int), 1nat,
{
    proof {
        reveal(parse_factor);
        reveal(parse_call);
        reveal(parse_expr);
    }
    let at = scan(chars, start, CharClass::Space);
    let number = number_end(chars, at);
    if number > at {
        return Some((Expr::Literal(text_of(chars, at, number)), number));
    }
    let name_end = identifier_end(chars, at);
    if name_end > at {
        let name = text_of(chars, at, name_end);
        match call_at(chars, name_end) {
            Some((args, end)) => Some((Expr::FunctionCall(name, args), end)),
            None => Some((Expr::Identifier(name), name_end)),
        }
    } else if at < chars.len() && chars[at] == '(' {
        match expr_at(chars, at + 1) {
            Some((inner, end)) => {
                let close = scan(chars, end, CharClass::Space);
                if close < chars.len() && chars[close] == ')' {
                    Some((inner, close + 1))
                } else {
                    None
                }
            },
            None => None,
        }
    } else {
        None
    }
}

/// Reads the parenthesised arguments of a call at `start`, the position
/// after the function's name.
fn call_at(chars: &Vec<char>, start: usize) -> (r: Option<(Vec<Expr>, usize)>)
    requires
        start <= chars.len(),
    ensures
        match (r, parse_call(chars@, start as int)) {
            (Some((args, end)), Some((expected, n))) => formulas(args@) == expected && end == start
                + n && end <= chars.len(),
            (None, None) => true,
            _ => false,
        },
    decreases remaining(chars@, start as int), 0nat,
{
    proof {
        reveal(parse_call);
        reveal(parse_arguments);
    }
    let open = scan(chars, start, CharClass::Space);
    if open >= chars.len() || chars[open] != '(' {
        return None;
    }
    let (args, end) = arguments_at(chars, open + 1);
    let close = scan(chars, end, CharClass::Space);
    if close < chars.len() && chars[close] == ')' {
        Some((args, close + 1))
    } else {
        None
    }
}

/// Reads the arguments of a call at `start`, the position after `(`.
fn arguments_at(chars: &Vec<char>, start: usize) -> (r: (Vec<Expr>, usize))
    requires
        start <= chars.len(),
    ensures
        formulas(r.0@) == parse_arguments(chars@, start as int).0,
        r.1 == start + parse_arguments(chars@, start as int).1,
        r.1 <= chars.len(),
    decreases remaining(chars@, start as int), 4nat,
{
    proof {
        reveal(parse_arguments);
        reveal(arguments_rest);
        reveal(parse_expr);
    }
    let mut args: Vec<Expr> = Vec::new();
    let (first, first_end) = match expr_at(chars, start) {
        Some(read) => read,
        None => {
            assert(formulas(args@) =~= Seq::<Formula>::empty());
            return (args, start);
        },
    };
    let ghost whole = parse_arguments(chars@, start as int);
    args.push(first);
    assert(formulas(args@) =~= seq![first@]);
    let mut at: usize = first_end;
    loop
        invariant
            start <= at <= chars.len(),
            whole.0 == formulas(args@) + arguments_rest(chars@, at as int).0,
            whole.1 == (at - start) + arguments_rest(chars@, at as int).1,
        ensures
            start <= at <= chars.len(),
            whole == (formulas(args@), (at - start) as nat),
        decreases chars.len() - at,
    {
        proof {
            reveal(arguments_rest);
            reveal(parse_expr);
        }
        let comma = scan(chars, at, CharClass::Space);
        if comma >= chars.len() || chars[comma] != ',' {
            assert(formulas(args@) + Seq::<Formula>::empty() =~= formulas(args@));
            break ;
        }
        match expr_at(chars, comma + 1) {
            Some((next, end)) => {
                let ghost before = args@;
                args.push(next);
                assert(formulas(args@) =~= formulas(before).push(next@));
                assert(formulas(before) + (seq![next@] + arguments_rest(chars@, end as int).0)
                    =~= formulas(args@) + arguments_rest(chars@, end as int).0);
                at = end;
            },
            None => {
                assert(formulas(args@) + Seq::<Formula>::empty() =~= formulas(args@));
                break ;
            },
        }
    }
    (args, at)
}

/// The position of the first character of `chars` that opens more than
/// `limit` parentheses at once, if one does.
pub fn find_excess(chars: &Vec<char>, limit: usize) -> (r: Option<usize>)
    ensures
        match r {
            Some(at) => first_excess(chars@, chars.len() as int, limit as nat) == Some(at as int),
            None => first_excess(chars@, chars.len() as int, limit as nat) is None,
        },
{
    let mut open: usize = 0;
    let mut at: usize = 0;
    while at < chars.len()
        invariant
            at <= chars.len(),
            open == open_after(chars@, at as int),
            open <= limit,
            first_excess(chars@, at as int, limit as nat) is None,
        decreases chars.len() - at,
    {
        let c = chars[at];
        if c == '(' {
            if open == limit {
                proof {
                    lemma_first_excess_prefix(
                        chars@,
                        at + 1,
                        chars.len() as int,
                        limit as nat,
                    );
                }
                return Some(at);
            }
            open += 1;
        } else if c == ')' && open > 0 {
            open -= 1;
        }
        at += 1;
    }
    None
}

/// Parses `input` as one formula. The whole text must be the expression,
/// with any whitespace around it.
pub fn parse_formula(input: &str) -> (r: Result<Expr, SyntaxError>)
    ensures
        parsed_view(r) == parse(input@),
{
    let chars = chars_of(input);
    if let Some(position) = find_excess(&chars, MAX_NESTING) {
        return Err(SyntaxError::NestingTooDeep { position });
    }
    match expr_at(&chars, 0) {
        Some((expr, read)) => {
            let end = scan(&chars, read, CharClass::Space);
            if end >= chars.len() {
                Ok(expr)
            } else {
                Err(
                    SyntaxError::UnexpectedInput {
                        position: end,
                        remainder: text_of(&chars, end, chars.len()),
                    },
                )
            }
        },
        None => Err(
            SyntaxError::ExpectedExpression { position: scan(&chars, 0, CharClass::Space) },
        ),
    }
}

} // verus!
