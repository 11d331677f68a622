//! The grammar of formulas, as functions on sequences of characters.
//!
//! ```text
//! expr       := term ( ("+" | "-") term )*
//! term       := factor ( ("*" | "/") factor )*
//! factor     := number | call | identifier | "(" expr ")"
//! call       := identifier "(" ( expr ("," expr)* )? ")"
//! identifier := (letter | "_") (letter | digit | "_")*
//! number     := sign? ( digit+ ("." digit*)? | "." digit+ ) ( ("e" | "E") sign? digit+ )?
//! ```
//!
//! Whitespace may stand before every token and means nothing. Each function
//! reads at a position of the text and tells how many characters it took, so
//! the next position is never before the one it started at. Choices are
//! ordered: a number before a call, a call before an identifier, an
//! identifier before a parenthesis; a repetition takes as much as it can.

use vstd::prelude::*;
use crate::ast::{Formula, Operator};
use crate::chars::{is_sign, is_word_start, run, CharClass};

verus! {

/// What is left of `s` from position `i` on; 0 past the end.
pub open spec fn remaining(s: Seq<char>, i: int) -> nat {
    if i < s.len() {
        (s.len() - i) as nat
    } else {
        0
    }
}

/// Whether `c` stands at position `i` of `s`.
pub open spec fn char_at(s: Seq<char>, i: int, c: char) -> bool {
    0 <= i < s.len() && s[i] == c
}

/// How many parentheses may be open at once.
pub const MAX_NESTING: usize = 128;

/// The number of parentheses that are open after the first `n` characters
/// of `s`: a `(` opens one, a `)` closes one if one is open.
pub open spec fn open_after(s: Seq<char>, n: int) -> nat
    decreases n,
{
    if n <= 0 || n > s.len() {
        0
    } else {
        let before = open_after(s, n - 1);
        if s[n - 1] == '(' {
            before + 1
        } else if s[n - 1] == ')' && before > 0 {
            (before - 1) as nat
        } else {
            before
        }
    }
}

/// The position of the first of the first `n` characters of `s` that opens
/// more than `limit` parentheses at once, if one does.
pub open spec fn first_excess(s: Seq<char>, n: int, limit: nat) -> Option<int>
    decreases n,
{
    if n <= 0 {
        None
    } else {
        match first_excess(s, n - 1, limit) {
            Some(at) => Some(at),
            None => if open_after(s, n) > limit {
                Some(n - 1)
            } else {
                None
            },
        }
    }
}

/// What `first_excess` finds: the first position after which more than
/// `limit` parentheses are open; it finds none only where never more than
/// `limit` are open.
pub proof fn lemma_first_excess(s: Seq<char>, n: int, limit: nat)
    ensures
        match first_excess(s, n, limit) {
            Some(at) => 0 <= at < n && open_after(s, at + 1) > limit && forall|k: int|
                0 < k <= at ==> #[trigger] open_after(s, k) <= limit,
            None => forall|k: int| 0 < k <= n ==> #[trigger] open_after(s, k) <= limit,
        },
    decreases n,
{
    if n > 0 {
        lemma_first_excess(s, n - 1, limit);
    }
}

/// An excess found among the first `n` characters is the first of the whole
/// text.
pub proof fn lemma_first_excess_prefix(s: Seq<char>, n: int, m: int, limit: nat)
    requires
        0 <= n <= m,
        first_excess(s, n, limit) is Some,
    ensures
        first_excess(s, m, limit) == first_excess(s, n, limit),
    decreases m - n,
{
    if n < m {
        lemma_first_excess_prefix(s, n, m - 1, limit);
    }
}

/// The whitespace that starts at position `i`.
pub open spec fn spaces(s: Seq<char>, i: int) -> nat {
    run(s, i, CharClass::Space)
}

/// The length of the identifier that starts at position `i`, 0 if none does.
pub open spec fn identifier_len(s: Seq<char>, i: int) -> nat {
    if 0 <= i < s.len() && is_word_start(s[i]) {
        1 + run(s, i + 1, CharClass::Word)
    } else {
        0
    }
}

/// The length of the sign at position `i`: 1 if one stands there, else 0.
pub open spec fn sign_len(s: Seq<char>, i: int) -> nat {
    if 0 <= i < s.len() && is_sign(s[i]) {
        1
    } else {
        0
    }
}

/// The length of the digits and the point of a number that start at position
/// `i`, 0 if none do: digits with an optional point and more digits, or a
/// point with digits after it.
pub open spec fn mantissa_len(s: Seq<char>, i: int) -> nat {
    let whole = run(s, i, CharClass::Digit);
    if whole > 0 {
        if char_at(s, i + whole, '.') {
            whole + 1 + run(s, i + whole + 1, CharClass::Digit)
        } else {
            whole
        }
    } else if char_at(s, i, '.') && run(s, i + 1, CharClass::Digit) > 0 {
        1 + run(s, i + 1, CharClass::Digit)
    } else {
        0
    }
}

/// The length of the exponent that starts at position `i`, 0 if none does:
/// `e` or `E`, an optional sign, and at least one digit.
pub open spec fn exponent_len(s: Seq<char>, i: int) -> nat {
    if char_at(s, i, 'e') || char_at(s, i, 'E') {
        let sign = sign_len(s, i + 1);
        let digits = run(s, i + 1 + sign, CharClass::Digit);
        if digits > 0 {
            1 + sign + digits
        } else {
            0
        }
    } else {
        0
    }
}

/// The length of the number that starts at position `i`, 0 if none does.
pub open spec fn number_len(s: Seq<char>, i: int) -> nat {
    let sign = sign_len(s, i);
    let mantissa = mantissa_len(s, i + sign);
    if mantissa > 0 {
        sign + mantissa + exponent_len(s, i + sign + mantissa)
    } else {
        0
    }
}

/// `expr`: a term, then any number of `+` or `-` and a term, folded to the
/// left. The result is the tree and the number of characters taken from `i`.
#[verifier::opaque]
pub open spec fn parse_expr(s: Seq<char>, i: int) -> Option<(Formula, nat)>
    decreases remaining(s, i), 3nat,
{
    match parse_term(s, i) {
        Some((first, n)) => {
            let (all, m) = sum_rest(s, i + n, first);
            Some((all, n + m))
        },
        None => None,
    }
}

/// What follows the first term of an `expr`: `left` is the tree read so far,
/// which ends at position `i`.
#[verifier::opaque]
pub open spec fn sum_rest(s: Seq<char>, i: int, left: Formula) -> (Formula, nat)
    decreases remaining(s, i), 0nat,
{
    let at = i + spaces(s, i);
    if char_at(s, at, '+') || char_at(s, at, '-') {
        match parse_term(s, at + 1) {
            Some((right, n)) => {
                let op = if s[at] == '+' {
                    Operator::Add
                } else {
                    Operator::Sub
                };
                let joined = Formula::BinaryOp { op, left: Box::new(left), right: Box::new(right) };
                let (all, m) = sum_rest(s, at + 1 + n, joined);
                (all, spaces(s, i) + 1 + n + m)
            },
            None => (left, 0),
        }
    } else {
        (left, 0)
    }
}

/// `term`: a factor, then any number of `*` or `/` and a factor, folded to
/// the left.
#[verifier::opaque]
pub open spec fn parse_term(s: Seq<char>, i: int) -> Option<(Formula, nat)>
    decreases remaining(s, i), 2nat,
{
    match parse_factor(s, i) {
        Some((first, n)) => {
            let (all, m) = product_rest(s, i + n, first);
            Some((all, n + m))
        },
        None => None,
    }
}

/// What follows the first factor of a `term`.
#[verifier::opaque]
pub open spec fn product_rest(s: Seq<char>, i: int, left: Formula) -> (Formula, nat)
    decreases remaining(s, i), 0nat,
{
    let at = i + spaces(s, i);
    if char_at(s, at, '*') || char_at(s, at, '/') {
        match parse_factor(s, at + 1) {
            Some((right, n)) => {
                let op = if s[at] == '*' {
                    Operator::Mul
                } else {
                    Operator::Div
                };
                let joined = Formula::BinaryOp { op, left: Box::new(left), right: Box::new(right) };
                let (all, m) = product_rest(s, at + 1 + n, joined);
                (all, spaces(s, i) + 1 + n + m)
            },
            None => (left, 0),
        }
    } else {
        (left, 0)
    }
}

/// `factor`: a number, a call, an identifier or an expression in
/// parentheses, after any whitespace.
#[verifier::opaque]
pub open spec fn parse_factor(s: Seq<char>, i: int) -> Option<(Formula, nat)>
    decreases remaining(s, i), 1nat,
{
    let lead = spaces(s, i);
    let at = i + lead;
    let number = number_len(s, at);
    let name = identifier_len(s, at);
    if number > 0 {
        Some((Formula::Literal(s.subrange(at, at + number)), lead + number))
    } else if name > 0 {
        match parse_call(s, at + name) {
            Some((args, n)) => Some(
                (Formula::FunctionCall(s.subrange(at, at + name), args), lead + name + n),
            ),
            None => Some((Formula::Identifier(s.subrange(at, at + name)), lead + name)),
        }
    } else if char_at(s, at, '(') {
        match parse_expr(s, at + 1) {
            Some((inner, n)) => {
                let gap = spaces(s, at + 1 + n);
                if char_at(s, at + 1 + n + gap, ')') {
                    Some((inner, lead + 1 + n + gap + 1))
                } else {
                    None
                }
            },
            None => None,
        }
    } else {
        None
    }
}

/// The parenthesised arguments of a call, read after the function's name.
#[verifier::opaque]
pub open spec fn parse_call(s: Seq<char>, i: int) -> Option<(Seq<Formula>, nat)>
    decreases remaining(s, i), 0nat,
{
    let lead = spaces(s, i);
    let at = i + lead;
    if char_at(s, at, '(') {
        let (args, n) = parse_arguments(s, at + 1);
        let gap = spaces(s, at + 1 + n);
        if char_at(s, at + 1 + n + gap, ')') {
            Some((args, lead + 1 + n + gap + 1))
        } else {
            None
        }
    } else {
        None
    }
}

/// No argument, or expressions separated by commas.
#[verifier::opaque]
pub open spec fn parse_arguments(s: Seq<char>, i: int) -> (Seq<Formula>, nat)
    decreases remaining(s, i), 4nat,
{
    match parse_expr(s, i) {
        Some((first, n)) => {
            let (more, m) = arguments_rest(s, i + n);
            (seq![first] + more, n + m)
        },
        None => (Seq::empty(), 0),
    }
}

/// What follows an argument: any number of a comma and an expression.
#[verifier::opaque]
pub open spec fn arguments_rest(s: Seq<char>, i: int) -> (Seq<Formula>, nat)
    decreases remaining(s, i), 0nat,
{
    let at = i + spaces(s, i);
    if char_at(s, at, ',') {
        match parse_expr(s, at + 1) {
            Some((next, n)) => {
                let (more, m) = arguments_rest(s, at + 1 + n);
                (seq![next] + more, spaces(s, i) + 1 + n + m)
            },
            None => (Seq::empty(), 0),
        }
    } else {
        (Seq::empty(), 0)
    }
}

/// Whether `op` is written with `*` or `/`.
pub open spec fn is_product(op: Operator) -> bool {
    op == Operator::Mul || op == Operator::Div
}

/// No whitespace starts where a character that is none stands.
pub proof fn lemma_no_space(s: Seq<char>, i: int, c: char)
    requires
        char_at(s, i, c),
        c != ' ' && c != '\t' && c != '\n' && c != '\r',
    ensures
        spaces(s, i) == 0,
{
}

/// Nothing stands at the end of the text.
pub proof fn lemma_end(s: Seq<char>, i: int)
    requires
        i >= s.len(),
    ensures
        spaces(s, i) == 0,
        number_len(s, i) == 0,
        identifier_len(s, i) == 0,
        forall|c: char| !char_at(s, i, c),
{
}

/// An expression is a term and what goes on after it.
pub proof fn lemma_expr(s: Seq<char>, i: int)
    ensures
        parse_expr(s, i) == match parse_term(s, i) {
            Some((first, n)) => Some((sum_rest(s, i + n, first).0, n + sum_rest(s, i + n, first).1)),
            None => None,
        },
{
    reveal(parse_expr);
    reveal(parse_term);
    reveal(sum_rest);
}

/// A term is a factor and what goes on after it.
pub proof fn lemma_term(s: Seq<char>, i: int)
    ensures
        parse_term(s, i) == match parse_factor(s, i) {
            Some((first, n)) => Some(
                (product_rest(s, i + n, first).0, n + product_rest(s, i + n, first).1),
            ),
            None => None,
        },
{
    reveal(parse_term);
    reveal(parse_factor);
    reveal(product_rest);
}

/// Where no `+` or `-` follows, or no term follows it, an expression ends.
pub proof fn lemma_sum_ends(s: Seq<char>, i: int, left: Formula)
    requires
        ({
            let at = i + spaces(s, i);
            !(char_at(s, at, '+') || char_at(s, at, '-')) || parse_term(s, at + 1) is None
        }),
    ensures
        sum_rest(s, i, left) == (left, 0nat),
{
    reveal(sum_rest);
    reveal(parse_term);
}

/// Where `+` or `-` and a term follow, an expression goes on with them.
pub proof fn lemma_sum_goes_on(
    s: Seq<char>,
    i: int,
    left: Formula,
    op: Operator,
    right: Formula,
    n: nat,
)
    requires
        !is_product(op),
        char_at(s, i + spaces(s, i), op.symbol()),
        parse_term(s, i + spaces(s, i) + 1) == Some((right, n)),
    ensures
        ({
            let joined = Formula::BinaryOp { op, left: Box::new(left), right: Box::new(right) };
            let (all, m) = sum_rest(s, i + spaces(s, i) + 1 + n, joined);
            sum_rest(s, i, left) == (all, spaces(s, i) + 1 + n + m)
        }),
{
    reveal(sum_rest);
    reveal(parse_term);
}

/// Where no `*` or `/` follows, or no factor follows it, a term ends.
pub proof fn lemma_product_ends(s: Seq<char>, i: int, left: Formula)
    requires
        ({
            let at = i + spaces(s, i);
            !(char_at(s, at, '*') || char_at(s, at, '/')) || parse_factor(s, at + 1) is None
        }),
    ensures
        product_rest(s, i, left) == (left, 0nat),
{
    reveal(product_rest);
    reveal(parse_factor);
}

/// Where `*` or `/` and a factor follow, a term goes on with them.
pub proof fn lemma_product_goes_on(
    s: Seq<char>,
    i: int,
    left: Formula,
    op: Operator,
    right: Formula,
    n: nat,
)
    requires
        is_product(op),
        char_at(s, i + spaces(s, i), op.symbol()),
        parse_factor(s, i + spaces(s, i) + 1) == Some((right, n)),
    ensures
        ({
            let joined = Formula::BinaryOp { op, left: Box::new(left), right: Box::new(right) };
            let (all, m) = product_rest(s, i + spaces(s, i) + 1 + n, joined);
            product_rest(s, i, left) == (all, spaces(s, i) + 1 + n + m)
        }),
{
    reveal(product_rest);
    reveal(parse_factor);
}

/// Where a number starts, the factor is the literal.
pub proof fn lemma_factor_at_number(s: Seq<char>, i: int)
    requires
        number_len(s, i + spaces(s, i)) > 0,
    ensures
        ({
            let at = i + spaces(s, i);
            let number = number_len(s, at);
            parse_factor(s, i) == Some(
                (Formula::Literal(s.subrange(at, at + number)), spaces(s, i) + number),
            )
        }),
{
    reveal(parse_factor);
}

/// Where a name starts, the factor is the call, if its arguments follow in
/// parentheses, and else the identifier.
pub proof fn lemma_factor_at_name(s: Seq<char>, i: int)
    requires
        number_len(s, i + spaces(s, i)) == 0,
        identifier_len(s, i + spaces(s, i)) > 0,
    ensures
        ({
            let lead = spaces(s, i);
            let at = i + lead;
            let name = identifier_len(s, at);
            parse_factor(s, i) == match parse_call(s, at + name) {
                Some((args, n)) => Some(
                    (Formula::FunctionCall(s.subrange(at, at + name), args), lead + name + n),
                ),
                None => Some((Formula::Identifier(s.subrange(at, at + name)), lead + name)),
            }
        }),
{
    reveal(parse_factor);
    reveal(parse_call);
}

/// Where a parenthesis opens, the factor is the expression inside, if the
/// parenthesis closes after it.
pub proof fn lemma_factor_at_open(s: Seq<char>, i: int)
    requires
        number_len(s, i + spaces(s, i)) == 0,
        identifier_len(s, i + spaces(s, i)) == 0,
        char_at(s, i + spaces(s, i), '('),
    ensures
        ({
            let lead = spaces(s, i);
            let at = i + lead;
            parse_factor(s, i) == match parse_expr(s, at + 1) {
                Some((inner, n)) => {
                    let gap = spaces(s, at + 1 + n);
                    if char_at(s, at + 1 + n + gap, ')') {
                        Some((inner, lead + 1 + n + gap + 1))
                    } else {
                        None
                    }
                },
                None => None,
            }
        }),
{
    reveal(parse_factor);
    reveal(parse_expr);
}

/// Where neither a number nor a name starts nor a parenthesis opens, there
/// is no factor.
pub proof fn lemma_factor_at_nothing(s: Seq<char>, i: int)
    requires
        number_len(s, i + spaces(s, i)) == 0,
        identifier_len(s, i + spaces(s, i)) == 0,
        !char_at(s, i + spaces(s, i), '('),
    ensures
        parse_factor(s, i) is None,
{
    reveal(parse_factor);
}

/// The arguments of a call stand between an opening parenthesis and the
/// closing one.
pub proof fn lemma_call(s: Seq<char>, i: int)
    ensures
        ({
            let lead = spaces(s, i);
            let at = i + lead;
            let (args, n) = parse_arguments(s, at + 1);
            let gap = spaces(s, at + 1 + n);
            parse_call(s, i) == if char_at(s, at, '(') && char_at(s, at + 1 + n + gap, ')') {
                Some((args, lead + 1 + n + gap + 1))
            } else {
                None
            }
        }),
{
    reveal(parse_call);
    reveal(parse_arguments);
}

/// The arguments are none, or an expression and what goes on after it.
pub proof fn lemma_arguments(s: Seq<char>, i: int)
    ensures
        parse_arguments(s, i) == match parse_expr(s, i) {
            Some((first, n)) => (
                seq![first] + arguments_rest(s, i + n).0,
                n + arguments_rest(s, i + n).1,
            ),
            None => (Seq::empty(), 0nat),
        },
{
    reveal(parse_arguments);
    reveal(parse_expr);
    reveal(arguments_rest);
}

/// Where no comma follows, or no expression follows it, the arguments end.
pub proof fn lemma_arguments_end(s: Seq<char>, i: int)
    requires
        ({
            let at = i + spaces(s, i);
            !char_at(s, at, ',') || parse_expr(s, at + 1) is None
        }),
    ensures
        arguments_rest(s, i) == (Seq::<Formula>::empty(), 0nat),
{
    reveal(arguments_rest);
    reveal(parse_expr);
}

/// Where a comma and an expression follow, the arguments go on with them.
pub proof fn lemma_arguments_go_on(s: Seq<char>, i: int, next: Formula, n: nat)
    requires
        char_at(s, i + spaces(s, i), ','),
        parse_expr(s, i + spaces(s, i) + 1) == Some((next, n)),
    ensures
        ({
            let (more, m) = arguments_rest(s, i + spaces(s, i) + 1 + n);
            arguments_rest(s, i) == (seq![next] + more, spaces(s, i) + 1 + n + m)
        }),
{
    reveal(arguments_rest);
    reveal(parse_expr);
}

} // verus!
