//! What the grammar reads is well-formed: every number of a parsed tree is
//! a number and every name a name, and nothing is read from outside the
//! text.

use vstd::prelude::*;
use crate::ast::{Formula, Operator};
use crate::chars::{lemma_run_bounded, CharClass};
use crate::grammar::{
    arguments_rest, char_at, identifier_len, lemma_arguments, lemma_arguments_end,
    lemma_arguments_go_on, lemma_call, lemma_expr, lemma_factor_at_name, lemma_factor_at_nothing,
    lemma_factor_at_number, lemma_factor_at_open, lemma_product_ends, lemma_product_goes_on,
    lemma_sum_ends, lemma_sum_goes_on, lemma_term, number_len, parse_arguments, parse_call,
    parse_expr, parse_factor, parse_term, product_rest, remaining, spaces, sum_rest,
};
use crate::lexical::{lemma_identifier_alone, lemma_number_alone};
use crate::parser::{parse, parse_whole, SyntaxFault};
use crate::rendering::{lemma_parse_rendered, rendered, well_formed};

verus! {

/// Whether `r`, read at position `i` of `s`, is a well-formed tree made of
/// at least one character of the text.
pub open spec fn sound(s: Seq<char>, i: int, r: Option<(Formula, nat)>) -> bool {
    r matches Some((formula, n)) ==> well_formed(formula) && n > 0 && i + n <= s.len()
}

/// An expression that the grammar reads is a well-formed tree, and it is
/// read from inside the text.
pub proof fn lemma_expr_sound(s: Seq<char>, i: int)
    requires
        0 <= i,
    ensures
        sound(s, i, parse_expr(s, i)),
    decreases remaining(s, i), 3nat,
{
    lemma_expr(s, i);
    lemma_term_sound(s, i);
    if let Some((first, n)) = parse_term(s, i) {
        lemma_sum_sound(s, i + n, first);
    }
}

/// What goes on after a term keeps the tree well-formed.
pub proof fn lemma_sum_sound(s: Seq<char>, i: int, left: Formula)
    requires
        0 <= i <= s.len(),
        well_formed(left),
    ensures
        well_formed(sum_rest(s, i, left).0),
        i + sum_rest(s, i, left).1 <= s.len(),
    decreases remaining(s, i), 0nat,
{
    lemma_run_bounded(s, i, CharClass::Space);
    let at = i + spaces(s, i);
    if char_at(s, at, '+') || char_at(s, at, '-') {
        lemma_term_sound(s, at + 1);
        match parse_term(s, at + 1) {
            Some((right, n)) => {
                let op = if s[at] == '+' {
                    Operator::Add
                } else {
                    Operator::Sub
                };
                let joined = Formula::BinaryOp { op, left: Box::new(left), right: Box::new(right) };
                lemma_sum_goes_on(s, i, left, op, right, n);
                lemma_sum_sound(s, at + 1 + n, joined);
            },
            None => {
                lemma_sum_ends(s, i, left);
            },
        }
    } else {
        lemma_sum_ends(s, i, left);
    }
}

/// A term that the grammar reads is a well-formed tree.
pub proof fn lemma_term_sound(s: Seq<char>, i: int)
    requires
        0 <= i,
    ensures
        sound(s, i, parse_term(s, i)),
    decreases remaining(s, i), 2nat,
{
    lemma_term(s, i);
    lemma_factor_sound(s, i);
    if let Some((first, n)) = parse_factor(s, i) {
        lemma_product_sound(s, i + n, first);
    }
}

/// What goes on after a factor keeps the tree well-formed.
pub proof fn lemma_product_sound(s: Seq<char>, i: int, left: Formula)
    requires
        0 <= i <= s.len(),
        well_formed(left),
    ensures
        well_formed(product_rest(s, i, left).0),
        i + product_rest(s, i, left).1 <= s.len(),
    decreases remaining(s, i), 0nat,
{
    lemma_run_bounded(s, i, CharClass::Space);
    let at = i + spaces(s, i);
    if char_at(s, at, '*') || char_at(s, at, '/') {
        lemma_factor_sound(s, at + 1);
        match parse_factor(s, at + 1) {
            Some((right, n)) => {
                let op = if s[at] == '*' {
                    Operator::Mul
                } else {
                    Operator::Div
                };
                let joined = Formula::BinaryOp { op, left: Box::new(left), right: Box::new(right) };
                lemma_product_goes_on(s, i, left, op, right, n);
                lemma_product_sound(s, at + 1 + n, joined);
            },
            None => {
                lemma_product_ends(s, i, left);
            },
        }
    } else {
        lemma_product_ends(s, i, left);
    }
}

/// A factor that the grammar reads is a well-formed tree.
pub proof fn lemma_factor_sound(s: Seq<char>, i: int)
    requires
        0 <= i,
    ensures
        sound(s, i, parse_factor(s, i)),
    decreases remaining(s, i), 1nat,
{
    let lead = spaces(s, i);
    let at = i + lead;
    if i <= s.len() {
        lemma_run_bounded(s, i, CharClass::Space);
    }
    if number_len(s, at) > 0 {
        lemma_number_alone(s, at);
        lemma_factor_at_number(s, i);
    } else if identifier_len(s, at) > 0 {
        lemma_identifier_alone(s, at);
        lemma_factor_at_name(s, i);
        lemma_call_sound(s, at + identifier_len(s, at));
    } else if char_at(s, at, '(') {
        lemma_factor_at_open(s, i);
        lemma_expr_sound(s, at + 1);
        if let Some((inner, n)) = parse_expr(s, at + 1) {
            lemma_run_bounded(s, at + 1 + n, CharClass::Space);
        }
    } else {
        lemma_factor_at_nothing(s, i);
    }
}

/// The arguments that the grammar reads for a call are well-formed trees.
pub proof fn lemma_call_sound(s: Seq<char>, i: int)
    requires
        0 <= i <= s.len(),
    ensures
        parse_call(s, i) matches Some((args, n)) ==> i + n <= s.len() && forall|k: int|
            0 <= k < args.len() ==> well_formed(#[trigger] args[k]),
    decreases remaining(s, i), 0nat,
{
    lemma_call(s, i);
    lemma_run_bounded(s, i, CharClass::Space);
    let at = i + spaces(s, i);
    if char_at(s, at, '(') {
        lemma_arguments_sound(s, at + 1);
    }
}

/// The same, of the arguments between the parentheses.
pub proof fn lemma_arguments_sound(s: Seq<char>, i: int)
    requires
        0 <= i <= s.len(),
    ensures
        i + parse_arguments(s, i).1 <= s.len(),
        forall|k: int|
            0 <= k < parse_arguments(s, i).0.len() ==> well_formed(
                #[trigger] parse_arguments(s, i).0[k],
            ),
    decreases remaining(s, i), 4nat,
{
    lemma_arguments(s, i);
    lemma_expr_sound(s, i);
    if let Some((first, n)) = parse_expr(s, i) {
        lemma_more_sound(s, i + n);
    }
}

/// The same, of the arguments after the first.
pub proof fn lemma_more_sound(s: Seq<char>, i: int)
    requires
        0 <= i <= s.len(),
    ensures
        i + arguments_rest(s, i).1 <= s.len(),
        forall|k: int|
            0 <= k < arguments_rest(s, i).0.len() ==> well_formed(
                #[trigger] arguments_rest(s, i).0[k],
            ),
    decreases remaining(s, i), 0nat,
{
    lemma_run_bounded(s, i, CharClass::Space);
    let at = i + spaces(s, i);
    if char_at(s, at, ',') {
        lemma_expr_sound(s, at + 1);
        match parse_expr(s, at + 1) {
            Some((next, n)) => {
                lemma_arguments_go_on(s, i, next, n);
                lemma_more_sound(s, at + 1 + n);
            },
            None => {
                lemma_arguments_end(s, i);
            },
        }
    } else {
        lemma_arguments_end(s, i);
    }
}

/// Every tree that parsing gives is well-formed.
pub proof fn lemma_parsed_well_formed(s: Seq<char>)
    ensures
        parse(s) matches Ok(formula) ==> well_formed(formula),
        parse_whole(s) matches Ok(formula) ==> well_formed(formula),
{
    lemma_expr_sound(s, 0);
}

/// A text that parses can be replaced by the text of its tree, which holds
/// no whitespace and has parentheses around every operation: that text
/// parses to the same tree.
pub proof fn lemma_canonical_text(s: Seq<char>)
    ensures
        parse_whole(s) matches Ok(formula) ==> parse_whole(rendered(formula)) == Ok::<
            Formula,
            SyntaxFault,
        >(formula),
{
    lemma_parsed_well_formed(s);
    if let Ok(formula) = parse_whole(s) {
        lemma_parse_rendered(formula);
    }
}

} // verus!
