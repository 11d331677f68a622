//! The text of a tree, and what reading it gives: every well-formed tree
//! comes back from its text, and operators bind as the grammar says.

use vstd::prelude::*;
use crate::ast::{Formula, Operator};
use crate::grammar::{
    arguments_rest, char_at, first_excess, identifier_len, is_product, lemma_arguments,
    lemma_arguments_end, lemma_arguments_go_on, lemma_call, lemma_end, lemma_expr,
    lemma_factor_at_name, lemma_factor_at_nothing, lemma_factor_at_number, lemma_factor_at_open,
    lemma_no_space, lemma_product_ends, lemma_product_goes_on, lemma_sum_ends, lemma_sum_goes_on,
    lemma_term, number_len, parse_arguments, parse_expr, parse_factor, parse_term, spaces,
    MAX_NESTING,
};
use crate::lexical::{
    is_identifier, is_number, lemma_identifier_inside, lemma_number_inside, lemma_stands_apart,
    lemma_stands_in_itself, stands_at,
};
use crate::parser::{parse, parse_whole, SyntaxFault};

verus! {

/// Whether every number and name in `formula` is one that the grammar
/// reads: the trees that parsing gives are such.
pub open spec fn well_formed(formula: Formula) -> bool
    decreases formula,
{
    match formula {
        Formula::Literal(text) => is_number(text),
        Formula::Identifier(name) => is_identifier(name),
        Formula::FunctionCall(name, args) => is_identifier(name) && forall|k: int|
            0 <= k < args.len() ==> well_formed(#[trigger] args[k]),
        Formula::BinaryOp { op, left, right } => well_formed(*left) && well_formed(*right),
    }
}

/// The text of `formula`: a number or a name as it is, a call with its
/// arguments between parentheses and commas, an operation between
/// parentheses. It holds no whitespace.
pub open spec fn rendered(formula: Formula) -> Seq<char>
    decreases formula,
{
    match formula {
        Formula::Literal(text) => text,
        Formula::Identifier(name) => name,
        Formula::FunctionCall(name, args) => name + seq!['('] + rendered_arguments(args) + seq![
            ')',
        ],
        Formula::BinaryOp { op, left, right } => seq!['('] + rendered(*left) + seq![op.symbol()]
            + rendered(*right) + seq![')'],
    }
}

/// The texts of `args` with a comma between each two.
pub open spec fn rendered_arguments(args: Seq<Formula>) -> Seq<char>
    decreases args, args.len(), 1nat,
{
    if args.len() == 0 {
        Seq::empty()
    } else {
        rendered(args[0]) + rendered_more(args.drop_first())
    }
}

/// The texts of `args` with a comma before each.
pub open spec fn rendered_more(args: Seq<Formula>) -> Seq<char>
    decreases args, args.len(), 0nat,
{
    if args.len() == 0 {
        Seq::empty()
    } else {
        seq![','] + rendered(args[0]) + rendered_more(args.drop_first())
    }
}

/// Whether an operand that ends before position `j` of `s` cannot go on
/// there: the text ends, or an operator, a comma or a closing parenthesis
/// stands there.
pub open spec fn ends_operand(s: Seq<char>, j: int) -> bool {
    j >= s.len() || s[j] == '+' || s[j] == '-' || s[j] == '*' || s[j] == '/' || s[j] == ','
        || s[j] == ')'
}

/// Whether an expression that ends before position `j` of `s` cannot go on
/// there: the text ends, or a comma or a closing parenthesis stands there.
pub open spec fn ends_expression(s: Seq<char>, j: int) -> bool {
    j >= s.len() || s[j] == ',' || s[j] == ')'
}

/// Where a call's text stands, its parts stand one after the other.
pub proof fn lemma_call_parts(s: Seq<char>, i: int, name: Seq<char>, args: Seq<Formula>)
    requires
        stands_at(s, i, rendered(Formula::FunctionCall(name, args))),
    ensures
        stands_at(s, i, name),
        char_at(s, i + name.len(), '('),
        stands_at(s, i + name.len() + 1, rendered_arguments(args)),
        char_at(s, i + name.len() + 1 + rendered_arguments(args).len(), ')'),
        rendered(Formula::FunctionCall(name, args)).len() == name.len() + rendered_arguments(
            args,
        ).len() + 2,
{
    let list = rendered_arguments(args);
    lemma_stands_apart(s, i, name + seq!['('] + list, seq![')']);
    lemma_stands_apart(s, i, name + seq!['('], list);
    lemma_stands_apart(s, i, name, seq!['(']);
    let open = i + name.len();
    let close = open + 1 + list.len();
    assert(s[open + 0] == seq!['('][0]);
    assert(s[close + 0] == seq![')'][0]);
}

/// Where an operation's text stands, its parts stand one after the other.
pub proof fn lemma_operation_parts(
    s: Seq<char>,
    i: int,
    op: Operator,
    left: Formula,
    right: Formula,
)
    requires
        stands_at(
            s,
            i,
            rendered(Formula::BinaryOp { op, left: Box::new(left), right: Box::new(right) }),
        ),
    ensures
        char_at(s, i, '('),
        stands_at(s, i + 1, rendered(left)),
        char_at(s, i + 1 + rendered(left).len(), op.symbol()),
        stands_at(s, i + 2 + rendered(left).len(), rendered(right)),
        char_at(s, i + 2 + rendered(left).len() + rendered(right).len(), ')'),
        rendered(Formula::BinaryOp { op, left: Box::new(left), right: Box::new(right) }).len()
            == rendered(left).len() + rendered(right).len() + 3,
{
    let l = rendered(left);
    let r = rendered(right);
    let o = seq![op.symbol()];
    lemma_stands_apart(s, i, seq!['('] + l + o + r, seq![')']);
    lemma_stands_apart(s, i, seq!['('] + l + o, r);
    lemma_stands_apart(s, i, seq!['('] + l, o);
    lemma_stands_apart(s, i, seq!['('], l);
    let at = i + 1 + l.len();
    let close = at + 1 + r.len();
    assert(s[i + 0] == seq!['('][0]);
    assert(s[at + 0] == o[0]);
    assert(s[close + 0] == seq![')'][0]);
}

/// Where the texts of arguments stand, the first stands and then the others,
/// each after a comma.
pub proof fn lemma_argument_parts(s: Seq<char>, i: int, args: Seq<Formula>, first: bool)
    requires
        args.len() > 0,
        stands_at(
            s,
            i,
            if first {
                rendered_arguments(args)
            } else {
                rendered_more(args)
            },
        ),
    ensures
        ({
            let lead: int = if first {
                0
            } else {
                1
            };
            let one = rendered(args[0]).len();
            let more = rendered_more(args.drop_first());
            &&& !first ==> char_at(s, i, ',')
            &&& stands_at(s, i + lead, rendered(args[0]))
            &&& stands_at(s, i + lead + one, more)
            &&& args.len() > 1 ==> char_at(s, i + lead + one, ',')
            &&& args.len() == 1 ==> more.len() == 0
            &&& lead + one + more.len() == if first {
                rendered_arguments(args).len()
            } else {
                rendered_more(args).len()
            }
        }),
{
    let one = rendered(args[0]);
    let rest = args.drop_first();
    let more = rendered_more(rest);
    if first {
        lemma_stands_apart(s, i, one, more);
    } else {
        lemma_stands_apart(s, i, seq![','] + one, more);
        lemma_stands_apart(s, i, seq![','], one);
        assert(s[i + 0] == seq![','][0]);
    }
    if rest.len() > 0 {
        let lead: int = if first {
            0
        } else {
            1
        };
        assert(more[0] == seq![','][0]);
        assert(s[i + lead + one.len() + 0] == more[0]);
    }
}

/// A number's text reads as the literal.
pub proof fn lemma_literal_read(s: Seq<char>, i: int, numeral: Seq<char>)
    requires
        is_number(numeral),
        stands_at(s, i, numeral),
        ends_operand(s, i + numeral.len()),
    ensures
        parse_factor(s, i) == Some((Formula::Literal(numeral), numeral.len())),
{
    lemma_number_inside(s, i, numeral);
    assert(s.subrange(i, i + numeral.len()) =~= numeral);
    lemma_factor_at_number(s, i);
}

/// A name's text reads as the identifier, if no parenthesis follows.
pub proof fn lemma_name_read(s: Seq<char>, i: int, name: Seq<char>)
    requires
        is_identifier(name),
        stands_at(s, i, name),
        ends_operand(s, i + name.len()),
    ensures
        parse_factor(s, i) == Some((Formula::Identifier(name), name.len())),
{
    let end = i + name.len();
    lemma_identifier_inside(s, i, name);
    lemma_operand_ends(s, end);
    lemma_call(s, end);
    assert(s.subrange(i, i + name.len()) =~= name);
    lemma_factor_at_name(s, i);
}

/// No whitespace stands where an operand cannot go on.
pub proof fn lemma_operand_ends(s: Seq<char>, j: int)
    requires
        0 <= j,
        ends_operand(s, j),
    ensures
        spaces(s, j) == 0,
        !char_at(s, j, '('),
{
}

/// A name, an opening parenthesis, arguments and a closing parenthesis,
/// with nothing between them, read as the call.
pub proof fn lemma_call_read(s: Seq<char>, i: int, n: nat, args: Seq<Formula>, m: nat)
    requires
        0 <= i,
        spaces(s, i) == 0,
        number_len(s, i) == 0,
        identifier_len(s, i) == n,
        n > 0,
        char_at(s, i + n, '('),
        parse_arguments(s, i + n + 1) == (args, m),
        char_at(s, i + n + 1 + m, ')'),
    ensures
        parse_factor(s, i) == Some(
            (Formula::FunctionCall(s.subrange(i, i + n), args), (n + m + 2) as nat),
        ),
{
    lemma_no_space(s, i + n, '(');
    lemma_no_space(s, i + n + 1 + m, ')');
    lemma_call(s, i + n);
    lemma_factor_at_name(s, i);
}

/// An opening parenthesis, a factor, an operator, a factor and a closing
/// parenthesis, with nothing between them, read as the operation.
pub proof fn lemma_operation_read(
    s: Seq<char>,
    i: int,
    op: Operator,
    left: Formula,
    l: nat,
    right: Formula,
    r: nat,
)
    requires
        0 <= i,
        char_at(s, i, '('),
        parse_factor(s, i + 1) == Some((left, l)),
        char_at(s, i + 1 + l, op.symbol()),
        parse_factor(s, i + 2 + l) == Some((right, r)),
        char_at(s, i + 2 + l + r, ')'),
    ensures
        parse_factor(s, i) == Some(
            (
                Formula::BinaryOp { op, left: Box::new(left), right: Box::new(right) },
                (l + r + 3) as nat,
            ),
        ),
{
    let formula = Formula::BinaryOp { op, left: Box::new(left), right: Box::new(right) };
    let at = i + 1 + l;
    let close = at + 1 + r;
    lemma_no_space(s, i, '(');
    lemma_no_space(s, at, op.symbol());
    lemma_no_space(s, close, ')');
    lemma_term(s, i + 1);
    lemma_term(s, at + 1);
    lemma_expr(s, i + 1);
    lemma_sum_ends(s, close, formula);
    if is_product(op) {
        lemma_product_ends(s, close, formula);
        lemma_product_goes_on(s, at, left, op, right, r);
    } else {
        lemma_product_ends(s, at, left);
        lemma_product_ends(s, close, right);
        lemma_sum_goes_on(s, at, left, op, right, r);
    }
    assert(number_len(s, i) == 0);
    assert(identifier_len(s, i) == 0);
    lemma_factor_at_open(s, i);
}

/// Reading a well-formed tree's text as a factor gives the tree and takes
/// the whole text, wherever the text stands, if what follows cannot go on
/// with an operand.
pub proof fn lemma_factor_read(s: Seq<char>, i: int, formula: Formula)
    requires
        well_formed(formula),
        stands_at(s, i, rendered(formula)),
        ends_operand(s, i + rendered(formula).len()),
    ensures
        parse_factor(s, i) == Some((formula, rendered(formula).len())),
    decreases formula, 0nat,
{
    match formula {
        Formula::Literal(numeral) => {
            lemma_literal_read(s, i, numeral);
        },
        Formula::Identifier(name) => {
            lemma_name_read(s, i, name);
        },
        Formula::FunctionCall(name, args) => {
            lemma_call_parts(s, i, name, args);
            lemma_identifier_inside(s, i, name);
            assert(s.subrange(i, i + name.len()) =~= name);
            lemma_arguments_read(s, i + name.len() + 1, args);
            lemma_call_read(s, i, name.len(), args, rendered_arguments(args).len());
        },
        Formula::BinaryOp { op, left, right } => {
            lemma_operation_parts(s, i, op, *left, *right);
            lemma_factor_read(s, i + 1, *left);
            lemma_factor_read(s, i + 2 + rendered(*left).len(), *right);
            lemma_operation_read(
                s,
                i,
                op,
                *left,
                rendered(*left).len(),
                *right,
                rendered(*right).len(),
            );
        },
    }
}

/// A factor after which an expression cannot go on is the term and the
/// expression.
pub proof fn lemma_factor_is_expression(s: Seq<char>, i: int, formula: Formula, n: nat)
    requires
        0 <= i,
        parse_factor(s, i) == Some((formula, n)),
        ends_expression(s, i + n),
    ensures
        parse_term(s, i) == Some((formula, n)),
        parse_expr(s, i) == Some((formula, n)),
{
    lemma_operand_ends(s, i + n);
    lemma_term(s, i);
    lemma_expr(s, i);
    lemma_product_ends(s, i + n, formula);
    lemma_sum_ends(s, i + n, formula);
}

/// Reading a well-formed tree's text as an expression gives the tree, if
/// what follows cannot go on with an expression.
pub proof fn lemma_expression_read(s: Seq<char>, i: int, formula: Formula)
    requires
        well_formed(formula),
        stands_at(s, i, rendered(formula)),
        ends_expression(s, i + rendered(formula).len()),
    ensures
        parse_expr(s, i) == Some((formula, rendered(formula).len())),
    decreases formula, 1nat,
{
    lemma_factor_read(s, i, formula);
    lemma_factor_is_expression(s, i, formula, rendered(formula).len());
}

/// No expression starts with a closing parenthesis.
pub proof fn lemma_nothing_at_close(s: Seq<char>, i: int)
    requires
        char_at(s, i, ')'),
    ensures
        parse_expr(s, i) is None,
{
    lemma_no_space(s, i, ')');
    assert(number_len(s, i) == 0);
    assert(identifier_len(s, i) == 0);
    lemma_factor_at_nothing(s, i);
    lemma_term(s, i);
    lemma_expr(s, i);
}

/// Reading the texts of well-formed trees, with commas between them and a
/// closing parenthesis after them, as arguments gives the trees.
pub proof fn lemma_arguments_read(s: Seq<char>, i: int, args: Seq<Formula>)
    requires
        forall|k: int| 0 <= k < args.len() ==> well_formed(#[trigger] args[k]),
        stands_at(s, i, rendered_arguments(args)),
        char_at(s, i + rendered_arguments(args).len(), ')'),
    ensures
        parse_arguments(s, i) == (args, rendered_arguments(args).len()),
    decreases args, args.len(), 1nat,
{
    lemma_arguments(s, i);
    if args.len() == 0 {
        lemma_nothing_at_close(s, i);
        assert(args =~= Seq::<Formula>::empty());
    } else {
        lemma_argument_parts(s, i, args, true);
        let one = rendered(args[0]).len();
        lemma_expression_read(s, i, args[0]);
        lemma_more_read(s, i + one, args.drop_first());
        assert(seq![args[0]] + args.drop_first() =~= args);
    }
}

/// The same, of the arguments after the first.
pub proof fn lemma_more_read(s: Seq<char>, i: int, args: Seq<Formula>)
    requires
        forall|k: int| 0 <= k < args.len() ==> well_formed(#[trigger] args[k]),
        stands_at(s, i, rendered_more(args)),
        char_at(s, i + rendered_more(args).len(), ')'),
    ensures
        arguments_rest(s, i) == (args, rendered_more(args).len()),
    decreases args, args.len(), 0nat,
{
    if args.len() == 0 {
        lemma_no_space(s, i, ')');
        lemma_arguments_end(s, i);
        assert(args =~= Seq::<Formula>::empty());
    } else {
        lemma_argument_parts(s, i, args, false);
        let one = rendered(args[0]).len();
        lemma_no_space(s, i, ',');
        lemma_expression_read(s, i + 1, args[0]);
        lemma_more_read(s, i + 1 + one, args.drop_first());
        lemma_arguments_go_on(s, i, args[0], one);
        assert(seq![args[0]] + args.drop_first() =~= args);
    }
}

/// Reading the text of a well-formed tree gives the tree back.
pub proof fn lemma_parse_rendered(formula: Formula)
    requires
        well_formed(formula),
    ensures
        parse_whole(rendered(formula)) == Ok::<Formula, SyntaxFault>(formula),
        first_excess(rendered(formula), rendered(formula).len() as int, MAX_NESTING as nat)
            is None ==> parse(rendered(formula)) == Ok::<Formula, SyntaxFault>(formula),
{
    let s = rendered(formula);
    lemma_stands_in_itself(s);
    lemma_expression_read(s, 0, formula);
    lemma_end(s, s.len() as int);
}

/// Whether `a` binds its operands more tightly than `b` does.
pub open spec fn binds_tighter(a: Operator, b: Operator) -> bool {
    is_product(a) && !is_product(b)
}

/// `left first middle second right`, as the grammar groups it: around the
/// second operator first where that one binds more tightly, else from the
/// left.
pub open spec fn chained(
    left: Formula,
    first: Operator,
    middle: Formula,
    second: Operator,
    right: Formula,
) -> Formula {
    if binds_tighter(second, first) {
        Formula::BinaryOp {
            op: first,
            left: Box::new(left),
            right: Box::new(
                Formula::BinaryOp { op: second, left: Box::new(middle), right: Box::new(right) },
            ),
        }
    } else {
        Formula::BinaryOp {
            op: second,
            left: Box::new(
                Formula::BinaryOp { op: first, left: Box::new(left), right: Box::new(middle) },
            ),
            right: Box::new(right),
        }
    }
}

/// Three factors with two operators between them, and nothing after them,
/// read as the chain.
pub proof fn lemma_chain_read(
    s: Seq<char>,
    left: Formula,
    l: nat,
    first: Operator,
    middle: Formula,
    m: nat,
    second: Operator,
    right: Formula,
    r: nat,
)
    requires
        parse_factor(s, 0) == Some((left, l)),
        char_at(s, l as int, first.symbol()),
        parse_factor(s, l as int + 1) == Some((middle, m)),
        char_at(s, l as int + 1 + m, second.symbol()),
        parse_factor(s, l as int + m + 2) == Some((right, r)),
        s.len() == l + m + r + 2,
    ensures
        parse_expr(s, 0) == Some((chained(left, first, middle, second, right), s.len())),
{
    let whole = chained(left, first, middle, second, right);
    let one = l as int;
    let two = l as int + 1 + m;
    let end = s.len() as int;
    lemma_no_space(s, one, first.symbol());
    lemma_no_space(s, two, second.symbol());
    lemma_end(s, end);
    let inner = Formula::BinaryOp { op: second, left: Box::new(middle), right: Box::new(right) };
    let outer = Formula::BinaryOp { op: first, left: Box::new(left), right: Box::new(middle) };
    lemma_expr(s, 0);
    lemma_term(s, 0);
    lemma_term(s, one + 1);
    lemma_term(s, two + 1);
    lemma_product_ends(s, end, right);
    lemma_product_ends(s, end, whole);
    lemma_product_ends(s, end, inner);
    lemma_sum_ends(s, end, whole);
    if is_product(first) {
        lemma_product_goes_on(s, one, left, first, middle, m);
        if is_product(second) {
            lemma_product_goes_on(s, two, outer, second, right, r);
        } else {
            lemma_product_ends(s, two, outer);
            lemma_sum_goes_on(s, two, outer, second, right, r);
        }
    } else {
        lemma_product_ends(s, one, left);
        if is_product(second) {
            lemma_product_goes_on(s, two, middle, second, right, r);
            lemma_sum_goes_on(s, one, left, first, inner, (m + 1 + r) as nat);
        } else {
            lemma_product_ends(s, two, middle);
            lemma_sum_goes_on(s, one, left, first, middle, m);
            lemma_sum_goes_on(s, two, outer, second, right, r);
        }
    }
}

/// The text of a chain: three well-formed trees with two operators between
/// them and no parentheses around them.
pub open spec fn chain_text(
    left: Formula,
    first: Operator,
    middle: Formula,
    second: Operator,
    right: Formula,
) -> Seq<char> {
    rendered(left) + seq![first.symbol()] + rendered(middle) + seq![second.symbol()] + rendered(
        right,
    )
}

/// Where a chain's text stands at the start, its parts stand one after the
/// other.
pub proof fn lemma_chain_parts(
    left: Formula,
    first: Operator,
    middle: Formula,
    second: Operator,
    right: Formula,
)
    ensures
        ({
            let s = chain_text(left, first, middle, second, right);
            let one = rendered(left).len() as int;
            let two = one + 1 + rendered(middle).len();
            &&& stands_at(s, 0, rendered(left))
            &&& char_at(s, one, first.symbol())
            &&& stands_at(s, one + 1, rendered(middle))
            &&& char_at(s, two, second.symbol())
            &&& stands_at(s, two + 1, rendered(right))
            &&& s.len() == two + 1 + rendered(right).len()
        }),
{
    let s = chain_text(left, first, middle, second, right);
    let a = rendered(left);
    let b = rendered(middle);
    let c = rendered(right);
    let o = seq![first.symbol()];
    let p = seq![second.symbol()];
    lemma_stands_in_itself(s);
    lemma_stands_apart(s, 0, a + o + b + p, c);
    lemma_stands_apart(s, 0, a + o + b, p);
    lemma_stands_apart(s, 0, a + o, b);
    lemma_stands_apart(s, 0, a, o);
    let one = a.len() as int;
    let two = one + 1 + b.len();
    assert(s[one + 0] == o[0]);
    assert(s[two + 0] == p[0]);
}

/// Precedence and associativity: in `left first middle second right`,
/// `*` and `/` bind more tightly than `+` and `-`, and operators that bind
/// alike group from the left.
pub proof fn lemma_chain(
    left: Formula,
    first: Operator,
    middle: Formula,
    second: Operator,
    right: Formula,
)
    requires
        well_formed(left),
        well_formed(middle),
        well_formed(right),
    ensures
        parse_whole(chain_text(left, first, middle, second, right)) == Ok::<Formula, SyntaxFault>(
            chained(left, first, middle, second, right),
        ),
{
    let s = chain_text(left, first, middle, second, right);
    let one = rendered(left).len() as int;
    let two = one + 1 + rendered(middle).len();
    lemma_chain_parts(left, first, middle, second, right);
    lemma_factor_read(s, 0, left);
    lemma_factor_read(s, one + 1, middle);
    lemma_factor_read(s, two + 1, right);
    lemma_chain_read(
        s,
        left,
        rendered(left).len(),
        first,
        middle,
        rendered(middle).len(),
        second,
        right,
        rendered(right).len(),
    );
    lemma_end(s, s.len() as int);
}

} // verus!
