use formula::grammar::MAX_NESTING;
use formula::parser::{find_excess, identifier_end, number_end};
use formula::{parse_formula, Expr, Operator, SyntaxError};
use nom::number::complete::recognize_float;

fn lit(text: &str) -> Expr {
    Expr::Literal(text.to_string())
}

fn id(text: &str) -> Expr {
    Expr::Identifier(text.to_string())
}

fn call(name: &str, args: Vec<Expr>) -> Expr {
    Expr::FunctionCall(name.to_string(), args)
}

fn bin(op: Operator, left: Expr, right: Expr) -> Expr {
    Expr::BinaryOp { op, left: Box::new(left), right: Box::new(right) }
}

fn number_len(text: &str) -> usize {
    let chars: Vec<char> = text.chars().collect();
    number_end(&chars, 0)
}

fn identifier_len(text: &str) -> usize {
    let chars: Vec<char> = text.chars().collect();
    identifier_end(&chars, 0)
}

fn unexpected(position: usize, remainder: &str) -> SyntaxError {
    SyntaxError::UnexpectedInput { position, remainder: remainder.to_string() }
}

#[test]
fn numbers_with_all_their_parts() {
    assert_eq!(number_len("1"), 1);
    assert_eq!(number_len("-2.5"), 4);
    assert_eq!(number_len("3e4"), 3);
    assert_eq!(number_len("+7"), 2);
    assert_eq!(number_len("12.50e-3"), 8);
    assert_eq!(number_len("6.02E+23"), 8);
    assert_eq!(number_len("5."), 2);
    assert_eq!(number_len(".5"), 2);
    assert_eq!(number_len("-.5e1"), 5);
    assert_eq!(number_len("1.e2"), 4);
    assert_eq!(number_len("007"), 3);
}

#[test]
fn number_stops_where_it_ends() {
    assert_eq!(number_len("12+3"), 2);
    assert_eq!(number_len("1.2.3"), 3);
    assert_eq!(number_len("1 2"), 1);
    assert_eq!(number_len("2x"), 1);
    assert_eq!(number_len("--1"), 0);
}

#[test]
fn incomplete_exponent_is_left_out() {
    assert_eq!(number_len("1e"), 1);
    assert_eq!(number_len("1e+"), 1);
    assert_eq!(number_len("1.5E-x"), 3);
}

#[test]
fn no_number_without_a_digit() {
    assert_eq!(number_len(""), 0);
    assert_eq!(number_len("."), 0);
    assert_eq!(number_len("-"), 0);
    assert_eq!(number_len("+."), 0);
    assert_eq!(number_len("e5"), 0);
    assert_eq!(number_len("x1"), 0);
    assert_eq!(number_len(" 1"), 0);
    assert_eq!(number_len("inf"), 0);
    assert_eq!(number_len("nan"), 0);
}

#[test]
fn number_is_what_nom_recognizes() {
    let samples = [
        "0", "1", "42", "-2.5", "+2.5", "3e4", "3E4", "3e+4", "3e-4", "1.", ".5", "-.5", "1.e2",
        "12.50e-3", "007", "1.2.3", "12+3", "2x", "1 2", "9)", "8,", "", ".", "-", "+", "+.",
        "e5", "x", "(", " 1", "--1", "1-1", "1e5e5", "1.5.e3", "0.0", "-0.0", "1_000", "٣",
    ];
    for sample in samples {
        let expected = match recognize_float::<&str, nom::error::Error<&str>>(sample) {
            Ok((_, matched)) => matched.chars().count(),
            Err(_) => 0,
        };
        assert_eq!(number_len(sample), expected, "on {:?}", sample);
    }
}

#[test]
fn identifiers() {
    assert_eq!(identifier_len("x"), 1);
    assert_eq!(identifier_len("_"), 1);
    assert_eq!(identifier_len("_a1"), 3);
    assert_eq!(identifier_len("total_2024 + 1"), 10);
    assert_eq!(identifier_len("a-b"), 1);
    assert_eq!(identifier_len("a.b"), 1);
    assert_eq!(identifier_len("1a"), 0);
    assert_eq!(identifier_len(""), 0);
    assert_eq!(identifier_len(" a"), 0);
    assert_eq!(identifier_len("été"), 0);
    assert_eq!(identifier_len("caf\u{e9}"), 3);
}

#[test]
fn literal_keeps_its_numeral() {
    assert_eq!(parse_formula("-2.50"), Ok(lit("-2.50")));
    assert_eq!(parse_formula(" 3e4 "), Ok(lit("3e4")));
    assert_eq!(parse_formula("+7"), Ok(lit("+7")));
}

#[test]
fn sign_belongs_to_the_number_after_an_operator() {
    assert_eq!(parse_formula("1-2"), Ok(bin(Operator::Sub, lit("1"), lit("2"))));
    assert_eq!(parse_formula("1--2"), Ok(bin(Operator::Sub, lit("1"), lit("-2"))));
    assert_eq!(parse_formula("1+-2"), Ok(bin(Operator::Add, lit("1"), lit("-2"))));
    assert_eq!(parse_formula("1 - -2"), Ok(bin(Operator::Sub, lit("1"), lit("-2"))));
    assert_eq!(parse_formula("2*-3"), Ok(bin(Operator::Mul, lit("2"), lit("-3"))));
}

#[test]
fn no_unary_minus() {
    assert_eq!(parse_formula("-x"), Err(SyntaxError::ExpectedExpression { position: 0 }));
    assert_eq!(parse_formula("-(1)"), Err(SyntaxError::ExpectedExpression { position: 0 }));
    assert_eq!(parse_formula("- 2"), Err(SyntaxError::ExpectedExpression { position: 0 }));
    assert_eq!(parse_formula("1 - x"), Ok(bin(Operator::Sub, lit("1"), id("x"))));
    assert_eq!(parse_formula("1 + -x"), Err(unexpected(2, "+ -x")));
}

#[test]
fn all_four_operators() {
    assert_eq!(parse_formula("a+b"), Ok(bin(Operator::Add, id("a"), id("b"))));
    assert_eq!(parse_formula("a-b"), Ok(bin(Operator::Sub, id("a"), id("b"))));
    assert_eq!(parse_formula("a*b"), Ok(bin(Operator::Mul, id("a"), id("b"))));
    assert_eq!(parse_formula("a/b"), Ok(bin(Operator::Div, id("a"), id("b"))));
}

#[test]
fn mixed_precedence() {
    assert_eq!(
        parse_formula("a*b+c/d-e"),
        Ok(bin(
            Operator::Sub,
            bin(
                Operator::Add,
                bin(Operator::Mul, id("a"), id("b")),
                bin(Operator::Div, id("c"), id("d"))
            ),
            id("e")
        ))
    );
    assert_eq!(
        parse_formula("a/b*c"),
        Ok(bin(Operator::Mul, bin(Operator::Div, id("a"), id("b")), id("c")))
    );
}

#[test]
fn parentheses_group() {
    assert_eq!(
        parse_formula("a-(b-c)"),
        Ok(bin(Operator::Sub, id("a"), bin(Operator::Sub, id("b"), id("c"))))
    );
    assert_eq!(parse_formula("((x))"), Ok(id("x")));
    assert_eq!(parse_formula(" ( 1 ) "), Ok(lit("1")));
}

#[test]
fn whitespace_means_nothing_between_tokens() {
    let compact = parse_formula("max(a,b+1)*(c-2)");
    assert!(compact.is_ok());
    assert_eq!(parse_formula(" max ( a , b + 1 ) * ( c - 2 ) "), compact);
    assert_eq!(parse_formula("\tmax(\na,\r\nb+1)\n*\t(c -2)"), compact);
}

#[test]
fn whitespace_does_not_join_or_split_tokens() {
    assert_eq!(parse_formula("a b"), Err(unexpected(2, "b")));
    assert_eq!(parse_formula("1 2"), Err(unexpected(2, "2")));
    assert_eq!(parse_formula("1. 5"), Err(unexpected(3, "5")));
    assert_eq!(parse_formula("1 e5"), Err(unexpected(2, "e5")));
}

#[test]
fn calls() {
    assert_eq!(parse_formula("f()"), Ok(call("f", vec![])));
    assert_eq!(parse_formula("f( )"), Ok(call("f", vec![])));
    assert_eq!(parse_formula("f (x)"), Ok(call("f", vec![id("x")])));
    assert_eq!(
        parse_formula("f(g(1), h(2, 3))"),
        Ok(call("f", vec![call("g", vec![lit("1")]), call("h", vec![lit("2"), lit("3")])]))
    );
    assert_eq!(
        parse_formula("pow(a+1, 2)"),
        Ok(call("pow", vec![bin(Operator::Add, id("a"), lit("1")), lit("2")]))
    );
}

#[test]
fn identifier_before_parenthesis_is_a_call() {
    assert_eq!(
        parse_formula("a(b)*c"),
        Ok(bin(Operator::Mul, call("a", vec![id("b")]), id("c")))
    );
    assert_eq!(parse_formula("2(3)"), Err(unexpected(1, "(3)")));
    assert_eq!(parse_formula("(a)(b)"), Err(unexpected(3, "(b)")));
}

#[test]
fn unfinished_call_leaves_its_parenthesis() {
    assert_eq!(parse_formula("f(1"), Err(unexpected(1, "(1")));
    assert_eq!(parse_formula("f(1,)"), Err(unexpected(1, "(1,)")));
    assert_eq!(parse_formula("f(,1)"), Err(unexpected(1, "(,1)")));
    assert_eq!(parse_formula("f(1 2)"), Err(unexpected(1, "(1 2)")));
}

#[test]
fn nothing_to_read() {
    assert_eq!(parse_formula(""), Err(SyntaxError::ExpectedExpression { position: 0 }));
    assert_eq!(parse_formula("   "), Err(SyntaxError::ExpectedExpression { position: 3 }));
    assert_eq!(parse_formula("  *2"), Err(SyntaxError::ExpectedExpression { position: 2 }));
    assert_eq!(parse_formula(")"), Err(SyntaxError::ExpectedExpression { position: 0 }));
    assert_eq!(parse_formula("(1+2"), Err(SyntaxError::ExpectedExpression { position: 0 }));
    assert_eq!(parse_formula("()"), Err(SyntaxError::ExpectedExpression { position: 0 }));
}

#[test]
fn trailing_input_is_reported_with_its_position() {
    assert_eq!(parse_formula("1+"), Err(unexpected(1, "+")));
    assert_eq!(parse_formula("1 + "), Err(unexpected(2, "+ ")));
    assert_eq!(parse_formula("1+2)"), Err(unexpected(3, ")")));
    assert_eq!(parse_formula("a $ b"), Err(unexpected(2, "$ b")));
    assert_eq!(parse_formula("2^3"), Err(unexpected(1, "^3")));
    assert_eq!(parse_formula("1e"), Err(unexpected(1, "e")));
    assert_eq!(parse_formula("x = 1"), Err(unexpected(2, "= 1")));
}

#[test]
fn positions_count_characters() {
    assert_eq!(parse_formula("a é"), Err(unexpected(2, "é")));
    assert_eq!(parse_formula("a+1 €€ b"), Err(unexpected(4, "€€ b")));
}

#[test]
fn names_that_look_like_special_doubles_are_identifiers() {
    assert_eq!(parse_formula("inf"), Ok(id("inf")));
    assert_eq!(parse_formula("nan + 1"), Ok(bin(Operator::Add, id("nan"), lit("1"))));
    assert_eq!(parse_formula("infinity"), Ok(id("infinity")));
    assert_eq!(parse_formula("e5"), Ok(id("e5")));
}

#[test]
fn nesting_up_to_the_limit() {
    let text = format!("{}1{}", "(".repeat(MAX_NESTING), ")".repeat(MAX_NESTING));
    assert_eq!(parse_formula(&text), Ok(lit("1")));
}

#[test]
fn nesting_beyond_the_limit() {
    let text = format!("{}1{}", "(".repeat(MAX_NESTING + 1), ")".repeat(MAX_NESTING + 1));
    assert_eq!(parse_formula(&text), Err(SyntaxError::NestingTooDeep { position: MAX_NESTING }));
    let calls = format!("{}1{}", "f(".repeat(MAX_NESTING + 1), ")".repeat(MAX_NESTING + 1));
    assert_eq!(
        parse_formula(&calls),
        Err(SyntaxError::NestingTooDeep { position: 2 * MAX_NESTING + 1 })
    );
}

#[test]
fn closed_parentheses_do_not_count() {
    let text = vec!["(1)"; 4 * MAX_NESTING].join("+");
    assert!(parse_formula(&text).is_ok());
    let chars: Vec<char> = "(()(()))(".chars().collect();
    assert_eq!(find_excess(&chars, 2), Some(4));
    assert_eq!(find_excess(&chars, 3), None);
    assert_eq!(find_excess(&chars, 0), Some(0));
    let stray: Vec<char> = ")))((".chars().collect();
    assert_eq!(find_excess(&stray, 1), Some(4));
}

#[test]
fn long_chains_fold_to_the_left() {
    let text = vec!["1"; 50].join("-");
    let mut expected = lit("1");
    for _ in 1..50 {
        expected = bin(Operator::Sub, expected, lit("1"));
    }
    assert_eq!(parse_formula(&text), Ok(expected));
}

#[test]
fn clone_gives_an_equal_tree() {
    let tree = parse_formula("max(a, 2*(b+1), f())").unwrap();
    assert_eq!(tree.clone(), tree);
}

#[test]
fn operators_and_their_characters() {
    for op in [Operator::Add, Operator::Sub, Operator::Mul, Operator::Div] {
        assert_eq!(Operator::from_char(op.to_char()), Some(op));
    }
    assert_eq!(Operator::Add.to_char(), '+');
    assert_eq!(Operator::Sub.to_char(), '-');
    assert_eq!(Operator::Mul.to_char(), '*');
    assert_eq!(Operator::Div.to_char(), '/');
    assert_eq!(Operator::from_char('^'), None);
}
