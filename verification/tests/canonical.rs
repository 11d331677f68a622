use formula::{parse_formula, Expr, Operator};

// The text of a tree without whitespace: an operation in parentheses, a call
// with commas between its arguments.
fn text(tree: &Expr) -> String {
    match tree {
        Expr::Literal(numeral) => numeral.clone(),
        Expr::Identifier(name) => name.clone(),
        Expr::FunctionCall(name, args) => {
            let args: Vec<String> = args.iter().map(text).collect();
            format!("{}({})", name, args.join(","))
        }
        Expr::BinaryOp { op, left, right } => {
            format!("({}{}{})", text(left), op.to_char(), text(right))
        }
    }
}

fn lit(s: &str) -> Expr {
    Expr::Literal(s.to_string())
}

fn id(s: &str) -> Expr {
    Expr::Identifier(s.to_string())
}

fn call(name: &str, args: Vec<Expr>) -> Expr {
    Expr::FunctionCall(name.to_string(), args)
}

fn bin(op: Operator, left: Expr, right: Expr) -> Expr {
    Expr::BinaryOp { op, left: Box::new(left), right: Box::new(right) }
}

const OPERATORS: [Operator; 4] = [Operator::Add, Operator::Sub, Operator::Mul, Operator::Div];

fn leaves() -> Vec<Expr> {
    vec![
        lit("1"),
        lit("-2.5"),
        lit("+3e4"),
        lit(".5"),
        lit("6."),
        lit("7.25E-3"),
        id("x"),
        id("_"),
        id("e"),
        id("e5"),
        id("inf"),
        id("total_2"),
        call("f", vec![]),
        call("max", vec![lit("1"), id("a")]),
    ]
}

fn is_product(op: Operator) -> bool {
    op == Operator::Mul || op == Operator::Div
}

#[test]
fn leaves_come_back_from_their_text() {
    for leaf in leaves() {
        assert_eq!(parse_formula(&text(&leaf)), Ok(leaf.clone()), "on {:?}", text(&leaf));
    }
}

#[test]
fn operations_come_back_from_their_text() {
    for op in OPERATORS {
        for left in leaves() {
            for right in leaves() {
                let tree = bin(op, left.clone(), right);
                assert_eq!(parse_formula(&text(&tree)), Ok(tree.clone()), "on {:?}", text(&tree));
            }
        }
    }
}

#[test]
fn nested_trees_come_back_from_their_text() {
    let mut trees = leaves();
    for round in 0..3 {
        let mut next = Vec::new();
        for (k, tree) in trees.iter().enumerate() {
            let other = &trees[(k * 7 + round) % trees.len()];
            let op = OPERATORS[(k + round) % 4];
            next.push(bin(op, tree.clone(), other.clone()));
            next.push(call("g", vec![other.clone(), tree.clone(), lit("0")]));
        }
        for tree in &next {
            assert_eq!(parse_formula(&text(tree)), Ok(tree.clone()), "on {:?}", text(tree));
        }
        trees = next.into_iter().step_by(5).collect();
    }
}

#[test]
fn a_parsed_text_can_be_replaced_by_its_canonical_text() {
    for formula in [
        " 2 + 3 * 4 ",
        "(2+3)*4",
        "10 - 3 - 2",
        "a*b + c/d - e",
        "max( a , min(b, 2) ) / -1.5e3",
        "((((x))))",
        "f ( )",
    ] {
        let tree = parse_formula(formula).unwrap();
        assert_eq!(parse_formula(&text(&tree)), Ok(tree), "on {:?}", formula);
    }
}

#[test]
fn chains_group_by_precedence_and_from_the_left() {
    let operands = leaves();
    for first in OPERATORS {
        for second in OPERATORS {
            for (k, left) in operands.iter().enumerate() {
                let middle = &operands[(k + 3) % operands.len()];
                let right = &operands[(k + 8) % operands.len()];
                let chain = format!(
                    "{}{}{}{}{}",
                    text(left),
                    first.to_char(),
                    text(middle),
                    second.to_char(),
                    text(right)
                );
                let expected = if is_product(second) && !is_product(first) {
                    bin(first, left.clone(), bin(second, middle.clone(), right.clone()))
                } else {
                    bin(second, bin(first, left.clone(), middle.clone()), right.clone())
                };
                assert_eq!(parse_formula(&chain), Ok(expected), "on {:?}", chain);
            }
        }
    }
}

#[test]
fn chains_of_parenthesised_operands() {
    let a = bin(Operator::Add, lit("1"), lit("2"));
    let b = bin(Operator::Sub, id("x"), lit("-3"));
    let c = bin(Operator::Div, id("y"), id("z"));
    for first in OPERATORS {
        for second in OPERATORS {
            let chain =
                format!("{}{}{}{}{}", text(&a), first.to_char(), text(&b), second.to_char(), text(&c));
            let expected = if is_product(second) && !is_product(first) {
                bin(first, a.clone(), bin(second, b.clone(), c.clone()))
            } else {
                bin(second, bin(first, a.clone(), b.clone()), c.clone())
            };
            assert_eq!(parse_formula(&chain), Ok(expected), "on {:?}", chain);
        }
    }
}
