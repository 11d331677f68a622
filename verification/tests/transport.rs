use formula::payload::{decode, encode, find, Field, MalformedAstPayload, Payload};
use formula::{evaluate, parse_formula, BinaryFn, Expr, Operation, Operator, UnaryFn};

fn kernel(operation: Operation) -> u64 {
    let x = match operation {
        Operation::Numeral(text) => text.parse::<f64>().unwrap_or(f64::NAN),
        Operation::Unary(f, a) => {
            let a = f64::from_bits(a);
            match f {
                UnaryFn::Sqrt => a.sqrt(),
                UnaryFn::Abs => a.abs(),
                UnaryFn::Round => a.round(),
                UnaryFn::Ceil => a.ceil(),
                UnaryFn::Floor => a.floor(),
                UnaryFn::Sin => a.sin(),
                UnaryFn::Cos => a.cos(),
                UnaryFn::Tan => a.tan(),
                UnaryFn::Ln => a.ln(),
                UnaryFn::Log10 => a.log10(),
                UnaryFn::Exp => a.exp(),
            }
        }
        Operation::Binary(f, a, b) => {
            let a = f64::from_bits(a);
            let b = f64::from_bits(b);
            match f {
                BinaryFn::Add => a + b,
                BinaryFn::Sub => a - b,
                BinaryFn::Mul => a * b,
                BinaryFn::Div => a / b,
                BinaryFn::Pow => a.powf(b),
                BinaryFn::Max => a.max(b),
                BinaryFn::Min => a.min(b),
            }
        }
    };
    x.to_bits()
}

fn text(s: &str) -> Payload {
    Payload::Text(s.to_string())
}

fn number(s: &str) -> Payload {
    Payload::Number(s.to_string())
}

fn record(fields: Vec<(&str, Payload)>) -> Payload {
    Payload::Record(
        fields.into_iter().map(|(name, value)| Field { name: name.to_string(), value }).collect(),
    )
}

fn lit(s: &str) -> Expr {
    Expr::Literal(s.to_string())
}

fn id(s: &str) -> Expr {
    Expr::Identifier(s.to_string())
}

#[test]
fn literal_shape() {
    assert_eq!(encode(&lit("2.5")), record(vec![("literal", number("2.5"))]));
    assert_eq!(decode(&record(vec![("literal", number("2.5"))])), Ok(lit("2.5")));
}

#[test]
fn identifier_shape() {
    assert_eq!(encode(&id("x")), record(vec![("identifier", text("x"))]));
    assert_eq!(decode(&record(vec![("identifier", text("x"))])), Ok(id("x")));
}

#[test]
fn call_shape() {
    let tree = Expr::FunctionCall("max".to_string(), vec![lit("1"), id("a")]);
    let payload = record(vec![(
        "call",
        record(vec![
            ("name", text("max")),
            (
                "args",
                Payload::List(vec![
                    record(vec![("literal", number("1"))]),
                    record(vec![("identifier", text("a"))]),
                ]),
            ),
        ]),
    )]);
    assert_eq!(encode(&tree), payload);
    assert_eq!(decode(&payload), Ok(tree));
}

#[test]
fn call_without_arguments() {
    let tree = Expr::FunctionCall("f".to_string(), vec![]);
    let payload =
        record(vec![("call", record(vec![("name", text("f")), ("args", Payload::List(vec![]))]))]);
    assert_eq!(encode(&tree), payload);
    assert_eq!(decode(&payload), Ok(tree));
}

#[test]
fn binary_shape() {
    for (op, symbol) in
        [(Operator::Add, "+"), (Operator::Sub, "-"), (Operator::Mul, "*"), (Operator::Div, "/")]
    {
        let tree = Expr::BinaryOp { op, left: Box::new(id("a")), right: Box::new(lit("2")) };
        let payload = record(vec![(
            "binaryOp",
            record(vec![
                ("op", text(symbol)),
                ("left", record(vec![("identifier", text("a"))])),
                ("right", record(vec![("literal", number("2"))])),
            ]),
        )]);
        assert_eq!(encode(&tree), payload);
        assert_eq!(decode(&payload), Ok(tree));
    }
}

#[test]
fn members_in_any_order() {
    let payload = record(vec![(
        "binaryOp",
        record(vec![
            ("right", record(vec![("literal", number("2"))])),
            ("left", record(vec![("identifier", text("a"))])),
            ("op", text("-")),
        ]),
    )]);
    assert_eq!(
        decode(&payload),
        Ok(Expr::BinaryOp {
            op: Operator::Sub,
            left: Box::new(id("a")),
            right: Box::new(lit("2"))
        })
    );
    let payload =
        record(vec![("call", record(vec![("args", Payload::List(vec![])), ("name", text("f"))]))]);
    assert_eq!(decode(&payload), Ok(Expr::FunctionCall("f".to_string(), vec![])));
}

#[test]
fn round_trip_of_parsed_formulas() {
    for formula in ["1", "x", "2+3*4", "max(a, min(b, 2), f())", "(a-b)/(c--1.5e3)", "pow(x,2)"] {
        let tree = parse_formula(formula).unwrap();
        assert_eq!(decode(&encode(&tree)), Ok(tree), "on {:?}", formula);
    }
}

#[test]
fn a_tree_has_the_same_value_after_its_payload() {
    let keys = || vec!["a".to_string(), "b".to_string()];
    let values = || vec![3.5f64.to_bits(), (-2.0f64).to_bits()];
    for formula in [
        "1",
        "a",
        "a+b*2",
        "(a-b)/(a+b)",
        "max(a, b, 0) - min(a, b)",
        "pow(a, 2) + sqrt(abs(b))",
        "a/0",
        "missing + 1",
        "nope(a)",
        "sqrt(a, b)",
    ] {
        let tree = parse_formula(formula).unwrap();
        let back = decode(&encode(&tree)).unwrap();
        assert_eq!(
            evaluate(&back, keys(), values(), &kernel),
            evaluate(&tree, keys(), values(), &kernel),
            "on {:?}",
            formula
        );
    }
    let tree = parse_formula("a+b*2").unwrap();
    let back = decode(&encode(&tree)).unwrap();
    assert_eq!(evaluate(&back, keys(), values(), &kernel), Ok((-0.5f64).to_bits()));
}

#[test]
fn what_is_no_record_is_malformed() {
    for payload in [
        Payload::Null,
        Payload::Bool(true),
        number("1"),
        text("x"),
        Payload::List(vec![]),
        Payload::List(vec![record(vec![("literal", number("1"))])]),
    ] {
        assert_eq!(decode(&payload), Err(MalformedAstPayload));
    }
}

#[test]
fn wrong_tags_are_malformed() {
    assert_eq!(decode(&record(vec![])), Err(MalformedAstPayload));
    assert_eq!(decode(&record(vec![("Literal", number("1"))])), Err(MalformedAstPayload));
    assert_eq!(decode(&record(vec![("number", number("1"))])), Err(MalformedAstPayload));
    assert_eq!(
        decode(&record(vec![("literal", number("1")), ("identifier", text("x"))])),
        Err(MalformedAstPayload)
    );
    assert_eq!(
        decode(&record(vec![("literal", number("1")), ("literal", number("1"))])),
        Err(MalformedAstPayload)
    );
}

#[test]
fn wrong_bodies_are_malformed() {
    assert_eq!(decode(&record(vec![("literal", text("1"))])), Err(MalformedAstPayload));
    assert_eq!(decode(&record(vec![("literal", Payload::Null)])), Err(MalformedAstPayload));
    assert_eq!(decode(&record(vec![("identifier", number("1"))])), Err(MalformedAstPayload));
    assert_eq!(decode(&record(vec![("call", text("f"))])), Err(MalformedAstPayload));
    assert_eq!(decode(&record(vec![("binaryOp", Payload::List(vec![]))])), Err(MalformedAstPayload));
}

#[test]
fn wrong_call_members_are_malformed() {
    let args = || Payload::List(vec![]);
    let cases = vec![
        record(vec![]),
        record(vec![("name", text("f"))]),
        record(vec![("args", args())]),
        record(vec![("name", text("f")), ("name", text("f"))]),
        record(vec![("name", text("f")), ("args", args()), ("more", Payload::Null)]),
        record(vec![("name", number("1")), ("args", args())]),
        record(vec![("name", text("f")), ("args", text("x"))]),
        record(vec![("name", text("f")), ("arguments", args())]),
        record(vec![("name", text("f")), ("args", Payload::List(vec![Payload::Null]))]),
        record(vec![(
            "name",
            text("f"),
        ), (
            "args",
            Payload::List(vec![record(vec![("literal", number("1"))]), text("x")]),
        )]),
    ];
    for body in cases {
        assert_eq!(decode(&record(vec![("call", body)])), Err(MalformedAstPayload));
    }
}

#[test]
fn wrong_operation_members_are_malformed() {
    let leaf = || record(vec![("literal", number("1"))]);
    let cases = vec![
        record(vec![]),
        record(vec![("op", text("+")), ("left", leaf())]),
        record(vec![("op", text("+")), ("left", leaf()), ("left", leaf())]),
        record(vec![("op", text("+")), ("left", leaf()), ("right", leaf()), ("x", leaf())]),
        record(vec![("op", text("^")), ("left", leaf()), ("right", leaf())]),
        record(vec![("op", text("")), ("left", leaf()), ("right", leaf())]),
        record(vec![("op", text("++")), ("left", leaf()), ("right", leaf())]),
        record(vec![("op", number("1")), ("left", leaf()), ("right", leaf())]),
        record(vec![("op", text("+")), ("left", Payload::Null), ("right", leaf())]),
        record(vec![("op", text("+")), ("left", leaf()), ("right", text("1"))]),
    ];
    for body in cases {
        assert_eq!(decode(&record(vec![("binaryOp", body)])), Err(MalformedAstPayload));
    }
}

#[test]
fn find_gives_the_first_member_of_a_name() {
    let fields = vec![
        Field { name: "a".to_string(), value: Payload::Null },
        Field { name: "b".to_string(), value: Payload::Null },
        Field { name: "a".to_string(), value: Payload::Bool(true) },
    ];
    assert_eq!(find(&fields, "a"), Some(0));
    assert_eq!(find(&fields, "b"), Some(1));
    assert_eq!(find(&fields, "c"), None);
    assert_eq!(find(&Vec::new(), "a"), None);
}
