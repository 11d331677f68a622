use std::cell::RefCell;

use formula::compute::{context_of, write_all};
use formula::eval::{combine, fold};
use formula::kernel::{ask, zero, INFINITY, NEGATIVE_INFINITY, NEGATIVE_ZERO, ZERO};
use formula::{
    evaluate, evaluate_ast, parse_formula, BinaryFn, Builtin, EvalError, Operation, Operator,
    UnaryFn,
};

fn kernel(operation: Operation) -> u64 {
    let x = match operation {
        Operation::Numeral(text) => text.parse::<f64>().unwrap_or(f64::NAN),
        Operation::Unary(f, a) => {
            let a = f64::from_bits(a);
            match f {
                UnaryFn::Sqrt => a.sqrt(),
                UnaryFn::Abs => a.abs(),
                UnaryFn::Round => a.round(),
                UnaryFn::Ceil => a.ceil(),
                UnaryFn::Floor => a.floor(),
                UnaryFn::Sin => a.sin(),
                UnaryFn::Cos => a.cos(),
                UnaryFn::Tan => a.tan(),
                UnaryFn::Ln => a.ln(),
                UnaryFn::Log10 => a.log10(),
                UnaryFn::Exp => a.exp(),
            }
        }
        Operation::Binary(f, a, b) => {
            let a = f64::from_bits(a);
            let b = f64::from_bits(b);
            match f {
                BinaryFn::Add => a + b,
                BinaryFn::Sub => a - b,
                BinaryFn::Mul => a * b,
                BinaryFn::Div => a / b,
                BinaryFn::Pow => a.powf(b),
                BinaryFn::Max => a.max(b),
                BinaryFn::Min => a.min(b),
            }
        }
    };
    x.to_bits()
}

fn b(x: f64) -> u64 {
    x.to_bits()
}

fn asked(text: &str) -> (Result<u64, EvalError>, Vec<Operation>) {
    let log: RefCell<Vec<Operation>> = RefCell::new(Vec::new());
    let recording = |operation: Operation| {
        let copy = match &operation {
            Operation::Numeral(numeral) => Operation::Numeral(numeral.clone()),
            Operation::Unary(f, x) => Operation::Unary(*f, *x),
            Operation::Binary(f, x, y) => Operation::Binary(*f, *x, *y),
        };
        log.borrow_mut().push(copy);
        kernel(operation)
    };
    let ast = parse_formula(text).unwrap();
    let context = context_of(&vec!["x".to_string()], &vec![b(4.0)]);
    let r = evaluate_ast(&ast, &context, &recording);
    (r, log.into_inner())
}

#[test]
fn bit_patterns_of_the_special_doubles() {
    assert_eq!(ZERO, 0.0f64.to_bits());
    assert_eq!(NEGATIVE_ZERO, (-0.0f64).to_bits());
    assert_eq!(INFINITY, f64::INFINITY.to_bits());
    assert_eq!(NEGATIVE_INFINITY, f64::NEG_INFINITY.to_bits());
}

#[test]
fn zero_is_what_compares_equal_to_zero() {
    let samples = [
        0.0,
        -0.0,
        1.0,
        -1.0,
        f64::MIN_POSITIVE,
        -f64::MIN_POSITIVE,
        5e-324,
        -5e-324,
        f64::INFINITY,
        f64::NEG_INFINITY,
        f64::NAN,
        f64::MAX,
        f64::EPSILON,
    ];
    for x in samples {
        assert_eq!(zero(x.to_bits()), x == 0.0, "on {:?}", x);
    }
}

#[test]
fn ask_hands_the_operation_to_the_kernel() {
    assert_eq!(ask(&kernel, Operation::Numeral("2.5".to_string())), b(2.5));
    assert_eq!(ask(&kernel, Operation::Unary(UnaryFn::Sqrt, b(9.0))), b(3.0));
    assert_eq!(ask(&kernel, Operation::Binary(BinaryFn::Sub, b(9.0), b(3.0))), b(6.0));
}

#[test]
fn combine_applies_the_operator() {
    assert_eq!(combine(Operator::Add, b(6.0), b(3.0), &kernel), b(9.0));
    assert_eq!(combine(Operator::Sub, b(6.0), b(3.0), &kernel), b(3.0));
    assert_eq!(combine(Operator::Mul, b(6.0), b(3.0), &kernel), b(18.0));
    assert_eq!(combine(Operator::Div, b(6.0), b(3.0), &kernel), b(2.0));
}

#[test]
fn combine_divides_safely() {
    assert_eq!(combine(Operator::Div, b(6.0), b(0.0), &kernel), ZERO);
    assert_eq!(combine(Operator::Div, b(6.0), b(-0.0), &kernel), ZERO);
    assert_eq!(combine(Operator::Div, b(-6.0), b(0.0), &kernel), ZERO);
    assert_eq!(combine(Operator::Div, b(0.0), b(0.0), &kernel), ZERO);
    assert_eq!(combine(Operator::Div, b(f64::NAN), b(0.0), &kernel), ZERO);
    assert_eq!(combine(Operator::Div, b(f64::INFINITY), b(-0.0), &kernel), ZERO);
}

#[test]
fn division_by_zero_never_reaches_the_kernel() {
    let (r, log) = asked("x/0");
    assert_eq!(r, Ok(ZERO));
    assert_eq!(log, vec![Operation::Numeral("0".to_string())]);
}

#[test]
fn only_division_is_safe() {
    assert!(f64::from_bits(combine(Operator::Mul, b(f64::INFINITY), b(0.0), &kernel)).is_nan());
    assert_eq!(combine(Operator::Add, b(6.0), b(0.0), &kernel), b(6.0));
    assert_eq!(combine(Operator::Sub, b(6.0), b(0.0), &kernel), b(6.0));
}

#[test]
fn fold_goes_from_the_left() {
    assert_eq!(fold(BinaryFn::Sub, b(10.0), &vec![b(1.0), b(2.0), b(3.0)], &kernel), b(4.0));
    assert_eq!(fold(BinaryFn::Div, b(64.0), &vec![b(2.0), b(4.0)], &kernel), b(8.0));
    assert_eq!(fold(BinaryFn::Max, b(7.0), &vec![], &kernel), b(7.0));
}

#[test]
fn max_and_min_start_from_the_infinities() {
    let (r, log) = asked("max(1, x)");
    assert_eq!(r, Ok(b(4.0)));
    assert_eq!(
        log,
        vec![
            Operation::Numeral("1".to_string()),
            Operation::Binary(BinaryFn::Max, NEGATIVE_INFINITY, b(1.0)),
            Operation::Binary(BinaryFn::Max, b(1.0), b(4.0)),
        ]
    );
    let (r, log) = asked("min(x)");
    assert_eq!(r, Ok(b(4.0)));
    assert_eq!(log, vec![Operation::Binary(BinaryFn::Min, INFINITY, b(4.0))]);
}

#[test]
fn operands_are_evaluated_from_left_to_right() {
    let (r, log) = asked("1 - 2 * 3");
    assert_eq!(r, Ok(b(-5.0)));
    assert_eq!(
        log,
        vec![
            Operation::Numeral("1".to_string()),
            Operation::Numeral("2".to_string()),
            Operation::Numeral("3".to_string()),
            Operation::Binary(BinaryFn::Mul, b(2.0), b(3.0)),
            Operation::Binary(BinaryFn::Sub, b(1.0), b(6.0)),
        ]
    );
}

#[test]
fn right_operand_is_evaluated_although_the_call_fails_later() {
    let (r, log) = asked("nope(1, 2)");
    assert_eq!(r, Err(EvalError::UnknownFunctionOrArity("nope".to_string(), 2)));
    assert_eq!(
        log,
        vec![Operation::Numeral("1".to_string()), Operation::Numeral("2".to_string())]
    );
}

#[test]
fn evaluation_stops_at_the_first_failure() {
    let (r, log) = asked("f(1, y, 2) + 3");
    assert_eq!(r, Err(EvalError::UndefinedIdentifier("y".to_string())));
    assert_eq!(log, vec![Operation::Numeral("1".to_string())]);
}

#[test]
fn every_built_in_name() {
    let table = [
        ("pow", Builtin::Pow),
        ("sqrt", Builtin::Unary(UnaryFn::Sqrt)),
        ("max", Builtin::Max),
        ("min", Builtin::Min),
        ("abs", Builtin::Unary(UnaryFn::Abs)),
        ("round", Builtin::Unary(UnaryFn::Round)),
        ("ceil", Builtin::Unary(UnaryFn::Ceil)),
        ("floor", Builtin::Unary(UnaryFn::Floor)),
        ("sin", Builtin::Unary(UnaryFn::Sin)),
        ("cos", Builtin::Unary(UnaryFn::Cos)),
        ("tan", Builtin::Unary(UnaryFn::Tan)),
        ("log", Builtin::Unary(UnaryFn::Ln)),
        ("log10", Builtin::Unary(UnaryFn::Log10)),
        ("exp", Builtin::Unary(UnaryFn::Exp)),
    ];
    for (name, builtin) in table {
        assert_eq!(Builtin::lookup(name), Some(builtin), "on {:?}", name);
    }
    for name in ["", "Pow", "POW", "pow ", "ln", "log2", "sqr", "sqrtt", "maximum", "e"] {
        assert_eq!(Builtin::lookup(name), None, "on {:?}", name);
    }
}

#[test]
fn arities() {
    for count in 0..5 {
        assert_eq!(Builtin::Pow.accepts(count), count == 2);
        assert_eq!(Builtin::Max.accepts(count), count >= 1);
        assert_eq!(Builtin::Min.accepts(count), count >= 1);
        assert_eq!(Builtin::Unary(UnaryFn::Sin).accepts(count), count == 1);
        assert_eq!(Builtin::dispatch("pow", count), (count == 2).then_some(Builtin::Pow));
        assert_eq!(Builtin::dispatch("min", count), (count >= 1).then_some(Builtin::Min));
        assert_eq!(
            Builtin::dispatch("exp", count),
            (count == 1).then_some(Builtin::Unary(UnaryFn::Exp))
        );
        assert_eq!(Builtin::dispatch("nope", count), None);
    }
}

#[test]
fn apply_reaches_the_primitive() {
    assert_eq!(Builtin::Pow.apply(&vec![b(2.0), b(3.0)], &kernel), b(8.0));
    assert_eq!(Builtin::Pow.apply(&vec![b(3.0), b(2.0)], &kernel), b(9.0));
    assert_eq!(Builtin::Max.apply(&vec![b(2.0), b(3.0), b(1.0)], &kernel), b(3.0));
    assert_eq!(Builtin::Min.apply(&vec![b(2.0), b(3.0), b(1.0)], &kernel), b(1.0));
    assert_eq!(Builtin::Unary(UnaryFn::Abs).apply(&vec![b(-2.0)], &kernel), b(2.0));
}

#[test]
fn max_ignores_what_is_not_a_number() {
    let values = vec![b(f64::NAN), b(2.0)];
    assert_eq!(Builtin::Max.apply(&values, &kernel), b(2.0));
    assert_eq!(Builtin::Min.apply(&values, &kernel), b(2.0));
}

#[test]
fn context_of_pairs_names_with_values() {
    let names = vec!["a".to_string(), "b".to_string(), "a".to_string()];
    let values = vec![b(1.0), b(2.0), b(3.0)];
    let context = context_of(&names, &values);
    assert_eq!(context.len(), 2);
    assert_eq!(context.get("a"), Some(&b(3.0)));
    assert_eq!(context.get("b"), Some(&b(2.0)));
    assert_eq!(context.get("c"), None);
}

#[test]
fn write_replaces_in_place_or_appends() {
    let mut entries: Vec<(String, u64)> = Vec::new();
    formula::compute::write(&mut entries, "a".to_string(), 1);
    formula::compute::write(&mut entries, "b".to_string(), 2);
    formula::compute::write(&mut entries, "a".to_string(), 3);
    assert_eq!(entries, vec![("a".to_string(), 3), ("b".to_string(), 2)]);
    write_all(&mut entries, &vec!["c".to_string(), "b".to_string()], &vec![4, 5]);
    assert_eq!(
        entries,
        vec![("a".to_string(), 3), ("b".to_string(), 5), ("c".to_string(), 4)]
    );
}

#[test]
fn a_tree_can_be_evaluated_many_times() {
    let ast = parse_formula("a*a + 1").unwrap();
    for a in [0.0, 1.5, -2.0] {
        let r = evaluate(&ast, vec!["a".to_string()], vec![b(a)], &kernel);
        assert_eq!(r.map(f64::from_bits), Ok(a * a + 1.0));
    }
}

#[test]
fn a_numeral_is_read_each_time_it_is_evaluated() {
    let ast = parse_formula("0.1 + 0.2").unwrap();
    let r = evaluate(&ast, vec![], vec![], &kernel);
    assert_eq!(r.map(f64::from_bits), Ok(0.1 + 0.2));
}
