//! The evaluator: walks a tree against a context of named doubles and the
//! table of built-in functions.

use vstd::prelude::*;
use vstd::hash_map::StringHashMap;
use crate::ast::{formulas, Expr, Formula, Operator};
use crate::chars::same_text;
use crate::kernel::{
    accepts_all, answer, ask, is_function, is_zero, may_answer, model, zero, BinaryFn, Operation,
    Request, UnaryFn, INFINITY, NEGATIVE_INFINITY, ZERO,
};

verus! {

/// Why a formula has no value.
#[derive(Debug, PartialEq, Eq)]
pub enum EvalError {
    /// The context holds no value under this name.
    UndefinedIdentifier(String),
    /// No built-in function has this name, or it does not take this many
    /// arguments.
    UnknownFunctionOrArity(String, usize),
}

/// The model of an [`EvalError`].
pub enum EvalFault {
    UndefinedIdentifier(Seq<char>),
    UnknownFunctionOrArity(Seq<char>, nat),
}

impl View for EvalError {
    type V = EvalFault;

    open spec fn view(&self) -> EvalFault {
        match self {
            EvalError::UndefinedIdentifier(name) => EvalFault::UndefinedIdentifier(name@),
            EvalError::UnknownFunctionOrArity(name, count) => EvalFault::UnknownFunctionOrArity(
                name@,
                *count as nat,
            ),
        }
    }
}

/// The model of what evaluation returns.
pub open spec fn evaluated_view(r: Result<u64, EvalError>) -> Result<u64, EvalFault> {
    match r {
        Ok(x) => Ok(x),
        Err(error) => Err(error@),
    }
}

/// A built-in function.
#[derive(Clone, Copy, Debug, PartialEq, Eq, Structural)]
pub enum Builtin {
    /// `pow(base, exponent)`.
    Pow,
    /// `max` of one argument or more.
    Max,
    /// `min` of one argument or more.
    Min,
    /// A function of one argument.
    Unary(UnaryFn),
}

impl Builtin {
    /// The function called `name`, if there is one.
    pub open spec fn named(name: Seq<char>) -> Option<Builtin> {
        if name == "pow"@ {
            Some(Builtin::Pow)
        } else if name == "sqrt"@ {
            Some(Builtin::Unary(UnaryFn::Sqrt))
        } else if name == "max"@ {
            Some(Builtin::Max)
        } else if name == "min"@ {
            Some(Builtin::Min)
        } else if name == "abs"@ {
            Some(Builtin::Unary(UnaryFn::Abs))
        } else if name == "round"@ {
            Some(Builtin::Unary(UnaryFn::Round))
        } else if name == "ceil"@ {
            Some(Builtin::Unary(UnaryFn::Ceil))
        } else if name == "floor"@ {
            Some(Builtin::Unary(UnaryFn::Floor))
        } else if name == "sin"@ {
            Some(Builtin::Unary(UnaryFn::Sin))
        } else if name == "cos"@ {
            Some(Builtin::Unary(UnaryFn::Cos))
        } else if name == "tan"@ {
            Some(Builtin::Unary(UnaryFn::Tan))
        } else if name == "log"@ {
            Some(Builtin::Unary(UnaryFn::Ln))
        } else if name == "log10"@ {
            Some(Builtin::Unary(UnaryFn::Log10))
        } else if name == "exp"@ {
            Some(Builtin::Unary(UnaryFn::Exp))
        } else {
            None
        }
    }

    /// Whether this function takes `count` arguments.
    pub open spec fn takes(self, count: nat) -> bool {
        match self {
            Builtin::Pow => count == 2,
            Builtin::Max => count >= 1,
            Builtin::Min => count >= 1,
            Builtin::Unary(_) => count == 1,
        }
    }

    /// The function that a call of `name` with `count` arguments reaches, if
    /// there is one.
    pub open spec fn dispatched(name: Seq<char>, count: nat) -> Option<Builtin> {
        match Builtin::named(name) {
            Some(builtin) => if builtin.takes(count) {
                Some(builtin)
            } else {
                None
            },
            None => None,
        }
    }

    /// The value of this function on `args`, which it takes.
    pub open spec fn applied(self, args: Seq<u64>, kernel: spec_fn(Request) -> u64) -> u64 {
        match self {
            Builtin::Pow => kernel(Request::Binary(BinaryFn::Pow, args[0], args[1])),
            Builtin::Max => folded(BinaryFn::Max, NEGATIVE_INFINITY, args, kernel),
            Builtin::Min => folded(BinaryFn::Min, INFINITY, args, kernel),
            Builtin::Unary(f) => kernel(Request::Unary(f, args[0])),
        }
    }

    /// The function called `name`, if there is one.
    pub fn lookup(name: &str) -> (r: Option<Builtin>)
        ensures
            r == Builtin::named(name@),
    {
        if same_text(name, "pow") {
            Some(Builtin::Pow)
        } else if same_text(name, "sqrt") {
            Some(Builtin::Unary(UnaryFn::Sqrt))
        } else if same_text(name, "max") {
            Some(Builtin::Max)
        } else if same_text(name, "min") {
            Some(Builtin::Min)
        } else if same_text(name, "abs") {
            Some(Builtin::Unary(UnaryFn::Abs))
        } else if same_text(name, "round") {
            Some(Builtin::Unary(UnaryFn::Round))
        } else if same_text(name, "ceil") {
            Some(Builtin::Unary(UnaryFn::Ceil))
        } else if same_text(name, "floor") {
            Some(Builtin::Unary(UnaryFn::Floor))
        } else if same_text(name, "sin") {
            Some(Builtin::Unary(UnaryFn::Sin))
        } else if same_text(name, "cos") {
            Some(Builtin::Unary(UnaryFn::Cos))
        } else if same_text(name, "tan") {
            Some(Builtin::Unary(UnaryFn::Tan))
        } else if same_text(name, "log") {
            Some(Builtin::Unary(UnaryFn::Ln))
        } else if same_text(name, "log10") {
            Some(Builtin::Unary(UnaryFn::Log10))
        } else if same_text(name, "exp") {
            Some(Builtin::Unary(UnaryFn::Exp))
        } else {
            None
        }
    }

    /// Whether this function takes `count` arguments.
    pub fn accepts(&self, count: usize) -> (r: bool)
        ensures
            r == self.takes(count as nat),
    {
        match self {
            Builtin::Pow => count == 2,
            Builtin::Max => count >= 1,
            Builtin::Min => count >= 1,
            Builtin::Unary(_) => count == 1,
        }
    }

    /// The function that a call of `name` with `count` arguments reaches, if
    /// there is one.
    pub fn dispatch(name: &str, count: usize) -> (r: Option<Builtin>)
        ensures
            r == Builtin::dispatched(name@, count as nat),
    {
        match Builtin::lookup(name) {
            Some(builtin) => if builtin.accepts(count) {
                Some(builtin)
            } else {
                None
            },
            None => None,
        }
    }

    /// Applies this function to `args`.
    pub fn apply<K: Fn(Operation) -> u64>(&self, args: &Vec<u64>, kernel: &K) -> (x: u64)
        requires
            self.takes(args.len() as nat),
            accepts_all(*kernel),
        ensures
            may_apply(*self, args@, *kernel, x),
            is_function(*kernel) ==> x == self.applied(args@, model(*kernel)),
    {
        match self {
            Builtin::Pow => ask(kernel, Operation::Binary(BinaryFn::Pow, args[0], args[1])),
            Builtin::Max => fold(BinaryFn::Max, NEGATIVE_INFINITY, args, kernel),
            Builtin::Min => fold(BinaryFn::Min, INFINITY, args, kernel),
            Builtin::Unary(f) => ask(kernel, Operation::Unary(*f, args[0])),
        }
    }
}

/// `f` applied along `args` from the left, starting with `start`:
/// `f(..f(f(start, args[0]), args[1]).., args[n - 1])`.
pub open spec fn folded(f: BinaryFn, start: u64, args: Seq<u64>, kernel: spec_fn(Request) -> u64)
    -> u64
    decreases args.len(),
{
    if args.len() == 0 {
        start
    } else {
        kernel(Request::Binary(f, folded(f, start, args.drop_last(), kernel), args.last()))
    }
}

/// Applies `f` along `args` from the left, starting with `start`.
pub fn fold<K: Fn(Operation) -> u64>(f: BinaryFn, start: u64, args: &Vec<u64>, kernel: &K) -> (x:
    u64)
    requires
        accepts_all(*kernel),
    ensures
        may_fold(f, start, args@, *kernel, x),
        is_function(*kernel) ==> x == folded(f, start, args@, model(*kernel)),
{
    let mut x: u64 = start;
    let mut done: usize = 0;
    while done < args.len()
        invariant
            done <= args.len(),
            accepts_all(*kernel),
            may_fold(f, start, args@.take(done as int), *kernel, x),
            is_function(*kernel) ==> x == folded(f, start, args@.take(done as int), model(*kernel)),
        decreases args.len() - done,
    {
        assert(args@.take(done + 1).drop_last() == args@.take(done as int));
        let ghost before = x;
        x = ask(kernel, Operation::Binary(f, x, args[done]));
        assert(may_fold(f, start, args@.take(done + 1).drop_last(), *kernel, before));
        assert(args@.take(done + 1).last() == args[done as int]);
        done += 1;
    }
    assert(args@.take(done as int) == args@);
    x
}

/// The value of `left op right`. Division is safe: by a zero it gives `0.0`,
/// whatever the dividend.
pub open spec fn combined(op: Operator, left: u64, right: u64, kernel: spec_fn(Request) -> u64)
    -> u64 {
    match op {
        Operator::Add => kernel(Request::Binary(BinaryFn::Add, left, right)),
        Operator::Sub => kernel(Request::Binary(BinaryFn::Sub, left, right)),
        Operator::Mul => kernel(Request::Binary(BinaryFn::Mul, left, right)),
        Operator::Div => if is_zero(right) {
            ZERO
        } else {
            kernel(Request::Binary(BinaryFn::Div, left, right))
        },
    }
}

/// Computes `left op right`.
pub fn combine<K: Fn(Operation) -> u64>(op: Operator, left: u64, right: u64, kernel: &K) -> (x:
    u64)
    requires
        accepts_all(*kernel),
    ensures
        may_combine(op, left, right, *kernel, x),
        is_function(*kernel) ==> x == combined(op, left, right, model(*kernel)),
        op == Operator::Div && is_zero(right) ==> x == ZERO,
{
    match op {
        Operator::Add => ask(kernel, Operation::Binary(BinaryFn::Add, left, right)),
        Operator::Sub => ask(kernel, Operation::Binary(BinaryFn::Sub, left, right)),
        Operator::Mul => ask(kernel, Operation::Binary(BinaryFn::Mul, left, right)),
        Operator::Div => if zero(right) {
            ZERO
        } else {
            ask(kernel, Operation::Binary(BinaryFn::Div, left, right))
        },
    }
}

/// Whether `kernel` may give `x` for `left op right`.
pub open spec fn may_combine<K: Fn(Operation) -> u64>(
    op: Operator,
    left: u64,
    right: u64,
    kernel: K,
    x: u64,
) -> bool {
    match op {
        Operator::Add => may_answer(kernel, Request::Binary(BinaryFn::Add, left, right), x),
        Operator::Sub => may_answer(kernel, Request::Binary(BinaryFn::Sub, left, right), x),
        Operator::Mul => may_answer(kernel, Request::Binary(BinaryFn::Mul, left, right), x),
        Operator::Div => if is_zero(right) {
            x == ZERO
        } else {
            may_answer(kernel, Request::Binary(BinaryFn::Div, left, right), x)
        },
    }
}

/// Whether `kernel` may give `x` for `f` applied along `args` from the
/// left, starting with `start`.
pub open spec fn may_fold<K: Fn(Operation) -> u64>(
    f: BinaryFn,
    start: u64,
    args: Seq<u64>,
    kernel: K,
    x: u64,
) -> bool
    decreases args.len(),
{
    if args.len() == 0 {
        x == start
    } else {
        exists|before: u64|
            may_fold(f, start, args.drop_last(), kernel, before) && (#[trigger] may_answer(
                kernel,
                Request::Binary(f, before, args.last()),
                x,
            ))
    }
}

/// Whether `kernel` may give `x` for `builtin` on `args`, which it takes.
pub open spec fn may_apply<K: Fn(Operation) -> u64>(
    builtin: Builtin,
    args: Seq<u64>,
    kernel: K,
    x: u64,
) -> bool {
    match builtin {
        Builtin::Pow => may_answer(kernel, Request::Binary(BinaryFn::Pow, args[0], args[1]), x),
        Builtin::Max => may_fold(BinaryFn::Max, NEGATIVE_INFINITY, args, kernel, x),
        Builtin::Min => may_fold(BinaryFn::Min, INFINITY, args, kernel, x),
        Builtin::Unary(f) => may_answer(kernel, Request::Unary(f, args[0]), x),
    }
}

/// Whether `x` may be the value of `formula` in `context`: whether it comes
/// of evaluating the formula with answers that `kernel` may give. This says
/// something of every kernel, also of one that answers a request now so and
/// now otherwise.
pub open spec fn may_value<K: Fn(Operation) -> u64>(
    formula: Formula,
    context: Map<Seq<char>, u64>,
    kernel: K,
    x: u64,
) -> bool
    decreases formula,
{
    match formula {
        Formula::Literal(text) => may_answer(kernel, Request::Numeral(text), x),
        Formula::Identifier(name) => context.contains_key(name) && context[name] == x,
        Formula::BinaryOp { op, left, right } => exists|a: u64, b: u64| may_value(*left, context, kernel, a) && may_value(
                *right,
                context,
                kernel,
                b,
            ) && may_combine(op, a, b, kernel, x),
        Formula::FunctionCall(name, args) => exists|xs: Seq<u64>|
            may_values(args, context, kernel, xs) && (#[trigger] may_call(name, xs, kernel, x)),
    }
}

/// Whether `kernel` may give `x` for a call of `name` with the arguments
/// `xs`: whether the call reaches a function, and that function may give it.
pub open spec fn may_call<K: Fn(Operation) -> u64>(
    name: Seq<char>,
    xs: Seq<u64>,
    kernel: K,
    x: u64,
) -> bool {
    Builtin::dispatched(name, xs.len()) matches Some(builtin) && may_apply(builtin, xs, kernel, x)
}

/// Whether `xs` may be the values of `formulas`, in order.
pub open spec fn may_values<K: Fn(Operation) -> u64>(
    formulas: Seq<Formula>,
    context: Map<Seq<char>, u64>,
    kernel: K,
    xs: Seq<u64>,
) -> bool
    decreases formulas, formulas.len(),
{
    if formulas.len() == 0 {
        xs.len() == 0
    } else {
        &&& xs.len() == formulas.len()
        &&& may_values(formulas.drop_last(), context, kernel, xs.drop_last())
        &&& may_value(formulas.last(), context, kernel, xs.last())
    }
}

/// The value of `formula` in `context`, or why it has none.
///
/// Both operands of an operator and all arguments of a call are evaluated,
/// from left to right, and the first failure is the result. The name and
/// the number of arguments of a call are looked at after its arguments.
pub open spec fn value(
    formula: Formula,
    context: Map<Seq<char>, u64>,
    kernel: spec_fn(Request) -> u64,
) -> Result<u64, EvalFault>
    decreases formula,
{
    match formula {
        Formula::Literal(text) => Ok(kernel(Request::Numeral(text))),
        Formula::Identifier(name) => if context.contains_key(name) {
            Ok(context[name])
        } else {
            Err(EvalFault::UndefinedIdentifier(name))
        },
        Formula::BinaryOp { op, left, right } => match value(*left, context, kernel) {
            Ok(x) => match value(*right, context, kernel) {
                Ok(y) => Ok(combined(op, x, y, kernel)),
                Err(fault) => Err(fault),
            },
            Err(fault) => Err(fault),
        },
        Formula::FunctionCall(name, args) => match values(args, context, kernel) {
            Ok(xs) => match Builtin::dispatched(name, xs.len()) {
                Some(builtin) => Ok(builtin.applied(xs, kernel)),
                None => Err(EvalFault::UnknownFunctionOrArity(name, xs.len())),
            },
            Err(fault) => Err(fault),
        },
    }
}

/// The values of `formulas` in order, or the failure of the first that has
/// none.
pub open spec fn values(
    formulas: Seq<Formula>,
    context: Map<Seq<char>, u64>,
    kernel: spec_fn(Request) -> u64,
) -> Result<Seq<u64>, EvalFault>
    decreases formulas, formulas.len(),
{
    if formulas.len() == 0 {
        Ok(Seq::empty())
    } else {
        match values(formulas.drop_last(), context, kernel) {
            Ok(xs) => match value(formulas.last(), context, kernel) {
                Ok(x) => Ok(xs.push(x)),
                Err(fault) => Err(fault),
            },
            Err(fault) => Err(fault),
        }
    }
}

/// Why `formula` has no value where exactly `names` are defined; `None` if
/// it has one. The kernel has no part in this.
pub open spec fn fault(formula: Formula, names: Set<Seq<char>>) -> Option<EvalFault>
    decreases formula,
{
    match formula {
        Formula::Literal(_) => None,
        Formula::Identifier(name) => if names.contains(name) {
            None
        } else {
            Some(EvalFault::UndefinedIdentifier(name))
        },
        Formula::BinaryOp { op, left, right } => match fault(*left, names) {
            Some(found) => Some(found),
            None => fault(*right, names),
        },
        Formula::FunctionCall(name, args) => match first_fault(args, names) {
            Some(found) => Some(found),
            None => if Builtin::dispatched(name, args.len()) is Some {
                None
            } else {
                Some(EvalFault::UnknownFunctionOrArity(name, args.len()))
            },
        },
    }
}

/// The fault of the first of `formulas` that has one.
pub open spec fn first_fault(formulas: Seq<Formula>, names: Set<Seq<char>>) -> Option<EvalFault>
    decreases formulas, formulas.len(),
{
    if formulas.len() == 0 {
        None
    } else {
        match first_fault(formulas.drop_last(), names) {
            Some(found) => Some(found),
            None => fault(formulas.last(), names),
        }
    }
}

/// Whether `r` fails exactly as `expected` says.
pub open spec fn fails_as(r: Result<u64, EvalError>, expected: Option<EvalFault>) -> bool {
    match r {
        Ok(_) => expected is None,
        Err(error) => expected == Some(error@),
    }
}

/// Evaluates `ast` in `context`.
pub fn evaluate_ast<K: Fn(Operation) -> u64>(
    ast: &Expr,
    context: &StringHashMap<u64>,
    kernel: &K,
) -> (r: Result<u64, EvalError>)
    requires
        accepts_all(*kernel),
    ensures
        fails_as(r, fault(ast@, context@.dom())),
        r matches Ok(x) ==> may_value(ast@, context@, *kernel, x),
        is_function(*kernel) ==> evaluated_view(r) == value(ast@, context@, model(*kernel)),
    decreases ast,
{
    match ast {
        Expr::Literal(text) => Ok(ask(kernel, Operation::Numeral(text.clone()))),
        Expr::Identifier(name) => match context.get(name.as_str()) {
            Some(x) => Ok(*x),
            None => Err(EvalError::UndefinedIdentifier(name.clone())),
        },
        Expr::BinaryOp { op, left, right } => {
            let x = match evaluate_ast(left, context, kernel) {
                Ok(x) => x,
                Err(error) => {
                    return Err(error);
                },
            };
            let y = match evaluate_ast(right, context, kernel) {
                Ok(y) => y,
                Err(error) => {
                    return Err(error);
                },
            };
            Ok(combine(*op, x, y, kernel))
        },
        Expr::FunctionCall(name, args) => {
            let mut xs: Vec<u64> = Vec::new();
            let mut done: usize = 0;
            while done < args.len()
                invariant
                    done <= args.len(),
                    accepts_all(*kernel),
                    ast == Expr::FunctionCall(*name, *args),
                    is_function(*kernel) ==> values(
                        formulas(args@).take(done as int),
                        context@,
                        model(*kernel),
                    ) == Ok::<Seq<u64>, EvalFault>(xs@),
                    first_fault(formulas(args@).take(done as int), context@.dom()) is None,
                    may_values(formulas(args@).take(done as int), context@, *kernel, xs@),
                    xs.len() == done,
                decreases args.len() - done,
            {
                proof {
                    let ghost all = formulas(args@);
                    assert(all.take(done + 1).drop_last() == all.take(done as int));
                    assert(all.take(done + 1).last() == args[done as int]@);
                }
                match evaluate_ast(&args[done], context, kernel) {
                    Ok(x) => {
                        let ghost before = xs@;
                        xs.push(x);
                        assert(xs@.drop_last() == before);
                    },
                    Err(error) => {
                        proof {
                            lemma_first_fault(formulas(args@), context@.dom(), done + 1);
                            if is_function(*kernel) {
                                lemma_first_failure(
                                    formulas(args@),
                                    context@,
                                    model(*kernel),
                                    done + 1,
                                );
                            }
                        }
                        return Err(error);
                    },
                }
                done += 1;
            }
            assert(formulas(args@).take(done as int) == formulas(args@));
            match Builtin::dispatch(name.as_str(), xs.len()) {
                Some(builtin) => {
                    let x = builtin.apply(&xs, kernel);
                    assert(may_call(name@, xs@, *kernel, x));
                    Ok(x)
                },
                None => Err(EvalError::UnknownFunctionOrArity(name.clone(), xs.len())),
            }
        },
    }
}

/// When the first `n` of `formulas` fail to have values, all of them fail,
/// and in the same way.
pub proof fn lemma_first_failure(
    formulas: Seq<Formula>,
    context: Map<Seq<char>, u64>,
    kernel: spec_fn(Request) -> u64,
    n: int,
)
    requires
        0 <= n <= formulas.len(),
        values(formulas.take(n), context, kernel) is Err,
    ensures
        values(formulas, context, kernel) == values(formulas.take(n), context, kernel),
    decreases formulas.len() - n,
{
    if n < formulas.len() {
        assert(formulas.take(n + 1).drop_last() == formulas.take(n));
        lemma_first_failure(formulas, context, kernel, n + 1);
    } else {
        assert(formulas.take(n) == formulas);
    }
}

/// The table of built-in functions: each name reaches its own function.
pub proof fn lemma_builtin_table()
    ensures
        Builtin::named("pow"@) == Some(Builtin::Pow),
        Builtin::named("sqrt"@) == Some(Builtin::Unary(UnaryFn::Sqrt)),
        Builtin::named("max"@) == Some(Builtin::Max),
        Builtin::named("min"@) == Some(Builtin::Min),
        Builtin::named("abs"@) == Some(Builtin::Unary(UnaryFn::Abs)),
        Builtin::named("round"@) == Some(Builtin::Unary(UnaryFn::Round)),
        Builtin::named("ceil"@) == Some(Builtin::Unary(UnaryFn::Ceil)),
        Builtin::named("floor"@) == Some(Builtin::Unary(UnaryFn::Floor)),
        Builtin::named("sin"@) == Some(Builtin::Unary(UnaryFn::Sin)),
        Builtin::named("cos"@) == Some(Builtin::Unary(UnaryFn::Cos)),
        Builtin::named("tan"@) == Some(Builtin::Unary(UnaryFn::Tan)),
        Builtin::named("log"@) == Some(Builtin::Unary(UnaryFn::Ln)),
        Builtin::named("log10"@) == Some(Builtin::Unary(UnaryFn::Log10)),
        Builtin::named("exp"@) == Some(Builtin::Unary(UnaryFn::Exp)),
{
    reveal_strlit("pow");
    reveal_strlit("sqrt");
    reveal_strlit("max");
    reveal_strlit("min");
    reveal_strlit("abs");
    reveal_strlit("round");
    reveal_strlit("ceil");
    reveal_strlit("floor");
    reveal_strlit("sin");
    reveal_strlit("cos");
    reveal_strlit("tan");
    reveal_strlit("log");
    reveal_strlit("log10");
    reveal_strlit("exp");
    assert("pow"@.len() == 3 && "pow"@[0] == 'p');
    assert("sqrt"@.len() == 4 && "sqrt"@[0] == 's');
    assert("max"@.len() == 3 && "max"@[0] == 'm' && "max"@[1] == 'a');
    assert("min"@.len() == 3 && "min"@[0] == 'm' && "min"@[1] == 'i');
    assert("abs"@.len() == 3 && "abs"@[0] == 'a');
    assert("round"@.len() == 5 && "round"@[0] == 'r');
    assert("ceil"@.len() == 4 && "ceil"@[0] == 'c');
    assert("floor"@.len() == 5 && "floor"@[0] == 'f');
    assert("sin"@.len() == 3 && "sin"@[0] == 's');
    assert("cos"@.len() == 3 && "cos"@[0] == 'c');
    assert("tan"@.len() == 3 && "tan"@[0] == 't');
    assert("log"@.len() == 3 && "log"@[0] == 'l');
    assert("log10"@.len() == 5 && "log10"@[0] == 'l');
    assert("exp"@.len() == 3 && "exp"@[0] == 'e');
}

/// A call reaches a function only with a number of arguments that the
/// function takes: two for `pow`, at least one for `max` and `min`, one for
/// every other.
pub proof fn lemma_arity(name: Seq<char>, count: nat)
    ensures
        match Builtin::dispatched(name, count) {
            Some(Builtin::Pow) => count == 2,
            Some(Builtin::Max) => count >= 1,
            Some(Builtin::Min) => count >= 1,
            Some(Builtin::Unary(_)) => count == 1,
            None => true,
        },
        Builtin::named(name) is None ==> Builtin::dispatched(name, count) is None,
{
}

/// Division by a zero gives `0.0`, whatever the dividend and the kernel.
pub proof fn lemma_safe_division(
    left: Formula,
    right: Formula,
    context: Map<Seq<char>, u64>,
    kernel: spec_fn(Request) -> u64,
)
    requires
        value(left, context, kernel) is Ok,
        value(right, context, kernel) matches Ok(y) && is_zero(y),
    ensures
        value(
            Formula::BinaryOp { op: Operator::Div, left: Box::new(left), right: Box::new(right) },
            context,
            kernel,
        ) == Ok::<u64, EvalFault>(ZERO),
{
}

/// A name that the context does not define has no value.
pub proof fn lemma_undefined_identifier(
    name: Seq<char>,
    context: Map<Seq<char>, u64>,
    kernel: spec_fn(Request) -> u64,
)
    requires
        !context.contains_key(name),
    ensures
        value(Formula::Identifier(name), context, kernel) == Err::<u64, EvalFault>(
            EvalFault::UndefinedIdentifier(name),
        ),
{
}

/// A call whose arguments have values, but whose name is no function's or
/// whose function does not take that many arguments, fails with the name
/// and the number of arguments.
pub proof fn lemma_unknown_function_or_arity(
    name: Seq<char>,
    args: Seq<Formula>,
    context: Map<Seq<char>, u64>,
    kernel: spec_fn(Request) -> u64,
)
    requires
        values(args, context, kernel) is Ok,
        Builtin::dispatched(name, args.len()) is None,
    ensures
        value(Formula::FunctionCall(name, args), context, kernel) == Err::<u64, EvalFault>(
            EvalFault::UnknownFunctionOrArity(name, args.len()),
        ),
{
    lemma_values_fail_with_fault(args, context, kernel);
}

/// When one of the first `n` of `formulas` has a fault, the first fault of
/// all of them is found among those.
pub proof fn lemma_first_fault(formulas: Seq<Formula>, names: Set<Seq<char>>, n: int)
    requires
        0 <= n <= formulas.len(),
        first_fault(formulas.take(n), names) is Some,
    ensures
        first_fault(formulas, names) == first_fault(formulas.take(n), names),
    decreases formulas.len() - n,
{
    if n < formulas.len() {
        assert(formulas.take(n + 1).drop_last() == formulas.take(n));
        lemma_first_fault(formulas, names, n + 1);
    } else {
        assert(formulas.take(n) == formulas);
    }
}

/// Whether a formula has a value, and why not, does not depend on the
/// kernel: it fails exactly when it has a fault, and with that fault.
pub proof fn lemma_value_fails_with_fault(
    formula: Formula,
    context: Map<Seq<char>, u64>,
    kernel: spec_fn(Request) -> u64,
)
    ensures
        match value(formula, context, kernel) {
            Ok(_) => fault(formula, context.dom()) is None,
            Err(found) => fault(formula, context.dom()) == Some(found),
        },
    decreases formula,
{
    match formula {
        Formula::Literal(_) => {},
        Formula::Identifier(_) => {},
        Formula::BinaryOp { op, left, right } => {
            lemma_value_fails_with_fault(*left, context, kernel);
            lemma_value_fails_with_fault(*right, context, kernel);
        },
        Formula::FunctionCall(name, args) => {
            lemma_values_fail_with_fault(args, context, kernel);
        },
    }
}

/// The same, of a sequence of formulas.
pub proof fn lemma_values_fail_with_fault(
    formulas: Seq<Formula>,
    context: Map<Seq<char>, u64>,
    kernel: spec_fn(Request) -> u64,
)
    ensures
        match values(formulas, context, kernel) {
            Ok(xs) => first_fault(formulas, context.dom()) is None && xs.len() == formulas.len(),
            Err(found) => first_fault(formulas, context.dom()) == Some(found),
        },
    decreases formulas, formulas.len(),
{
    if formulas.len() > 0 {
        lemma_values_fail_with_fault(formulas.drop_last(), context, kernel);
        lemma_value_fails_with_fault(formulas.last(), context, kernel);
    }
}

/// What a kernel that is a function may answer is what it answers.
pub proof fn lemma_answer_of_function<K: Fn(Operation) -> u64>(kernel: K, request: Request, x: u64)
    requires
        is_function(kernel),
        may_answer(kernel, request, x),
    ensures
        x == model(kernel)(request),
{
    let y = answer(kernel, request);
    assert(may_answer(kernel, request, y));
}

/// With a kernel that is a function, the fold that it may give is the fold.
pub proof fn lemma_fold_of_function<K: Fn(Operation) -> u64>(
    f: BinaryFn,
    start: u64,
    args: Seq<u64>,
    kernel: K,
    x: u64,
)
    requires
        is_function(kernel),
        may_fold(f, start, args, kernel, x),
    ensures
        x == folded(f, start, args, model(kernel)),
    decreases args.len(),
{
    if args.len() > 0 {
        let before = choose|before: u64|
            may_fold(f, start, args.drop_last(), kernel, before) && (#[trigger] may_answer(
                kernel,
                Request::Binary(f, before, args.last()),
                x,
            ));
        lemma_fold_of_function(f, start, args.drop_last(), kernel, before);
        lemma_answer_of_function(kernel, Request::Binary(f, before, args.last()), x);
    }
}

/// With a kernel that is a function, a value that a formula may have is the
/// formula's value.
pub proof fn lemma_value_of_function<K: Fn(Operation) -> u64>(
    formula: Formula,
    context: Map<Seq<char>, u64>,
    kernel: K,
    x: u64,
)
    requires
        is_function(kernel),
        may_value(formula, context, kernel, x),
    ensures
        value(formula, context, model(kernel)) == Ok::<u64, EvalFault>(x),
    decreases formula,
{
    match formula {
        Formula::Literal(text) => {
            lemma_answer_of_function(kernel, Request::Numeral(text), x);
        },
        Formula::Identifier(_) => {},
        Formula::BinaryOp { op, left, right } => {
            let (a, b) = choose|a: u64, b: u64|
                may_value(*left, context, kernel, a) && may_value(*right, context, kernel, b)
                    && may_combine(op, a, b, kernel, x);
            lemma_value_of_function(*left, context, kernel, a);
            lemma_value_of_function(*right, context, kernel, b);
            if !(op == Operator::Div && is_zero(b)) {
                let f = match op {
                    Operator::Add => BinaryFn::Add,
                    Operator::Sub => BinaryFn::Sub,
                    Operator::Mul => BinaryFn::Mul,
                    Operator::Div => BinaryFn::Div,
                };
                lemma_answer_of_function(kernel, Request::Binary(f, a, b), x);
            }
        },
        Formula::FunctionCall(name, args) => {
            let xs = choose|xs: Seq<u64>|
                may_values(args, context, kernel, xs) && (#[trigger] may_call(
                    name,
                    xs,
                    kernel,
                    x,
                ));
            lemma_values_of_function(args, context, kernel, xs);
            match Builtin::dispatched(name, xs.len())->0 {
                Builtin::Pow => {
                    lemma_answer_of_function(
                        kernel,
                        Request::Binary(BinaryFn::Pow, xs[0], xs[1]),
                        x,
                    );
                },
                Builtin::Max => {
                    lemma_fold_of_function(BinaryFn::Max, NEGATIVE_INFINITY, xs, kernel, x);
                },
                Builtin::Min => {
                    lemma_fold_of_function(BinaryFn::Min, INFINITY, xs, kernel, x);
                },
                Builtin::Unary(f) => {
                    lemma_answer_of_function(kernel, Request::Unary(f, xs[0]), x);
                },
            }
        },
    }
}

/// The same, of a sequence of formulas.
pub proof fn lemma_values_of_function<K: Fn(Operation) -> u64>(
    formulas: Seq<Formula>,
    context: Map<Seq<char>, u64>,
    kernel: K,
    xs: Seq<u64>,
)
    requires
        is_function(kernel),
        may_values(formulas, context, kernel, xs),
    ensures
        values(formulas, context, model(kernel)) == Ok::<Seq<u64>, EvalFault>(xs),
    decreases formulas, formulas.len(),
{
    if formulas.len() > 0 {
        lemma_values_of_function(formulas.drop_last(), context, kernel, xs.drop_last());
        lemma_value_of_function(formulas.last(), context, kernel, xs.last());
        assert(xs.drop_last().push(xs.last()) == xs);
    } else {
        assert(xs == Seq::<u64>::empty());
    }
}

} // verus!
