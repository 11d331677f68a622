//! Contexts and batches: pairing names with values, evaluating one tree
//! against such pairs, and computing several named formulas at once.

use vstd::prelude::*;
use vstd::hash_map::StringHashMap;
use crate::ast::{Expr, Formula};
use crate::chars::same_text;
use crate::eval::{evaluate_ast, fault, may_value, value, EvalError, EvalFault};
use crate::kernel::{accepts_all, is_function, model, Operation, Request};
use crate::parser::{parse, parse_formula, SyntaxError, SyntaxFault};

verus! {

/// One of the two pairs of sequences that must have equal lengths.
#[derive(Clone, Copy, Debug, PartialEq, Eq, Structural)]
pub enum Pair {
    /// The names and the values of the context.
    Context,
    /// The names and the texts of the computed formulas.
    Computed,
}

/// Why a batch gives no result.
#[derive(Debug, PartialEq, Eq)]
pub enum ComputeError {
    /// The two sequences of this pair differ in length.
    LengthMismatch(Pair),
    /// A formula's text is no formula.
    Syntax(SyntaxError),
    /// A formula has no value.
    Evaluation(EvalError),
}

/// The model of a [`ComputeError`].
pub enum ComputeFault {
    LengthMismatch(Pair),
    Syntax(SyntaxFault),
    Evaluation(EvalFault),
}

impl View for ComputeError {
    type V = ComputeFault;

    open spec fn view(&self) -> ComputeFault {
        match self {
            ComputeError::LengthMismatch(pair) => ComputeFault::LengthMismatch(*pair),
            ComputeError::Syntax(error) => ComputeFault::Syntax(error@),
            ComputeError::Evaluation(error) => ComputeFault::Evaluation(error@),
        }
    }
}

/// The texts of `names`, in order.
pub open spec fn texts(names: Seq<String>) -> Seq<Seq<char>> {
    Seq::new(names.len(), |i: int| names[i]@)
}

/// The entries of `entries` with each name as its text.
pub open spec fn entries_view(entries: Seq<(String, u64)>) -> Seq<(Seq<char>, u64)> {
    Seq::new(entries.len(), |i: int| (entries[i].0@, entries[i].1))
}

/// The context that maps `names[i]` to `values[i]`. Where a name stands
/// twice, the later pair counts.
pub open spec fn paired(names: Seq<Seq<char>>, values: Seq<u64>) -> Map<Seq<char>, u64>
    decreases names.len(),
{
    if names.len() == 0 || values.len() == 0 {
        Map::empty()
    } else {
        paired(names.drop_last(), values.drop_last()).insert(names.last(), values.last())
    }
}

/// Builds the context that maps `names[i]` to `values[i]`.
pub fn context_of(names: &Vec<String>, values: &Vec<u64>) -> (context: StringHashMap<u64>)
    requires
        names.len() == values.len(),
    ensures
        context@ == paired(texts(names@), values@),
{
    let mut context: StringHashMap<u64> = StringHashMap::new();
    let mut done: usize = 0;
    while done < names.len()
        invariant
            done <= names.len(),
            names.len() == values.len(),
            context@ == paired(texts(names@).take(done as int), values@.take(done as int)),
        decreases names.len() - done,
    {
        proof {
            let ghost all = texts(names@);
            assert(all.take(done + 1).drop_last() == all.take(done as int));
            assert(values@.take(done + 1).drop_last() == values@.take(done as int));
        }
        context.insert(names[done].clone(), values[done]);
        done += 1;
    }
    assert(texts(names@).take(done as int) == texts(names@));
    assert(values@.take(done as int) == values@);
    context
}

/// Why [`evaluate`] gives no value; `None` if it gives one. The lengths are
/// compared first.
pub open spec fn evaluate_fault(formula: Formula, names: Seq<Seq<char>>, values: Seq<u64>)
    -> Option<ComputeFault> {
    if names.len() != values.len() {
        Some(ComputeFault::LengthMismatch(Pair::Context))
    } else {
        match fault(formula, paired(names, values).dom()) {
            Some(found) => Some(ComputeFault::Evaluation(found)),
            None => None,
        }
    }
}

/// What [`evaluate`] gives.
pub open spec fn evaluated(
    formula: Formula,
    names: Seq<Seq<char>>,
    values: Seq<u64>,
    kernel: spec_fn(Request) -> u64,
) -> Result<u64, ComputeFault> {
    if names.len() != values.len() {
        Err(ComputeFault::LengthMismatch(Pair::Context))
    } else {
        match value(formula, paired(names, values), kernel) {
            Ok(x) => Ok(x),
            Err(found) => Err(ComputeFault::Evaluation(found)),
        }
    }
}

/// The model of what [`evaluate`] returns.
pub open spec fn evaluate_view(r: Result<u64, ComputeError>) -> Result<u64, ComputeFault> {
    match r {
        Ok(x) => Ok(x),
        Err(error) => Err(error@),
    }
}

/// Evaluates `ast` in the context that pairs `context_keys[i]` with
/// `context_values[i]`. The lengths are compared first.
pub fn evaluate<K: Fn(Operation) -> u64>(
    ast: &Expr,
    context_keys: Vec<String>,
    context_values: Vec<u64>,
    kernel: &K,
) -> (r: Result<u64, ComputeError>)
    requires
        accepts_all(*kernel),
    ensures
        fails_as(r, evaluate_fault(ast@, texts(context_keys@), context_values@)),
        r matches Ok(x) ==> may_value(
            ast@,
            paired(texts(context_keys@), context_values@),
            *kernel,
            x,
        ),
        is_function(*kernel) ==> evaluate_view(r) == evaluated(
            ast@,
            texts(context_keys@),
            context_values@,
            model(*kernel),
        ),
{
    if context_keys.len() != context_values.len() {
        return Err(ComputeError::LengthMismatch(Pair::Context));
    }
    let context = context_of(&context_keys, &context_values);
    match evaluate_ast(ast, &context, kernel) {
        Ok(x) => Ok(x),
        Err(error) => Err(ComputeError::Evaluation(error)),
    }
}

/// The place of the entry of `entries` that is named `key`, if there is one.
pub open spec fn position(entries: Seq<(Seq<char>, u64)>, key: Seq<char>) -> Option<int>
    decreases entries.len(),
{
    if entries.len() == 0 {
        None
    } else {
        match position(entries.drop_last(), key) {
            Some(i) => Some(i),
            None => if entries.last().0 == key {
                Some(entries.len() - 1)
            } else {
                None
            },
        }
    }
}

/// `entries` after `x` is written under `key`: an entry of that name keeps
/// its place and takes the new value; a new name goes to the end.
pub open spec fn written(entries: Seq<(Seq<char>, u64)>, key: Seq<char>, x: u64) -> Seq<
    (Seq<char>, u64),
> {
    match position(entries, key) {
        Some(i) => entries.update(i, (key, x)),
        None => entries.push((key, x)),
    }
}

/// `entries` after each `values[i]` is written under `keys[i]`, in order.
pub open spec fn written_all(
    entries: Seq<(Seq<char>, u64)>,
    keys: Seq<Seq<char>>,
    values: Seq<u64>,
) -> Seq<(Seq<char>, u64)>
    decreases keys.len(),
{
    if keys.len() == 0 || values.len() == 0 {
        entries
    } else {
        written(written_all(entries, keys.drop_last(), values.drop_last()), keys.last(), values.last())
    }
}

/// An entry found among the first `n` of `entries` is the one found among
/// all of them.
pub proof fn lemma_position_prefix(entries: Seq<(Seq<char>, u64)>, key: Seq<char>, n: int)
    requires
        0 <= n <= entries.len(),
        position(entries.take(n), key) is Some,
    ensures
        position(entries, key) == position(entries.take(n), key),
    decreases entries.len() - n,
{
    if n < entries.len() {
        assert(entries.take(n + 1).drop_last() == entries.take(n));
        lemma_position_prefix(entries, key, n + 1);
    } else {
        assert(entries.take(n) == entries);
    }
}

/// The value that `entries` hold under `key`, if they hold one.
pub open spec fn lookup(entries: Seq<(Seq<char>, u64)>, key: Seq<char>) -> Option<u64> {
    match position(entries, key) {
        Some(i) => Some(entries[i].1),
        None => None,
    }
}

/// Whether no two of `entries` have the same name.
pub open spec fn distinct(entries: Seq<(Seq<char>, u64)>) -> bool {
    forall|i: int, j: int|
        0 <= i < j < entries.len() ==> (#[trigger] entries[i]).0 != (#[trigger] entries[j]).0
}

/// The place that `position` gives is that of the first entry called `key`;
/// it gives none only where no entry is called so.
pub proof fn lemma_position(entries: Seq<(Seq<char>, u64)>, key: Seq<char>)
    ensures
        match position(entries, key) {
            Some(i) => 0 <= i < entries.len() && entries[i].0 == key && forall|j: int|
                0 <= j < i ==> (#[trigger] entries[j]).0 != key,
            None => forall|j: int| 0 <= j < entries.len() ==> (#[trigger] entries[j]).0 != key,
        },
    decreases entries.len(),
{
    if entries.len() > 0 {
        let front = entries.drop_last();
        lemma_position(front, key);
        match position(front, key) {
            Some(i) => {
                assert(entries[i] == front[i]);
                assert forall|j: int| 0 <= j < i implies (#[trigger] entries[j]).0 != key by {
                    assert(entries[j] == front[j]);
                }
            },
            None => {
                assert forall|j: int| 0 <= j < front.len() implies (#[trigger] entries[j]).0
                    != key by {
                    assert(entries[j] == front[j]);
                }
            },
        }
    }
}

/// The first entry called `key` stands at `position(entries, key)`.
pub proof fn lemma_position_is(entries: Seq<(Seq<char>, u64)>, key: Seq<char>, i: int)
    requires
        0 <= i < entries.len(),
        entries[i].0 == key,
        forall|j: int| 0 <= j < i ==> (#[trigger] entries[j]).0 != key,
    ensures
        position(entries, key) == Some(i),
{
    lemma_position(entries, key);
}

/// Writing keeps the names distinct, gives the written name its new value
/// and leaves every other name with what it had.
pub proof fn lemma_written(entries: Seq<(Seq<char>, u64)>, key: Seq<char>, x: u64)
    ensures
        lookup(written(entries, key, x), key) == Some(x),
        forall|other: Seq<char>|
            other != key ==> lookup(written(entries, key, x), other) == lookup(entries, other),
        distinct(entries) ==> distinct(written(entries, key, x)),
        written(entries, key, x).len() >= entries.len(),
{
    let after = written(entries, key, x);
    lemma_position(entries, key);
    match position(entries, key) {
        Some(i) => {
            lemma_position_is(after, key, i);
        },
        None => {
            lemma_position_is(after, key, entries.len() as int);
        },
    }
    assert forall|other: Seq<char>| other != key implies lookup(after, other) == lookup(
        entries,
        other,
    ) by {
        lemma_position(entries, other);
        match position(entries, other) {
            Some(j) => {
                lemma_position_is(after, other, j);
            },
            None => {
                lemma_position(after, other);
            },
        }
    }
}

/// After a run of writes, a name that was written holds the last value
/// written under it, and any other name holds what it held before.
pub proof fn lemma_written_all(
    entries: Seq<(Seq<char>, u64)>,
    keys: Seq<Seq<char>>,
    values: Seq<u64>,
    key: Seq<char>,
)
    requires
        keys.len() == values.len(),
    ensures
        lookup(written_all(entries, keys, values), key) == if paired(keys, values).contains_key(
            key,
        ) {
            Some(paired(keys, values)[key])
        } else {
            lookup(entries, key)
        },
        distinct(entries) ==> distinct(written_all(entries, keys, values)),
    decreases keys.len(),
{
    if keys.len() > 0 {
        lemma_written_all(entries, keys.drop_last(), values.drop_last(), key);
        lemma_written(
            written_all(entries, keys.drop_last(), values.drop_last()),
            keys.last(),
            values.last(),
        );
    }
}

/// The names of a batch's result are distinct, and each holds the
/// context's value if the context has the name, else the last value computed
/// under it.
pub proof fn lemma_context_overwrites_computed(
    context_keys: Seq<Seq<char>>,
    context_values: Seq<u64>,
    computed_keys: Seq<Seq<char>>,
    computed_formulas: Seq<Seq<char>>,
    kernel: spec_fn(Request) -> u64,
    key: Seq<char>,
)
    requires
        computed(context_keys, context_values, computed_keys, computed_formulas, kernel) is Ok,
    ensures
        ({
            let context = paired(context_keys, context_values);
            let results = outcomes(computed_formulas, context, kernel)->Ok_0;
            let entries = computed(
                context_keys,
                context_values,
                computed_keys,
                computed_formulas,
                kernel,
            )->Ok_0;
            &&& distinct(entries)
            &&& lookup(entries, key) == if context.contains_key(key) {
                Some(context[key])
            } else if paired(computed_keys, results).contains_key(key) {
                Some(paired(computed_keys, results)[key])
            } else {
                None
            }
        }),
{
    let context = paired(context_keys, context_values);
    let results = outcomes(computed_formulas, context, kernel)->Ok_0;
    let first = written_all(Seq::empty(), computed_keys, results);
    lemma_outcomes_len(computed_formulas, context, kernel);
    lemma_written_all(Seq::empty(), computed_keys, results, key);
    lemma_written_all(first, context_keys, context_values, key);
}

/// Every formula of a batch that gives a result gave one value.
pub proof fn lemma_outcomes_len(
    formulas: Seq<Seq<char>>,
    context: Map<Seq<char>, u64>,
    kernel: spec_fn(Request) -> u64,
)
    ensures
        outcomes(formulas, context, kernel) matches Ok(xs) ==> xs.len() == formulas.len(),
    decreases formulas.len(),
{
    if formulas.len() > 0 {
        lemma_outcomes_len(formulas.drop_last(), context, kernel);
    }
}

/// Writes `x` under `key`.
pub fn write(entries: &mut Vec<(String, u64)>, key: String, x: u64)
    ensures
        entries_view(final(entries)@) == written(entries_view(old(entries)@), key@, x),
{
    let ghost before = entries_view(entries@);
    let mut at: usize = 0;
    while at < entries.len()
        invariant
            at <= entries.len(),
            before == entries_view(old(entries)@),
            entries_view(entries@) == before,
            position(before.take(at as int), key@) is None,
        decreases entries.len() - at,
    {
        assert(before.take(at + 1).drop_last() == before.take(at as int));
        assert(before.take(at + 1).last() == (entries[at as int].0@, entries[at as int].1));
        if same_text(entries[at].0.as_str(), key.as_str()) {
            proof {
                assert(position(before.take(at + 1), key@) == Some(at as int));
                lemma_position_prefix(before, key@, at + 1);
            }
            entries.set(at, (key, x));
            assert(entries_view(entries@) =~= before.update(at as int, (key@, x)));
            return ;
        }
        at += 1;
    }
    assert(before.take(at as int) == before);
    entries.push((key, x));
    assert(entries_view(entries@) =~= before.push((key@, x)));
}

/// The value of the formula that `text` writes, in `context`.
pub open spec fn outcome(text: Seq<char>, context: Map<Seq<char>, u64>, kernel: spec_fn(Request) -> u64)
    -> Result<u64, ComputeFault> {
    match parse(text) {
        Ok(formula) => match value(formula, context, kernel) {
            Ok(x) => Ok(x),
            Err(found) => Err(ComputeFault::Evaluation(found)),
        },
        Err(found) => Err(ComputeFault::Syntax(found)),
    }
}

/// The values of the formulas that `formulas` write, each in `context`
/// alone, or the failure of the first that fails.
pub open spec fn outcomes(
    formulas: Seq<Seq<char>>,
    context: Map<Seq<char>, u64>,
    kernel: spec_fn(Request) -> u64,
) -> Result<Seq<u64>, ComputeFault>
    decreases formulas.len(),
{
    if formulas.len() == 0 {
        Ok(Seq::empty())
    } else {
        match outcomes(formulas.drop_last(), context, kernel) {
            Ok(xs) => match outcome(formulas.last(), context, kernel) {
                Ok(x) => Ok(xs.push(x)),
                Err(found) => Err(found),
            },
            Err(found) => Err(found),
        }
    }
}

/// Why the formula that `text` writes has no value where exactly `names` are
/// defined; `None` if it has one.
pub open spec fn formula_fault(text: Seq<char>, names: Set<Seq<char>>) -> Option<ComputeFault> {
    match parse(text) {
        Ok(formula) => match fault(formula, names) {
            Some(found) => Some(ComputeFault::Evaluation(found)),
            None => None,
        },
        Err(found) => Some(ComputeFault::Syntax(found)),
    }
}

/// The fault of the first of `formulas` that has one.
pub open spec fn first_formula_fault(formulas: Seq<Seq<char>>, names: Set<Seq<char>>) -> Option<
    ComputeFault,
>
    decreases formulas.len(),
{
    if formulas.len() == 0 {
        None
    } else {
        match first_formula_fault(formulas.drop_last(), names) {
            Some(found) => Some(found),
            None => formula_fault(formulas.last(), names),
        }
    }
}

/// Why a batch gives no result; `None` if it gives one. The lengths are
/// compared before any formula is read, the context's first.
pub open spec fn batch_fault(
    context_keys: Seq<Seq<char>>,
    context_values: Seq<u64>,
    computed_keys: Seq<Seq<char>>,
    computed_formulas: Seq<Seq<char>>,
) -> Option<ComputeFault> {
    if context_keys.len() != context_values.len() {
        Some(ComputeFault::LengthMismatch(Pair::Context))
    } else if computed_keys.len() != computed_formulas.len() {
        Some(ComputeFault::LengthMismatch(Pair::Computed))
    } else {
        first_formula_fault(computed_formulas, paired(context_keys, context_values).dom())
    }
}

/// The result of a batch whose formulas have the values `results`: the
/// results are written under their names in order, then the context's
/// pairs are.
pub open spec fn assembled(
    computed_keys: Seq<Seq<char>>,
    results: Seq<u64>,
    context_keys: Seq<Seq<char>>,
    context_values: Seq<u64>,
) -> Seq<(Seq<char>, u64)> {
    written_all(written_all(Seq::empty(), computed_keys, results), context_keys, context_values)
}

/// Whether `results` may be the values of the formulas that `formulas`
/// write, each in `context` alone.
pub open spec fn may_outcomes<K: Fn(Operation) -> u64>(
    formulas: Seq<Seq<char>>,
    context: Map<Seq<char>, u64>,
    kernel: K,
    results: Seq<u64>,
) -> bool {
    &&& results.len() == formulas.len()
    &&& forall|i: int|
        0 <= i < formulas.len() ==> (parse(#[trigger] formulas[i]) matches Ok(formula)
            && may_value(formula, context, kernel, results[i]))
}

/// Whether `entries` may be the result of a batch: whether they are
/// assembled from values that the formulas may have.
pub open spec fn may_compute<K: Fn(Operation) -> u64>(
    context_keys: Seq<Seq<char>>,
    context_values: Seq<u64>,
    computed_keys: Seq<Seq<char>>,
    computed_formulas: Seq<Seq<char>>,
    kernel: K,
    entries: Seq<(Seq<char>, u64)>,
) -> bool {
    exists|results: Seq<u64>|
        may_outcomes(
            computed_formulas,
            paired(context_keys, context_values),
            kernel,
            results,
        ) && entries == #[trigger] assembled(
            computed_keys,
            results,
            context_keys,
            context_values,
        )
}

/// What [`compute`] gives: every formula is evaluated in the context alone,
/// so no formula sees what another computed. The results are written under
/// their names in order, then the context's pairs are: where a computed name
/// is also a context name, the context's value stands in the result.
pub open spec fn computed(
    context_keys: Seq<Seq<char>>,
    context_values: Seq<u64>,
    computed_keys: Seq<Seq<char>>,
    computed_formulas: Seq<Seq<char>>,
    kernel: spec_fn(Request) -> u64,
) -> Result<Seq<(Seq<char>, u64)>, ComputeFault> {
    if context_keys.len() != context_values.len() {
        Err(ComputeFault::LengthMismatch(Pair::Context))
    } else if computed_keys.len() != computed_formulas.len() {
        Err(ComputeFault::LengthMismatch(Pair::Computed))
    } else {
        match outcomes(computed_formulas, paired(context_keys, context_values), kernel) {
            Ok(xs) => Ok(assembled(computed_keys, xs, context_keys, context_values)),
            Err(found) => Err(found),
        }
    }
}

/// The model of what [`compute`] returns.
pub open spec fn compute_view(r: Result<Vec<(String, u64)>, ComputeError>) -> Result<
    Seq<(Seq<char>, u64)>,
    ComputeFault,
> {
    match r {
        Ok(entries) => Ok(entries_view(entries@)),
        Err(error) => Err(error@),
    }
}

/// Whether `r` fails exactly as `expected` says.
pub open spec fn fails_as<T>(r: Result<T, ComputeError>, expected: Option<ComputeFault>) -> bool {
    match r {
        Ok(_) => expected is None,
        Err(error) => expected == Some(error@),
    }
}

/// When one of the first `n` of `formulas` has a fault, the first fault of
/// all of them is found among those.
pub proof fn lemma_first_formula_fault(formulas: Seq<Seq<char>>, names: Set<Seq<char>>, n: int)
    requires
        0 <= n <= formulas.len(),
        first_formula_fault(formulas.take(n), names) is Some,
    ensures
        first_formula_fault(formulas, names) == first_formula_fault(formulas.take(n), names),
    decreases formulas.len() - n,
{
    if n < formulas.len() {
        assert(formulas.take(n + 1).drop_last() == formulas.take(n));
        lemma_first_formula_fault(formulas, names, n + 1);
    } else {
        assert(formulas.take(n) == formulas);
    }
}

/// When the first `n` of `formulas` fail to give values, all of them fail,
/// and in the same way.
pub proof fn lemma_first_outcome_failure(
    formulas: Seq<Seq<char>>,
    context: Map<Seq<char>, u64>,
    kernel: spec_fn(Request) -> u64,
    n: int,
)
    requires
        0 <= n <= formulas.len(),
        outcomes(formulas.take(n), context, kernel) is Err,
    ensures
        outcomes(formulas, context, kernel) == outcomes(formulas.take(n), context, kernel),
    decreases formulas.len() - n,
{
    if n < formulas.len() {
        assert(formulas.take(n + 1).drop_last() == formulas.take(n));
        lemma_first_outcome_failure(formulas, context, kernel, n + 1);
    } else {
        assert(formulas.take(n) == formulas);
    }
}

/// Writes each `values[i]` under `keys[i]`, in order.
pub fn write_all(entries: &mut Vec<(String, u64)>, keys: &Vec<String>, values: &Vec<u64>)
    requires
        keys.len() == values.len(),
    ensures
        entries_view(final(entries)@) == written_all(
            entries_view(old(entries)@),
            texts(keys@),
            values@,
        ),
{
    let ghost before = entries_view(entries@);
    let mut done: usize = 0;
    while done < keys.len()
        invariant
            done <= keys.len(),
            keys.len() == values.len(),
            entries_view(entries@) == written_all(
                before,
                texts(keys@).take(done as int),
                values@.take(done as int),
            ),
        decreases keys.len() - done,
    {
        proof {
            let ghost all = texts(keys@);
            assert(all.take(done + 1).drop_last() == all.take(done as int));
            assert(values@.take(done + 1).drop_last() == values@.take(done as int));
        }
        write(entries, keys[done].clone(), values[done]);
        done += 1;
    }
    assert(texts(keys@).take(done as int) == texts(keys@));
    assert(values@.take(done as int) == values@);
}

/// Computes the named formulas `computed_formulas` against the context that
/// pairs `context_keys[i]` with `context_values[i]`, and returns the named
/// results together with the context's own pairs.
pub fn compute<K: Fn(Operation) -> u64>(
    context_keys: Vec<String>,
    context_values: Vec<u64>,
    computed_keys: Vec<String>,
    computed_formulas: Vec<String>,
    kernel: &K,
) -> (r: Result<Vec<(String, u64)>, ComputeError>)
    requires
        accepts_all(*kernel),
    ensures
        fails_as(
            r,
            batch_fault(
                texts(context_keys@),
                context_values@,
                texts(computed_keys@),
                texts(computed_formulas@),
            ),
        ),
        r matches Ok(entries) ==> may_compute(
            texts(context_keys@),
            context_values@,
            texts(computed_keys@),
            texts(computed_formulas@),
            *kernel,
            entries_view(entries@),
        ),
        is_function(*kernel) ==> compute_view(r) == computed(
            texts(context_keys@),
            context_values@,
            texts(computed_keys@),
            texts(computed_formulas@),
            model(*kernel),
        ),
{
    if context_keys.len() != context_values.len() {
        return Err(ComputeError::LengthMismatch(Pair::Context));
    }
    if computed_keys.len() != computed_formulas.len() {
        return Err(ComputeError::LengthMismatch(Pair::Computed));
    }
    let context = context_of(&context_keys, &context_values);
    let ghost formulas = texts(computed_formulas@);
    let mut results: Vec<u64> = Vec::new();
    let mut done: usize = 0;
    while done < computed_formulas.len()
        invariant
            done <= computed_formulas.len(),
            accepts_all(*kernel),
            formulas == texts(computed_formulas@),
            context_keys.len() == context_values.len(),
            computed_keys.len() == computed_formulas.len(),
            context@ == paired(texts(context_keys@), context_values@),
            results.len() == done,
            first_formula_fault(formulas.take(done as int), context@.dom()) is None,
            may_outcomes(formulas.take(done as int), context@, *kernel, results@),
            is_function(*kernel) ==> outcomes(formulas.take(done as int), context@, model(*kernel))
                == Ok::<Seq<u64>, ComputeFault>(results@),
        decreases computed_formulas.len() - done,
    {
        assert(formulas.take(done + 1).drop_last() == formulas.take(done as int));
        assert(formulas.take(done + 1).last() == computed_formulas[done as int]@);
        let ast = match parse_formula(computed_formulas[done].as_str()) {
            Ok(ast) => ast,
            Err(error) => {
                proof {
                    lemma_first_formula_fault(formulas, context@.dom(), done + 1);
                    if is_function(*kernel) {
                        lemma_first_outcome_failure(formulas, context@, model(*kernel), done + 1);
                    }
                }
                return Err(ComputeError::Syntax(error));
            },
        };
        match evaluate_ast(&ast, &context, kernel) {
            Ok(x) => {
                results.push(x);
            },
            Err(error) => {
                proof {
                    lemma_first_formula_fault(formulas, context@.dom(), done + 1);
                    if is_function(*kernel) {
                        lemma_first_outcome_failure(formulas, context@, model(*kernel), done + 1);
                    }
                }
                return Err(ComputeError::Evaluation(error));
            },
        }
        done += 1;
    }
    assert(formulas.take(done as int) == formulas);
    let mut entries: Vec<(String, u64)> = Vec::new();
    assert(entries_view(entries@) =~= Seq::<(Seq<char>, u64)>::empty());
    write_all(&mut entries, &computed_keys, &results);
    write_all(&mut entries, &context_keys, &context_values);
    assert(entries_view(entries@) == assembled(
        texts(computed_keys@),
        results@,
        texts(context_keys@),
        context_values@,
    ));
    Ok(entries)
}

} // verus!
