//! Numbers and names inside longer texts: what the grammar reads at a
//! position where a text stands, and what it reads of a text by itself.

use vstd::prelude::*;
use crate::chars::{is_digit, lemma_run_bounded, run, CharClass};
use crate::grammar::{
    char_at, exponent_len, identifier_len, mantissa_len, number_len, sign_len, spaces,
};

verus! {

/// Whether `t` stands in `s` at position `i`.
pub open spec fn stands_at(s: Seq<char>, i: int, t: Seq<char>) -> bool {
    &&& 0 <= i
    &&& i + t.len() <= s.len()
    &&& forall|k: int| 0 <= k < t.len() ==> s[i + k] == #[trigger] t[k]
}

/// Whether `t` is a number, all of it.
pub open spec fn is_number(t: Seq<char>) -> bool {
    t.len() > 0 && number_len(t, 0) == t.len()
}

/// Whether `t` is an identifier, all of it.
pub open spec fn is_identifier(t: Seq<char>) -> bool {
    t.len() > 0 && identifier_len(t, 0) == t.len()
}

/// Whether a number that ends before position `j` of `s` cannot go on
/// there: the text ends, or what stands there is no digit, point or `e`.
pub open spec fn ends_number(s: Seq<char>, j: int) -> bool {
    j >= s.len() || !(is_digit(s[j]) || s[j] == '.' || s[j] == 'e' || s[j] == 'E')
}

/// Whether an identifier that ends before position `j` of `s` cannot go on
/// there.
pub open spec fn ends_word(s: Seq<char>, j: int) -> bool {
    j >= s.len() || !CharClass::Word.has(s[j])
}

/// A run in a text that stands in another is the run there, unless it
/// reaches the end of the text: then it goes on with what follows.
pub proof fn lemma_run_inside(s: Seq<char>, i: int, t: Seq<char>, j: int, class: CharClass)
    requires
        stands_at(s, i, t),
        0 <= j <= t.len(),
    ensures
        run(t, j, class) <= t.len() - j,
        run(t, j, class) < t.len() - j ==> run(s, i + j, class) == run(t, j, class),
        run(t, j, class) == t.len() - j ==> run(s, i + j, class) == t.len() - j + run(
            s,
            i + t.len(),
            class,
        ),
    decreases t.len() - j,
{
    lemma_run_bounded(t, j, class);
    if j < t.len() {
        assert(s[i + j] == t[j]);
        if class.has(t[j]) {
            lemma_run_inside(s, i, t, j + 1, class);
        }
    }
}

/// The same, of every position of the text at once.
pub proof fn lemma_runs_inside(s: Seq<char>, i: int, t: Seq<char>, class: CharClass)
    requires
        stands_at(s, i, t),
    ensures
        forall|j: int|
            0 <= j <= t.len() ==> {
                &&& #[trigger] run(t, j, class) <= t.len() - j
                &&& run(t, j, class) < t.len() - j ==> run(s, i + j, class) == run(t, j, class)
                &&& run(t, j, class) == t.len() - j ==> run(s, i + j, class) == t.len() - j
                    + run(s, i + t.len(), class)
            },
{
    assert forall|j: int| 0 <= j <= t.len() implies {
        &&& #[trigger] run(t, j, class) <= t.len() - j
        &&& run(t, j, class) < t.len() - j ==> run(s, i + j, class) == run(t, j, class)
        &&& run(t, j, class) == t.len() - j ==> run(s, i + j, class) == t.len() - j + run(
            s,
            i + t.len(),
            class,
        )
    } by {
        lemma_run_inside(s, i, t, j, class);
    }
}

/// An identifier that stands in a text, and cannot go on after its end, is
/// the identifier that the text has at that position.
pub proof fn lemma_identifier_inside(s: Seq<char>, i: int, t: Seq<char>)
    requires
        is_identifier(t),
        stands_at(s, i, t),
        ends_word(s, i + t.len()),
    ensures
        identifier_len(s, i) == t.len(),
        number_len(s, i) == 0,
        spaces(s, i) == 0,
        !char_at(s, i, '('),
{
    assert(s[i + 0] == t[0]);
    lemma_run_inside(s, i, t, 1, CharClass::Word);
}

/// The identifier that a text has at a position is an identifier by itself.
pub proof fn lemma_identifier_alone(s: Seq<char>, i: int)
    requires
        identifier_len(s, i) > 0,
    ensures
        is_identifier(s.subrange(i, i + identifier_len(s, i))),
        i + identifier_len(s, i) <= s.len(),
{
    let n = identifier_len(s, i);
    lemma_run_bounded(s, i + 1, CharClass::Word);
    let t = s.subrange(i, i + n);
    assert(stands_at(s, i, t));
    assert(t[0] == s[i]);
    lemma_run_inside(s, i, t, 1, CharClass::Word);
}

/// A number that stands in a text, and cannot go on after its end, is the
/// number that the text has at that position.
pub proof fn lemma_number_inside(s: Seq<char>, i: int, t: Seq<char>)
    requires
        is_number(t),
        stands_at(s, i, t),
        ends_number(s, i + t.len()),
    ensures
        number_len(s, i) == t.len(),
        spaces(s, i) == 0,
{
    lemma_runs_inside(s, i, t, CharClass::Digit);
    let end = i + t.len();
    assert(run(s, end, CharClass::Digit) == 0);
    assert(!char_at(s, end, '.') && !char_at(s, end, 'e') && !char_at(s, end, 'E'));
    assert(s[i + 0] == t[0]);
    let sign = sign_len(t, 0);
    assert(sign_len(s, i) == sign);
    lemma_mantissa_inside(s, i, t, sign as int);
    let mantissa = mantissa_len(t, sign as int);
    lemma_exponent_inside(s, i, t, (sign + mantissa) as int);
}

/// The digits and the point of a number inside a text that stands in
/// another are those that the other text has there, if nothing after the
/// text can go on with them.
pub proof fn lemma_mantissa_inside(s: Seq<char>, i: int, t: Seq<char>, j: int)
    requires
        stands_at(s, i, t),
        ends_number(s, i + t.len()),
        0 <= j <= t.len(),
    ensures
        mantissa_len(s, i + j) == mantissa_len(t, j),
        mantissa_len(t, j) <= t.len() - j,
{
    lemma_runs_inside(s, i, t, CharClass::Digit);
    let end = i + t.len();
    assert(run(s, end, CharClass::Digit) == 0);
    assert(!char_at(s, end, '.'));
    let whole = run(t, j, CharClass::Digit);
    assert(run(s, i + j, CharClass::Digit) == whole);
    if j + whole < t.len() {
        assert(s[i + (j + whole)] == t[j + whole]);
        assert(run(t, j + whole + 1, CharClass::Digit) <= t.len() - (j + whole + 1));
    }
    if j < t.len() {
        assert(s[i + j] == t[j]);
        assert(run(t, j + 1, CharClass::Digit) <= t.len() - (j + 1));
    }
}

/// The same, of an exponent that reaches the end of the text.
pub proof fn lemma_exponent_inside(s: Seq<char>, i: int, t: Seq<char>, j: int)
    requires
        stands_at(s, i, t),
        ends_number(s, i + t.len()),
        0 <= j <= t.len(),
        exponent_len(t, j) == t.len() - j,
    ensures
        exponent_len(s, i + j) == exponent_len(t, j),
{
    lemma_runs_inside(s, i, t, CharClass::Digit);
    let end = i + t.len();
    assert(run(s, end, CharClass::Digit) == 0);
    assert(!char_at(s, end, 'e') && !char_at(s, end, 'E'));
    if j < t.len() {
        assert(s[i + j] == t[j]);
        let sign = sign_len(t, j + 1);
        assert(run(t, j + 1 + sign, CharClass::Digit) > 0);
        assert(j + 1 + sign < t.len());
        assert(s[i + (j + 1)] == t[j + 1]);
        assert(sign_len(s, i + j + 1) == sign);
        assert(run(s, i + (j + 1 + sign), CharClass::Digit) == run(
            t,
            j + 1 + sign,
            CharClass::Digit,
        ));
    }
}

/// The number that a text has at a position is a number by itself.
pub proof fn lemma_number_alone(s: Seq<char>, i: int)
    requires
        0 <= i,
        number_len(s, i) > 0,
    ensures
        is_number(s.subrange(i, i + number_len(s, i))),
        i + number_len(s, i) <= s.len(),
{
    let n: int = number_len(s, i) as int;
    let sign: int = sign_len(s, i) as int;
    let mantissa: int = mantissa_len(s, i + sign) as int;
    let exponent: int = exponent_len(s, i + sign + mantissa) as int;
    lemma_number_bounded(s, i);
    let t = s.subrange(i, i + n);
    assert(stands_at(s, i, t));
    lemma_runs_inside(s, i, t, CharClass::Digit);
    assert(t[0] == s[i + 0]);
    assert(sign_len(t, 0) == sign);
    // The digits and the point.
    let whole: int = run(s, i + sign, CharClass::Digit) as int;
    assert(run(t, sign, CharClass::Digit) == whole);
    if whole > 0 {
        if char_at(s, i + sign + whole, '.') {
            assert(t[sign + whole] == s[i + (sign + whole)]);
            assert(run(t, sign + whole + 1, CharClass::Digit) == run(
                s,
                i + sign + whole + 1,
                CharClass::Digit,
            ));
        } else if sign + whole < n {
            assert(t[sign + whole] == s[i + (sign + whole)]);
        }
    } else {
        assert(t[sign] == s[i + sign]);
        assert(run(t, sign + 1, CharClass::Digit) == run(s, i + sign + 1, CharClass::Digit));
    }
    assert(mantissa_len(t, sign) == mantissa);
    // The exponent.
    let at = sign + mantissa;
    if exponent > 0 {
        assert(t[at] == s[i + at]);
        let inner: int = sign_len(s, i + at + 1) as int;
        assert(at + 1 + inner < n);
        assert(t[at + 1] == s[i + (at + 1)]);
        assert(sign_len(t, at + 1) == inner);
        assert(run(t, at + 1 + inner, CharClass::Digit) == run(
            s,
            i + at + 1 + inner,
            CharClass::Digit,
        ));
    } else {
        assert(at == n);
    }
    assert(exponent_len(t, at) == exponent);
}

/// A number stays inside the text.
pub proof fn lemma_number_bounded(s: Seq<char>, i: int)
    requires
        0 <= i,
    ensures
        i + number_len(s, i) <= s.len() || number_len(s, i) == 0,
        i + sign_len(s, i) + mantissa_len(s, i + sign_len(s, i)) <= s.len() || mantissa_len(
            s,
            i + sign_len(s, i),
        ) == 0,
{
    let sign = sign_len(s, i);
    let a = i + sign;
    if a <= s.len() {
        lemma_run_bounded(s, a, CharClass::Digit);
        let whole = run(s, a, CharClass::Digit);
        if a + whole + 1 <= s.len() {
            lemma_run_bounded(s, a + whole + 1, CharClass::Digit);
        }
        if a + 1 <= s.len() {
            lemma_run_bounded(s, a + 1, CharClass::Digit);
        }
        let mantissa = mantissa_len(s, a);
        let e = a + mantissa;
        if e + 1 <= s.len() {
            let inner = sign_len(s, e + 1);
            if e + 1 + inner <= s.len() {
                lemma_run_bounded(s, e + 1 + inner, CharClass::Digit);
            }
        }
    }
}

/// Where two texts stand one after the other, each of them stands.
pub proof fn lemma_stands_apart(s: Seq<char>, i: int, a: Seq<char>, b: Seq<char>)
    requires
        stands_at(s, i, a + b),
    ensures
        stands_at(s, i, a),
        stands_at(s, i + a.len(), b),
{
    let t = a + b;
    assert forall|k: int| 0 <= k < a.len() implies s[i + k] == #[trigger] a[k] by {
        assert(t[k] == a[k]);
    }
    assert forall|k: int| 0 <= k < b.len() implies s[i + a.len() + k] == #[trigger] b[k] by {
        assert(t[a.len() + k] == b[k]);
    }
}

/// A text stands in itself.
pub proof fn lemma_stands_in_itself(s: Seq<char>)
    ensures
        stands_at(s, 0, s),
{
}

} // verus!
