//! Characters: the classes the grammar distinguishes, runs of one class, and
//! moving between text and character vectors.

use vstd::prelude::*;

verus! {

/// A class of characters that the grammar reads in runs.
#[derive(Clone, Copy, Debug, PartialEq, Eq, Structural)]
pub enum CharClass {
    /// Space, tab, line feed and carriage return.
    Space,
    /// The ASCII digits.
    Digit,
    /// What may continue an identifier: an ASCII letter, a digit or `_`.
    Word,
}

pub open spec fn is_space(c: char) -> bool {
    c == ' ' || c == '\t' || c == '\n' || c == '\r'
}

pub open spec fn is_digit(c: char) -> bool {
    '0' <= c <= '9'
}

pub open spec fn is_letter(c: char) -> bool {
    ('a' <= c <= 'z') || ('A' <= c <= 'Z')
}

/// Whether `c` may start an identifier.
pub open spec fn is_word_start(c: char) -> bool {
    is_letter(c) || c == '_'
}

pub open spec fn is_sign(c: char) -> bool {
    c == '+' || c == '-'
}

impl CharClass {
    /// Whether `c` belongs to this class.
    pub open spec fn has(self, c: char) -> bool {
        match self {
            CharClass::Space => is_space(c),
            CharClass::Digit => is_digit(c),
            CharClass::Word => is_letter(c) || is_digit(c) || c == '_',
        }
    }

    /// Whether `c` belongs to this class.
    pub fn contains(&self, c: char) -> (r: bool)
        ensures
            r == self.has(c),
    {
        match self {
            CharClass::Space => c == ' ' || c == '\t' || c == '\n' || c == '\r',
            CharClass::Digit => '0' <= c && c <= '9',
            CharClass::Word => ('a' <= c && c <= 'z') || ('A' <= c && c <= 'Z') || ('0' <= c && c
                <= '9') || c == '_',
        }
    }
}

/// Whether `c` may start an identifier.
pub fn starts_word(c: char) -> (r: bool)
    ensures
        r == is_word_start(c),
{
    ('a' <= c && c <= 'z') || ('A' <= c && c <= 'Z') || c == '_'
}

/// The number of characters of `class` that stand in `s` from position `i`
/// on, up to the first that is not of the class.
pub open spec fn run(s: Seq<char>, i: int, class: CharClass) -> nat
    decreases s.len() - i,
{
    if 0 <= i < s.len() && class.has(s[i]) {
        1 + run(s, i + 1, class)
    } else {
        0
    }
}

/// A run stays inside the text.
pub proof fn lemma_run_bounded(s: Seq<char>, i: int, class: CharClass)
    requires
        0 <= i <= s.len(),
    ensures
        i + run(s, i, class) <= s.len(),
    decreases s.len() - i,
{
    if i < s.len() && class.has(s[i]) {
        lemma_run_bounded(s, i + 1, class);
    }
}

/// A run is made of characters of its class and ends before one that is not.
pub proof fn lemma_run_contents(s: Seq<char>, i: int, class: CharClass)
    requires
        0 <= i <= s.len(),
    ensures
        forall|k: int| i <= k < i + run(s, i, class) ==> class.has(#[trigger] s[k]),
        i + run(s, i, class) < s.len() ==> !class.has(s[i + run(s, i, class)]),
    decreases s.len() - i,
{
    if i < s.len() && class.has(s[i]) {
        lemma_run_contents(s, i + 1, class);
    }
}

/// A stretch of characters of one class that ends at the end of the text, or
/// before a character of another class, is the run from its start.
pub proof fn lemma_run_unique(s: Seq<char>, i: int, n: nat, class: CharClass)
    requires
        0 <= i,
        i + n <= s.len(),
        forall|k: int| i <= k < i + n ==> class.has(#[trigger] s[k]),
        i + n < s.len() ==> !class.has(s[i + n]),
    ensures
        run(s, i, class) == n,
    decreases n,
{
    if n > 0 {
        lemma_run_unique(s, i + 1, (n - 1) as nat, class);
    }
}

/// The position after the run of `class` that starts at `from`.
pub fn scan(chars: &Vec<char>, from: usize, class: CharClass) -> (to: usize)
    requires
        from <= chars.len(),
    ensures
        to == from + run(chars@, from as int, class),
        from <= to <= chars.len(),
{
    let mut to: usize = from;
    while to < chars.len() && class.contains(chars[to])
        invariant
            from <= to <= chars.len(),
            forall|k: int| from <= k < to ==> class.has(#[trigger] chars@[k]),
        decreases chars.len() - to,
    {
        to += 1;
    }
    proof {
        lemma_run_unique(chars@, from as int, (to - from) as nat, class);
    }
    to
}

/// `String::push` appends the character to the end of the text and leaves
/// the rest as it was.
pub assume_specification[ String::push ](text: &mut String, c: char)
    ensures
        final(text)@ == old(text)@.push(c),
;

/// Whether two texts are made of the same characters: `str`'s `==`, which
/// compares the texts byte by byte.
#[verifier::external_body]
pub(crate) fn same_text(a: &str, b: &str) -> (r: bool)
    ensures
        r == (a@ == b@),
{
    a == b
}

/// The characters of `text`, in order.
pub fn chars_of(text: &str) -> (chars: Vec<char>)
    ensures
        chars@ == text@,
{
    let mut chars: Vec<char> = Vec::new();
    for c in it: text.chars()
        invariant
            chars@ == it.seq().take(it.index()),
    {
        chars.push(c);
    }
    chars
}

/// The text made of `chars[from..to]`.
pub fn text_of(chars: &Vec<char>, from: usize, to: usize) -> (text: String)
    requires
        from <= to <= chars.len(),
    ensures
        text@ == chars@.subrange(from as int, to as int),
{
    let mut text = String::new();
    let mut at: usize = from;
    while at < to
        invariant
            from <= at <= to <= chars.len(),
            text@ == chars@.subrange(from as int, at as int),
        decreases to - at,
    {
        text.push(chars[at]);
        assert(chars@.subrange(from as int, at as int).push(chars@[at as int])
            == chars@.subrange(from as int, at + 1));
        at += 1;
    }
    text
}

} // verus!
