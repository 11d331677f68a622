//! The shape in which a tree crosses a boundary: plain structured data.
//!
//! ```text
//! { literal: number }
//! { identifier: string }
//! { call: { name: string, args: [tree, ..] } }
//! { binaryOp: { op: "+" | "-" | "*" | "/", left: tree, right: tree } }
//! ```
//!
//! A record's fields may come in any order.

use vstd::prelude::*;
use crate::ast::{formulas, Expr, Formula, Operator};
use crate::chars::same_text;
use crate::eval::value;
use crate::kernel::Request;
use crate::parser::parse;

verus! {

/// A named member of a record.
#[derive(Debug, PartialEq, Eq)]
pub struct Field {
    pub name: String,
    pub value: Payload,
}

/// Plain structured data.
#[derive(Debug, PartialEq, Eq)]
pub enum Payload {
    Null,
    Bool(bool),
    /// A number, as the numeral that writes it.
    Number(String),
    Text(String),
    List(Vec<Payload>),
    Record(Vec<Field>),
}

/// The model of a [`Field`].
pub struct Member {
    pub name: Seq<char>,
    pub value: Data,
}

/// The model of a [`Payload`].
pub enum Data {
    Null,
    Bool(bool),
    Number(Seq<char>),
    Text(Seq<char>),
    List(Seq<Data>),
    Record(Seq<Member>),
}

impl Payload {
    /// The model of this payload.
    pub open spec fn data(self) -> Data
        decreases self,
    {
        match self {
            Payload::Null => Data::Null,
            Payload::Bool(b) => Data::Bool(b),
            Payload::Number(numeral) => Data::Number(numeral@),
            Payload::Text(text) => Data::Text(text@),
            Payload::List(items) => Data::List(datas(items@)),
            Payload::Record(fields) => Data::Record(members(fields@)),
        }
    }
}

/// The models of `items`, in order.
pub open spec fn datas(items: Seq<Payload>) -> Seq<Data>
    decreases items,
{
    Seq::new(
        items.len(),
        |i: int|
            if 0 <= i < items.len() {
                items[i].data()
            } else {
                Data::Null
            },
    )
}

/// The models of `fields`, in order.
pub open spec fn members(fields: Seq<Field>) -> Seq<Member>
    decreases fields,
{
    Seq::new(
        fields.len(),
        |i: int|
            if 0 <= i < fields.len() {
                Member { name: fields[i].name@, value: fields[i].value.data() }
            } else {
                Member { name: Seq::empty(), value: Data::Null }
            },
    )
}

impl View for Payload {
    type V = Data;

    open spec fn view(&self) -> Data {
        self.data()
    }
}

/// The text that writes `op` in a payload.
pub open spec fn operator_text(op: Operator) -> Seq<char> {
    match op {
        Operator::Add => "+"@,
        Operator::Sub => "-"@,
        Operator::Mul => "*"@,
        Operator::Div => "/"@,
    }
}

/// The operator that `text` writes in a payload, if it writes one.
pub open spec fn operator_of(text: Seq<char>) -> Option<Operator> {
    if text == "+"@ {
        Some(Operator::Add)
    } else if text == "-"@ {
        Some(Operator::Sub)
    } else if text == "*"@ {
        Some(Operator::Mul)
    } else if text == "/"@ {
        Some(Operator::Div)
    } else {
        None
    }
}

/// The place of the first of `members` that is called `name`, if there is
/// one.
pub open spec fn place(members: Seq<Member>, name: Seq<char>) -> Option<int>
    decreases members.len(),
{
    if members.len() == 0 {
        None
    } else {
        match place(members.drop_last(), name) {
            Some(i) => Some(i),
            None => if members.last().name == name {
                Some(members.len() - 1)
            } else {
                None
            },
        }
    }
}

/// The payload of `formula`.
pub open spec fn encoded(formula: Formula) -> Data
    decreases formula,
{
    match formula {
        Formula::Literal(numeral) => Data::Record(
            seq![Member { name: "literal"@, value: Data::Number(numeral) }],
        ),
        Formula::Identifier(name) => Data::Record(
            seq![Member { name: "identifier"@, value: Data::Text(name) }],
        ),
        Formula::FunctionCall(name, args) => Data::Record(
            seq![
                Member {
                    name: "call"@,
                    value: Data::Record(
                        seq![
                            Member { name: "name"@, value: Data::Text(name) },
                            Member { name: "args"@, value: Data::List(encoded_all(args)) },
                        ],
                    ),
                },
            ],
        ),
        Formula::BinaryOp { op, left, right } => Data::Record(
            seq![
                Member {
                    name: "binaryOp"@,
                    value: Data::Record(
                        seq![
                            Member { name: "op"@, value: Data::Text(operator_text(op)) },
                            Member { name: "left"@, value: encoded(*left) },
                            Member { name: "right"@, value: encoded(*right) },
                        ],
                    ),
                },
            ],
        ),
    }
}

/// The payloads of `formulas`, in order.
pub open spec fn encoded_all(formulas: Seq<Formula>) -> Seq<Data>
    decreases formulas, formulas.len(),
{
    if formulas.len() == 0 {
        Seq::empty()
    } else {
        encoded_all(formulas.drop_last()).push(encoded(formulas.last()))
    }
}

/// The tree that `data` is the payload of; `None` where `data` has none of
/// the four shapes.
pub open spec fn decoded(data: Data) -> Option<Formula>
    decreases data,
{
    match data {
        Data::Record(members) => if members.len() == 1 {
            let tag = members[0].name;
            let body = members[0].value;
            if tag == "literal"@ {
                match body {
                    Data::Number(numeral) => Some(Formula::Literal(numeral)),
                    _ => None,
                }
            } else if tag == "identifier"@ {
                match body {
                    Data::Text(name) => Some(Formula::Identifier(name)),
                    _ => None,
                }
            } else if tag == "call"@ {
                match body {
                    Data::Record(parts) => decoded_call(parts),
                    _ => None,
                }
            } else if tag == "binaryOp"@ {
                match body {
                    Data::Record(parts) => decoded_binary(parts),
                    _ => None,
                }
            } else {
                None
            }
        } else {
            None
        },
        _ => None,
    }
}

/// The call that has `parts` as its members: a name and arguments.
pub open spec fn decoded_call(parts: Seq<Member>) -> Option<Formula>
    decreases parts,
{
    if parts.len() == 2 {
        match (place(parts, "name"@), place(parts, "args"@)) {
            (Some(n), Some(a)) => if 0 <= n < parts.len() && 0 <= a < parts.len() {
                match (parts[n].value, parts[a].value) {
                    (Data::Text(name), Data::List(items)) => match decoded_all(items) {
                        Some(args) => Some(Formula::FunctionCall(name, args)),
                        None => None,
                    },
                    _ => None,
                }
            } else {
                None
            },
            _ => None,
        }
    } else {
        None
    }
}

/// The operation that has `parts` as its members: an operator and two
/// operands.
pub open spec fn decoded_binary(parts: Seq<Member>) -> Option<Formula>
    decreases parts,
{
    if parts.len() == 3 {
        match (place(parts, "op"@), place(parts, "left"@), place(parts, "right"@)) {
            (Some(o), Some(l), Some(r)) => if 0 <= o < parts.len() && 0 <= l < parts.len() && 0
                <= r < parts.len() {
                match parts[o].value {
                    Data::Text(text) => match (
                        operator_of(text),
                        decoded(parts[l].value),
                        decoded(parts[r].value),
                    ) {
                        (Some(op), Some(left), Some(right)) => Some(
                            Formula::BinaryOp { op, left: Box::new(left), right: Box::new(right) },
                        ),
                        _ => None,
                    },
                    _ => None,
                }
            } else {
                None
            },
            _ => None,
        }
    } else {
        None
    }
}

/// The trees that `items` are the payloads of, in order; `None` where one of
/// them is no tree's payload.
pub open spec fn decoded_all(items: Seq<Data>) -> Option<Seq<Formula>>
    decreases items, items.len(),
{
    if items.len() == 0 {
        Some(Seq::empty())
    } else {
        match (decoded_all(items.drop_last()), decoded(items.last())) {
            (Some(formulas), Some(formula)) => Some(formulas.push(formula)),
            _ => None,
        }
    }
}

/// The payload is none of a tree: it has none of the four shapes.
#[derive(Clone, Copy, Debug, PartialEq, Eq, Structural)]
pub struct MalformedAstPayload;

/// The names that the shapes use differ from one another.
pub proof fn lemma_names_differ()
    ensures
        "literal"@ != "identifier"@,
        "literal"@ != "call"@,
        "literal"@ != "binaryOp"@,
        "identifier"@ != "call"@,
        "identifier"@ != "binaryOp"@,
        "call"@ != "binaryOp"@,
        "name"@ != "args"@,
        "op"@ != "left"@,
        "op"@ != "right"@,
        "left"@ != "right"@,
        "+"@ != "-"@,
        "+"@ != "*"@,
        "+"@ != "/"@,
        "-"@ != "*"@,
        "-"@ != "/"@,
        "*"@ != "/"@,
{
    reveal_strlit("literal");
    reveal_strlit("identifier");
    reveal_strlit("call");
    reveal_strlit("binaryOp");
    reveal_strlit("name");
    reveal_strlit("args");
    reveal_strlit("op");
    reveal_strlit("left");
    reveal_strlit("right");
    reveal_strlit("+");
    reveal_strlit("-");
    reveal_strlit("*");
    reveal_strlit("/");
    assert("literal"@.len() == 7 && "identifier"@.len() == 10 && "call"@.len() == 4
        && "binaryOp"@.len() == 8);
    assert("name"@[0] == 'n' && "args"@[0] == 'a');
    assert("op"@.len() == 2 && "left"@.len() == 4 && "right"@.len() == 5);
    assert("+"@[0] == '+' && "-"@[0] == '-' && "*"@[0] == '*' && "/"@[0] == '/');
}

/// Reading an operator's text gives the operator back.
pub proof fn lemma_operator_text(op: Operator)
    ensures
        operator_of(operator_text(op)) == Some(op),
{
    lemma_names_differ();
}

/// Decoding undoes encoding: every tree comes back from its payload.
pub proof fn lemma_decode_encode(formula: Formula)
    ensures
        decoded(encoded(formula)) == Some(formula),
    decreases formula,
{
    lemma_names_differ();
    reveal_with_fuel(place, 4);
    match formula {
        Formula::Literal(_) => {},
        Formula::Identifier(_) => {},
        Formula::FunctionCall(name, args) => {
            lemma_decode_encode_all(args);
            let parts = seq![
                Member { name: "name"@, value: Data::Text(name) },
                Member { name: "args"@, value: Data::List(encoded_all(args)) },
            ];
            assert(parts.drop_last().drop_last().len() == 0);
            assert(place(parts, "name"@) == Some(0int));
            assert(place(parts, "args"@) == Some(1int));
            assert(decoded_call(parts) == Some(formula));
        },
        Formula::BinaryOp { op, left, right } => {
            lemma_decode_encode(*left);
            lemma_decode_encode(*right);
            lemma_operator_text(op);
            let parts = seq![
                Member { name: "op"@, value: Data::Text(operator_text(op)) },
                Member { name: "left"@, value: encoded(*left) },
                Member { name: "right"@, value: encoded(*right) },
            ];
            assert(parts.drop_last().drop_last().drop_last().len() == 0);
            assert(place(parts, "op"@) == Some(0int));
            assert(place(parts, "left"@) == Some(1int));
            assert(place(parts, "right"@) == Some(2int));
            assert(decoded_binary(parts) == Some(formula));
        },
    }
}

/// The same, of a sequence of trees.
pub proof fn lemma_decode_encode_all(formulas: Seq<Formula>)
    ensures
        decoded_all(encoded_all(formulas)) == Some(formulas),
    decreases formulas, formulas.len(),
{
    if formulas.len() > 0 {
        lemma_decode_encode_all(formulas.drop_last());
        lemma_decode_encode(formulas.last());
        let items = encoded_all(formulas);
        assert(items.drop_last() == encoded_all(formulas.drop_last()));
        assert(formulas.drop_last().push(formulas.last()) == formulas);
    } else {
        assert(formulas == Seq::<Formula>::empty());
    }
}

/// A formula's tree that went through its payload has the value that it had
/// before, in every context and with every kernel.
pub proof fn lemma_payload_keeps_value(
    text: Seq<char>,
    context: Map<Seq<char>, u64>,
    kernel: spec_fn(Request) -> u64,
)
    requires
        parse(text) is Ok,
    ensures
        decoded(encoded(parse(text)->Ok_0)) is Some,
        value(decoded(encoded(parse(text)->Ok_0)).unwrap(), context, kernel) == value(
            parse(text)->Ok_0,
            context,
            kernel,
        ),
{
    lemma_decode_encode(parse(text)->Ok_0);
}

/// A member found among the first `n` of `members` is the one found among
/// all of them.
pub proof fn lemma_place_prefix(members: Seq<Member>, name: Seq<char>, n: int)
    requires
        0 <= n <= members.len(),
        place(members.take(n), name) is Some,
    ensures
        place(members, name) == place(members.take(n), name),
    decreases members.len() - n,
{
    if n < members.len() {
        assert(members.take(n + 1).drop_last() == members.take(n));
        lemma_place_prefix(members, name, n + 1);
    } else {
        assert(members.take(n) == members);
    }
}

/// The place of the first of `fields` that is called `name`, if there is
/// one.
pub fn find(fields: &Vec<Field>, name: &str) -> (r: Option<usize>)
    ensures
        match r {
            Some(i) => place(members(fields@), name@) == Some(i as int) && i < fields.len(),
            None => place(members(fields@), name@) is None,
        },
{
    let ghost all = members(fields@);
    let mut at: usize = 0;
    while at < fields.len()
        invariant
            at <= fields.len(),
            all == members(fields@),
            place(all.take(at as int), name@) is None,
        decreases fields.len() - at,
    {
        assert(all.take(at + 1).drop_last() == all.take(at as int));
        assert(all.take(at + 1).last().name == fields[at as int].name@);
        if same_text(fields[at].name.as_str(), name) {
            proof {
                assert(place(all.take(at + 1), name@) == Some(at as int));
                lemma_place_prefix(all, name@, at + 1);
            }
            return Some(at);
        }
        at += 1;
    }
    assert(all.take(at as int) == all);
    None
}

/// The record of one member, `tag`, with the value `body`.
fn tagged(tag: &str, body: Payload) -> (payload: Payload)
    ensures
        payload@ == Data::Record(seq![Member { name: tag@, value: body@ }]),
{
    let mut fields: Vec<Field> = Vec::new();
    fields.push(Field { name: tag.to_owned(), value: body });
    assert(members(fields@) =~= seq![Member { name: tag@, value: body@ }]);
    Payload::Record(fields)
}

/// The text that writes `op` in a payload.
fn operator_name(op: Operator) -> (text: String)
    ensures
        text@ == operator_text(op),
{
    match op {
        Operator::Add => "+".to_owned(),
        Operator::Sub => "-".to_owned(),
        Operator::Mul => "*".to_owned(),
        Operator::Div => "/".to_owned(),
    }
}

/// The operator that `text` writes in a payload, if it writes one.
fn operator_named(text: &str) -> (r: Option<Operator>)
    ensures
        r == operator_of(text@),
{
    if same_text(text, "+") {
        Some(Operator::Add)
    } else if same_text(text, "-") {
        Some(Operator::Sub)
    } else if same_text(text, "*") {
        Some(Operator::Mul)
    } else if same_text(text, "/") {
        Some(Operator::Div)
    } else {
        None
    }
}

/// Encodes `expr` as a payload.
pub fn encode(expr: &Expr) -> (payload: Payload)
    ensures
        payload@ == encoded(expr@),
    decreases expr,
{
    match expr {
        Expr::Literal(numeral) => tagged("literal", Payload::Number(numeral.clone())),
        Expr::Identifier(name) => tagged("identifier", Payload::Text(name.clone())),
        Expr::FunctionCall(name, args) => {
            let ghost all = formulas(args@);
            let mut items: Vec<Payload> = Vec::new();
            let mut done: usize = 0;
            assert(datas(items@) =~= Seq::<Data>::empty());
            while done < args.len()
                invariant
                    done <= args.len(),
                    all == formulas(args@),
                    decreases_to!(expr => args),
                    datas(items@) == encoded_all(all.take(done as int)),
                decreases args.len() - done,
            {
                assert(all.take(done + 1).drop_last() == all.take(done as int));
                assert(all.take(done + 1).last() == args[done as int]@);
                let ghost before = items@;
                let item = encode(&args[done]);
                items.push(item);
                assert(datas(items@) =~= datas(before).push(item@));
                done += 1;
            }
            assert(all.take(done as int) == all);
            let mut parts: Vec<Field> = Vec::new();
            parts.push(Field { name: "name".to_owned(), value: Payload::Text(name.clone()) });
            parts.push(Field { name: "args".to_owned(), value: Payload::List(items) });
            assert(members(parts@) =~= seq![
                Member { name: "name"@, value: Data::Text(name@) },
                Member { name: "args"@, value: Data::List(encoded_all(all)) },
            ]);
            tagged("call", Payload::Record(parts))
        },
        Expr::BinaryOp { op, left, right } => {
            let mut parts: Vec<Field> = Vec::new();
            parts.push(Field { name: "op".to_owned(), value: Payload::Text(operator_name(*op)) });
            parts.push(Field { name: "left".to_owned(), value: encode(left) });
            parts.push(Field { name: "right".to_owned(), value: encode(right) });
            assert(members(parts@) =~= seq![
                Member { name: "op"@, value: Data::Text(operator_text(*op)) },
                Member { name: "left"@, value: encoded(left@) },
                Member { name: "right"@, value: encoded(right@) },
            ]);
            tagged("binaryOp", Payload::Record(parts))
        },
    }
}

/// Whether `r` is the tree that `expected` says, or fails as it says.
pub open spec fn decodes_to(r: Result<Expr, MalformedAstPayload>, expected: Option<Formula>)
    -> bool {
    match r {
        Ok(expr) => expected == Some(expr@),
        Err(_) => expected is None,
    }
}

/// Decodes a payload into the tree that it is the payload of.
pub fn decode(payload: &Payload) -> (r: Result<Expr, MalformedAstPayload>)
    ensures
        decodes_to(r, decoded(payload@)),
    decreases payload,
{
    let fields = match payload {
        Payload::Record(fields) => fields,
        _ => {
            return Err(MalformedAstPayload);
        },
    };
    if fields.len() != 1 {
        return Err(MalformedAstPayload);
    }
    let tag = fields[0].name.as_str();
    let body = &fields[0].value;
    assert(members(fields@)[0].name == tag@ && members(fields@)[0].value == body@);
    if same_text(tag, "literal") {
        match body {
            Payload::Number(numeral) => Ok(Expr::Literal(numeral.clone())),
            _ => Err(MalformedAstPayload),
        }
    } else if same_text(tag, "identifier") {
        match body {
            Payload::Text(name) => Ok(Expr::Identifier(name.clone())),
            _ => Err(MalformedAstPayload),
        }
    } else if same_text(tag, "call") {
        match body {
            Payload::Record(parts) => decode_call(parts),
            _ => Err(MalformedAstPayload),
        }
    } else if same_text(tag, "binaryOp") {
        match body {
            Payload::Record(parts) => decode_binary(parts),
            _ => Err(MalformedAstPayload),
        }
    } else {
        Err(MalformedAstPayload)
    }
}

/// Decodes the members of a call.
fn decode_call(parts: &Vec<Field>) -> (r: Result<Expr, MalformedAstPayload>)
    ensures
        decodes_to(r, decoded_call(members(parts@))),
    decreases parts,
{
    if parts.len() != 2 {
        return Err(MalformedAstPayload);
    }
    let (n, a) = match (find(parts, "name"), find(parts, "args")) {
        (Some(n), Some(a)) => (n, a),
        _ => {
            return Err(MalformedAstPayload);
        },
    };
    assert(members(parts@)[n as int].value == parts[n as int].value@);
    assert(members(parts@)[a as int].value == parts[a as int].value@);
    match (&parts[n].value, &parts[a].value) {
        (Payload::Text(name), Payload::List(items)) => {
            let ghost all = datas(items@);
            let mut args: Vec<Expr> = Vec::new();
            let mut done: usize = 0;
            assert(formulas(args@) =~= Seq::<Formula>::empty());
            while done < items.len()
                invariant
                    done <= items.len(),
                    all == datas(items@),
                    decreases_to!(parts => items),
                    parts.len() == 2,
                    place(members(parts@), "name"@) == Some(n as int),
                    place(members(parts@), "args"@) == Some(a as int),
                    members(parts@)[n as int].value == Data::Text(name@),
                    members(parts@)[a as int].value == Data::List(all),
                    decoded_all(all.take(done as int)) == Some(formulas(args@)),
                decreases items.len() - done,
            {
                assert(all.take(done + 1).drop_last() == all.take(done as int));
                assert(all.take(done + 1).last() == items[done as int]@);
                match decode(&items[done]) {
                    Ok(arg) => {
                        let ghost before = args@;
                        args.push(arg);
                        assert(formulas(args@) =~= formulas(before).push(arg@));
                    },
                    Err(error) => {
                        proof {
                            lemma_decoded_all_fails(all, done + 1);
                        }
                        return Err(error);
                    },
                }
                done += 1;
            }
            assert(all.take(done as int) == all);
            Ok(Expr::FunctionCall(name.clone(), args))
        },
        _ => Err(MalformedAstPayload),
    }
}

/// Decodes the members of an operation.
fn decode_binary(parts: &Vec<Field>) -> (r: Result<Expr, MalformedAstPayload>)
    ensures
        decodes_to(r, decoded_binary(members(parts@))),
    decreases parts,
{
    if parts.len() != 3 {
        return Err(MalformedAstPayload);
    }
    let (o, l, r) = match (find(parts, "op"), find(parts, "left"), find(parts, "right")) {
        (Some(o), Some(l), Some(r)) => (o, l, r),
        _ => {
            return Err(MalformedAstPayload);
        },
    };
    assert(members(parts@)[o as int].value == parts[o as int].value@);
    assert(members(parts@)[l as int].value == parts[l as int].value@);
    assert(members(parts@)[r as int].value == parts[r as int].value@);
    let op = match &parts[o].value {
        Payload::Text(text) => match operator_named(text.as_str()) {
            Some(op) => op,
            None => {
                return Err(MalformedAstPayload);
            },
        },
        _ => {
            return Err(MalformedAstPayload);
        },
    };
    let left = match decode(&parts[l].value) {
        Ok(left) => left,
        Err(error) => {
            return Err(error);
        },
    };
    let right = match decode(&parts[r].value) {
        Ok(right) => right,
        Err(error) => {
            return Err(error);
        },
    };
    Ok(Expr::BinaryOp { op, left: Box::new(left), right: Box::new(right) })
}

/// When the first `n` of `items` are not all payloads of trees, neither are
/// all of them.
pub proof fn lemma_decoded_all_fails(items: Seq<Data>, n: int)
    requires
        0 <= n <= items.len(),
        decoded_all(items.take(n)) is None,
    ensures
        decoded_all(items) is None,
    decreases items.len() - n,
{
    if n < items.len() {
        assert(items.take(n + 1).drop_last() == items.take(n));
        lemma_decoded_all_fails(items, n + 1);
    } else {
        assert(items.take(n) == items);
    }
}

} // verus!
