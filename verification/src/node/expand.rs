//! What is settled about the shape of a record or a sum of grammar nodes
//! before the code that parses it is written out: which fields of a record
//! are nodes, and how the parts of a variant are named.

use crate::text::push_char;
use vstd::prelude::*;

verus! {

/// How a type can be declared.
pub enum Declared {
    Struct,
    Enum,
    Union,
}

/// The two shapes of type that a grammar node can have.
#[derive(Debug, PartialEq, Eq, Structural)]
pub enum Shape {
    /// Named fields, of which the last holds the span of the record.
    Record,
    /// Variants that hold nodes.
    Sum,
}

/// What is said of a type that is neither a record nor a sum.
pub const UNSUPPORTED: &'static str = "Only support struct or enum now";

/// The shape of a type that is declared as `declared`; a type that is
/// neither a struct nor an enum has none and is refused.
pub fn shape_of(declared: Declared) -> (r: Result<Shape, &'static str>)
    ensures
        declared is Struct ==> r == Ok::<Shape, &'static str>(Shape::Record),
        declared is Enum ==> r == Ok::<Shape, &'static str>(Shape::Sum),
        declared is Union ==> r is Err && r->Err_0@ == UNSUPPORTED@,
{
    match declared {
        Declared::Struct => Ok(Shape::Record),
        Declared::Enum => Ok(Shape::Sum),
        Declared::Union => Err(UNSUPPORTED),
    }
}

/// A field of a record: its name and its type, as they are written.
pub struct StructItem {
    pub ident: String,
    pub ty: String,
}

/// The fields of a record that are nodes of their own: all but the last,
/// which holds the span of the record.
pub fn get_struct_items(fields: Vec<StructItem>) -> (items: Vec<StructItem>)
    ensures
        fields@.len() > 0 ==> items@ == fields@.drop_last(),
        fields@.len() == 0 ==> items@ == fields@,
{
    let mut items = fields;
    items.pop();
    items
}

/// The character of the digit `d`.
pub open spec fn digit_char(d: nat) -> char
    recommends
        d < 10,
{
    ('0' as u32 + d) as char
}

/// `n` written in base ten.
pub open spec fn decimal(n: nat) -> Seq<char>
    decreases n,
{
    if n < 10 {
        seq![digit_char(n)]
    } else {
        decimal(n / 10).push(digit_char(n % 10))
    }
}

/// The name under which the part `i` of a variant is bound: an underscore
/// and the number of the part.
pub open spec fn placeholder(i: nat) -> Seq<char> {
    seq!['_'] + decimal(i)
}

fn digit_of(d: usize) -> (c: char)
    requires
        d < 10,
    ensures
        c == digit_char(d as nat),
{
    if d == 0 {
        '0'
    } else if d == 1 {
        '1'
    } else if d == 2 {
        '2'
    } else if d == 3 {
        '3'
    } else if d == 4 {
        '4'
    } else if d == 5 {
        '5'
    } else if d == 6 {
        '6'
    } else if d == 7 {
        '7'
    } else if d == 8 {
        '8'
    } else {
        '9'
    }
}

/// Writes `n` in base ten at the end of `text`.
fn push_decimal(text: &mut String, n: usize)
    ensures
        final(text)@ == old(text)@ + decimal(n as nat),
    decreases n,
{
    if n >= 10 {
        push_decimal(text, n / 10);
    }
    push_char(text, digit_of(n % 10));
}

/// The names under which the `len` parts of a variant are bound, in order.
pub fn spawn_placeholders(len: usize) -> (names: Vec<String>)
    ensures
        names@.len() == len,
        forall|i: int| 0 <= i < len ==> (#[trigger] names@[i])@ == placeholder(i as nat),
{
    let mut names: Vec<String> = Vec::new();
    let mut i: usize = 0;
    while i < len
        invariant
            i <= len,
            names@.len() == i,
            forall|k: int| 0 <= k < i ==> (#[trigger] names@[k])@ == placeholder(k as nat),
        decreases len - i,
    {
        let mut name = String::new();
        push_char(&mut name, '_');
        push_decimal(&mut name, i);
        names.push(name);
        i += 1;
    }
    names
}

} // verus!
