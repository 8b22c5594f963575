use vstd::prelude::*;

verus! {

broadcast use vstd::seq::group_seq_axioms, vstd::std_specs::vec::group_vec_axioms;

/// The shape a caller asks the decoder to produce.
#[derive(Debug)]
pub enum Shape {
    Bool,
    I8,
    I16,
    I32,
    I64,
    U8,
    U16,
    U32,
    U64,
    F32,
    F64,
    Char,
    /// One token, as text.
    Str,
    /// A byte slice borrowed from the input, which this format cannot give.
    Bytes,
    /// An owned byte buffer, read as a list of `u8`.
    ByteBuf,
    /// Whatever scalar the next token looks like.
    Any,
    /// A value to be skipped without knowing its shape, which this format cannot do.
    IgnoredAny,
    /// A unit or a unit struct: reads nothing.
    Unit,
    /// An optional value: absent exactly when no token is left.
    Maybe(Box<Shape>),
    /// A wrapper around one inner value.
    Newtype(Box<Shape>),
    /// A list that runs to the end of the input.
    List(Box<Shape>),
    /// A tuple or fixed-size array, one shape per element.
    Tuple(Vec<Shape>),
    /// A map that runs to the end of the input: keys and values in turn.
    Pairs(Box<Shape>, Box<Shape>),
    /// A record with named fields, read in order.
    Record(Vec<Field>),
    /// An enumeration: one token names the variant.
    Enum(Vec<Variant>),
}

/// A named field of a record.
#[derive(Debug)]
pub struct Field {
    pub name: String,
    pub shape: Shape,
}

/// A variant of an enumeration, with the token that names it.
#[derive(Debug)]
pub struct Variant {
    pub name: String,
    pub kind: VariantKind,
}

/// What follows the token that names a variant.
#[derive(Debug)]
pub enum VariantKind {
    /// Nothing.
    Unit,
    /// One value.
    Newtype(Box<Shape>),
    /// A fixed number of values.
    Tuple(Vec<Shape>),
    /// Named fields, which this format cannot give; holds their names.
    Struct(Vec<String>),
}

/// A decoded value.
#[derive(Debug, PartialEq)]
pub enum Value {
    Bool(bool),
    Unsigned(u64),
    Signed(i64),
    /// The text of a floating point number, which the caller converts.
    Float(String),
    Char(char),
    Str(String),
    Unit,
    Absent,
    Present(Box<Value>),
    /// The elements of a list, tuple or array.
    List(Vec<Value>),
    /// The entries of a map or of a record (keyed by field name), in order.
    Pairs(Vec<(Value, Value)>),
    /// The name of a variant and what it holds.
    Variant(String, Box<Value>),
}

/// The mathematical model of a [`Value`].
pub enum Val {
    Bool(bool),
    Unsigned(nat),
    Signed(int),
    Float(Seq<char>),
    Char(char),
    Str(Seq<char>),
    Unit,
    Absent,
    Present(Box<Val>),
    List(Seq<Val>),
    Pairs(Seq<(Val, Val)>),
    Variant(Seq<char>, Box<Val>),
}

pub open spec fn model(v: &Value) -> Val
    decreases v, 0nat,
{
    match v {
        Value::Bool(b) => Val::Bool(*b),
        Value::Unsigned(n) => Val::Unsigned(*n as nat),
        Value::Signed(n) => Val::Signed(*n as int),
        Value::Float(t) => Val::Float(t@),
        Value::Char(c) => Val::Char(*c),
        Value::Str(t) => Val::Str(t@),
        Value::Unit => Val::Unit,
        Value::Absent => Val::Absent,
        Value::Present(b) => Val::Present(Box::new(model(b))),
        Value::List(items) => Val::List(models(items@)),
        Value::Pairs(items) => Val::Pairs(pair_models(items@)),
        Value::Variant(n, b) => Val::Variant(n@, Box::new(model(b))),
    }
}

pub open spec fn models(s: Seq<Value>) -> Seq<Val>
    decreases s, 0nat,
{
    if s.len() == 0 {
        seq![]
    } else {
        models(s.subrange(0, s.len() - 1)).push(model(&s[s.len() - 1]))
    }
}

pub open spec fn pair_models(s: Seq<(Value, Value)>) -> Seq<(Val, Val)>
    decreases s, 0nat,
{
    if s.len() == 0 {
        seq![]
    } else {
        pair_models(s.subrange(0, s.len() - 1)).push(
            (model(&s[s.len() - 1].0), model(&s[s.len() - 1].1)),
        )
    }
}

impl View for Value {
    type V = Val;

    open spec fn view(&self) -> Val {
        model(self)
    }
}


/// The model of a decode result.
pub open spec fn result_model(r: Result<Value, crate::error::ScanError>) -> Result<
    Val,
    crate::error::ScanError,
> {
    match r {
        Ok(v) => Ok(model(&v)),
        Err(e) => Err(e),
    }
}

/// The shapes that one token makes, with no lookahead.
pub open spec fn is_scalar(shape: &Shape) -> bool {
    match shape {
        Shape::Bool | Shape::I8 | Shape::I16 | Shape::I32 | Shape::I64 | Shape::U8 | Shape::U16
        | Shape::U32 | Shape::U64 | Shape::F32 | Shape::F64 | Shape::Char | Shape::Str => true,
        _ => false,
    }
}

} // verus!
