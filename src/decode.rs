use vstd::prelude::*;

use crate::de::{kind_of, scalar, Deserializer, KeyStep, NextValue, Sequence, STRUCT_VARIANTS};
use crate::error::ScanError;
use crate::value::{model, models, pair_models, Field, Shape, Val, Value, Variant, VariantKind};

verus! {

broadcast use vstd::seq::group_seq_axioms, vstd::std_specs::vec::group_vec_axioms;

/// The feature named when a list's element reads no token, which would repeat forever.
pub const EMPTY_ELEMENTS: &'static str = "unbounded sequences of elements that read nothing";

/// The feature named for a byte slice borrowed from the input.
pub const BORROWED_BYTES: &'static str = "borrowed byte slices";

/// The feature named for a value to be skipped without a shape.
pub const SELF_DESCRIBING: &'static str = "self describing formats";

/// A decode outcome: the value and the tokens left, or the error.
pub type Outcome<T> = Result<(T, Seq<Seq<char>>), ScanError>;

/// `v` in front of the values of `r`.
pub open spec fn cons(v: Val, r: Outcome<Seq<Val>>) -> Outcome<Seq<Val>> {
    match r {
        Ok((vs, rest)) => Ok((seq![v] + vs, rest)),
        Err(e) => Err(e),
    }
}

/// The shape that a token's inferred kind is read as.
pub open spec fn inferred(t: Seq<char>) -> Result<Val, ScanError> {
    match kind_of(t) {
        NextValue::Unsigned => scalar(&Shape::U64, t),
        NextValue::Integer => scalar(&Shape::I64, t),
        NextValue::Float => scalar(&Shape::F64, t),
        NextValue::Char => scalar(&Shape::Char, t),
        NextValue::String => scalar(&Shape::Str, t),
    }
}

/// The index of the first variant named `t`.
pub open spec fn find_variant(vs: Seq<Variant>, t: Seq<char>) -> Option<int>
    decreases vs.len(),
{
    if vs.len() == 0 {
        None
    } else if vs[0].name@ == t {
        Some(0)
    } else {
        match find_variant(vs.drop_first(), t) {
            Some(i) => Some(i + 1),
            None => None,
        }
    }
}

/// Every token read as an unsigned byte.
pub open spec fn byte_list(toks: Seq<Seq<char>>) -> Result<Seq<Val>, ScanError>
    decreases toks.len(),
{
    if toks.len() == 0 {
        Ok(seq![])
    } else {
        match scalar(&Shape::U8, toks[0]) {
            Ok(v) => match byte_list(toks.drop_first()) {
                Ok(vs) => Ok(seq![v] + vs),
                Err(e) => Err(e),
            },
            Err(e) => Err(e),
        }
    }
}

/// Decodes one value of `shape` from the front of `toks`.
pub open spec fn decode(shape: &Shape, toks: Seq<Seq<char>>) -> Outcome<Val>
    decreases shape, toks.len(), 1nat,
{
    match shape {
        Shape::Bytes => Err(ScanError::NS(BORROWED_BYTES)),
        Shape::IgnoredAny => Err(ScanError::NS(SELF_DESCRIBING)),
        Shape::Unit => Ok((Val::Unit, toks)),
        Shape::Any => if toks.len() == 0 {
            Err(ScanError::EOF)
        } else {
            match inferred(toks[0]) {
                Ok(v) => Ok((v, toks.drop_first())),
                Err(e) => Err(e),
            }
        },
        Shape::ByteBuf => match byte_list(toks) {
            Ok(vs) => Ok((Val::List(vs), seq![])),
            Err(e) => Err(e),
        },
        Shape::Maybe(inner) => if toks.len() == 0 {
            Ok((Val::Absent, toks))
        } else {
            match decode(inner, toks) {
                Ok((v, rest)) => Ok((Val::Present(Box::new(v)), rest)),
                Err(e) => Err(e),
            }
        },
        Shape::Newtype(inner) => decode(inner, toks),
        Shape::List(_) => match decode_list(shape, toks) {
            Ok((vs, rest)) => Ok((Val::List(vs), rest)),
            Err(e) => Err(e),
        },
        Shape::Tuple(shapes) => match decode_tuple(shapes@, toks) {
            Ok((vs, rest)) => Ok((Val::List(vs), rest)),
            Err(e) => Err(e),
        },
        Shape::Pairs(_, _) => match decode_pairs(shape, toks) {
            Ok((ps, rest)) => Ok((Val::Pairs(ps), rest)),
            Err(e) => Err(e),
        },
        Shape::Record(fields) => match decode_fields(fields@, toks) {
            Ok((ps, rest)) => Ok((Val::Pairs(ps), rest)),
            Err(e) => Err(e),
        },
        Shape::Enum(variants) => if toks.len() == 0 {
            Err(ScanError::EOF)
        } else {
            match find_variant(variants@, toks[0]) {
                Some(i) if 0 <= i < variants@.len() => decode_variant(
                    &variants@[i],
                    toks.drop_first(),
                ),
                _ => Err(ScanError::De),
            }
        },
        _ => if toks.len() == 0 {
            Err(ScanError::EOF)
        } else {
            match scalar(shape, toks[0]) {
                Ok(v) => Ok((v, toks.drop_first())),
                Err(e) => Err(e),
            }
        },
    }
}

/// The elements of the list `shape`, read while a token is left.
pub open spec fn decode_list(shape: &Shape, toks: Seq<Seq<char>>) -> Outcome<Seq<Val>>
    decreases shape, toks.len(), 0nat,
{
    match shape {
        Shape::List(elem) => if toks.len() == 0 {
            Ok((seq![], toks))
        } else {
            match decode(elem, toks) {
                Ok((v, rest)) => if rest.len() < toks.len() {
                    cons(v, decode_list(shape, rest))
                } else {
                    Err(ScanError::NS(EMPTY_ELEMENTS))
                },
                Err(e) => Err(e),
            }
        },
        _ => Ok((seq![], toks)),
    }
}

/// One value of each shape in turn; the input must not run out before each one.
pub open spec fn decode_tuple(shapes: Seq<Shape>, toks: Seq<Seq<char>>) -> Outcome<Seq<Val>>
    decreases shapes, toks.len(), 0nat,
{
    if shapes.len() == 0 {
        Ok((seq![], toks))
    } else if toks.len() == 0 {
        Err(ScanError::EOF)
    } else {
        match decode(&shapes[0], toks) {
            Ok((v, rest)) => cons(v, decode_tuple(shapes.drop_first(), rest)),
            Err(e) => Err(e),
        }
    }
}

/// The entries of the map `shape`: a key and a value in turn, while a token is left
/// before the key.
pub open spec fn decode_pairs(shape: &Shape, toks: Seq<Seq<char>>) -> Outcome<Seq<(Val, Val)>>
    decreases shape, toks.len(), 0nat,
{
    match shape {
        Shape::Pairs(ks, vs) => if toks.len() == 0 {
            Ok((seq![], toks))
        } else {
            match decode(ks, toks) {
                Ok((k, r1)) => match decode(vs, r1) {
                    Ok((v, r2)) => if r2.len() < toks.len() {
                        match decode_pairs(shape, r2) {
                            Ok((ps, r3)) => Ok((seq![(k, v)] + ps, r3)),
                            Err(e) => Err(e),
                        }
                    } else {
                        Err(ScanError::NS(EMPTY_ELEMENTS))
                    },
                    Err(e) => Err(e),
                },
                Err(e) => Err(e),
            }
        },
        _ => Ok((seq![], toks)),
    }
}

/// The fields of a record in order, each keyed by its name.
pub open spec fn decode_fields(fields: Seq<Field>, toks: Seq<Seq<char>>) -> Outcome<
    Seq<(Val, Val)>,
>
    decreases fields, toks.len(), 0nat,
{
    if fields.len() == 0 {
        Ok((seq![], toks))
    } else {
        match decode(&fields[0].shape, toks) {
            Ok((v, rest)) => match decode_fields(fields.drop_first(), rest) {
                Ok((ps, r2)) => Ok((seq![(Val::Str(fields[0].name@), v)] + ps, r2)),
                Err(e) => Err(e),
            },
            Err(e) => Err(e),
        }
    }
}

/// What follows the token that named `variant`.
pub open spec fn decode_variant(variant: &Variant, toks: Seq<Seq<char>>) -> Outcome<Val>
    decreases variant, toks.len(), 0nat,
{
    let name = variant.name@;
    match &variant.kind {
        VariantKind::Unit => Ok((Val::Variant(name, Box::new(Val::Unit)), toks)),
        VariantKind::Newtype(inner) => match decode(inner, toks) {
            Ok((v, rest)) => Ok((Val::Variant(name, Box::new(v)), rest)),
            Err(e) => Err(e),
        },
        VariantKind::Tuple(shapes) => match decode_tuple(shapes@, toks) {
            Ok((vs, rest)) => Ok((Val::Variant(name, Box::new(Val::List(vs))), rest)),
            Err(e) => Err(e),
        },
        VariantKind::Struct(_) => Err(ScanError::NS(STRUCT_VARIANTS)),
    }
}


/// The outcome that an executable result stands for, with `rest` the tokens left.
pub open spec fn outcome(r: Result<Value, ScanError>, rest: Seq<Seq<char>>) -> Outcome<Val> {
    match r {
        Ok(v) => Ok((model(&v), rest)),
        Err(e) => Err(e),
    }
}

pub open spec fn list_outcome(r: Result<Vec<Value>, ScanError>, rest: Seq<Seq<char>>) -> Outcome<
    Seq<Val>,
> {
    match r {
        Ok(v) => Ok((models(v@), rest)),
        Err(e) => Err(e),
    }
}

pub open spec fn pairs_outcome(r: Result<Vec<(Value, Value)>, ScanError>, rest: Seq<Seq<char>>) -> Outcome<
    Seq<(Val, Val)>,
> {
    match r {
        Ok(v) => Ok((pair_models(v@), rest)),
        Err(e) => Err(e),
    }
}

/// `prefix` in front of the values of `r`.
pub open spec fn prepend<T>(prefix: Seq<T>, r: Outcome<Seq<T>>) -> Outcome<Seq<T>> {
    match r {
        Ok((vs, rest)) => Ok((prefix + vs, rest)),
        Err(e) => Err(e),
    }
}

proof fn lemma_prepend_empty<T>(r: Outcome<Seq<T>>)
    ensures
        prepend(seq![], r) == r,
{
    match r {
        Ok((vs, rest)) => {
            assert(seq![] + vs =~= vs);
        },
        Err(e) => {},
    }
}

proof fn lemma_prepend_push<T>(prefix: Seq<T>, v: T, r: Outcome<Seq<T>>)
    ensures
        prepend(prefix, match r {
            Ok((vs, rest)) => Ok((seq![v] + vs, rest)),
            Err(e) => Err(e),
        }) == prepend(prefix.push(v), r),
{
    match r {
        Ok((vs, rest)) => {
            assert(prefix + (seq![v] + vs) =~= prefix.push(v) + vs);
        },
        Err(e) => {},
    }
}

proof fn lemma_models_push(s: Seq<Value>, v: Value)
    ensures
        models(s.push(v)) == models(s).push(model(&v)),
{
    assert(s.push(v).subrange(0, s.len() as int) =~= s);
}

proof fn lemma_pair_models_push(s: Seq<(Value, Value)>, p: (Value, Value))
    ensures
        pair_models(s.push(p)) == pair_models(s).push((model(&p.0), model(&p.1))),
{
    assert(s.push(p).subrange(0, s.len() as int) =~= s);
}

proof fn lemma_model_variant(v: Value)
    requires
        v is Variant,
    ensures
        model(&v) == Val::Variant(v->Variant_0@, Box::new(model(&*v->Variant_1))),
{
}

/// Where `find_variant` lands when the first `i` names differ from `t`.
pub proof fn lemma_find_variant(vs: Seq<Variant>, t: Seq<char>, i: int)
    requires
        0 <= i <= vs.len(),
        forall|j: int| 0 <= j < i ==> (#[trigger] vs[j]).name@ != t,
    ensures
        i < vs.len() && vs[i].name@ == t ==> find_variant(vs, t) == Some(i),
        i == vs.len() ==> find_variant(vs, t) is None,
    decreases i,
{
    if i > 0 {
        assert forall|j: int| 0 <= j < i - 1 implies (#[trigger] vs.drop_first()[j]).name@ != t by {
            assert(vs.drop_first()[j] == vs[j + 1]);
        }
        lemma_find_variant(vs.drop_first(), t, i - 1);
    }
}

/// The index of the first variant named `t`.
fn find_variant_at(vs: &Vec<Variant>, t: &String) -> (r: Option<usize>)
    ensures
        r is None ==> find_variant(vs@, t@) is None,
        r is Some ==> find_variant(vs@, t@) == Some(r->0 as int) && r->0 < vs@.len(),
{
    let mut i: usize = 0;
    while i < vs.len()
        invariant
            i <= vs@.len(),
            forall|j: int| 0 <= j < i ==> (#[trigger] vs@[j]).name@ != t@,
        decreases vs@.len() - i,
    {
        if vs[i].name == *t {
            proof {
                lemma_find_variant(vs@, t@, i as int);
            }
            return Some(i);
        }
        i += 1;
    }
    proof {
        lemma_find_variant(vs@, t@, i as int);
    }
    None
}

/// Decodes one value of `shape` from the front of the cursor.
pub fn decode_value(shape: &Shape, de: &mut Deserializer) -> (r: Result<Value, ScanError>)
    requires
        old(de).wf(),
    ensures
        final(de).wf(),
        decode(shape, old(de)@) == outcome(r, final(de)@),
    decreases shape, old(de)@.len(), 1nat,
{
    match shape {
        Shape::Bytes => Err(ScanError::NS(BORROWED_BYTES)),
        Shape::IgnoredAny => Err(ScanError::NS(SELF_DESCRIBING)),
        Shape::Unit => Ok(Value::Unit),
        Shape::Any => {
            match de.infer() {
                None => Err(ScanError::EOF),
                Some(kind) => {
                    let as_shape = match kind {
                        NextValue::Unsigned => Shape::U64,
                        NextValue::Integer => Shape::I64,
                        NextValue::Float => Shape::F64,
                        NextValue::Char => Shape::Char,
                        NextValue::String => Shape::Str,
                    };
                    de.parse_next(&as_shape)
                },
            }
        },
        Shape::ByteBuf => match decode_bytes(de) {
            Ok(vs) => Ok(Value::List(vs)),
            Err(e) => Err(e),
        },
        Shape::Maybe(inner) => {
            if !de.has_next() {
                Ok(Value::Absent)
            } else {
                match decode_value(inner, de) {
                    Ok(v) => Ok(Value::Present(Box::new(v))),
                    Err(e) => Err(e),
                }
            }
        },
        Shape::Newtype(inner) => decode_value(inner, de),
        Shape::List(_) => match decode_list_at(shape, de) {
            Ok(vs) => Ok(Value::List(vs)),
            Err(e) => Err(e),
        },
        Shape::Tuple(shapes) => match decode_tuple_at(shapes, de) {
            Ok(vs) => Ok(Value::List(vs)),
            Err(e) => Err(e),
        },
        Shape::Pairs(_, _) => match decode_pairs_at(shape, de) {
            Ok(ps) => Ok(Value::Pairs(ps)),
            Err(e) => Err(e),
        },
        Shape::Record(fields) => match decode_fields_at(fields, de) {
            Ok(ps) => Ok(Value::Pairs(ps)),
            Err(e) => Err(e),
        },
        Shape::Enum(variants) => {
            let tok = match de.next() {
                Ok(t) => t,
                Err(e) => {
                    return Err(e);
                },
            };
            let t = String::from_str(tok);
            match find_variant_at(variants, &t) {
                Some(i) => decode_variant_at(&variants[i], de),
                None => Err(ScanError::De),
            }
        },
        _ => de.parse_next(shape),
    }
}

/// Every token left, read as an unsigned byte.
fn decode_bytes(de: &mut Deserializer) -> (r: Result<Vec<Value>, ScanError>)
    requires
        old(de).wf(),
    ensures
        final(de).wf(),
        match r {
            Ok(vs) => byte_list(old(de)@) == Ok::<Seq<Val>, ScanError>(models(vs@)) && final(de)@
                == Seq::<Seq<char>>::empty(),
            Err(e) => byte_list(old(de)@) == Err::<Seq<Val>, ScanError>(e),
        },
{
    let ghost toks0 = de@;
    let mut out: Vec<Value> = Vec::new();
    let byte = Shape::U8;
    proof {
        if let Ok(vs) = byte_list(toks0) {
            assert(models(out@) + vs =~= vs);
        }
    }
    while de.has_next()
        invariant
            de.wf(),
            old(de)@ == toks0,
            byte == Shape::U8,
            byte_list(toks0) == match byte_list(de@) {
                Ok(vs) => Ok(models(out@) + vs),
                Err(e) => Err::<Seq<Val>, ScanError>(e),
            },
        decreases de@.len(),
    {
        let ghost before = de@;
        match de.parse_next(&byte) {
            Ok(v) => {
                proof {
                    lemma_models_push(out@, v);
                    match byte_list(de@) {
                        Ok(vs) => {
                            assert(models(out@) + (seq![model(&v)] + vs) =~= models(out@).push(
                                model(&v),
                            ) + vs);
                        },
                        Err(e) => {},
                    }
                }
                out.push(v);
            },
            Err(e) => {
                assert(byte_list(before) == Err::<Seq<Val>, ScanError>(e));
                return Err(e);
            },
        }
    }
    assert(models(out@) + seq![] =~= models(out@));
    Ok(out)
}

/// The elements of the list `shape`, read while a token is left.
fn decode_list_at(shape: &Shape, de: &mut Deserializer) -> (r: Result<Vec<Value>, ScanError>)
    requires
        old(de).wf(),
    ensures
        final(de).wf(),
        decode_list(shape, old(de)@) == list_outcome(r, final(de)@),
    decreases shape, old(de)@.len(), 0nat,
{
    let elem = match shape {
        Shape::List(elem) => elem,
        _ => {
            return Ok(Vec::new());
        },
    };
    let ghost toks0 = de@;
    let mut out: Vec<Value> = Vec::new();
    let mut seq = Sequence::new();
    proof {
        lemma_prepend_empty(decode_list(shape, toks0));
    }
    while seq.next_element(de)
        invariant
            de.wf(),
            old(de)@ == toks0,
            seq.limit() is None,
            shape is List,
            *elem == shape->List_0,
            decode_list(shape, toks0) == prepend(models(out@), decode_list(shape, de@)),
        decreases de@.len(),
    {
        let ghost before = de@;
        let left = de.remaining();
        match decode_value(elem, de) {
            Ok(v) => {
                if de.remaining() >= left {
                    return Err(ScanError::NS(EMPTY_ELEMENTS));
                }
                proof {
                    lemma_models_push(out@, v);
                    lemma_prepend_push(models(out@), model(&v), decode_list(shape, de@));
                }
                out.push(v);
            },
            Err(e) => {
                return Err(e);
            },
        }
    }
    assert(models(out@) + seq![] =~= models(out@));
    Ok(out)
}

/// One value of each shape in turn; fails with end of input when no token is left
/// before one of them.
fn decode_tuple_at(shapes: &Vec<Shape>, de: &mut Deserializer) -> (r: Result<
    Vec<Value>,
    ScanError,
>)
    requires
        old(de).wf(),
    ensures
        final(de).wf(),
        decode_tuple(shapes@, old(de)@) == list_outcome(r, final(de)@),
    decreases shapes, old(de)@.len(), 0nat,
{
    let ghost toks0 = de@;
    let mut out: Vec<Value> = Vec::new();
    let mut seq = Sequence::new().with_limit(shapes.len());
    let mut i: usize = 0;
    proof {
        lemma_prepend_empty(decode_tuple(shapes@, toks0));
        assert(shapes@.skip(0) =~= shapes@);
    }
    while i < shapes.len()
        invariant
            de.wf(),
            old(de)@ == toks0,
            i <= shapes@.len(),
            seq.limit() == Some(shapes@.len() as nat),
            seq.count() == i,
            decode_tuple(shapes@, toks0) == prepend(
                models(out@),
                decode_tuple(shapes@.skip(i as int), de@),
            ),
        decreases shapes@.len() - i,
    {
        assert(shapes@.skip(i as int)[0] == shapes@[i as int]);
        assert(shapes@.skip(i as int).drop_first() =~= shapes@.skip(i + 1));
        if !seq.next_element(de) {
            return Err(ScanError::EOF);
        }
        match decode_value(&shapes[i], de) {
            Ok(v) => {
                proof {
                    lemma_models_push(out@, v);
                    lemma_prepend_push(
                        models(out@),
                        model(&v),
                        decode_tuple(shapes@.skip(i + 1), de@),
                    );
                }
                out.push(v);
            },
            Err(e) => {
                return Err(e);
            },
        }
        i += 1;
    }
    assert(shapes@.skip(i as int).len() == 0);
    assert(models(out@) + seq![] =~= models(out@));
    Ok(out)
}

/// The entries of the map `shape`: a key and a value in turn, while a token is left
/// before the key.
fn decode_pairs_at(shape: &Shape, de: &mut Deserializer) -> (r: Result<
    Vec<(Value, Value)>,
    ScanError,
>)
    requires
        old(de).wf(),
    ensures
        final(de).wf(),
        decode_pairs(shape, old(de)@) == pairs_outcome(r, final(de)@),
    decreases shape, old(de)@.len(), 0nat,
{
    let (ks, vs) = match shape {
        Shape::Pairs(ks, vs) => (ks, vs),
        _ => {
            return Ok(Vec::new());
        },
    };
    let ghost toks0 = de@;
    let mut out: Vec<(Value, Value)> = Vec::new();
    let mut seq = Sequence::new();
    proof {
        lemma_prepend_empty(decode_pairs(shape, toks0));
    }
    while matches!(seq.next_key(de), KeyStep::FromInput)
        invariant
            de.wf(),
            old(de)@ == toks0,
            seq.names() is None,
            shape is Pairs,
            *ks == shape->Pairs_0,
            *vs == shape->Pairs_1,
            decode_pairs(shape, toks0) == prepend(pair_models(out@), decode_pairs(shape, de@)),
        decreases de@.len(),
    {
        let left = de.remaining();
        let k = match decode_value(ks, de) {
            Ok(k) => k,
            Err(e) => {
                return Err(e);
            },
        };
        let v = match decode_value(vs, de) {
            Ok(v) => v,
            Err(e) => {
                return Err(e);
            },
        };
        if de.remaining() >= left {
            return Err(ScanError::NS(EMPTY_ELEMENTS));
        }
        proof {
            lemma_pair_models_push(out@, (k, v));
            lemma_prepend_push(pair_models(out@), (model(&k), model(&v)), decode_pairs(shape, de@));
        }
        out.push((k, v));
    }
    assert(pair_models(out@) + seq![] =~= pair_models(out@));
    Ok(out)
}

/// The fields of a record in order, each keyed by its name.
fn decode_fields_at(fields: &Vec<Field>, de: &mut Deserializer) -> (r: Result<
    Vec<(Value, Value)>,
    ScanError,
>)
    requires
        old(de).wf(),
    ensures
        final(de).wf(),
        decode_fields(fields@, old(de)@) == pairs_outcome(r, final(de)@),
    decreases fields, old(de)@.len(), 0nat,
{
    let ghost toks0 = de@;
    let mut out: Vec<(Value, Value)> = Vec::new();
    let mut i: usize = 0;
    proof {
        lemma_prepend_empty(decode_fields(fields@, toks0));
        assert(fields@.skip(0) =~= fields@);
    }
    while i < fields.len()
        invariant
            de.wf(),
            old(de)@ == toks0,
            i <= fields@.len(),
            decode_fields(fields@, toks0) == prepend(
                pair_models(out@),
                decode_fields(fields@.skip(i as int), de@),
            ),
        decreases fields@.len() - i,
    {
        assert(fields@.skip(i as int)[0] == fields@[i as int]);
        assert(fields@.skip(i as int).drop_first() =~= fields@.skip(i + 1));
        let field = &fields[i];
        match decode_value(&field.shape, de) {
            Ok(v) => {
                let key = Value::Str(field.name.clone());
                proof {
                    lemma_pair_models_push(out@, (key, v));
                    lemma_prepend_push(
                        pair_models(out@),
                        (model(&key), model(&v)),
                        decode_fields(fields@.skip(i + 1), de@),
                    );
                }
                out.push((key, v));
            },
            Err(e) => {
                return Err(e);
            },
        }
        i += 1;
    }
    assert(fields@.skip(i as int).len() == 0);
    assert(pair_models(out@) + seq![] =~= pair_models(out@));
    Ok(out)
}

/// What follows the token that named `variant`.
fn decode_variant_at(variant: &Variant, de: &mut Deserializer) -> (r: Result<Value, ScanError>)
    requires
        old(de).wf(),
    ensures
        final(de).wf(),
        decode_variant(variant, old(de)@) == outcome(r, final(de)@),
    decreases variant, old(de)@.len(), 0nat,
{
    match &variant.kind {
        VariantKind::Unit => {
            let w = Value::Variant(variant.name.clone(), Box::new(Value::Unit));
            proof {
                lemma_model_variant(w);
            }
            Ok(w)
        },
        VariantKind::Newtype(inner) => match decode_value(inner, de) {
            Ok(v) => {
                let w = Value::Variant(variant.name.clone(), Box::new(v));
                proof {
                    lemma_model_variant(w);
                }
                Ok(w)
            },
            Err(e) => Err(e),
        },
        VariantKind::Tuple(shapes) => match decode_tuple_at(shapes, de) {
            Ok(vs) => {
                let w = Value::Variant(variant.name.clone(), Box::new(Value::List(vs)));
                proof {
                    lemma_model_variant(w);
                }
                Ok(w)
            },
            Err(e) => Err(e),
        },
        VariantKind::Struct(_) => Sequence::new().struct_variant(),
    }
}

} // verus!
