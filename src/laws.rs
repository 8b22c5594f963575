//! Properties of the decoder that hold for every input.
use vstd::prelude::*;

use crate::de::{kind_of, scalar, spans, tokens, whitespace_mask, NextValue, STRUCT_VARIANTS};
use crate::decode::{decode, decode_tuple, decode_variant, lemma_find_variant};
use crate::error::ScanError;
use crate::scan::decoded;
use crate::text::{all_digits, digits_value, signed_in, unsigned_in, white_space};
use crate::value::{is_scalar, result_model, Shape, Val, Value};

verus! {

broadcast use vstd::seq::group_seq_axioms;

/// A mask with no false position has no spans.
proof fn lemma_spans_none(d: Seq<bool>)
    requires
        forall|i: int| 0 <= i < d.len() ==> d[i],
    ensures
        spans(d) == Seq::<(int, int)>::empty(),
    decreases d.len(),
{
    if d.len() > 0 {
        lemma_spans_none(d.drop_last());
    }
}

/// A mask whose false positions are exactly `a..b` has that one span.
proof fn lemma_spans_one(d: Seq<bool>, a: int, b: int)
    requires
        0 <= a < b <= d.len(),
        forall|i: int| 0 <= i < a ==> d[i],
        forall|i: int| a <= i < b ==> !d[i],
        forall|i: int| b <= i < d.len() ==> d[i],
    ensures
        spans(d) == seq![(a, b)],
    decreases d.len(),
{
    let p = d.drop_last();
    if d.len() > b {
        lemma_spans_one(p, a, b);
    } else if b - a == 1 {
        lemma_spans_none(p);
    } else {
        lemma_spans_one(p, a, b - 1);
        assert(seq![(a, b - 1)].update(0, (a, b)) =~= seq![(a, b)]);
    }
}

/// Whitespace around a decimal number does not change what it decodes to as an
/// unsigned integer: the number is the one token.
pub proof fn lemma_padded_unsigned(pre: Seq<char>, digits: Seq<char>, post: Seq<char>)
    requires
        forall|i: int| 0 <= i < pre.len() ==> white_space(#[trigger] pre[i]),
        forall|i: int| 0 <= i < post.len() ==> white_space(#[trigger] post[i]),
        digits.len() > 0,
        all_digits(digits),
        digits_value(digits) <= u64::MAX,
    ensures
        ({
            let s = pre + digits + post;
            decoded(&Shape::U64, tokens(s, whitespace_mask(s))) == Ok::<Val, ScanError>(
                Val::Unsigned(digits_value(digits)),
            )
        }),
{
    let s = pre + digits + post;
    let d = whitespace_mask(s);
    let a = pre.len() as int;
    let b = a + digits.len();
    assert forall|i: int| a <= i < b implies !d[i] by {
        assert(s[i] == digits[i - a]);
    }
    assert forall|i: int| 0 <= i < a implies d[i] by {
        assert(s[i] == pre[i]);
    }
    assert forall|i: int| b <= i < d.len() implies d[i] by {
        assert(s[i] == post[i - b]);
    }
    lemma_spans_one(d, a, b);
    let toks = tokens(s, d);
    assert(s.subrange(a, b) =~= digits);
    assert(toks =~= seq![digits]);
    assert(digits[0] != '+');
    assert(unsigned_in(digits, u64::MAX as nat) == Some(digits_value(digits)));
}

/// A scalar shape reads the first token alone.
proof fn lemma_decode_scalar(shape: &Shape, toks: Seq<Seq<char>>)
    requires
        is_scalar(shape),
        toks.len() > 0,
    ensures
        decode(shape, toks) == match scalar(shape, toks[0]) {
            Ok(v) => Ok((v, toks.drop_first())),
            Err(e) => Err::<(Val, Seq<Seq<char>>), ScanError>(e),
        },
{
    match shape {
        Shape::Bool | Shape::I8 | Shape::I16 | Shape::I32 | Shape::I64 | Shape::U8 | Shape::U16
        | Shape::U32 | Shape::U64 | Shape::F32 | Shape::F64 | Shape::Char | Shape::Str => {},
        _ => {},
    }
}

/// The element shapes of a tuple of scalars, and how many tokens it reads.
pub open spec fn scalar_tuple(shape: &Shape) -> bool {
    &&& shape is Tuple
    &&& forall|i: int|
        0 <= i < shape->Tuple_0@.len() ==> is_scalar(#[trigger] &shape->Tuple_0@[i])
}

/// Each token read by the scalar shape in the same place.
pub open spec fn tokens_read(shapes: Seq<Shape>, toks: Seq<Seq<char>>) -> bool {
    forall|i: int| 0 <= i < toks.len() && i < shapes.len() ==> scalar(&shapes[i], toks[i]) is Ok
}

proof fn lemma_short_tuple_seq(shapes: Seq<Shape>, toks: Seq<Seq<char>>)
    requires
        forall|i: int| 0 <= i < shapes.len() ==> is_scalar(#[trigger] &shapes[i]),
        toks.len() < shapes.len(),
        tokens_read(shapes, toks),
    ensures
        decode_tuple(shapes, toks) == Err::<(Seq<Val>, Seq<Seq<char>>), ScanError>(ScanError::EOF),
    decreases toks.len(),
{
    if toks.len() > 0 {
        assert(is_scalar(&shapes[0]));
        assert(scalar(&shapes[0], toks[0]) is Ok);
        lemma_decode_scalar(&shapes[0], toks);
        let rest = shapes.drop_first();
        assert forall|i: int| 0 <= i < rest.len() implies is_scalar(#[trigger] &rest[i]) by {
            assert(rest[i] == shapes[i + 1]);
        }
        assert forall|i: int| 0 <= i < toks.len() - 1 && i < rest.len() implies scalar(
            &rest[i],
            #[trigger] toks.drop_first()[i],
        ) is Ok by {
            assert(rest[i] == shapes[i + 1]);
            assert(toks.drop_first()[i] == toks[i + 1]);
        }
        lemma_short_tuple_seq(rest, toks.drop_first());
    } else {
        assert(shapes.len() > 0);
    }
}

/// A tuple of scalars decoded from fewer tokens than its arity fails with end of
/// input, when the tokens that are there each read as their element.
pub proof fn lemma_short_tuple(shape: &Shape, toks: Seq<Seq<char>>)
    requires
        scalar_tuple(shape),
        toks.len() < shape->Tuple_0@.len(),
        tokens_read(shape->Tuple_0@, toks),
    ensures
        decoded(shape, toks) == Err::<Val, ScanError>(ScanError::EOF),
{
    lemma_short_tuple_seq(shape->Tuple_0@, toks);
}

proof fn lemma_tuple_extra_seq(shapes: Seq<Shape>, toks: Seq<Seq<char>>, extra: Seq<Seq<char>>)
    requires
        forall|i: int| 0 <= i < shapes.len() ==> is_scalar(#[trigger] &shapes[i]),
        toks.len() >= shapes.len(),
    ensures
        decode_tuple(shapes, toks + extra) == match decode_tuple(shapes, toks) {
            Ok((vs, rest)) => Ok((vs, rest + extra)),
            Err(e) => Err::<(Seq<Val>, Seq<Seq<char>>), ScanError>(e),
        },
    decreases shapes.len(),
{
    if shapes.len() > 0 {
        assert(is_scalar(&shapes[0]));
        assert((toks + extra)[0] == toks[0]);
        lemma_decode_scalar(&shapes[0], toks);
        lemma_decode_scalar(&shapes[0], toks + extra);
        assert((toks + extra).drop_first() =~= toks.drop_first() + extra);
        let rest = shapes.drop_first();
        assert forall|i: int| 0 <= i < rest.len() implies is_scalar(#[trigger] &rest[i]) by {
            assert(rest[i] == shapes[i + 1]);
        }
        lemma_tuple_extra_seq(rest, toks.drop_first(), extra);
    }
}

/// Tokens after those a tuple of scalars needs are ignored: they change neither the
/// value nor whether decoding succeeds.
pub proof fn lemma_tuple_ignores_extra(
    shape: &Shape,
    toks: Seq<Seq<char>>,
    extra: Seq<Seq<char>>,
)
    requires
        scalar_tuple(shape),
        toks.len() >= shape->Tuple_0@.len(),
    ensures
        decoded(shape, toks + extra) == decoded(shape, toks),
{
    lemma_tuple_extra_seq(shape->Tuple_0@, toks, extra);
}

/// An optional value decoded from blank text is absent.
pub proof fn lemma_blank_is_absent(shape: &Shape, s: Seq<char>)
    requires
        shape is Maybe,
        forall|i: int| 0 <= i < s.len() ==> white_space(#[trigger] s[i]),
    ensures
        decoded(shape, tokens(s, whitespace_mask(s))) == Ok::<Val, ScanError>(Val::Absent),
{
    lemma_spans_none(whitespace_mask(s));
    assert(tokens(s, whitespace_mask(s)) =~= Seq::<Seq<char>>::empty());
}

/// An enumeration whose first variant named by the leading token is struct-like
/// always fails as unsupported, whatever follows.
pub proof fn lemma_struct_variant(shape: &Shape, toks: Seq<Seq<char>>, i: int)
    requires
        shape is Enum,
        toks.len() > 0,
        0 <= i < shape->Enum_0@.len(),
        forall|j: int| 0 <= j < i ==> (#[trigger] shape->Enum_0@[j]).name@ != toks[0],
        shape->Enum_0@[i].name@ == toks[0],
        shape->Enum_0@[i].kind is Struct,
    ensures
        decoded(shape, toks) == Err::<Val, ScanError>(ScanError::NS(STRUCT_VARIANTS)),
{
    lemma_find_variant(shape->Enum_0@, toks[0], i);
    let v = &shape->Enum_0@[i];
    assert(decode_variant(v, toks.drop_first()) == Err::<(Val, Seq<Seq<char>>), ScanError>(
        ScanError::NS(STRUCT_VARIANTS),
    ));
}

/// A token that reads as a number is inferred as an integer, never as a float: as
/// unsigned when it reads as a `u64`, else as signed when it reads as an `i64`.
pub proof fn lemma_integers_before_floats(t: Seq<char>)
    ensures
        unsigned_in(t, u64::MAX as nat) is Some ==> kind_of(t) == NextValue::Unsigned,
        unsigned_in(t, u64::MAX as nat) is None && signed_in(t, i64::MAX as nat) is Some
            ==> kind_of(t) == NextValue::Integer,
        signed_in(t, i64::MAX as nat) is Some ==> kind_of(t) != NextValue::Float,
{
}

/// Decoding is a function of the shape and the text alone: two decodes of the same
/// text with the same shape give the same result.
pub proof fn lemma_decode_repeatable(
    shape: &Shape,
    s: Seq<char>,
    first: Result<Value, ScanError>,
    second: Result<Value, ScanError>,
)
    requires
        result_model(first) == decoded(shape, tokens(s, whitespace_mask(s))),
        result_model(second) == decoded(shape, tokens(s, whitespace_mask(s))),
    ensures
        result_model(first) == result_model(second),
{
}

} // verus!
