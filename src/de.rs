use vstd::prelude::*;

use crate::error::ScanError;
use crate::text::{
    chars_of, contains_char, float_at, float_text, is_whitespace, parse_signed, parse_unsigned,
    same_at, signed_in, unsigned_in, white_space,
};
use crate::value::{is_scalar, model, result_model, Shape, Val, Value};

verus! {

broadcast use vstd::seq::group_seq_axioms;

/// The spans (start inclusive, end exclusive) of the maximal runs of positions
/// where `d` is false, left to right.
pub open spec fn spans(d: Seq<bool>) -> Seq<(int, int)>
    decreases d.len(),
{
    if d.len() == 0 {
        seq![]
    } else {
        let p = spans(d.drop_last());
        let n = d.len() - 1;
        if d[n] {
            p
        } else if p.len() > 0 && p.last().1 == n {
            p.update(p.len() - 1, (p.last().0, n + 1))
        } else {
            p.push((n, n + 1))
        }
    }
}

/// The tokens of `s` when `d` marks its delimiters: the maximal non-empty runs of
/// characters that are not delimiters, in order.
pub open spec fn tokens(s: Seq<char>, d: Seq<bool>) -> Seq<Seq<char>> {
    spans(d).map_values(|sp: (int, int)| s.subrange(sp.0, sp.1))
}

/// Whitespace as the delimiters of `s`.
pub open spec fn whitespace_mask(s: Seq<char>) -> Seq<bool> {
    s.map_values(|c: char| white_space(c))
}

/// Whitespace and the characters of `set` as the delimiters of `s`.
pub open spec fn skipping_mask(set: Seq<char>, s: Seq<char>) -> Seq<bool> {
    s.map_values(|c: char| white_space(c) || set.contains(c))
}

pub open spec fn span_seq(v: Seq<(usize, usize)>) -> Seq<(int, int)> {
    v.map_values(|p: (usize, usize)| (p.0 as int, p.1 as int))
}

/// A cursor over the tokens of an input text, with one token of lookahead.
///
/// Its view is the sequence of tokens not yet consumed.
pub struct Deserializer<'de> {
    input: &'de str,
    chars: Vec<char>,
    spans: Vec<(usize, usize)>,
    pos: usize,
    delims: Ghost<Seq<bool>>,
}

impl<'de> View for Deserializer<'de> {
    type V = Seq<Seq<char>>;

    closed spec fn view(&self) -> Seq<Seq<char>> {
        tokens(self.chars@, self.mask()).subrange(self.pos as int, self.spans@.len() as int)
    }
}

impl<'de> Deserializer<'de> {
    /// The delimiter marks the input was cut by.
    pub closed spec fn mask(&self) -> Seq<bool> {
        self.delims@
    }

    pub closed spec fn wf(&self) -> bool {
        &&& self.chars@ == self.input@
        &&& self.mask().len() == self.chars@.len()
        &&& span_seq(self.spans@) == spans(self.mask())
        &&& self.pos <= self.spans@.len()
        &&& forall|k: int|
            0 <= k < self.spans@.len() ==> #[trigger] self.spans@[k].0 < self.spans@[k].1
                <= self.chars@.len()
    }

    /// Cuts `s` into tokens at the characters that `mask` marks as delimiters.
    pub fn from_delimiters(s: &'de str, mask: &Vec<bool>) -> (r: Self)
        requires
            mask@.len() == s@.len(),
        ensures
            r.wf(),
            r.mask() == mask@,
            r@ == tokens(s@, mask@),
    {
        let chars = chars_of(s);
        let n = chars.len();
        let mut sp: Vec<(usize, usize)> = Vec::new();
        let mut i: usize = 0;
        while i < n
            invariant
                n == chars@.len() == mask@.len(),
                i <= n,
                span_seq(sp@) == spans(mask@.take(i as int)),
                forall|k: int| 0 <= k < sp@.len() ==> #[trigger] sp@[k].0 < sp@[k].1 <= i,
            decreases n - i,
        {
            let ghost before = sp@;
            assert(mask@.take(i + 1).drop_last() =~= mask@.take(i as int));
            assert(mask@.take(i + 1)[i as int] == mask@[i as int]);
            if !mask[i] {
                let k = sp.len();
                if k > 0 && sp[k - 1].1 == i {
                    let st = sp[k - 1].0;
                    assert(span_seq(before).last() == (st as int, i as int));
                    sp.set(k - 1, (st, i + 1));
                    assert(span_seq(sp@) =~= span_seq(before).update(
                        k - 1,
                        (st as int, i + 1),
                    ));
                } else {
                    sp.push((i, i + 1));
                    assert(span_seq(sp@) =~= span_seq(before).push((i as int, i + 1)));
                }
            }
            i += 1;
        }
        assert(mask@.take(n as int) =~= mask@);
        let r = Deserializer { input: s, chars, spans: sp, pos: 0, delims: Ghost(mask@) };
        assert(r@ =~= tokens(s@, mask@));
        assert(r.wf());
        r
    }
}



/// A token read as an unsigned integer no larger than `max`.
pub open spec fn unsigned_val(t: Seq<char>, max: nat) -> Result<Val, ScanError> {
    match unsigned_in(t, max) {
        Some(n) => Ok(Val::Unsigned(n)),
        None => Err(ScanError::De),
    }
}

/// A token read as a signed integer in `-(max + 1) ..= max`.
pub open spec fn signed_val(t: Seq<char>, max: nat) -> Result<Val, ScanError> {
    match signed_in(t, max) {
        Some(n) => Ok(Val::Signed(n)),
        None => Err(ScanError::De),
    }
}

/// The value that the token `t` gives for a scalar shape.
pub open spec fn scalar(shape: &Shape, t: Seq<char>) -> Result<Val, ScanError> {
    match shape {
        Shape::Bool => if t == seq!['t', 'r', 'u', 'e'] {
            Ok(Val::Bool(true))
        } else if t == seq!['f', 'a', 'l', 's', 'e'] {
            Ok(Val::Bool(false))
        } else {
            Err(ScanError::De)
        },
        Shape::U8 => unsigned_val(t, 0xff),
        Shape::U16 => unsigned_val(t, 0xffff),
        Shape::U32 => unsigned_val(t, 0xffff_ffff),
        Shape::U64 => unsigned_val(t, 0xffff_ffff_ffff_ffff),
        Shape::I8 => signed_val(t, 0x7f),
        Shape::I16 => signed_val(t, 0x7fff),
        Shape::I32 => signed_val(t, 0x7fff_ffff),
        Shape::I64 => signed_val(t, 0x7fff_ffff_ffff_ffff),
        Shape::F32 | Shape::F64 => if float_text(t) {
            Ok(Val::Float(t))
        } else {
            Err(ScanError::De)
        },
        Shape::Char => if t.len() == 1 {
            Ok(Val::Char(t[0]))
        } else {
            Err(ScanError::De)
        },
        _ => Ok(Val::Str(t)),
    }
}

/// The kind of scalar a token looks like.
#[derive(Debug, Clone, Copy, PartialEq, Eq)]
pub enum NextValue {
    Unsigned,
    Integer,
    Float,
    Char,
    String,
}

/// The first of these that reads `t`: a `u64`, an `i64`, a float, one character; else
/// text.
pub open spec fn kind_of(t: Seq<char>) -> NextValue {
    if unsigned_in(t, 0xffff_ffff_ffff_ffff) is Some {
        NextValue::Unsigned
    } else if signed_in(t, 0x7fff_ffff_ffff_ffff) is Some {
        NextValue::Integer
    } else if float_text(t) {
        NextValue::Float
    } else if t.len() == 1 {
        NextValue::Char
    } else {
        NextValue::String
    }
}

/// The kind of `t[from..to]`.
fn kind_at(t: &Vec<char>, from: usize, to: usize) -> (r: NextValue)
    requires
        from <= to <= t@.len(),
    ensures
        r == kind_of(t@.subrange(from as int, to as int)),
{
    if parse_unsigned(t, from, to, 0xffff_ffff_ffff_ffff).is_some() {
        NextValue::Unsigned
    } else if parse_signed(t, from, to, 0x7fff_ffff_ffff_ffff).is_some() {
        NextValue::Integer
    } else if float_at(t, from, to) {
        NextValue::Float
    } else if to - from == 1 {
        NextValue::Char
    } else {
        NextValue::String
    }
}

impl NextValue {
    /// Classifies a token by the first kind of scalar that reads it.
    pub fn new(next: &str) -> (r: NextValue)
        ensures
            r == kind_of(next@),
    {
        let t = chars_of(next);
        assert(t@.subrange(0, t@.len() as int) =~= t@);
        kind_at(&t, 0, t.len())
    }
}

proof fn lemma_model_char(c: char)
    ensures
        model(&Value::Char(c)) == Val::Char(c),
{
}

/// The value of `t[from..to]` for a scalar shape; `text` holds the same characters.
fn scalar_at(shape: &Shape, t: &Vec<char>, from: usize, to: usize, text: &str) -> (r: Result<
    Value,
    ScanError,
>)
    requires
        is_scalar(shape),
        from <= to <= t@.len(),
        text@ == t@.subrange(from as int, to as int),
    ensures
        result_model(r) == scalar(shape, t@.subrange(from as int, to as int)),
{
    let ghost s = t@.subrange(from as int, to as int);
    match shape {
        Shape::Bool => {
            let yes = ['t', 'r', 'u', 'e'];
            let no = ['f', 'a', 'l', 's', 'e'];
            assert(yes@ =~= seq!['t', 'r', 'u', 'e']);
            assert(no@ =~= seq!['f', 'a', 'l', 's', 'e']);
            if same_at(t, from, to, &yes) {
                Ok(Value::Bool(true))
            } else if same_at(t, from, to, &no) {
                assert(s.len() != seq!['t', 'r', 'u', 'e'].len());
                Ok(Value::Bool(false))
            } else {
                Err(ScanError::De)
            }
        },
        Shape::U8 | Shape::U16 | Shape::U32 | Shape::U64 => {
            let max: u64 = match shape {
                Shape::U8 => 0xff,
                Shape::U16 => 0xffff,
                Shape::U32 => 0xffff_ffff,
                _ => 0xffff_ffff_ffff_ffff,
            };
            match parse_unsigned(t, from, to, max) {
                Some(n) => Ok(Value::Unsigned(n)),
                None => Err(ScanError::De),
            }
        },
        Shape::I8 | Shape::I16 | Shape::I32 | Shape::I64 => {
            let max: u64 = match shape {
                Shape::I8 => 0x7f,
                Shape::I16 => 0x7fff,
                Shape::I32 => 0x7fff_ffff,
                _ => 0x7fff_ffff_ffff_ffff,
            };
            match parse_signed(t, from, to, max) {
                Some(n) => Ok(Value::Signed(n)),
                None => Err(ScanError::De),
            }
        },
        Shape::F32 | Shape::F64 => {
            if float_at(t, from, to) {
                Ok(Value::Float(String::from_str(text)))
            } else {
                Err(ScanError::De)
            }
        },
        Shape::Char => {
            if to - from == 1 {
                let c = t[from];
                assert(s[0] == c);
                proof {
                    lemma_model_char(c);
                }
                Ok(Value::Char(c))
            } else {
                Err(ScanError::De)
            }
        },
        _ => Ok(Value::Str(String::from_str(text))),
    }
}

impl<'de> Deserializer<'de> {
    proof fn lemma_token(&self)
        requires
            self.wf(),
            self.pos < self.spans@.len(),
        ensures
            self@.len() > 0,
            self@[0] == self.chars@.subrange(
                self.spans@[self.pos as int].0 as int,
                self.spans@[self.pos as int].1 as int,
            ),
    {
        assert(span_seq(self.spans@)[self.pos as int] == spans(self.mask())[self.pos as int]);
    }

    /// Whether a token is left.
    pub fn has_next(&self) -> (r: bool)
        requires
            self.wf(),
        ensures
            r == (self@.len() > 0),
    {
        self.pos < self.spans.len()
    }

    /// How many tokens are left.
    pub fn remaining(&self) -> (r: usize)
        requires
            self.wf(),
        ensures
            r == self@.len(),
    {
        self.spans.len() - self.pos
    }

    /// The next token, without consuming it.
    pub fn peek(&self) -> (r: Option<&'de str>)
        requires
            self.wf(),
        ensures
            r is None <==> self@.len() == 0,
            r is Some ==> r->0@ == self@[0],
    {
        if self.pos < self.spans.len() {
            proof {
                self.lemma_token();
            }
            let (a, b) = self.spans[self.pos];
            Some(self.input.substring_char(a, b))
        } else {
            None
        }
    }

    /// Consumes the next token.
    pub fn next(&mut self) -> (r: Result<&'de str, ScanError>)
        requires
            old(self).wf(),
        ensures
            final(self).wf(),
            old(self)@.len() == 0 ==> r == Err::<&str, ScanError>(ScanError::EOF),
            old(self)@.len() == 0 ==> final(self)@ == old(self)@,
            old(self)@.len() > 0 ==> r is Ok && r->Ok_0@ == old(self)@[0],
            old(self)@.len() > 0 ==> final(self)@ == old(self)@.drop_first(),
    {
        if self.pos < self.spans.len() {
            proof {
                self.lemma_token();
            }
            let (a, b) = self.spans[self.pos];
            let ghost before = self@;
            self.pos = self.pos + 1;
            assert(self@ =~= before.drop_first());
            Ok(self.input.substring_char(a, b))
        } else {
            Err(ScanError::EOF)
        }
    }

    /// Consumes the next token and reads it as the scalar `shape`.
    pub fn parse_next(&mut self, shape: &Shape) -> (r: Result<Value, ScanError>)
        requires
            old(self).wf(),
            is_scalar(shape),
        ensures
            final(self).wf(),
            old(self)@.len() == 0 ==> r == Err::<Value, ScanError>(ScanError::EOF),
            old(self)@.len() == 0 ==> final(self)@ == old(self)@,
            old(self)@.len() > 0 ==> result_model(r) == scalar(shape, old(self)@[0]),
            old(self)@.len() > 0 ==> final(self)@ == old(self)@.drop_first(),
    {
        if self.pos < self.spans.len() {
            proof {
                self.lemma_token();
            }
            let (a, b) = self.spans[self.pos];
            let text = self.input.substring_char(a, b);
            let ghost before = self@;
            self.pos = self.pos + 1;
            assert(self@ =~= before.drop_first());
            assert(self.wf());
            scalar_at(shape, &self.chars, a, b, text)
        } else {
            Err(ScanError::EOF)
        }
    }

    /// The kind of scalar the next token looks like, without consuming it.
    pub fn infer(&self) -> (r: Option<NextValue>)
        requires
            self.wf(),
        ensures
            r is None <==> self@.len() == 0,
            r is Some ==> r->0 == kind_of(self@[0]),
    {
        if self.pos < self.spans.len() {
            proof {
                self.lemma_token();
            }
            let (a, b) = self.spans[self.pos];
            Some(kind_at(&self.chars, a, b))
        } else {
            None
        }
    }
}


/// Marks the characters of `s` that are whitespace or occur in `set`.
fn skipping_delimiters(set: &Vec<char>, s: &Vec<char>) -> (r: Vec<bool>)
    ensures
        r@ == skipping_mask(set@, s@),
{
    let mut r: Vec<bool> = Vec::new();
    let mut i: usize = 0;
    while i < s.len()
        invariant
            i <= s@.len(),
            r@ == skipping_mask(set@, s@.take(i as int)),
        decreases s@.len() - i,
    {
        let c = s[i];
        let d = is_whitespace(c) || contains_char(set, c);
        r.push(d);
        i += 1;
        assert(r@ =~= skipping_mask(set@, s@.take(i as int)));
    }
    assert(s@.take(i as int) =~= s@);
    r
}

impl<'de> Deserializer<'de> {
    /// A cursor over the whitespace separated tokens of `s`.
    pub fn from_str(s: &'de str) -> (r: Deserializer<'de>)
        ensures
            r.wf(),
            r@ == tokens(s@, whitespace_mask(s@)),
    {
        let chars = chars_of(s);
        let none: Vec<char> = Vec::new();
        let mask = skipping_delimiters(&none, &chars);
        assert(mask@ =~= whitespace_mask(s@));
        Deserializer::from_delimiters(s, &mask)
    }

    /// A cursor over the tokens of `s` separated by whitespace or by any character
    /// of `set`.
    pub fn from_skipping(set: &str, s: &'de str) -> (r: Deserializer<'de>)
        ensures
            r.wf(),
            r@ == tokens(s@, skipping_mask(set@, s@)),
    {
        let chars = chars_of(s);
        let set_chars = chars_of(set);
        let mask = skipping_delimiters(&set_chars, &chars);
        Deserializer::from_delimiters(s, &mask)
    }

    /// A cursor over the tokens of `s` separated by the characters for which `f`
    /// holds; `f` is asked once for each character, in order.
    pub fn from_closure<F: Fn(char) -> bool>(f: F, s: &'de str) -> (r: Self)
        requires
            forall|c: char| f.requires((c,)),
        ensures
            r.wf(),
            r.mask().len() == s@.len(),
            forall|i: int| 0 <= i < s@.len() ==> f.ensures((s@[i],), #[trigger] r.mask()[i]),
            r@ == tokens(s@, r.mask()),
    {
        let chars = chars_of(s);
        let mut mask: Vec<bool> = Vec::new();
        let mut i: usize = 0;
        while i < chars.len()
            invariant
                chars@ == s@,
                forall|c: char| f.requires((c,)),
                i <= chars@.len(),
                mask@.len() == i,
                forall|j: int| 0 <= j < i ==> f.ensures((s@[j],), #[trigger] mask@[j]),
            decreases chars@.len() - i,
        {
            let d = f(chars[i]);
            mask.push(d);
            i += 1;
        }
        Deserializer::from_delimiters(s, &mask)
    }
}


/// The name of the feature that struct-like enum variants need.
pub const STRUCT_VARIANTS: &'static str = "struct enum variants";

/// What a record or map reads next.
#[derive(Debug, Clone, Copy, PartialEq, Eq)]
pub enum KeyStep {
    /// Nothing: the record or map is complete.
    Done,
    /// The field with this index in the list of names.
    Named(usize),
    /// A key read from the input.
    FromInput,
}

/// The pull protocol of one composite value: how many elements or fields were
/// taken, how many field names drive a record, and the arity that bounds a tuple.
pub struct Sequence {
    count: usize,
    names: Option<usize>,
    limit: Option<usize>,
}

impl Sequence {
    /// How many elements or fields were taken (it stops growing at `usize::MAX`).
    pub closed spec fn count(&self) -> nat {
        self.count as nat
    }

    /// The number of field names, for a record.
    pub closed spec fn names(&self) -> Option<nat> {
        match self.names {
            Some(n) => Some(n as nat),
            None => None,
        }
    }

    /// The arity, for a tuple.
    pub closed spec fn limit(&self) -> Option<nat> {
        match self.limit {
            Some(n) => Some(n as nat),
            None => None,
        }
    }

    /// A protocol with nothing taken, no names and no arity.
    pub fn new() -> (r: Sequence)
        ensures
            r.count() == 0,
            r.names() is None,
            r.limit() is None,
    {
        Sequence { count: 0, names: None, limit: None }
    }

    /// Drives the protocol by a list of field names.
    pub fn with_names<N>(self, names: &[N]) -> (r: Sequence)
        ensures
            r.count() == self.count(),
            r.names() == Some(names@.len()),
            r.limit() == self.limit(),
    {
        let mut new = self;
        new.names = Some(names.len());
        new
    }

    /// Bounds the protocol by an arity.
    pub fn with_limit(self, limit: usize) -> (r: Sequence)
        ensures
            r.count() == self.count(),
            r.names() == self.names(),
            r.limit() == Some(limit as nat),
    {
        let mut new = self;
        new.limit = Some(limit);
        new
    }

    /// Whether one more element follows: the arity is not reached and a token is
    /// left. The arity is checked first.
    pub fn next_element(&mut self, de: &Deserializer) -> (r: bool)
        requires
            de.wf(),
        ensures
            r == ((old(self).limit() is None || old(self).limit() != Some(old(self).count()))
                && de@.len() > 0),
            final(self).count() == if r && old(self).count() < usize::MAX {
                old(self).count() + 1
            } else {
                old(self).count()
            },
            final(self).names() == old(self).names(),
            final(self).limit() == old(self).limit(),
    {
        if let Some(lim) = self.limit {
            if lim == self.count {
                return false;
            }
        }
        if !de.has_next() {
            return false;
        }
        if self.count < usize::MAX {
            self.count = self.count + 1;
        }
        true
    }

    /// Whether a bounded protocol stopped before its arity was reached.
    pub fn short(&self) -> (r: bool)
        ensures
            r == (self.limit() is Some && self.count() < self.limit()->0),
    {
        match self.limit {
            Some(lim) => self.count < lim,
            None => false,
        }
    }

    /// What a record or map reads next. With names: the next name in order, until
    /// they run out. Without: a key from the input while a token is left.
    pub fn next_key(&mut self, de: &Deserializer) -> (r: KeyStep)
        requires
            de.wf(),
        ensures
            final(self).names() == old(self).names(),
            final(self).limit() == old(self).limit(),
            old(self).names() is Some ==> if old(self).count() >= old(self).names()->0 {
                r == KeyStep::Done && final(self).count() == old(self).count()
            } else {
                r == KeyStep::Named(old(self).count() as usize) && final(self).count() == old(
                    self,
                ).count() + 1
            },
            old(self).names() is None ==> final(self).count() == old(self).count() && r == if de@.len()
                > 0 {
                KeyStep::FromInput
            } else {
                KeyStep::Done
            },
    {
        if let Some(n) = self.names {
            if self.count >= n {
                return KeyStep::Done;
            }
            self.count = self.count + 1;
            return KeyStep::Named(self.count - 1);
        }
        if de.has_next() {
            KeyStep::FromInput
        } else {
            KeyStep::Done
        }
    }

    /// A struct-like enum variant, which this format cannot express.
    pub fn struct_variant(self) -> (r: Result<Value, ScanError>)
        ensures
            r == Err::<Value, ScanError>(ScanError::NS(STRUCT_VARIANTS)),
    {
        Err(ScanError::NS(STRUCT_VARIANTS))
    }
}

} // verus!
