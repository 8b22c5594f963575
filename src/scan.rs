use vstd::prelude::*;

use crate::de::{skipping_mask, tokens, whitespace_mask, Deserializer};
use crate::decode::{decode, decode_value};
use crate::error::ScanError;
use crate::text::{chars_of, is_whitespace, white_space};
use crate::value::{result_model, Shape, Val, Value};

verus! {

broadcast use vstd::seq::group_seq_axioms;

/// The value that decoding `shape` from `toks` gives, whatever is left over.
pub open spec fn decoded(shape: &Shape, toks: Seq<Seq<char>>) -> Result<Val, ScanError> {
    match decode(shape, toks) {
        Ok((v, _)) => Ok(v),
        Err(e) => Err(e),
    }
}

/// Decodes one value of `shape` from the whitespace separated tokens of `s`; tokens
/// that the shape does not need are ignored.
pub fn from_str(shape: &Shape, s: &str) -> (r: Result<Value, ScanError>)
    ensures
        result_model(r) == decoded(shape, tokens(s@, whitespace_mask(s@))),
{
    let mut de = Deserializer::from_str(s);
    decode_value(shape, &mut de)
}

/// Decodes one value of `shape` from the tokens of `s` separated by whitespace or by
/// any character of `set`.
pub fn from_str_skipping(shape: &Shape, set: &str, s: &str) -> (r: Result<Value, ScanError>)
    ensures
        result_model(r) == decoded(shape, tokens(s@, skipping_mask(set@, s@))),
{
    let mut de = Deserializer::from_skipping(set, s);
    decode_value(shape, &mut de)
}

/// Decodes one value of `shape` from the tokens of `s` separated by the characters
/// for which `f` holds.
pub fn from_closure<F: Fn(char) -> bool>(shape: &Shape, f: F, s: &str) -> (r: Result<
    Value,
    ScanError,
>)
    requires
        forall|c: char| f.requires((c,)),
    ensures
        exists|m: Seq<bool>|
            m.len() == s@.len() && (forall|i: int|
                0 <= i < s@.len() ==> f.ensures((s@[i],), #[trigger] m[i])) && result_model(r)
                == decoded(shape, tokens(s@, m)),
{
    let mut de = Deserializer::from_closure(f, s);
    let ghost m = de.mask();
    let r = decode_value(shape, &mut de);
    assert(result_model(r) == decoded(shape, tokens(s@, m)));
    r
}

/// The literal characters of a template: everything but its `{}` placeholders.
pub open spec fn literal_chars(t: Seq<char>) -> Seq<char>
    decreases t.len(),
{
    if t.len() == 0 {
        seq![]
    } else if t.len() >= 2 && t[0] == '{' && t[1] == '}' {
        literal_chars(t.skip(2))
    } else {
        seq![t[0]] + literal_chars(t.skip(1))
    }
}

/// One input character `c` against the template, with `k` literal characters matched
/// so far: whether `c` is a delimiter, and how many are matched after it. A literal
/// character is matched by itself, a whitespace one by any whitespace; whitespace is
/// a delimiter in any case.
pub open spec fn template_step(lit: Seq<char>, k: nat, c: char) -> (bool, nat) {
    if k < lit.len() && (c == lit[k as int] || (white_space(lit[k as int]) && white_space(c))) {
        (true, k + 1)
    } else {
        (white_space(c), k)
    }
}

/// The delimiter marks of `s` against the literal characters `lit`, and how many of
/// those were matched.
pub open spec fn template_scan(lit: Seq<char>, s: Seq<char>) -> (Seq<bool>, nat)
    decreases s.len(),
{
    if s.len() == 0 {
        (seq![], 0)
    } else {
        let (m, k) = template_scan(lit, s.drop_last());
        let (d, k2) = template_step(lit, k, s.last());
        (m.push(d), k2)
    }
}

/// What decoding `shape` from `s` against `template` gives: a conversion failure
/// unless every literal character of the template is matched, in order.
pub open spec fn scanned(template: Seq<char>, shape: &Shape, s: Seq<char>) -> Result<
    Val,
    ScanError,
> {
    let lit = literal_chars(template);
    let (m, k) = template_scan(lit, s);
    if k < lit.len() {
        Err(ScanError::De)
    } else {
        decoded(shape, tokens(s, m))
    }
}

/// The literal characters of `t`.
fn literals_of(t: &Vec<char>) -> (r: Vec<char>)
    ensures
        r@ == literal_chars(t@),
{
    let mut out: Vec<char> = Vec::new();
    let mut i: usize = 0;
    assert(t@.skip(0) =~= t@);
    assert(out@ + literal_chars(t@) =~= literal_chars(t@));
    while i < t.len()
        invariant
            i <= t@.len(),
            out@ + literal_chars(t@.skip(i as int)) == literal_chars(t@),
        decreases t@.len() - i,
    {
        let ghost rest = t@.skip(i as int);
        assert(rest[0] == t@[i as int]);
        if i + 1 < t.len() && t[i] == '{' && t[i + 1] == '}' {
            assert(rest[1] == t@[i + 1]);
            assert(rest.skip(2) =~= t@.skip(i + 2));
            i += 2;
        } else {
            assert(rest.skip(1) =~= t@.skip(i + 1));
            assert(out@ + (seq![t@[i as int]] + literal_chars(t@.skip(i + 1))) =~= out@.push(
                t@[i as int],
            ) + literal_chars(t@.skip(i + 1)));
            out.push(t[i]);
            i += 1;
        }
    }
    assert(t@.skip(i as int).len() == 0);
    assert(out@ + seq![] =~= out@);
    out
}

/// The delimiter marks of `s` against the template `template`, and whether every
/// literal character of the template was matched.
pub fn template_delimiters(template: &str, s: &str) -> (r: (Vec<bool>, bool))
    ensures
        r.0@ == template_scan(literal_chars(template@), s@).0,
        r.0@.len() == s@.len(),
        template_scan(literal_chars(template@), s@).1 <= literal_chars(template@).len(),
        r.1 == (template_scan(literal_chars(template@), s@).1 == literal_chars(template@).len()),
{
    let lit = literals_of(&chars_of(template));
    let chars = chars_of(s);
    let mut mask: Vec<bool> = Vec::new();
    let mut k: usize = 0;
    let mut i: usize = 0;
    while i < chars.len()
        invariant
            chars@ == s@,
            lit@ == literal_chars(template@),
            i <= chars@.len(),
            (mask@, k as nat) == template_scan(lit@, s@.take(i as int)),
            k <= lit@.len(),
            mask@.len() == i,
        decreases chars@.len() - i,
    {
        assert(s@.take(i + 1).drop_last() =~= s@.take(i as int));
        let c = chars[i];
        let d = if k < lit.len() && (c == lit[k] || (is_whitespace(lit[k]) && is_whitespace(c))) {
            k += 1;
            true
        } else {
            is_whitespace(c)
        };
        mask.push(d);
        i += 1;
    }
    assert(s@.take(i as int) =~= s@);
    (mask, k == lit.len())
}

/// Decodes one value of `shape` from `s` read against `template`, a text whose `{}`
/// placeholders stand for tokens. The literal characters of the template are
/// delimiters where they match the input in order, and must all be matched.
pub fn scan(template: &str, shape: &Shape, s: &str) -> (r: Result<Value, ScanError>)
    ensures
        result_model(r) == scanned(template@, shape, s@),
{
    let (mask, matched) = template_delimiters(template, s);
    if !matched {
        return Err(ScanError::De);
    }
    let mut de = Deserializer::from_delimiters(s, &mask);
    decode_value(shape, &mut de)
}

} // verus!
