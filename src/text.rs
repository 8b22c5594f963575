use vstd::prelude::*;

verus! {

/// Whether `c` has the Unicode `White_Space` property.
pub open spec fn white_space(c: char) -> bool {
    let n = c as u32;
    (0x09 <= n <= 0x0d) || n == 0x20 || n == 0x85 || n == 0xa0 || n == 0x1680 || (0x2000 <= n
        <= 0x200a) || n == 0x2028 || n == 0x2029 || n == 0x202f || n == 0x205f || n == 0x3000
}

/// Tests whether `c` is a whitespace character.
pub fn is_whitespace(c: char) -> (r: bool)
    ensures
        r == white_space(c),
{
    let n = c as u32;
    (0x09 <= n && n <= 0x0d) || n == 0x20 || n == 0x85 || n == 0xa0 || n == 0x1680 || (0x2000
        <= n && n <= 0x200a) || n == 0x2028 || n == 0x2029 || n == 0x202f || n == 0x205f || n
        == 0x3000
}


/// The characters of `s`, in order.
pub fn chars_of(s: &str) -> (r: Vec<char>)
    ensures
        r@ == s@,
{
    let mut r: Vec<char> = Vec::new();
    for c in it: s.chars()
        invariant
            r@ == it.seq().subrange(0, it.index() as int),
    {
        r.push(c);
    }
    r
}


pub open spec fn is_digit(c: char) -> bool {
    '0' <= c <= '9'
}

pub open spec fn all_digits(s: Seq<char>) -> bool {
    forall|i: int| 0 <= i < s.len() ==> is_digit(#[trigger] s[i])
}

/// The number that a string of decimal digits writes.
pub open spec fn digits_value(s: Seq<char>) -> nat
    decreases s.len(),
{
    if s.len() == 0 {
        0
    } else {
        digits_value(s.drop_last()) * 10 + (s.last() as u32 - '0' as u32) as nat
    }
}

/// The value of `s` read as a decimal number no larger than `max`: digits only, at
/// least one, after an optional `+`.
pub open spec fn unsigned_in(s: Seq<char>, max: nat) -> Option<nat> {
    let body = if s.len() > 0 && s[0] == '+' {
        s.drop_first()
    } else {
        s
    };
    if body.len() > 0 && all_digits(body) && digits_value(body) <= max {
        Some(digits_value(body))
    } else {
        None
    }
}

/// The value of `s` read as a decimal number in `-(max + 1) ..= max`: digits only, at
/// least one, after an optional `+` or `-`.
pub open spec fn signed_in(s: Seq<char>, max: nat) -> Option<int> {
    if s.len() > 0 && s[0] == '-' {
        let body = s.drop_first();
        if body.len() > 0 && all_digits(body) && digits_value(body) <= max + 1 {
            Some(-digits_value(body))
        } else {
            None
        }
    } else {
        match unsigned_in(s, max) {
            Some(n) => Some(n as int),
            None => None,
        }
    }
}

/// A longer string of digits is worth at least as much as its prefix.
proof fn lemma_digits_prefix(s: Seq<char>, k: int)
    requires
        0 <= k <= s.len(),
        all_digits(s),
    ensures
        digits_value(s.subrange(0, k)) <= digits_value(s),
    decreases s.len(),
{
    if k < s.len() {
        assert(s.drop_last().subrange(0, k) =~= s.subrange(0, k));
        lemma_digits_prefix(s.drop_last(), k);
        assert(all_digits(s.drop_last()));
    } else {
        assert(s.subrange(0, k) =~= s);
    }
}

/// Whether `t[from..to]` holds only decimal digits.
pub fn digits_only(t: &Vec<char>, from: usize, to: usize) -> (r: bool)
    requires
        from <= to <= t@.len(),
    ensures
        r == all_digits(t@.subrange(from as int, to as int)),
{
    let mut i = from;
    while i < to
        invariant
            from <= i <= to <= t@.len(),
            all_digits(t@.subrange(from as int, i as int)),
        decreases to - i,
    {
        let c = t[i];
        if !('0' <= c && c <= '9') {
            assert(t@.subrange(from as int, to as int)[i - from] == c);
            return false;
        }
        assert(forall|j: int|
            0 <= j < i + 1 - from ==> #[trigger] t@.subrange(from as int, i + 1)[j]
                == t@.subrange(from as int, i as int + 1)[j]);
        assert forall|j: int| 0 <= j < i + 1 - from implies is_digit(
            #[trigger] t@.subrange(from as int, i + 1)[j],
        ) by {
            if j < i - from {
                assert(t@.subrange(from as int, i + 1)[j] == t@.subrange(from as int, i as int)[j]);
            }
        }
        i += 1;
    }
    true
}

/// The number written by the digits `t[from..to]`, when there is at least one, there
/// is nothing else, and it is no larger than `max`.
pub fn digits_upto(t: &Vec<char>, from: usize, to: usize, max: u64) -> (r: Option<u64>)
    requires
        from <= to <= t@.len(),
    ensures
        ({
            let s = t@.subrange(from as int, to as int);
            r == if s.len() > 0 && all_digits(s) && digits_value(s) <= max {
                Some(digits_value(s) as u64)
            } else {
                None::<u64>
            }
        }),
{
    let ghost s = t@.subrange(from as int, to as int);
    if from == to {
        return None;
    }
    let mut acc: u64 = 0;
    let mut i = from;
    while i < to
        invariant
            from <= i <= to <= t@.len(),
            s == t@.subrange(from as int, to as int),
            all_digits(t@.subrange(from as int, i as int)),
            acc == digits_value(t@.subrange(from as int, i as int)),
            acc <= max,
        decreases to - i,
    {
        let c = t[i];
        if !('0' <= c && c <= '9') {
            assert(s[i - from] == c);
            return None;
        }
        let d = (c as u32 - '0' as u32) as u64;
        let ghost next = t@.subrange(from as int, i + 1);
        assert(next.drop_last() =~= t@.subrange(from as int, i as int));
        assert(all_digits(next)) by {
            assert forall|j: int| 0 <= j < next.len() implies is_digit(#[trigger] next[j]) by {
                if j < next.len() - 1 {
                    assert(next[j] == next.drop_last()[j]);
                }
            }
        }
        if d > max || acc > (max - d) / 10 {
            assert(acc * 10 + d > max) by (nonlinear_arith)
                requires
                    d > max || acc > (max - d) / 10,
                    d <= max ==> (max - d) as int == ((max - d) / 10) * 10 + (max - d) % 10,
                    (max - d) % 10 < 10,
            ;
            proof {
                if all_digits(s) {
                    assert(s.subrange(0, i + 1 - from) =~= next);
                    lemma_digits_prefix(s, i + 1 - from);
                }
            }
            return None;
        }
        assert(acc * 10 + d <= max) by (nonlinear_arith)
            requires
                d <= max,
                acc <= (max - d) / 10,
        ;
        acc = acc * 10 + d;
        i += 1;
    }
    assert(t@.subrange(from as int, i as int) =~= s);
    Some(acc)
}


/// Reads `t[from..to]` as a decimal number no larger than `max`.
pub fn parse_unsigned(t: &Vec<char>, from: usize, to: usize, max: u64) -> (r: Option<u64>)
    requires
        from <= to <= t@.len(),
    ensures
        r == match unsigned_in(t@.subrange(from as int, to as int), max as nat) {
            Some(n) => Some(n as u64),
            None => None::<u64>,
        },
{
    let ghost s = t@.subrange(from as int, to as int);
    if from < to && t[from] == '+' {
        assert(t@.subrange(from + 1, to as int) =~= s.drop_first());
        digits_upto(t, from + 1, to, max)
    } else {
        digits_upto(t, from, to, max)
    }
}

/// Reads `t[from..to]` as a decimal number in `-(max + 1) ..= max`.
pub fn parse_signed(t: &Vec<char>, from: usize, to: usize, max: u64) -> (r: Option<i64>)
    requires
        from <= to <= t@.len(),
        max < 0x8000_0000_0000_0000,
    ensures
        r == match signed_in(t@.subrange(from as int, to as int), max as nat) {
            Some(n) => Some(n as i64),
            None => None::<i64>,
        },
{
    let ghost s = t@.subrange(from as int, to as int);
    if from < to && t[from] == '-' {
        assert(t@.subrange(from + 1, to as int) =~= s.drop_first());
        match digits_upto(t, from + 1, to, max + 1) {
            Some(m) => {
                if m == 0 {
                    Some(0)
                } else {
                    Some(-((m - 1) as i64) - 1)
                }
            },
            None => None,
        }
    } else {
        match parse_unsigned(t, from, to, max) {
            Some(n) => Some(n as i64),
            None => None,
        }
    }
}

/// `c` equals the lower-case ASCII letter `lower`, ignoring case.
pub open spec fn same_letter(c: char, lower: char) -> bool {
    c == lower || c as u32 + 32 == lower as u32
}

/// `s` spells `word` (lower-case ASCII letters), ignoring case.
pub open spec fn spells(s: Seq<char>, word: Seq<char>) -> bool {
    s.len() == word.len() && forall|i: int| 0 <= i < s.len() ==> same_letter(#[trigger] s[i], word[i])
}

pub open spec fn is_sign(c: char) -> bool {
    c == '+' || c == '-'
}

/// `s` without one leading sign, if it has one.
pub open spec fn unsigned_part(s: Seq<char>) -> Seq<char> {
    if s.len() > 0 && is_sign(s[0]) {
        s.drop_first()
    } else {
        s
    }
}

/// Digits with at most one decimal point among them, and at least one digit.
pub open spec fn mantissa(m: Seq<char>) -> bool {
    (m.len() > 0 && all_digits(m)) || exists|j: int|
        0 <= j < m.len() && m.len() >= 2 && #[trigger] m[j] == '.' && all_digits(m.take(j))
            && all_digits(m.skip(j + 1))
}

/// What follows the `e` of an exponent: an optional sign, then at least one digit.
pub open spec fn exponent(x: Seq<char>) -> bool {
    unsigned_part(x).len() > 0 && all_digits(unsigned_part(x))
}

/// A decimal number with an optional exponent, without sign.
pub open spec fn decimal(b: Seq<char>) -> bool {
    mantissa(b) || exists|k: int|
        0 <= k < b.len() && same_letter(#[trigger] b[k], 'e') && mantissa(b.take(k)) && exponent(
            b.skip(k + 1),
        )
}

/// The text of a floating point number as the standard library reads one: an optional
/// sign, then `inf`, `infinity`, `nan` (in any case) or a decimal number.
pub open spec fn float_text(s: Seq<char>) -> bool {
    let b = unsigned_part(s);
    spells(b, seq!['i', 'n', 'f']) || spells(b, seq!['i', 'n', 'f', 'i', 'n', 'i', 't', 'y'])
        || spells(b, seq!['n', 'a', 'n']) || decimal(b)
}


/// Every character of a mantissa is a digit or the decimal point.
proof fn lemma_mantissa_chars(m: Seq<char>)
    requires
        mantissa(m),
    ensures
        forall|i: int| 0 <= i < m.len() ==> is_digit(#[trigger] m[i]) || m[i] == '.',
{
    if !(m.len() > 0 && all_digits(m)) {
        let j = choose|j: int|
            0 <= j < m.len() && m.len() >= 2 && #[trigger] m[j] == '.' && all_digits(m.take(j))
                && all_digits(m.skip(j + 1));
        assert forall|i: int| 0 <= i < m.len() implies is_digit(#[trigger] m[i]) || m[i] == '.' by {
            if i < j {
                assert(m.take(j)[i] == m[i]);
            } else if i > j {
                assert(m.skip(j + 1)[i - j - 1] == m[i]);
            }
        }
    }
}

/// Whether `t[from..to]` spells `word`, ignoring case.
fn spells_at(t: &Vec<char>, from: usize, to: usize, word: &[char]) -> (r: bool)
    requires
        from <= to <= t@.len(),
    ensures
        r == spells(t@.subrange(from as int, to as int), word@),
{
    let ghost s = t@.subrange(from as int, to as int);
    if to - from != word.len() {
        return false;
    }
    let mut i: usize = 0;
    while i < word.len()
        invariant
            s == t@.subrange(from as int, to as int),
            to - from == word@.len(),
            from <= to <= t@.len(),
            i <= word@.len(),
            forall|j: int| 0 <= j < i ==> same_letter(#[trigger] s[j], word@[j]),
        decreases word@.len() - i,
    {
        let c = t[from + i];
        let w = word[i];
        assert(s[i as int] == c);
        if !(c == w || (c as u32) as u64 + 32 == (w as u32) as u64) {
            return false;
        }
        i += 1;
    }
    true
}

/// Whether `t[from..to]` is a mantissa: digits with at most one decimal point.
fn mantissa_at(t: &Vec<char>, from: usize, to: usize) -> (r: bool)
    requires
        from <= to <= t@.len(),
    ensures
        r == mantissa(t@.subrange(from as int, to as int)),
{
    let ghost m = t@.subrange(from as int, to as int);
    let mut j = from;
    while j < to && '0' <= t[j] && t[j] <= '9'
        invariant
            from <= j <= to <= t@.len(),
            m == t@.subrange(from as int, to as int),
            forall|i: int| 0 <= i < j - from ==> is_digit(#[trigger] m[i]),
        decreases to - j,
    {
        assert(m[j - from] == t@[j as int]);
        j += 1;
    }
    let ghost jj = j - from;
    if j == to {
        assert(all_digits(m));
        return from < to;
    }
    assert(m[jj] == t@[j as int]);
    assert(!is_digit(m[jj]));
    if t[j] != '.' {
        proof {
            if mantissa(m) {
                lemma_mantissa_chars(m);
            }
        }
        return false;
    }
    let rest = digits_only(t, j + 1, to);
    assert(m.take(jj) =~= t@.subrange(from as int, j as int));
    assert(m.skip(jj + 1) =~= t@.subrange(j + 1, to as int));
    assert(all_digits(m.take(jj))) by {
        assert forall|i: int| 0 <= i < jj implies is_digit(#[trigger] m.take(jj)[i]) by {
            assert(m.take(jj)[i] == m[i]);
        }
    }
    proof {
        if mantissa(m) {
            if !(m.len() > 0 && all_digits(m)) {
                let k = choose|k: int|
                    0 <= k < m.len() && m.len() >= 2 && #[trigger] m[k] == '.' && all_digits(
                        m.take(k),
                    ) && all_digits(m.skip(k + 1));
                if k > jj {
                    assert(m.take(k)[jj] == m[jj]);
                }
                assert(k == jj);
            }
        }
    }
    rest && to - from >= 2
}

/// Whether `t[from..to]` is the tail of an exponent: an optional sign, then digits.
fn exponent_at(t: &Vec<char>, from: usize, to: usize) -> (r: bool)
    requires
        from <= to <= t@.len(),
    ensures
        r == exponent(t@.subrange(from as int, to as int)),
{
    let ghost x = t@.subrange(from as int, to as int);
    let start = if from < to && (t[from] == '+' || t[from] == '-') {
        from + 1
    } else {
        from
    };
    assert(unsigned_part(x) =~= t@.subrange(start as int, to as int));
    start < to && digits_only(t, start, to)
}

/// Whether `t[from..to]` is a decimal number with an optional exponent.
fn decimal_at(t: &Vec<char>, from: usize, to: usize) -> (r: bool)
    requires
        from <= to <= t@.len(),
    ensures
        r == decimal(t@.subrange(from as int, to as int)),
{
    let ghost b = t@.subrange(from as int, to as int);
    let mut k = from;
    while k < to && !(t[k] == 'e' || (t[k] as u32) as u64 + 32 == ('e' as u32) as u64)
        invariant
            from <= k <= to <= t@.len(),
            b == t@.subrange(from as int, to as int),
            forall|i: int| 0 <= i < k - from ==> !same_letter(#[trigger] b[i], 'e'),
        decreases to - k,
    {
        assert(b[k - from] == t@[k as int]);
        k += 1;
    }
    if k == to {
        return mantissa_at(t, from, to);
    }
    let ghost kk = k - from;
    assert(b[kk] == t@[k as int]);
    assert(b.take(kk) =~= t@.subrange(from as int, k as int));
    assert(b.skip(kk + 1) =~= t@.subrange(k + 1, to as int));
    let r = mantissa_at(t, from, k) && exponent_at(t, k + 1, to);
    proof {
        if decimal(b) {
            if mantissa(b) {
                lemma_mantissa_chars(b);
                assert(false);
            }
            let k2 = choose|k2: int|
                0 <= k2 < b.len() && same_letter(#[trigger] b[k2], 'e') && mantissa(b.take(k2))
                    && exponent(b.skip(k2 + 1));
            if k2 > kk {
                lemma_mantissa_chars(b.take(k2));
                assert(b.take(k2)[kk] == b[kk]);
            }
            assert(k2 == kk);
        }
    }
    r
}

/// Whether `t[from..to]` is the text of a floating point number.
pub fn float_at(t: &Vec<char>, from: usize, to: usize) -> (r: bool)
    requires
        from <= to <= t@.len(),
    ensures
        r == float_text(t@.subrange(from as int, to as int)),
{
    let ghost s = t@.subrange(from as int, to as int);
    let start = if from < to && (t[from] == '+' || t[from] == '-') {
        from + 1
    } else {
        from
    };
    assert(unsigned_part(s) =~= t@.subrange(start as int, to as int));
    let inf = ['i', 'n', 'f'];
    let infinity = ['i', 'n', 'f', 'i', 'n', 'i', 't', 'y'];
    let nan = ['n', 'a', 'n'];
    assert(inf@ =~= seq!['i', 'n', 'f']);
    assert(infinity@ =~= seq!['i', 'n', 'f', 'i', 'n', 'i', 't', 'y']);
    assert(nan@ =~= seq!['n', 'a', 'n']);
    spells_at(t, start, to, &inf) || spells_at(t, start, to, &infinity) || spells_at(
        t,
        start,
        to,
        &nan,
    ) || decimal_at(t, start, to)
}


/// Whether `t[from..to]` is exactly `word`.
pub fn same_at(t: &Vec<char>, from: usize, to: usize, word: &[char]) -> (r: bool)
    requires
        from <= to <= t@.len(),
    ensures
        r == (t@.subrange(from as int, to as int) == word@),
{
    let ghost s = t@.subrange(from as int, to as int);
    if to - from != word.len() {
        return false;
    }
    let mut i: usize = 0;
    while i < word.len()
        invariant
            s == t@.subrange(from as int, to as int),
            to - from == word@.len(),
            from <= to <= t@.len(),
            i <= word@.len(),
            forall|j: int| 0 <= j < i ==> #[trigger] s[j] == word@[j],
        decreases word@.len() - i,
    {
        assert(s[i as int] == t@[from + i]);
        if t[from + i] != word[i] {
            return false;
        }
        i += 1;
    }
    assert(s =~= word@);
    true
}

/// Whether `c` occurs in `v`.
pub fn contains_char(v: &Vec<char>, c: char) -> (r: bool)
    ensures
        r == v@.contains(c),
{
    let mut i: usize = 0;
    while i < v.len()
        invariant
            i <= v@.len(),
            forall|j: int| 0 <= j < i ==> v@[j] != c,
        decreases v@.len() - i,
    {
        if v[i] == c {
            return true;
        }
        i += 1;
    }
    false
}

} // verus!
