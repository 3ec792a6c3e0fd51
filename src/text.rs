//! Character-level facts: decimal rendering, code points, whitespace.
use vstd::prelude::*;
use vstd::std_specs::iter::IteratorSpec;
use crate::error::ParseErrorKind;
use crate::syntax::{all_digits, digits_value, is_digit, is_literal, is_ws, literal_int, trim, trim_end, trim_start};

verus! {

pub open spec fn digit_char(d: int) -> char {
    (48 + d) as char
}

/// The decimal digits of `n`, most significant first, without leading zeros.
pub open spec fn decimal_digits(n: nat) -> Seq<char>
    decreases n,
{
    if n < 10 {
        seq![digit_char(n as int)]
    } else {
        decimal_digits(n / 10).push(digit_char((n % 10) as int))
    }
}

/// `v` written in decimal, with a leading `-` when negative.
pub open spec fn decimal(v: int) -> Seq<char> {
    if v < 0 {
        seq!['-'] + decimal_digits((-v) as nat)
    } else {
        decimal_digits(v as nat)
    }
}

/// The first `n` values in decimal, separated by single spaces.
pub open spec fn joined(vs: Seq<i64>, n: int) -> Seq<char>
    decreases n,
{
    if n <= 0 {
        Seq::empty()
    } else if n == 1 {
        decimal(vs[0] as int)
    } else {
        joined(vs, n - 1) + seq![' '] + decimal(vs[n - 1] as int)
    }
}

/// The line that `print` writes for these values.
pub open spec fn print_line(vs: Seq<i64>) -> Seq<char> {
    joined(vs, vs.len() as int).push('\n')
}

/// Whether `v` is a Unicode scalar value, i.e. the code of some `char`.
pub open spec fn is_scalar(v: int) -> bool {
    (0 <= v <= 0xD7FF) || (0xE000 <= v <= 0x10FFFF)
}

/// The line that `printa` writes for these code points.
pub open spec fn chars_line(vs: Seq<i64>) -> Seq<char> {
    vs.map_values(|v: i64| v as char).push('\n')
}

/// Relies on char::from_u32: `Some` exactly for Unicode scalar values, holding that code point.
#[verifier::external_body]
fn char_from_u32(v: u32) -> (r: Option<char>)
    ensures
        is_scalar(v as int) ==> r == Some(v as char),
        !is_scalar(v as int) ==> r is None,
{
    char::from_u32(v)
}

/// The character with code `v`, if `v` is a Unicode scalar value.
pub fn code_point_char(v: i64) -> (r: Option<char>)
    ensures
        is_scalar(v as int) ==> r == Some(v as char),
        !is_scalar(v as int) ==> r is None,
{
    if v < 0 || v > 0x10FFFF {
        None
    } else {
        char_from_u32(v as u32)
    }
}

fn push_digits(out: &mut Vec<char>, n: u64)
    ensures
        final(out)@ == old(out)@ + decimal_digits(n as nat),
    decreases n,
{
    if n >= 10 {
        push_digits(out, n / 10);
    }
    let d: u8 = (n % 10) as u8;
    out.push((48u8 + d) as char);
    proof {
        assert(decimal_digits(n as nat) == if n < 10 {
            seq![digit_char(n as int)]
        } else {
            decimal_digits((n / 10) as nat).push(digit_char((n % 10) as int))
        });
    }
    assert(final(out)@ =~= old(out)@ + decimal_digits(n as nat)) by {
        if n < 10 {
            assert(decimal_digits(n as nat) =~= seq![digit_char(n as int)]);
        }
    }
}

/// Appends `v` in decimal.
pub fn push_decimal(out: &mut Vec<char>, v: i64)
    ensures
        final(out)@ == old(out)@ + decimal(v as int),
{
    if v < 0 {
        out.push('-');
        let m: u64 = ((-(v + 1)) as u64) + 1;
        push_digits(out, m);
        assert(final(out)@ =~= old(out)@ + decimal(v as int));
    } else {
        push_digits(out, v as u64);
    }
}

} // verus!
verus! {

/// The characters of `s`, in order.
pub fn chars_of(s: &str) -> (r: Vec<char>)
    ensures
        r@ == s@,
{
    let mut r: Vec<char> = Vec::new();
    let mut it = s.chars();
    loop
        invariant
            r@ + it.remaining() == s@,
            it.obeys_prophetic_iter_laws(),
            it.decrease() is Some,
        ensures
            r@ == s@,
        decreases it.decrease()->0,
    {
        match it.next() {
            Some(c) => {
                r.push(c);
            },
            None => {
                assert(r@ + Seq::<char>::empty() =~= r@);
                break;
            },
        }
    }
    r
}

} // verus!
verus! {

/// Whether `c` is white space, as `char::is_whitespace` has it.
pub fn is_whitespace(c: char) -> (r: bool)
    ensures
        r == is_ws(c),
{
    c == ' ' || ('\t' <= c && c <= '\r') || c == '\u{85}' || c == '\u{a0}' || c == '\u{1680}' || (
    '\u{2000}' <= c && c <= '\u{200a}') || c == '\u{2028}' || c == '\u{2029}' || c == '\u{202f}'
        || c == '\u{205f}' || c == '\u{3000}'
}

/// A copy of `v[lo..hi]`.
pub fn slice(v: &Vec<char>, lo: usize, hi: usize) -> (r: Vec<char>)
    requires
        lo <= hi <= v.len(),
    ensures
        r@ == v@.subrange(lo as int, hi as int),
{
    let mut r: Vec<char> = Vec::new();
    let mut i: usize = lo;
    while i < hi
        invariant
            lo <= i <= hi,
            hi <= v.len(),
            r@ == v@.subrange(lo as int, i as int),
        decreases hi - i,
    {
        r.push(v[i]);
        assert(r@ =~= v@.subrange(lo as int, i + 1));
        i = i + 1;
    }
    r
}

proof fn lemma_trim_start_skip(s: Seq<char>, i: int)
    requires
        0 <= i < s.len(),
        is_ws(s[i]),
    ensures
        trim_start(s.skip(i)) == trim_start(s.skip(i + 1)),
{
    assert(s.skip(i).drop_first() =~= s.skip(i + 1));
}

proof fn lemma_trim_end_take(s: Seq<char>, j: int)
    requires
        0 < j <= s.len(),
        is_ws(s[j - 1]),
    ensures
        trim_end(s.take(j)) == trim_end(s.take(j - 1)),
{
    assert(s.take(j).drop_last() =~= s.take(j - 1));
}

/// `v` without white space at either end.
pub fn trim_chars(v: &Vec<char>) -> (r: Vec<char>)
    ensures
        r@ == trim(v@),
{
    let n = v.len();
    let mut lo: usize = 0;
    assert(v@.skip(0) =~= v@);
    while lo < n && is_whitespace(v[lo])
        invariant
            lo <= n,
            n == v.len(),
            trim_start(v@) == trim_start(v@.skip(lo as int)),
        decreases n - lo,
    {
        proof {
            lemma_trim_start_skip(v@, lo as int);
        }
        lo = lo + 1;
    }
    let ghost u = v@.skip(lo as int);
    assert(trim_start(v@) == u) by {
        if lo < n {
            assert(u[0] == v@[lo as int]);
        } else {
            assert(u.len() == 0);
        }
    }
    let mut hi: usize = n;
    assert(u.take(n - lo) =~= u);
    while hi > lo && is_whitespace(v[hi - 1])
        invariant
            lo <= hi <= n,
            n == v.len(),
            u == v@.skip(lo as int),
            trim_end(u) == trim_end(u.take(hi - lo)),
        decreases hi,
    {
        proof {
            lemma_trim_end_take(u, hi - lo);
        }
        hi = hi - 1;
    }
    assert(u.take(n - lo) =~= u);
    let r = slice(v, lo, hi);
    assert(r@ =~= u.take(hi - lo));
    assert(trim_end(u.take(hi - lo)) == u.take(hi - lo)) by {
        if hi > lo {
            assert(u.take(hi - lo).last() == v@[hi - 1]);
        }
    }
    r
}

} // verus!
verus! {

/// Relies on `String`'s `FromIterator<&char>`: the string holds the characters in order.
#[verifier::external_body]
pub(crate) fn string_of(v: &Vec<char>) -> (r: String)
    ensures
        r@ == v@,
{
    v.iter().collect()
}

/// The index of the first space in `t`, or its length.
pub fn first_space_index(t: &Vec<char>) -> (r: usize)
    ensures
        r == crate::syntax::first_space(t@, 0),
{
    let mut i: usize = 0;
    while i < t.len() && t[i] != ' '
        invariant
            i <= t.len(),
            crate::syntax::first_space(t@, 0) == crate::syntax::first_space(t@, i as int),
        decreases t.len() - i,
    {
        i = i + 1;
    }
    i
}

proof fn lemma_digits_prefix(d: Seq<char>, k: int)
    requires
        all_digits(d),
        0 <= k <= d.len(),
    ensures
        0 <= digits_value(d.take(k)) <= digits_value(d),
    decreases d.len(),
{
    if d.len() > 0 {
        assert(all_digits(d.drop_last()));
        if k < d.len() {
            lemma_digits_prefix(d.drop_last(), k);
            assert(d.drop_last().take(k) =~= d.take(k));
        } else {
            lemma_digits_prefix(d.drop_last(), k - 1);
            assert(d.take(k) =~= d);
        }
        lemma_digits_prefix(d.drop_last(), d.len() - 1);
        assert(d.drop_last().take(d.len() - 1) =~= d.drop_last());
    } else {
        assert(d.take(k) =~= d);
    }
}

/// The value of `t` when it is an integer literal; `None` when it is not one.
pub fn parse_literal(t: &Vec<char>) -> (r: Option<Result<i64, ParseErrorKind>>)
    ensures
        r is None <==> !is_literal(t@),
        r matches Some(x) ==> x == if i64::MIN <= literal_int(t@) <= i64::MAX {
            Ok::<i64, ParseErrorKind>(literal_int(t@) as i64)
        } else {
            Err::<i64, ParseErrorKind>(ParseErrorKind::LiteralOutOfRange)
        },
{
    let n = t.len();
    if n == 0 {
        return None;
    }
    let neg = t[0] == '-';
    let start: usize = if neg { 1 } else { 0 };
    if n <= start {
        return None;
    }
    let ghost d = t@.skip(start as int);
    assert(!neg ==> d =~= t@);
    let mut i: usize = start;
    while i < n
        invariant
            start <= i <= n,
            n == t.len(),
            d == t@.skip(start as int),
            neg == (t@[0] == '-'),
            start == (if neg { 1usize } else { 0usize }),
            start < n,
            !neg ==> d == t@,
            forall|j: int| 0 <= j < i - start ==> is_digit(#[trigger] d[j]),
        decreases n - i,
    {
        if t[i] < '0' || t[i] > '9' {
            assert(!all_digits(d)) by {
                assert(!is_digit(d[i - start]));
            }
            return None;
        }
        i = i + 1;
    }
    assert(all_digits(d));
    assert(is_literal(t@));
    let mut acc: i64 = 0;
    let mut i: usize = start;
    assert(d.take(0) =~= Seq::<char>::empty());
    while i < n
        invariant
            start <= i <= n,
            n == t.len(),
            d == t@.skip(start as int),
            all_digits(d),
            neg == (t@[0] == '-'),
            !neg ==> d == t@,
            is_literal(t@),
            start == (if neg { 1usize } else { 0usize }),
            acc == (if neg { -digits_value(d.take(i - start)) } else { digits_value(d.take(i - start)) }),
        decreases n - i,
    {
        assert(d[i - start] == t@[i as int]);
        assert(is_digit(d[i - start]));
        let dig: i64 = (t[i] as u32 - '0' as u32) as i64;
        assert(d.take(i + 1 - start).drop_last() =~= d.take(i - start));
        assert(d.take(i + 1 - start).last() == t@[i as int]);
        let next = if neg {
            match acc.checked_mul(10) {
                Some(x) => x.checked_sub(dig),
                None => None,
            }
        } else {
            match acc.checked_mul(10) {
                Some(x) => x.checked_add(dig),
                None => None,
            }
        };
        match next {
            Some(x) => {
                acc = x;
            },
            None => {
                proof {
                    lemma_digits_prefix(d, i + 1 - start);
                    lemma_digits_prefix(d, i - start);
                    assert(d.take(d.len() as int) =~= d);
                }
                return Some(Err(ParseErrorKind::LiteralOutOfRange));
            },
        }
        i = i + 1;
    }
    assert(d.take(n - start) =~= d);
    Some(Ok(acc))
}

} // verus!
