//! Decimal text for integers: what `to_string` writes for an integer and
//! what `str::parse` accepts for one.
use vstd::prelude::*;
use crate::text::{chars_of, string_from};

verus! {

/// The char of a decimal digit `d` (`0 <= d < 10`).
pub open spec fn digit_char(d: int) -> char {
    (d + 48) as char
}

/// The decimal text of a natural number, without sign or leading zeros.
pub open spec fn decimal(n: nat) -> Seq<char>
    decreases n,
{
    if n < 10 {
        seq![digit_char(n as int)]
    } else {
        decimal(n / 10).push(digit_char((n % 10) as int))
    }
}

/// The decimal text of an integer, with a leading `-` when it is negative.
pub open spec fn signed_decimal(n: int) -> Seq<char> {
    if n < 0 {
        seq!['-'] + decimal((-n) as nat)
    } else {
        decimal(n as nat)
    }
}

/// `n.to_string()` for an unsigned integer.
pub fn format_u128(n: u128) -> (s: String)
    ensures
        s@ == decimal(n as nat),
{
    let mut m = n;
    let mut rev: Vec<char> = Vec::new();
    while m >= 10
        invariant
            decimal(n as nat) == decimal(m as nat) + rev@.reverse(),
        decreases m,
    {
        let d = (m % 10) as u8;
        rev.push((d + 48) as char);
        assert(rev@.reverse() =~= seq![digit_char(d as int)] + rev@.drop_last().reverse());
        m = m / 10;
    }
    rev.push(((m as u8) + 48) as char);
    assert(rev@.reverse() =~= seq![digit_char(m as int)] + rev@.drop_last().reverse());
    let mut out: Vec<char> = Vec::new();
    let len = rev.len();
    for k in 0..len
        invariant
            len == rev@.len(),
            out@ == rev@.reverse().take(k as int),
    {
        out.push(rev[len - 1 - k]);
        assert(rev@.reverse().take(k + 1) =~= rev@.reverse().take(k as int).push(
            rev@[len - 1 - k],
        ));
    }
    assert(rev@.reverse().take(len as int) =~= rev@.reverse());
    assert(out@ =~= decimal(n as nat));
    string_from(out.as_slice())
}

pub fn format_u64(n: u64) -> (s: String)
    ensures
        s@ == decimal(n as nat),
{
    format_u128(n as u128)
}

pub fn format_usize(n: usize) -> (s: String)
    ensures
        s@ == decimal(n as nat),
{
    format_u128(n as u128)
}

/// `n.to_string()` for an `i64`.
pub fn format_i64(n: i64) -> (s: String)
    ensures
        s@ == signed_decimal(n as int),
{
    if n < 0 {
        let magnitude: u128 = (0i128 - (n as i128)) as u128;
        let digits = format_u128(magnitude);
        let mut s = String::new();
        crate::text::push_char(&mut s, '-');
        crate::text::push_all(&mut s, digits.as_str());
        s
    } else {
        format_u128(n as u128)
    }
}

// ---------------------------------------------------------------------------
// Parsing
// ---------------------------------------------------------------------------

pub open spec fn is_digit(c: char) -> bool {
    '0' <= c <= '9'
}

pub open spec fn all_digits(s: Seq<char>) -> bool {
    forall|i: int| 0 <= i < s.len() ==> is_digit(#[trigger] s[i])
}

/// The value of a run of decimal digits.
pub open spec fn digits_value(s: Seq<char>) -> nat
    decreases s.len(),
{
    if s.len() == 0 {
        0
    } else {
        digits_value(s.drop_last()) * 10 + ((s.last() as int) - 48) as nat
    }
}

/// The text of an unsigned number as `str::parse` reads it: one optional `+`,
/// then one or more decimal digits.
pub open spec fn parse_unsigned(s: Seq<char>) -> Option<nat> {
    let d = if s.len() > 0 && s[0] == '+' {
        s.drop_first()
    } else {
        s
    };
    if d.len() > 0 && all_digits(d) {
        Some(digits_value(d))
    } else {
        None
    }
}

/// The text of a signed number as `str::parse` reads it: a `-` for a negative
/// number, else as `parse_unsigned`.
pub open spec fn parse_signed(s: Seq<char>) -> Option<int> {
    if s.len() > 0 && s[0] == '-' {
        let d = s.drop_first();
        if d.len() > 0 && all_digits(d) {
            Some(-(digits_value(d) as int))
        } else {
            None
        }
    } else {
        match parse_unsigned(s) {
            Some(v) => Some(v as int),
            None => None,
        }
    }
}

/// What `s.parse::<u64>().ok()` gives.
pub open spec fn parsed_u64(s: Seq<char>) -> Option<u64> {
    match parse_unsigned(s) {
        Some(v) => if v <= u64::MAX {
            Some(v as u64)
        } else {
            None
        },
        None => None,
    }
}

/// What `s.parse::<u32>().ok()` gives.
pub open spec fn parsed_u32(s: Seq<char>) -> Option<u32> {
    match parse_unsigned(s) {
        Some(v) => if v <= u32::MAX {
            Some(v as u32)
        } else {
            None
        },
        None => None,
    }
}

/// What `s.parse::<i64>().ok()` gives.
pub open spec fn parsed_i64(s: Seq<char>) -> Option<i64> {
    match parse_signed(s) {
        Some(v) => if i64::MIN <= v <= i64::MAX {
            Some(v as i64)
        } else {
            None
        },
        None => None,
    }
}

proof fn lemma_digits_value_prefix(s: Seq<char>, k: int)
    requires
        0 <= k <= s.len(),
    ensures
        digits_value(s.take(k)) <= digits_value(s),
    decreases s.len() - k,
{
    if k < s.len() {
        lemma_digits_value_prefix(s, k + 1);
        assert(s.take(k + 1).drop_last() =~= s.take(k));
    } else {
        assert(s.take(k) =~= s);
    }
}

/// The value of the digits `cs[start..]`, when they are all digits and the
/// value fits in a `u64`.
fn digits_u64(cs: &[char], start: usize) -> (r: Option<u64>)
    requires
        start <= cs@.len(),
    ensures
        ({
            let d = cs@.skip(start as int);
            match r {
                Some(v) => d.len() > 0 && all_digits(d) && v == digits_value(d),
                None => !(d.len() > 0 && all_digits(d) && digits_value(d) <= u64::MAX),
            }
        }),
{
    let ghost d = cs@.skip(start as int);
    let n = cs.len();
    if start == n {
        return None;
    }
    let mut v: u64 = 0;
    let mut i = start;
    assert(d.take(0) =~= Seq::<char>::empty());
    while i < n
        invariant
            start <= i <= n == cs@.len(),
            d == cs@.skip(start as int),
            all_digits(d.take(i - start)),
            v == digits_value(d.take(i - start)),
        decreases n - i,
    {
        let c = cs[i];
        assert(d[i - start] == c);
        if !('0' <= c && c <= '9') {
            return None;
        }
        assert(d.take(i + 1 - start).drop_last() =~= d.take(i - start));
        let digit = (c as u64) - 48;
        let next = match v.checked_mul(10) {
            Some(t) => t.checked_add(digit),
            None => None,
        };
        match next {
            Some(w) => {
                v = w;
            },
            None => {
                proof {
                    if all_digits(d) {
                        lemma_digits_value_prefix(d, i + 1 - start);
                    }
                }
                return None;
            },
        }
        i = i + 1;
    }
    assert(d.take(n - start) =~= d);
    Some(v)
}

/// `s.parse::<u64>().ok()`.
pub fn parse_u64(s: &str) -> (r: Option<u64>)
    ensures
        r == parsed_u64(s@),
{
    let cs = chars_of(s);
    let start: usize = if cs.len() > 0 && cs[0] == '+' {
        1
    } else {
        0
    };
    assert(cs@.skip(1) =~= cs@.drop_first());
    assert(cs@.skip(0) =~= cs@);
    digits_u64(cs.as_slice(), start)
}

/// `s.parse::<u32>().ok()`.
pub fn parse_u32(s: &str) -> (r: Option<u32>)
    ensures
        r == parsed_u32(s@),
{
    match parse_u64(s) {
        Some(v) => if v <= 0xffff_ffff {
            Some(v as u32)
        } else {
            None
        },
        None => None,
    }
}

/// `s.parse::<i64>().ok()`.
pub fn parse_i64(s: &str) -> (r: Option<i64>)
    ensures
        r == parsed_i64(s@),
{
    let cs = chars_of(s);
    if cs.len() > 0 && cs[0] == '-' {
        assert(cs@.skip(1) =~= cs@.drop_first());
        match digits_u64(cs.as_slice(), 1) {
            Some(m) => if m <= 0x8000_0000_0000_0000 {
                Some((0i128 - (m as i128)) as i64)
            } else {
                None
            },
            None => None,
        }
    } else {
        match parse_u64(s) {
            Some(v) => if v <= 0x7fff_ffff_ffff_ffff {
                Some(v as i64)
            } else {
                None
            },
            None => None,
        }
    }
}

/// Decimal text reads back as the number it was written for: it is all
/// digits, without a leading zero unless the number is zero, and `parse`
/// gives the number again; so too for signed numbers.
pub proof fn lemma_decimal_reads_back(n: nat)
    ensures
        decimal(n).len() > 0,
        all_digits(decimal(n)),
        digits_value(decimal(n)) == n,
        decimal(n)[0] == '0' ==> n == 0,
        parse_unsigned(decimal(n)) == Some(n),
    decreases n,
{
    if n >= 10 {
        lemma_decimal_reads_back(n / 10);
        let t = decimal(n / 10);
        let d = (n % 10) as int;
        assert(decimal(n) == t.push(digit_char(d)));
        assert(decimal(n).drop_last() =~= t);
        assert((digit_char(d) as int) - 48 == d);
        assert(decimal(n).last() == digit_char(d));
        assert(n == (n / 10) * 10 + n % 10);
        assert(digits_value(decimal(n)) == digits_value(t) * 10 + ((digit_char(d) as int) - 48) as nat);
        assert(decimal(n)[0] == t[0]);
        assert(n / 10 > 0);
    } else {
        assert(decimal(n).drop_last() =~= Seq::<char>::empty());
        assert((digit_char(n as int) as int) - 48 == n);
        assert(decimal(n).last() == digit_char(n as int));
        assert(digits_value(decimal(n)) == digits_value(Seq::<char>::empty()) * 10 + ((digit_char(
            n as int,
        ) as int) - 48) as nat);
    }
    assert(decimal(n)[0] != '+');
}

/// Signed decimal text reads back as the number it was written for.
pub proof fn lemma_signed_decimal_reads_back(n: int)
    ensures
        parse_signed(signed_decimal(n)) == Some(n),
{
    if n < 0 {
        lemma_decimal_reads_back((-n) as nat);
        assert((seq!['-'] + decimal((-n) as nat)).drop_first() =~= decimal((-n) as nat));
    } else {
        lemma_decimal_reads_back(n as nat);
        assert(decimal(n as nat)[0] != '-');
    }
}

} // verus!
