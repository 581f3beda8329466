//! Decimal numerals: unsigned integers and fixed-point decimals, read from
//! and written to ASCII digits.

use vstd::prelude::*;
use vstd::slice::slice_subrange;
use crate::text::{first_index, find_byte};

verus! {

/// ASCII digits `0` to `9`.
pub open spec fn is_digit(b: u8) -> bool {
    48 <= b && b <= 57
}

/// Whether every byte of `s` is a digit.
pub open spec fn all_digits(s: Seq<u8>) -> bool {
    forall|i: int| 0 <= i < s.len() ==> is_digit(#[trigger] s[i])
}

/// The number that the digits of `s` denote in base ten.
pub open spec fn decimal_value(s: Seq<u8>) -> nat
    decreases s.len(),
{
    if s.len() == 0 {
        0
    } else {
        10 * decimal_value(s.drop_last()) + (s.last() - 48) as nat
    }
}

/// `s` without one leading plus sign.
pub open spec fn unsigned_part(s: Seq<u8>) -> Seq<u8> {
    if s.len() > 0 && s[0] == 43u8 {
        s.drop_first()
    } else {
        s
    }
}

/// The number written as a non-empty run of digits, where it fits in `u64`.
pub open spec fn digits_number(s: Seq<u8>) -> Option<u64> {
    if s.len() > 0 && all_digits(s) && decimal_value(s) <= u64::MAX {
        Some(decimal_value(s) as u64)
    } else {
        None
    }
}

/// The unsigned integer that `s` denotes: an optional plus sign and a
/// non-empty run of digits whose value fits in `usize`.
pub open spec fn number_of(s: Seq<u8>) -> Option<usize> {
    match digits_number(unsigned_part(s)) {
        Some(v) => if v <= usize::MAX {
            Some(v as usize)
        } else {
            None
        },
        None => None,
    }
}

/// A non-negative decimal number, `mantissa / 10^scale`.
#[derive(Clone, Copy, Debug, PartialEq, Eq, Structural)]
pub struct Decimal {
    /// All digits of the number, as an integer.
    pub mantissa: u64,
    /// How many of those digits stand behind the decimal point.
    pub scale: usize,
}

/// The digits before the decimal point of an unsigned decimal numeral.
pub open spec fn whole_digits(d: Seq<u8>) -> Seq<u8> {
    d.subrange(0, first_index(d, 46u8) as int)
}

/// The digits behind the decimal point of an unsigned decimal numeral;
/// none where it has no point.
pub open spec fn fraction_digits(d: Seq<u8>) -> Seq<u8> {
    let p = first_index(d, 46u8);
    if p < d.len() {
        d.subrange(p as int + 1, d.len() as int)
    } else {
        Seq::empty()
    }
}

/// The decimal number that `s` denotes: an optional plus sign, digits, and
/// optionally a point and further digits, with at least one digit in all.
/// The digits taken together must fit in `u64`.
pub open spec fn decimal_of(s: Seq<u8>) -> Option<Decimal> {
    let d = unsigned_part(s);
    match digits_number(whole_digits(d) + fraction_digits(d)) {
        Some(m) => Some(Decimal { mantissa: m, scale: fraction_digits(d).len() as usize }),
        None => None,
    }
}

/// The decimal digits of `n`, without leading zeros.
pub open spec fn digits_of(n: nat) -> Seq<u8>
    decreases n,
{
    if n < 10 {
        seq![(48 + n) as u8]
    } else {
        digits_of(n / 10).push((48 + n % 10) as u8)
    }
}

proof fn lemma_value_of_prefix(s: Seq<u8>, k: int)
    requires
        0 <= k <= s.len(),
        all_digits(s),
    ensures
        decimal_value(s.subrange(0, k)) <= decimal_value(s),
    decreases s.len(),
{
    if k == s.len() {
        assert(s.subrange(0, k) =~= s);
    } else {
        let t = s.drop_last();
        assert(is_digit(s[s.len() - 1]));
        assert forall|i: int| 0 <= i < t.len() implies is_digit(#[trigger] t[i]) by {
            assert(t[i] == s[i]);
        }
        lemma_value_of_prefix(t, k);
        assert(t.subrange(0, k) =~= s.subrange(0, k));
    }
}

/// The digits of a number are digits, and reading them gives the number
/// back.
pub proof fn digits_read_back(n: nat)
    ensures
        digits_of(n).len() > 0,
        all_digits(digits_of(n)),
        decimal_value(digits_of(n)) == n,
    decreases n,
{
    if n < 10 {
        let s = digits_of(n);
        assert(s.drop_last() =~= Seq::<u8>::empty());
        assert(decimal_value(s.drop_last()) == 0);
    } else {
        digits_read_back(n / 10);
        let t = digits_of(n / 10);
        let s = digits_of(n);
        assert(s.drop_last() =~= t);
        assert(s.last() == (48 + n % 10) as u8);
    }
}

/// Reads a non-empty run of digits as a `u64`.
pub fn parse_digits(s: &[u8]) -> (r: Option<u64>)
    ensures
        r == digits_number(s@),
{
    let n: usize = s.len();
    if n == 0 {
        return None;
    }
    let mut acc: u64 = 0;
    let mut i: usize = 0;
    assert(s@.subrange(0, 0) =~= Seq::<u8>::empty());
    while i < n
        invariant
            n == s.len(),
            i <= n,
            all_digits(s@.subrange(0, i as int)),
            acc == decimal_value(s@.subrange(0, i as int)),
        decreases n - i,
    {
        let c: u8 = s[i];
        if c < 48 || c > 57 {
            assert(!is_digit(s@[i as int]));
            return None;
        }
        let v: u64 = (c - 48) as u64;
        proof {
            let next = s@.subrange(0, i as int + 1);
            assert(next.drop_last() =~= s@.subrange(0, i as int));
            assert(next.last() == c);
            assert(decimal_value(next) == 10 * acc + v);
            assert forall|j: int| 0 <= j < next.len() implies is_digit(#[trigger] next[j]) by {
                if j < i {
                    assert(next[j] == s@.subrange(0, i as int)[j]);
                }
            }
        }
        if acc > (u64::MAX - v) / 10 {
            proof {
                if all_digits(s@) {
                    lemma_value_of_prefix(s@, i as int + 1);
                }
            }
            return None;
        }
        acc = acc * 10 + v;
        i += 1;
    }
    assert(s@.subrange(0, n as int) =~= s@);
    Some(acc)
}

/// Reads an unsigned integer.
pub fn parse_usize(s: &[u8]) -> (r: Option<usize>)
    ensures
        r == number_of(s@),
{
    let start: usize = if s.len() > 0 && s[0] == 43u8 {
        1
    } else {
        0
    };
    let digits = slice_subrange(s, start, s.len());
    assert(digits@ =~= unsigned_part(s@));
    match parse_digits(digits) {
        Some(v) => if v <= usize::MAX as u64 {
            Some(v as usize)
        } else {
            None
        },
        None => None,
    }
}

/// Reads a decimal number.
pub fn parse_decimal(s: &[u8]) -> (r: Option<Decimal>)
    ensures
        r == decimal_of(s@),
{
    let start: usize = if s.len() > 0 && s[0] == 43u8 {
        1
    } else {
        0
    };
    let d = slice_subrange(s, start, s.len());
    assert(d@ =~= unsigned_part(s@));
    let n: usize = d.len();
    let p: usize = find_byte(d, 46u8);
    let mut digits: Vec<u8> = Vec::new();
    let mut i: usize = 0;
    while i < p
        invariant
            p <= n,
            n == d.len(),
            i <= p,
            digits@ == d@.subrange(0, i as int),
        decreases p - i,
    {
        digits.push(d[i]);
        assert(digits@ =~= d@.subrange(0, i as int + 1));
        i += 1;
    }
    let scale: usize = if p < n {
        n - p - 1
    } else {
        0
    };
    let mut j: usize = 0;
    assert(digits@ =~= whole_digits(d@) + fraction_digits(d@).subrange(0, 0));
    while j < scale
        invariant
            p <= n,
            n == d.len(),
            j <= scale,
            scale == fraction_digits(d@).len(),
            p == first_index(d@, 46u8),
            digits@ == whole_digits(d@) + fraction_digits(d@).subrange(0, j as int),
        decreases scale - j,
    {
        digits.push(d[p + 1 + j]);
        assert(digits@ =~= whole_digits(d@) + fraction_digits(d@).subrange(0, j as int + 1));
        j += 1;
    }
    assert(fraction_digits(d@).subrange(0, scale as int) =~= fraction_digits(d@));
    match parse_digits(digits.as_slice()) {
        Some(m) => Some(Decimal { mantissa: m, scale }),
        None => None,
    }
}

/// Appends the decimal digits of `n` to `out`.
pub fn push_digits(out: &mut Vec<u8>, n: usize)
    ensures
        final(out)@ == old(out)@ + digits_of(n as nat),
    decreases n,
{
    if n >= 10 {
        push_digits(out, n / 10);
    }
    let c: u8 = 48 + (n % 10) as u8;
    out.push(c);
    assert(final(out)@ =~= old(out)@ + digits_of(n as nat));
}

} // verus!
