//! Decimal rendering and parsing of the integers that appear on the wire:
//! frame lengths, the `:` integer frame, ports, offsets and expiry times.
use vstd::prelude::*;

verus! {

/// ASCII '0'.
pub const DIGIT_LO: u8 = 0x30;

/// ASCII '9'.
pub const DIGIT_HI: u8 = 0x39;

/// ASCII '+'.
pub const PLUS: u8 = 0x2b;

/// ASCII '-'.
pub const MINUS: u8 = 0x2d;

/// A byte is an ASCII decimal digit.
pub open spec fn is_digit(b: u8) -> bool {
    DIGIT_LO <= b <= DIGIT_HI
}

/// The numeric value of an ASCII decimal digit.
pub open spec fn digit_val(b: u8) -> int {
    b - DIGIT_LO
}

/// Every byte of the sequence is an ASCII decimal digit.
pub open spec fn all_digits(s: Seq<u8>) -> bool {
    forall|i: int| 0 <= i < s.len() ==> is_digit(#[trigger] s[i])
}

/// The number denoted by a sequence of ASCII digits, most significant first.
pub open spec fn digits_val(s: Seq<u8>) -> int
    decreases s.len(),
{
    if s.len() == 0 {
        0
    } else {
        digits_val(s.drop_last()) * 10 + digit_val(s.last())
    }
}

/// The canonical decimal rendering of a natural number: no sign, no
/// leading zeros (a single '0' for zero).
pub open spec fn dec_digits(n: nat) -> Seq<u8>
    decreases n,
{
    if n < 10 {
        seq![(DIGIT_LO + n) as u8]
    } else {
        dec_digits(n / 10).push((DIGIT_LO + n % 10) as u8)
    }
}

/// The decimal rendering of a signed number: a '-' before the magnitude
/// when negative.
pub open spec fn dec_sdigits(n: int) -> Seq<u8> {
    if n < 0 {
        seq![MINUS] + dec_digits((-n) as nat)
    } else {
        dec_digits(n as nat)
    }
}

/// What an unsigned decimal field denotes: an optional leading '+', then
/// at least one digit, with a value of at most `max`; anything else is
/// rejected.
pub open spec fn spec_parse_uint(s: Seq<u8>, max: int) -> Option<int> {
    let d = if s.len() >= 1 && s[0] == PLUS {
        s.drop_first()
    } else {
        s
    };
    if d.len() > 0 && all_digits(d) && digits_val(d) <= max {
        Some(digits_val(d))
    } else {
        None
    }
}

/// What a signed decimal field denotes: as `spec_parse_uint`, except that
/// a leading '-' negates the value, which must then be at least `min`.
pub open spec fn spec_parse_sint(s: Seq<u8>, min: int, max: int) -> Option<int> {
    if s.len() >= 1 && s[0] == MINUS {
        let d = s.drop_first();
        if d.len() > 0 && all_digits(d) && -digits_val(d) >= min {
            Some(-digits_val(d))
        } else {
            None
        }
    } else {
        spec_parse_uint(s, max)
    }
}

pub proof fn lemma_digits_val_nonneg(s: Seq<u8>)
    requires
        all_digits(s),
    ensures
        digits_val(s) >= 0,
    decreases s.len(),
{
    if s.len() > 0 {
        assert(all_digits(s.drop_last())) by {
            assert(forall|i: int|
                0 <= i < s.len() - 1 ==> s.drop_last()[i] == #[trigger] s[i]);
        }
        lemma_digits_val_nonneg(s.drop_last());
    }
}

/// Extending a digit string on the right can only grow its value.
pub proof fn lemma_digits_val_prefix_le(s: Seq<u8>, k: int)
    requires
        all_digits(s),
        0 <= k <= s.len(),
    ensures
        digits_val(s.subrange(0, k)) <= digits_val(s),
    decreases s.len() - k,
{
    if k < s.len() {
        let t = s.subrange(0, k + 1);
        assert(t.drop_last() =~= s.subrange(0, k));
        assert(all_digits(t));
        lemma_digits_val_nonneg(t.drop_last());
        assert(digits_val(t) == digits_val(s.subrange(0, k)) * 10 + digit_val(s[k]));
        assert(digits_val(s.subrange(0, k)) <= digits_val(t));
        lemma_digits_val_prefix_le(s, k + 1);
        assert(s.subrange(0, s.len() as int) =~= s);
    } else {
        assert(s.subrange(0, k) =~= s);
    }
}

/// The canonical rendering is made of digits, is non-empty, and denotes
/// the number it was made from.
pub proof fn lemma_dec_digits(n: nat)
    ensures
        all_digits(dec_digits(n)),
        dec_digits(n).len() >= 1,
        digits_val(dec_digits(n)) == n,
    decreases n,
{
    if n < 10 {
        let s = dec_digits(n);
        assert((DIGIT_LO + n) as u8 == DIGIT_LO + n);
        assert(s.drop_last() =~= Seq::<u8>::empty());
        assert(digits_val(Seq::<u8>::empty()) == 0);
        assert(digits_val(s) == digits_val(s.drop_last()) * 10 + digit_val(s.last()));
    } else {
        lemma_dec_digits(n / 10);
        let p = dec_digits(n / 10);
        let s = dec_digits(n);
        assert((DIGIT_LO + n % 10) as u8 == DIGIT_LO + n % 10);
        assert(s.drop_last() =~= p);
        assert(forall|i: int| 0 <= i < s.len() - 1 ==> s[i] == p[i]);
        assert(digits_val(s) == digits_val(p) * 10 + (n % 10));
        assert((n / 10) * 10 + n % 10 == n) by (nonlinear_arith);
    }
}

/// Reading back the canonical rendering of `n` yields `n`.
pub proof fn lemma_parse_uint_dec(n: nat, max: int)
    requires
        n <= max,
    ensures
        spec_parse_uint(dec_digits(n), max) == Some(n as int),
{
    lemma_dec_digits(n);
    let s = dec_digits(n);
    assert(is_digit(s[0]));
}

/// Reading back the signed rendering of `n` yields `n`.
pub proof fn lemma_parse_sint_dec(n: int, min: int, max: int)
    requires
        min <= n <= max,
        min < 0,
    ensures
        spec_parse_sint(dec_sdigits(n), min, max) == Some(n),
{
    if n < 0 {
        lemma_dec_digits((-n) as nat);
        let s = dec_sdigits(n);
        let d = dec_digits((-n) as nat);
        assert(s[0] == MINUS);
        assert(s.drop_first() =~= d);
        assert(!is_digit(MINUS));
    } else {
        lemma_dec_digits(n as nat);
        let s = dec_digits(n as nat);
        assert(is_digit(s[0]));
        lemma_parse_uint_dec(n as nat, max);
    }
}

/// Reads an unsigned decimal field from `s[start..end]`: an optional '+',
/// then digits, failing exactly when the field is malformed or its value
/// exceeds `u64::MAX`.
pub fn parse_u64_field(s: &[u8], start: usize, end: usize) -> (r: Option<u64>)
    requires
        start <= end <= s@.len(),
    ensures
        match r {
            Some(v) => spec_parse_uint(s@.subrange(start as int, end as int), u64::MAX as int)
                == Some(v as int),
            None => spec_parse_uint(s@.subrange(start as int, end as int), u64::MAX as int)
                is None,
        },
{
    let ghost whole = s@.subrange(start as int, end as int);
    let mut i = start;
    if i < end && s[i] == PLUS {
        i = i + 1;
    }
    let ghost dstart = i as int;
    let ghost digits = s@.subrange(dstart, end as int);
    proof {
        if whole.len() >= 1 && whole[0] == PLUS {
            assert(digits =~= whole.drop_first());
        } else {
            assert(digits =~= whole);
        }
    }
    if i == end {
        return None;
    }
    let mut acc: u64 = 0;
    while i < end
        invariant
            0 <= dstart <= i as int <= end <= s@.len(),
            dstart < end as int,
            whole == s@.subrange(start as int, end as int),
            digits == s@.subrange(dstart, end as int),
            digits == (if whole.len() >= 1 && whole[0] == PLUS {
                whole.drop_first()
            } else {
                whole
            }),
            all_digits(s@.subrange(dstart, i as int)),
            acc as int == digits_val(s@.subrange(dstart, i as int)),
        decreases end - i,
    {
        let b = s[i];
        if b < DIGIT_LO || b > DIGIT_HI {
            proof {
                assert(digits[i - dstart] == b);
                assert(!all_digits(digits));
            }
            return None;
        }
        let d = (b - DIGIT_LO) as u64;
        let ghost sofar = s@.subrange(dstart, i as int);
        let ghost withb = s@.subrange(dstart, i + 1 as int);
        proof {
            assert(withb.drop_last() =~= sofar);
            assert(withb.last() == b);
            assert(all_digits(withb));
        }
        if acc > (u64::MAX - d) / 10 {
            proof {
                assert(acc as int * 10 + d as int > u64::MAX as int) by (nonlinear_arith)
                    requires
                        acc as int > (u64::MAX as int - d as int) / 10,
                        0 <= d as int <= 9,
                ;
                assert(digits_val(withb) > u64::MAX as int);
                if all_digits(digits) {
                    assert(withb =~= digits.subrange(0, i + 1 - dstart));
                    lemma_digits_val_prefix_le(digits, i + 1 - dstart);
                }
            }
            return None;
        }
        proof {
            assert(acc as int <= (u64::MAX as int - d as int) / 10);
            assert(acc as int * 10 + d as int <= u64::MAX as int) by (nonlinear_arith)
                requires
                    acc as int <= (u64::MAX as int - d as int) / 10,
                    0 <= d as int <= 9,
            ;
        }
        acc = acc * 10 + d;
        i = i + 1;
    }
    proof {
        assert(s@.subrange(dstart, i as int) =~= digits);
    }
    Some(acc)
}

/// Reads a signed decimal field from `s[start..end]`, failing exactly when
/// the field is malformed or the value does not fit in an `i64`.
pub fn parse_i64_field(s: &[u8], start: usize, end: usize) -> (r: Option<i64>)
    requires
        start <= end <= s@.len(),
    ensures
        match r {
            Some(v) => spec_parse_sint(
                s@.subrange(start as int, end as int),
                i64::MIN as int,
                i64::MAX as int,
            ) == Some(v as int),
            None => spec_parse_sint(
                s@.subrange(start as int, end as int),
                i64::MIN as int,
                i64::MAX as int,
            ) is None,
        },
{
    let ghost whole = s@.subrange(start as int, end as int);
    if start < end && s[start] == MINUS {
        if start + 1 < end && s[start + 1] == PLUS {
            // A sign may not follow a sign.
            proof {
                assert(whole.drop_first()[0] == PLUS);
                assert(!is_digit(PLUS));
            }
            return None;
        }
        let mag = parse_u64_field(s, start + 1, end);
        proof {
            assert(whole.drop_first() =~= s@.subrange(start + 1 as int, end as int));
            if whole.drop_first().len() > 0 && all_digits(whole.drop_first()) {
                lemma_digits_val_nonneg(whole.drop_first());
            }
        }
        match mag {
            Some(m) => {
                if m <= i64::MAX as u64 {
                    Some(-(m as i64))
                } else if m == (i64::MAX as u64) + 1 {
                    Some(i64::MIN)
                } else {
                    None
                }
            },
            None => None,
        }
    } else {
        let v = parse_u64_field(s, start, end);
        match v {
            Some(m) => {
                if m <= i64::MAX as u64 {
                    Some(m as i64)
                } else {
                    None
                }
            },
            None => None,
        }
    }
}

/// Renders `n` as canonical decimal digits.
pub fn u64_to_digits(n: u64) -> (r: Vec<u8>)
    ensures
        r@ == dec_digits(n as nat),
    decreases n,
{
    if n < 10 {
        let mut v: Vec<u8> = Vec::new();
        v.push(DIGIT_LO + n as u8);
        v
    } else {
        let mut v = u64_to_digits(n / 10);
        v.push(DIGIT_LO + (n % 10) as u8);
        v
    }
}

/// Renders `n` as decimal digits with a leading '-' when negative.
pub fn i64_to_digits(n: i64) -> (r: Vec<u8>)
    ensures
        r@ == dec_sdigits(n as int),
{
    if n >= 0 {
        u64_to_digits(n as u64)
    } else {
        let mag = (-(n as i128)) as u64;
        let mut v: Vec<u8> = Vec::new();
        v.push(MINUS);
        let mut ds = u64_to_digits(mag);
        v.append(&mut ds);
        proof {
            assert(v@ =~= seq![MINUS] + dec_digits(mag as nat));
        }
        v
    }
}

} // verus!
