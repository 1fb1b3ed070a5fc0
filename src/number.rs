//! Numbers written in instruction and object-file text: decimal, or
//! hexadecimal after `0x`.
use vstd::prelude::*;
use vstd::string::StringSliceAdditionalSpecFns;
use crate::error::EmuError;

verus! {

/// The value of digit `c` in base `radix` (10 or 16).
pub open spec fn digit_of(c: u8, radix: nat) -> Option<nat> {
    if ('0' as u8) <= c <= ('9' as u8) {
        Some((c - ('0' as u8)) as nat)
    } else if radix == 16 && ('a' as u8) <= c <= ('f' as u8) {
        Some((c - ('a' as u8) + 10) as nat)
    } else if radix == 16 && ('A' as u8) <= c <= ('F' as u8) {
        Some((c - ('A' as u8) + 10) as nat)
    } else {
        None
    }
}

/// The value of a string of digits in base `radix`; the empty string is zero.
pub open spec fn digits_value(s: Seq<u8>, radix: nat) -> Option<nat>
    decreases s.len(),
{
    if s.len() == 0 {
        Some(0)
    } else {
        match (digits_value(s.drop_last(), radix), digit_of(s.last(), radix)) {
            (Some(v), Some(d)) => Some(v * radix + d),
            _ => None,
        }
    }
}

/// The value of a number: decimal digits, or `0x` followed by hexadecimal
/// digits; the empty text stands for zero.
pub open spec fn number_value(s: Seq<u8>) -> Option<nat> {
    if s.len() == 0 {
        Some(0)
    } else if s.len() >= 2 && s[0] == ('0' as u8) && s[1] == ('x' as u8) {
        if s.len() == 2 {
            None
        } else {
            digits_value(s.subrange(2, s.len() as int), 16)
        }
    } else {
        digits_value(s, 10)
    }
}

/// A number that fits in 64 bits.
pub open spec fn number_u64(s: Seq<u8>) -> Option<u64> {
    match number_value(s) {
        Some(v) => if v <= u64::MAX {
            Some(v as u64)
        } else {
            None
        },
        None => None,
    }
}

/// A number with an optional leading `-` that fits in a signed 64-bit integer.
pub open spec fn signed_number_i64(s: Seq<u8>) -> Option<i64> {
    if s.len() > 0 && s[0] == ('-' as u8) {
        match number_value(s.drop_first()) {
            Some(v) => if v <= 0x8000_0000_0000_0000 {
                Some((-v) as i64)
            } else {
                None
            },
            None => None,
        }
    } else {
        match number_value(s) {
            Some(v) => if v <= i64::MAX {
                Some(v as i64)
            } else {
                None
            },
            None => None,
        }
    }
}

/// A longer string of digits is worth at least as much as its prefix.
pub proof fn lemma_digits_grow(s: Seq<u8>, radix: nat, k: int)
    requires
        0 <= k <= s.len(),
        radix >= 1,
    ensures
        digits_value(s, radix) matches Some(w) ==> digits_value(s.subrange(0, k), radix) matches Some(
            v,
        ) && v <= w,
    decreases s.len() - k,
{
    if k < s.len() {
        lemma_digits_grow(s, radix, k + 1);
        let p = s.subrange(0, k + 1);
        assert(p.drop_last() =~= s.subrange(0, k));
        if let Some(w) = digits_value(s, radix) {
            let v1 = digits_value(p, radix)->0;
            let v0 = digits_value(s.subrange(0, k), radix)->0;
            assert(v1 == v0 * radix + digit_of(p.last(), radix)->0);
            assert(v0 <= v0 * radix) by (nonlinear_arith)
                requires
                    radix >= 1,
            ;
        }
    } else {
        assert(s.subrange(0, k) =~= s);
    }
}

fn digit_exec(c: u8, radix: u64) -> (r: Option<u64>)
    requires
        radix == 10 || radix == 16,
    ensures
        match digit_of(c, radix as nat) {
            Some(d) => r == Some(d as u64) && d < radix,
            None => r is None,
        },
{
    if ('0' as u8) <= c && c <= ('9' as u8) {
        Some((c - ('0' as u8)) as u64)
    } else if radix == 16 && ('a' as u8) <= c && c <= ('f' as u8) {
        Some((c - ('a' as u8) + 10) as u64)
    } else if radix == 16 && ('A' as u8) <= c && c <= ('F' as u8) {
        Some((c - ('A' as u8) + 10) as u64)
    } else {
        None
    }
}

/// The value of the digits `s[start..]` in base `radix`, when it fits in 64 bits.
pub(crate) fn parse_digits(s: &[u8], start: usize, radix: u64) -> (r: Option<u64>)
    requires
        start <= s@.len(),
        radix == 10 || radix == 16,
    ensures
        r == (match digits_value(s@.subrange(start as int, s@.len() as int), radix as nat) {
            Some(v) => if v <= u64::MAX {
                Some(v as u64)
            } else {
                None
            },
            None => None,
        }),
{
    let ghost t = s@.subrange(start as int, s@.len() as int);
    let mut acc: u64 = 0;
    let mut i: usize = start;
    while i < s.len()
        invariant
            start <= i <= s@.len(),
            t == s@.subrange(start as int, s@.len() as int),
            radix == 10 || radix == 16,
            digits_value(t.subrange(0, i - start), radix as nat) == Some(acc as nat),
        decreases s@.len() - i,
    {
        let ghost p = t.subrange(0, i - start + 1);
        assert(p.drop_last() =~= t.subrange(0, i - start));
        assert(p.last() == s@[i as int]);
        let d = match digit_exec(s[i], radix) {
            Some(d) => d,
            None => {
                proof {
                    lemma_digits_grow(t, radix as nat, i - start + 1);
                }
                return None;
            },
        };
        if acc > (u64::MAX - d) / radix {
            proof {
                lemma_digits_grow(t, radix as nat, i - start + 1);
                assert(acc * radix + d > u64::MAX) by (nonlinear_arith)
                    requires
                        acc as int > (0xffff_ffff_ffff_ffffint - d as int) / (radix as int),
                        radix > 0,
                        d < radix,
                ;
            }
            return None;
        }
        proof {
            assert(acc * radix + d <= u64::MAX) by (nonlinear_arith)
                requires
                    acc as int <= (0xffff_ffff_ffff_ffffint - d as int) / (radix as int),
                    radix > 0,
                    d <= u64::MAX,
            ;
        }
        acc = acc * radix + d;
        i = i + 1;
    }
    assert(t.subrange(0, i - start) =~= t);
    Some(acc)
}

/// The number written in `s` (see `number_value`), when it fits in 64 bits.
pub fn parse_number(s: &[u8]) -> (r: Option<u64>)
    ensures
        r == number_u64(s@),
{
    if s.len() == 0 {
        Some(0)
    } else if s.len() >= 2 && s[0] == ('0' as u8) && s[1] == ('x' as u8) {
        if s.len() == 2 {
            None
        } else {
            parse_digits(s, 2, 16)
        }
    } else {
        let r = parse_digits(s, 0, 10);
        assert(s@.subrange(0, s@.len() as int) =~= s@);
        r
    }
}

/// A number that fits in 64 bits, possibly written as an immediate with a
/// leading `$`.
pub open spec fn immediate_u64(s: Seq<u8>) -> Option<u64> {
    if s.len() > 0 && s[0] == ('$' as u8) {
        number_u64(s.drop_first())
    } else {
        number_u64(s)
    }
}

/// Reads a decimal or `0x`-prefixed hexadecimal number, after one leading
/// `$` if there is one (`$0x10` is 16); the empty text is zero.
pub fn hex_str2u(str: &str) -> (r: Result<u64, EmuError>)
    ensures
        match immediate_u64(str.spec_bytes()) {
            Some(v) => r == Ok::<u64, EmuError>(v),
            None => r == Err::<u64, EmuError>(EmuError::MalformedOperand),
        },
{
    let s = str.as_bytes();
    let digits = if s.len() > 0 && s[0] == ('$' as u8) {
        let rest = vstd::slice::slice_subrange(s, 1, s.len());
        assert(rest@ =~= s@.drop_first());
        rest
    } else {
        s
    };
    match parse_number(digits) {
        Some(v) => Ok(v),
        None => Err(EmuError::MalformedOperand),
    }
}

/// Reads a decimal or `0x`-prefixed hexadecimal number with an optional
/// leading `-`.
pub fn hex_str2i(str: &str) -> (r: Result<i64, EmuError>)
    ensures
        match signed_number_i64(str.spec_bytes()) {
            Some(v) => r == Ok::<i64, EmuError>(v),
            None => r == Err::<i64, EmuError>(EmuError::MalformedOperand),
        },
{
    let s = str.as_bytes();
    if s.len() > 0 && s[0] == ('-' as u8) {
        let rest = vstd::slice::slice_subrange(s, 1, s.len());
        assert(rest@ =~= s@.drop_first());
        match parse_number(rest) {
            Some(v) => if v <= 0x8000_0000_0000_0000 {
                if v == 0x8000_0000_0000_0000 {
                    Ok(i64::MIN)
                } else {
                    Ok(-(v as i64))
                }
            } else {
                Err(EmuError::MalformedOperand)
            },
            None => Err(EmuError::MalformedOperand),
        }
    } else {
        match parse_number(s) {
            Some(v) => if v <= i64::MAX as u64 {
                Ok(v as i64)
            } else {
                Err(EmuError::MalformedOperand)
            },
            None => Err(EmuError::MalformedOperand),
        }
    }
}

} // verus!
