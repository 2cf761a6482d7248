//! Parsing of unsigned integers from decimal or hexadecimal digit strings.
//!
//! The connection table encodes addresses in base 16 and inode numbers in
//! base 10; both are read through the same bounded parser.

use vstd::prelude::*;

verus! {

/// True when `c` is a digit of base `base` (hex accepts both letter cases).
pub open spec fn is_radix_digit(c: char, base: nat) -> bool {
    let u = c as u32;
    (48 <= u <= 57 && u - 48 < base) || (base == 16 && (65 <= u <= 70 || 97 <= u <= 102))
}

/// Numeric value of one digit character; zero on anything that is no digit,
/// so that the function is total.
pub open spec fn radix_digit_value(c: char) -> nat {
    let u = c as u32;
    if 48 <= u <= 57 {
        (u - 48) as nat
    } else if 65 <= u <= 70 {
        (u - 55) as nat
    } else if 97 <= u <= 102 {
        (u - 87) as nat
    } else {
        0
    }
}

/// Numeric value of a digit string, most significant digit first.
pub open spec fn radix_seq_value(s: Seq<char>, base: nat) -> nat
    decreases s.len(),
{
    if s.len() == 0 {
        0
    } else {
        radix_seq_value(s.drop_last(), base) * base + radix_digit_value(s.last())
    }
}

pub open spec fn is_radix_seq(s: Seq<char>, base: nat) -> bool {
    forall|i: int| 0 <= i < s.len() ==> is_radix_digit(s[i], base)
}

/// What parsing a bounded unsigned integer from `s` in base `base` yields:
/// a value exactly when `s` is a non-empty digit string whose value is at
/// most `max`.
pub open spec fn spec_parse_radix(s: Seq<char>, base: nat, max: nat) -> Option<nat> {
    if s.len() > 0 && is_radix_seq(s, base) && radix_seq_value(s, base) <= max {
        Some(radix_seq_value(s, base))
    } else {
        None
    }
}

/// A digit string is worth at least any of its prefixes.
proof fn lemma_radix_prefix_le(s: Seq<char>, base: nat, i: int)
    requires
        1 <= base,
        0 <= i <= s.len(),
    ensures
        radix_seq_value(s.subrange(0, i), base) <= radix_seq_value(s, base),
    decreases s.len() - i,
{
    if i == s.len() {
        assert(s.subrange(0, i) =~= s);
    } else {
        let p = s.subrange(0, i);
        let q = s.subrange(0, i + 1);
        assert(q.drop_last() =~= p);
        let v = radix_seq_value(p, base);
        assert(v * base >= v) by (nonlinear_arith)
            requires
                base >= 1,
                v >= 0,
        ;
        lemma_radix_prefix_le(s, base, i + 1);
    }
}

/// Parses `s` as an unsigned integer in base `base`, succeeding exactly when
/// the whole string is made of digits of that base and the value is at most
/// `max`.
pub fn parse_radix_u64(s: &str, base: u64, max: u64) -> (r: Option<u64>)
    requires
        base == 10 || base == 16,
    ensures
        match spec_parse_radix(s@, base as nat, max as nat) {
            Some(v) => r == Some(v as u64),
            None => r is None,
        },
{
    let n = s.unicode_len();
    if n == 0 {
        return None;
    }
    let mut acc: u128 = 0;
    let mut i: usize = 0;
    while i < n
        invariant
            n == s@.len(),
            0 < n,
            i <= n,
            base == 10 || base == 16,
            forall|j: int| 0 <= j < i ==> is_radix_digit(s@[j], base as nat),
            acc == radix_seq_value(s@.subrange(0, i as int), base as nat),
            acc <= max,
        decreases n - i,
    {
        let c = s.get_char(i);
        let u = c as u32;
        let d: u32 = if 48 <= u && u <= 57 && (u as u64) - 48 < base {
            u - 48
        } else if base == 16 && 65 <= u && u <= 70 {
            u - 55
        } else if base == 16 && 97 <= u && u <= 102 {
            u - 87
        } else {
            proof {
                assert(!is_radix_digit(s@[i as int], base as nat));
                assert(!is_radix_seq(s@, base as nat));
            }
            return None;
        };
        proof {
            assert(s@.subrange(0, i + 1).drop_last() =~= s@.subrange(0, i as int));
            assert(s@.subrange(0, i + 1).last() == s@[i as int]);
            assert(is_radix_digit(s@[i as int], base as nat));
            assert(radix_digit_value(s@[i as int]) == d as nat);
        }
        let shifted: u128 = if base == 16 {
            acc * 16
        } else {
            acc * 10
        };
        acc = shifted + (d as u128);
        if acc > max as u128 {
            proof {
                if is_radix_seq(s@, base as nat) {
                    lemma_radix_prefix_le(s@, base as nat, i + 1);
                }
            }
            return None;
        }
        i += 1;
    }
    proof {
        assert(s@.subrange(0, n as int) =~= s@);
        assert(is_radix_seq(s@, base as nat));
    }
    Some(acc as u64)
}

} // verus!
