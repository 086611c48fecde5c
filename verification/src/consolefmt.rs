//! Number formatting for console output: decimal and hexadecimal text.

use vstd::prelude::*;

verus! {

/// The ASCII decimal digits of `v`, most significant first.
pub open spec fn spec_decimal(v: int) -> Seq<u8>
    recommends
        v >= 0,
    decreases v,
{
    if v < 10 {
        seq![(0x30 + v) as u8]
    } else {
        spec_decimal(v / 10).push((0x30 + v % 10) as u8)
    }
}

/// The ASCII digit for one hex nibble, lower case.
pub open spec fn spec_hex_digit(n: int) -> u8
    recommends
        0 <= n < 16,
{
    if n < 10 {
        (0x30 + n) as u8
    } else {
        (0x61 + (n - 10)) as u8
    }
}

/// `value` as ASCII decimal text.
pub fn format_u64(value: u64) -> (r: Vec<u8>)
    ensures
        r@ == spec_decimal(value as int),
{
    if value == 0 {
        let mut out: Vec<u8> = Vec::new();
        out.push(0x30);
        proof {
            assert(out@ =~= spec_decimal(0));
        }
        return out;
    }
    let mut digits: Vec<u8> = Vec::new();
    let mut v: u64 = value;
    while v > 0
        invariant
            v > 0 ==> spec_decimal(value as int) == spec_decimal(v as int) + digits@.reverse(),
            v == 0 ==> spec_decimal(value as int) == digits@.reverse(),
            value > 0,
        decreases v,
    {
        let d: u8 = (v % 10) as u8;
        let ghost before = digits@;
        digits.push(0x30 + d);
        proof {
            if v >= 10 {
                assert(spec_decimal(v as int) == spec_decimal(v as int / 10).push(
                    (0x30 + v as int % 10) as u8,
                ));
            }
            assert(digits@.reverse() =~= seq![(0x30 + v as int % 10) as u8] + before.reverse());
            if v >= 10 {
                assert(spec_decimal(v as int) + before.reverse() =~= spec_decimal(v as int / 10)
                    + digits@.reverse());
            } else {
                assert(spec_decimal(v as int) + before.reverse() =~= digits@.reverse());
            }
        }
        v = v / 10;
    }
    let mut out: Vec<u8> = Vec::new();
    let mut k: usize = digits.len();
    while k > 0
        invariant
            k <= digits@.len(),
            out@ =~= digits@.reverse().take(digits@.len() - k),
        decreases k,
    {
        k = k - 1;
        let ghost before = out@;
        out.push(digits[k]);
        proof {
            assert(digits@.reverse()[digits@.len() - k - 1] == digits@[k as int]);
            assert(out@ =~= digits@.reverse().take(digits@.len() - k));
        }
    }
    proof {
        assert(out@ =~= digits@.reverse());
    }
    out
}

/// `value` as `0x` plus sixteen lower-case hex digits.
pub fn format_hex_u64(value: u64) -> (r: Vec<u8>)
    ensures
        r@.len() == 18,
        r@[0] == 0x30u8,
        r@[1] == 0x78u8,
        forall|k: int|
            0 <= k < 16 ==> #[trigger] r@[2 + k] == spec_hex_digit(
                (value >> ((15 - k) * 4)) as int % 16,
            ),
{
    let mut out: Vec<u8> = Vec::new();
    out.push(0x30);
    out.push(0x78);
    let mut i: usize = 0;
    while i < 16
        invariant
            i <= 16,
            out@.len() == 2 + i,
            out@[0] == 0x30u8,
            out@[1] == 0x78u8,
            forall|k: int|
                0 <= k < i ==> #[trigger] out@[2 + k] == spec_hex_digit(
                    (value >> ((15 - k) * 4)) as int % 16,
                ),
        decreases 16 - i,
    {
        let shift: u64 = ((15 - i) * 4) as u64;
        let nibble: u64 = (value >> shift) % 16;
        let digit: u8 = if nibble < 10 {
            0x30 + (nibble as u8)
        } else {
            0x61 + ((nibble - 10) as u8)
        };
        out.push(digit);
        i = i + 1;
    }
    out
}

} // verus!
