//! What decimal mode computes.

use vstd::prelude::*;

verus! {

use crate::bits::{
    bit_at, bool_int, flag_set, flag_switch_is_local, signed, with_flag, wrap8, FLAG_C, FLAG_D,
    FLAG_N, FLAG_V, FLAG_Z,
};
use crate::cpu::{adc, corrected_digit, flagged, sbc, Cpu};

/// Two valid decimal digits.
pub open spec fn is_bcd(v: u8) -> bool {
    v / 16 <= 9 && v % 16 <= 9
}

/// The number two decimal digits spell.
pub open spec fn bcd_value(v: u8) -> int {
    v / 16 * 10 + v % 16
}

/// A corrected digit sum keeps its last digit, and passes fifteen exactly when it
/// carries.
proof fn corrected_digit_carries(n: int)
    requires
        0 <= n <= 19,
    ensures
        (corrected_digit(n) > 15) == (n > 9),
        corrected_digit(n) % 16 == if n > 9 {
            n - 10
        } else {
            n
        },
{
}

/// Decimal mode adds decimal numbers: digits and carry out spell the sum.
pub proof fn decimal_add_adds(c: Cpu, m: u8)
    requires
        flag_set(c.p, FLAG_D),
        is_bcd(c.a),
        is_bcd(m),
    ensures
        is_bcd(adc(c, m).a),
        bcd_value(adc(c, m).a) + 100 * bool_int(flag_set(adc(c, m).p, FLAG_C)) == bcd_value(c.a)
            + bcd_value(m) + bool_int(flag_set(c.p, FLAG_C)),
{
    reveal(adc);
    let carry = bool_int(flag_set(c.p, FLAG_C));
    let lo0 = c.a % 16 + m % 16 + carry;
    let lo = corrected_digit(lo0);
    let hi = c.a / 16 + m / 16 + bool_int(lo > 15);
    let top = corrected_digit(hi);
    let sign = bit_at(hi, 8);
    let c1 = flagged(c, FLAG_Z, (c.a + m + carry) % 0x100 == 0);
    let c2 = flagged(c1, FLAG_N, sign);
    let c3 = flagged(c2, FLAG_V, (c.a >= 0x80) == (m >= 0x80) && (c.a >= 0x80) != sign);
    flag_switch_is_local(c3.p, FLAG_C, FLAG_C, top > 15);
    corrected_digit_carries(lo0);
    corrected_digit_carries(hi);
    let tens = top % 16;
    let ones = lo % 16;
    let r = (tens * 16 + ones) as u8;
    assert(r / 16 == tens && r % 16 == ones);
    assert(adc(c, m).a == r);
    assert(flag_set(adc(c, m).p, FLAG_C) == (top > 15));
}

/// Decimal mode subtracts decimal numbers: digits and borrow spell the difference.
pub proof fn decimal_subtract_subtracts(c: Cpu, m: u8)
    requires
        flag_set(c.p, FLAG_D),
        is_bcd(c.a),
        is_bcd(m),
    ensures
        is_bcd(sbc(c, m).a),
        bcd_value(sbc(c, m).a) - 100 * (1 - bool_int(flag_set(sbc(c, m).p, FLAG_C))) == bcd_value(
            c.a,
        ) - bcd_value(m) - (1 - bool_int(flag_set(c.p, FLAG_C))),
{
    reveal(sbc);
    let borrow: int = 1 - bool_int(flag_set(c.p, FLAG_C));
    let diff: int = c.a - m - borrow;
    let total: int = signed(c.a) - signed(m) - borrow;
    let c1 = flagged(c, FLAG_C, diff >= 0);
    let over = total < -128 || total > 127;
    let c2 = flagged(c1, FLAG_V, over);
    flag_switch_is_local(c.p, FLAG_C, FLAG_C, diff >= 0);
    flag_switch_is_local(c.p, FLAG_C, FLAG_D, diff >= 0);
    flag_switch_is_local(c1.p, FLAG_V, FLAG_C, over);
    flag_switch_is_local(c1.p, FLAG_V, FLAG_D, over);
    let c3 = Cpu { a: sbc(c, m).a, ..c2 };
    let v = wrap8(diff);
    flag_switch_is_local(c3.p, FLAG_Z, FLAG_C, v == 0);
    flag_switch_is_local(with_flag(c3.p, FLAG_Z, v == 0), FLAG_N, FLAG_C, v >= 0x80);
    let lo0: int = c.a as int % 16 - m as int % 16 - borrow;
    let lo: int = if lo0 < 0 {
        lo0 - 6
    } else {
        lo0
    };
    let hi0: int = c.a as int / 16 - m as int / 16 - bool_int(lo0 < 0);
    let hi: int = if hi0 < 0 {
        hi0 - 6
    } else {
        hi0
    };
    let r = ((hi % 16) * 16 + lo % 16) as u8;
    assert(r / 16 == hi % 16 && r % 16 == lo % 16);
    assert(lo % 16 == if lo0 < 0 {
        lo0 + 10
    } else {
        lo0
    });
    assert(hi % 16 == if hi0 < 0 {
        hi0 + 10
    } else {
        hi0
    });
}

} // verus!
