//! Modular arithmetic and status-flag algebra shared by the emulator.

use vstd::prelude::*;

verus! {

/// `x` reduced to eight bits.
pub open spec fn wrap8(x: int) -> u8 {
    (x % 0x100) as u8
}

/// `x` reduced to sixteen bits.
pub open spec fn wrap16(x: int) -> u16 {
    (x % 0x1_0000) as u16
}

/// The little-endian word made of two bytes.
pub open spec fn word(lo: u8, hi: u8) -> u16 {
    (hi * 0x100 + lo) as u16
}

/// The low byte of a word.
pub open spec fn low_byte(w: u16) -> u8 {
    (w % 0x100) as u8
}

/// The high byte of a word.
pub open spec fn high_byte(w: u16) -> u8 {
    (w / 0x100) as u8
}

/// The two's complement reading of a byte.
pub open spec fn signed(v: u8) -> int {
    if v >= 0x80 {
        v - 0x100
    } else {
        v as int
    }
}

/// Bit `n` of a byte, for `n` given as its weight (1, 2, 4, ...).
pub open spec fn bit_at(v: int, weight: int) -> bool {
    (v / weight) % 2 == 1
}

pub open spec fn bool_int(b: bool) -> int {
    if b {
        1
    } else {
        0
    }
}

/// Status flag bit masks (NV-BDIZC).
pub const FLAG_C: u8 = 0x01;

pub const FLAG_Z: u8 = 0x02;

pub const FLAG_I: u8 = 0x04;

pub const FLAG_D: u8 = 0x08;

pub const FLAG_B: u8 = 0x10;

/// The unused bit, which reads as 1.
pub const FLAG_U: u8 = 0x20;

pub const FLAG_V: u8 = 0x40;

pub const FLAG_N: u8 = 0x80;

/// Whether the flag `m` is set in the status byte `p`.
pub open spec fn flag_set(p: u8, m: u8) -> bool {
    p & m != 0
}

/// The status byte `p` with the flag `m` switched to `on`.
pub open spec fn with_flag(p: u8, m: u8, on: bool) -> u8 {
    if on {
        p | m
    } else {
        p & !m
    }
}

/// The status byte with Z and N describing `v`.
pub open spec fn with_zn(p: u8, v: u8) -> u8 {
    with_flag(with_flag(p, FLAG_Z, v == 0), FLAG_N, v >= 0x80)
}

/// The status byte as PLP and RTI install it: B cleared, the unused bit set.
pub open spec fn pulled_status(v: u8) -> u8 {
    (v & !FLAG_B) | FLAG_U
}

/// The status byte as PHP and BRK push it: B and the unused bit set.
pub open spec fn pushed_status(p: u8) -> u8 {
    p | FLAG_B | FLAG_U
}

/// The eight single-bit masks.
pub open spec fn is_flag(m: u8) -> bool {
    m == 0x01 || m == 0x02 || m == 0x04 || m == 0x08 || m == 0x10 || m == 0x20 || m == 0x40 || m
        == 0x80
}

/// Switching a flag makes it read back as switched and leaves every other flag
/// alone.
pub proof fn flag_switch_is_local(p: u8, m: u8, k: u8, on: bool)
    requires
        is_flag(m),
        is_flag(k),
    ensures
        flag_set(with_flag(p, m, on), m) == on,
        k != m ==> flag_set(with_flag(p, m, on), k) == flag_set(p, k),
{
    assert((p | m) & m != 0) by (bit_vector)
        requires
            m == 0x01 || m == 0x02 || m == 0x04 || m == 0x08 || m == 0x10 || m == 0x20 || m == 0x40
                || m == 0x80,
    ;
    assert((p & !m) & m == 0) by (bit_vector);
    if k != m {
        assert(((p | m) & k != 0) == (p & k != 0) && ((p & !m) & k != 0) == (p & k != 0))
            by (bit_vector)
            requires
                m == 0x01 || m == 0x02 || m == 0x04 || m == 0x08 || m == 0x10 || m == 0x20 || m
                    == 0x40 || m == 0x80,
                k == 0x01 || k == 0x02 || k == 0x04 || k == 0x08 || k == 0x10 || k == 0x20 || k
                    == 0x40 || k == 0x80,
                k != m,
        ;
    }
}

/// A status byte pulled from the stack has B clear and the unused bit set, and
/// keeps the other flags of the byte that was pulled.
pub proof fn pulled_status_flags(v: u8, k: u8)
    requires
        is_flag(k),
    ensures
        !flag_set(pulled_status(v), FLAG_B),
        flag_set(pulled_status(v), FLAG_U),
        k != FLAG_B && k != FLAG_U ==> flag_set(pulled_status(v), k) == flag_set(v, k),
        pulled_status(pushed_status(v)) == pulled_status(v),
{
    assert((v & !0x10u8 | 0x20) & 0x10 == 0 && (v & !0x10u8 | 0x20) & 0x20 != 0) by (bit_vector);
    assert(((v | 0x10u8 | 0x20) & !0x10u8) | 0x20 == (v & !0x10u8) | 0x20) by (bit_vector);
    if k != FLAG_B && k != FLAG_U {
        assert(((v & !0x10u8 | 0x20) & k != 0) == (v & k != 0)) by (bit_vector)
            requires
                k == 0x01 || k == 0x02 || k == 0x04 || k == 0x08 || k == 0x40 || k == 0x80,
        ;
    }
}

} // verus!
