//! What the banked memory shows and takes, in terms of the number in the processor
//! port and the bytes of the single areas.

use vstd::prelude::*;

verus! {

use crate::c64::{
    array_of_holds, bad_range_text, booted_ram, filled, loaded_mem, loaded_ram, power_on_mem,
    power_on_ram, prg_error, prg_image, stub_rom, C64Mem,
};
use crate::cpu::Bus;
use crate::fmt::{dec, hex_word, radix_text};

/// The memory configuration: the low three bits of the byte at $0001.
pub open spec fn configuration(m: C64Mem) -> int {
    m.ram@[1] as int % 8
}

/// The PLA table, read with `peek`. Configurations 0 and 4 show RAM everywhere.
/// BASIC shows in 3 and 7, the KERNAL in 2, 3, 6 and 7, the character set in 1, 2
/// and 3, and the I/O area in 5, 6 and 7.
#[verifier::rlimit(40)]
pub proof fn table_of_configurations(m: C64Mem, a: u16)
    ensures
        ({
            let k = configuration(m);
            let i: int = a as int;
            &&& k == 0 || k == 4 ==> m.visible(a) == m.ram@[i]
            &&& i < 0xA000 || 0xC000 <= i < 0xD000 ==> m.visible(a) == m.ram@[i]
            &&& 0xA000 <= i < 0xC000 && (k == 3 || k == 7) ==> m.visible(a) == m.basic@[i - 0xA000]
            &&& 0xA000 <= i < 0xC000 && k != 3 && k != 7 ==> m.visible(a) == m.ram@[i]
            &&& 0xD000 <= i < 0xE000 && 1 <= k <= 3 ==> m.visible(a) == m.chargen@[i - 0xD000]
            &&& 0xD000 <= i < 0xE000 && 5 <= k <= 7 ==> m.visible(a) == m.io@[i - 0xD000]
            &&& 0xE000 <= i && (k == 2 || k == 3 || k == 6 || k == 7) ==> m.visible(a)
                == m.kernal@[i - 0xE000]
            &&& 0xE000 <= i && (k == 1 || k == 5) ==> m.visible(a) == m.ram@[i]
        }),
{
}

/// A CPU read sees what the table shows and changes nothing, everywhere but at the
/// raster line ($D012) while the I/O area shows there.
pub proof fn reads_follow_the_table(m: C64Mem, a: u16)
    requires
        a != 0xD012 || configuration(m) < 5,
    ensures
        m.value_at(a) == m.visible(a),
        m.after_read(a) == m,
{
}

/// While the I/O area shows, a CPU read of the raster line gives the register's byte
/// plus one, leaves that byte in the register, and touches no other register, no RAM
/// and no ROM.
pub proof fn raster_read_touches_the_raster(m: C64Mem)
    requires
        configuration(m) >= 5,
    ensures
        m.value_at(0xD012) as int == (m.io@[0x12] + 1) % 0x100,
        m.after_read(0xD012).io@ == m.io@.update(0x12, m.value_at(0xD012)),
        m.after_read(0xD012).ram == m.ram,
        m.after_read(0xD012).basic == m.basic,
        m.after_read(0xD012).kernal == m.kernal,
        m.after_read(0xD012).chargen == m.chargen,
{
}

/// With RAM banked in everywhere, every address but the port itself gives back what
/// was written to it, to the CPU as to `peek`, $D000-$DFFF included.
pub proof fn plain_ram_gives_back(m: C64Mem, a: u16, v: u8)
    requires
        configuration(m) == 0 || configuration(m) == 4,
        a != 1,
    ensures
        m.after_write(a, v).value_at(a) == v,
        m.after_write(a, v).visible(a) == v,
        configuration(m.after_write(a, v)) == configuration(m),
{
}

/// A write changes what is seen at its own address at most, unless it goes to the
/// processor port.
pub proof fn writes_are_local(m: C64Mem, a: u16, v: u8, other: u16)
    requires
        a != 1,
        other != a,
    ensures
        m.after_write(a, v).visible(other) == m.visible(other),
        m.after_write(a, v).value_at(other) == m.value_at(other),
{
}

/// A write to an address that shows ROM is not seen there, but it has reached the
/// RAM underneath: it shows as soon as the port banks RAM in.
pub proof fn writes_go_under_the_rom(m: C64Mem, a: u16, v: u8)
    requires
        ({
            let k = configuration(m);
            ||| 0xA000 <= a < 0xC000 && (k == 3 || k == 7)
            ||| 0xD000 <= a < 0xE000 && 1 <= k <= 3
            ||| 0xE000 <= a && (k == 2 || k == 3 || k == 6 || k == 7)
        }),
    ensures
        m.after_write(a, v).visible(a) == m.visible(a),
        m.after_write(a, v).after_write(1, 0x34).visible(a) == v,
{
}

/// A write to $D000-$DFFF while the I/O area shows goes to the register and leaves
/// the RAM underneath alone.
pub proof fn io_writes_spare_the_ram(m: C64Mem, a: u16, v: u8)
    requires
        configuration(m) >= 5,
        0xD000 <= a < 0xE000,
    ensures
        m.after_write(a, v).visible(a) == v,
        m.after_write(a, v).ram == m.ram,
        m.after_write(a, v).after_write(1, 0x34).visible(a) == m.ram@[a as int],
{
}

/// The port takes every write, and reads back as written.
pub proof fn port_reads_back(m: C64Mem, v: u8)
    ensures
        m.after_write(1, v).value_at(1) == v,
        configuration(m.after_write(1, v)) == v as int % 8,
        m.after_write(1, v).ram@ == m.ram@.update(1, v),
{
}

/// At power-on the port holds $37, every other byte of RAM, I/O and ROM is zero, and
/// BASIC, the I/O area and the KERNAL are banked in.
pub proof fn power_on_state(a: int)
    ensures
        power_on_mem().ram@.len() == 0x10000,
        power_on_mem().ram@[1] == 0x37,
        configuration(power_on_mem()) == 7,
        0 <= a < 0x10000 && a != 1 ==> power_on_mem().ram@[a] == 0,
        0 <= a < 0x2000 ==> power_on_mem().basic@[a] == 0,
        0 <= a < 0x2000 ==> power_on_mem().kernal@[a] == 0,
        0 <= a < 0x1000 ==> power_on_mem().chargen@[a] == 0,
        0 <= a < 0x1000 ==> power_on_mem().io@[a] == 0,
{
    array_of_holds::<0x10000>(power_on_ram());
    array_of_holds::<0x2000>(filled(0x2000, 0));
    array_of_holds::<0x1000>(filled(0x1000, 0));
}

/// The addresses that booting sets.
pub open spec fn set_by_boot(a: int) -> bool {
    ||| a == 0x16
    ||| 0x2B <= a <= 0x2C
    ||| 0x33 <= a <= 0x34
    ||| 0x37 <= a <= 0x38
    ||| a == 0xC8
    ||| 0xD1 <= a <= 0xD2
    ||| a == 0xD5
    ||| a == 0x0288
    ||| 0x0300 <= a <= 0x030B
    ||| 0x0314 <= a <= 0x0333
}

/// Booting sets TXTTAB to $0801, FRETOP and MEMSIZ to $A000, TEMPPT to $19, the
/// screen page, line pointer and line length, and the RAM vectors, and leaves every
/// other byte alone.
#[verifier::rlimit(40)]
pub proof fn boot_sets_the_environment(ram: Seq<u8>, a: int)
    requires
        ram.len() == 0x10000,
        0 <= a < 0x10000,
    ensures
        ({
            let r = booted_ram(ram);
            &&& r.len() == 0x10000
            &&& !set_by_boot(a) ==> r[a] == ram[a]
            &&& r[0x2B] == 0x01 && r[0x2C] == 0x08
            &&& r[0x33] == 0x00 && r[0x34] == 0xA0
            &&& r[0x37] == 0x00 && r[0x38] == 0xA0
            &&& r[0x16] == 0x19
            &&& r[0x0288] == 0x04
            &&& r[0xD1] == 0x00 && r[0xD2] == 0x04
            &&& r[0xD5] == 39 && r[0xC8] == 39
            &&& r[0x0302] == 0x83 && r[0x0303] == 0xA4
            &&& r[0x0314] == 0x31 && r[0x0315] == 0xEA
            &&& r[0x0318] == 0x47 && r[0x0319] == 0xFE
            &&& r[0x0324] == 0x57 && r[0x0325] == 0xF1
            &&& r[0x0326] == 0xCA && r[0x0327] == 0xF1
            &&& r[0x032A] == 0x3E && r[0x032B] == 0xF1
        }),
{
}

/// The stubbed KERNAL is RTS ($60) everywhere but in the two prompts: LDA #$20 at
/// $FFE4 and LDA #$0D at $FFCF, each with an RTS behind it.
pub proof fn stub_is_returns(a: int)
    requires
        0xE000 <= a <= 0xFFFF,
    ensures
        stub_rom().len() == 0x2000,
        stub_rom()[a - 0xE000] == if a == 0xFFE4 || a == 0xFFCF {
            0xA9u8
        } else if a == 0xFFE5 {
            0x20
        } else if a == 0xFFD0 {
            0x0D
        } else {
            0x60
        },
{
}

/// A PRG image loads when it holds a load address and at least one byte, and when
/// its last byte lies at $FFFF or below; every other image is refused.
pub proof fn images_that_fit_load(prg: Seq<u8>)
    ensures
        prg_error(prg) is None <==> prg.len() >= 3 && prg[0] + 0x100 * prg[1] + (prg.len() - 2)
            <= 0x10000,
{
}

/// Loading puts the bytes behind the two address bytes at the load address and the
/// addresses after it, and notes the first and the last of them.  Outside the image
/// and the pointers that loading sets, RAM stays as it was; so do I/O and ROM.
#[verifier::rlimit(40)]
pub proof fn load_places_the_bytes(m: C64Mem, prg: Seq<u8>, i: int)
    requires
        prg_error(prg) is None,
        0 <= i < 0x10000,
        !(0x2D <= i <= 0x32),
        !(0xAE <= i <= 0xAF),
    ensures
        ({
            let l = loaded_mem(m, prg);
            let start = prg[0] + 0x100 * prg[1];
            let end = start + prg.len() - 3;
            &&& l.prg_start == start
            &&& l.prg_end == end
            &&& start <= i <= end ==> l.ram@[i] == prg[i - start + 2]
            &&& !(start <= i <= end) ==> l.ram@[i] == m.ram@[i]
            &&& l.io == m.io
            &&& l.basic == m.basic
            &&& l.kernal == m.kernal
            &&& l.chargen == m.chargen
        }),
{
    array_of_holds::<0x10000>(loaded_ram(m.ram@, prg));
}

/// A saved range is two address bytes, low byte first, and then every byte of RAM
/// from the first to the last address.
pub proof fn save_lists_the_bytes(ram: Seq<u8>, start: u16, end: u16, i: int)
    requires
        ram.len() == 0x10000,
        start <= i <= end,
    ensures
        ({
            let s = prg_image(ram, start, end);
            &&& s.len() == 2 + (end - start + 1)
            &&& s[0] + 0x100 * s[1] == start
            &&& s[2 + (i - start)] == ram[i]
        }),
{
}

/// A word is read low byte first; the byte behind $FFFF is that at $0000.
pub proof fn words_are_read_low_byte_first(m: C64Mem, a: u16)
    ensures
        m.visible_word(a) as int == m.visible(a) + 0x100 * m.visible(
            ((a + 1) % 0x1_0000) as u16,
        ),
{
}

/// The RAM vectors that booting sets: BASIC's at $0300 and the KERNAL's at $0314.
#[verifier::rlimit(40)]
pub proof fn boot_sets_the_vectors(ram: Seq<u8>)
    requires
        ram.len() == 0x10000,
    ensures
        booted_ram(ram).subrange(0x0300, 0x030C) == seq![
            0x8Bu8, 0xE3, 0x83, 0xA4, 0x7C, 0xA5, 0x1A, 0xA7, 0xE4, 0xA7, 0x86, 0xAE,
        ],
        booted_ram(ram).subrange(0x0314, 0x0334) == seq![
            0x31u8, 0xEA, 0x66, 0xFE, 0x47, 0xFE, 0x4A, 0xF3, 0x91, 0xF2, 0x0E, 0xF2, 0x50, 0xF2,
            0x33, 0xF3, 0x57, 0xF1, 0xCA, 0xF1, 0xED, 0xF6, 0x3E, 0xF1, 0x2F, 0xF3, 0x66, 0xFE,
            0xA5, 0xF4, 0xED, 0xF5,
        ],
{
    let r = booted_ram(ram);
    assert(r.subrange(0x0300, 0x030C) =~= seq![
        0x8Bu8, 0xE3, 0x83, 0xA4, 0x7C, 0xA5, 0x1A, 0xA7, 0xE4, 0xA7, 0x86, 0xAE,
    ]);
    assert(r.subrange(0x0314, 0x0334) =~= seq![
        0x31u8, 0xEA, 0x66, 0xFE, 0x47, 0xFE, 0x4A, 0xF3, 0x91, 0xF2, 0x0E, 0xF2, 0x50, 0xF2,
        0x33, 0xF3, 0x57, 0xF1, 0xCA, 0xF1, 0xED, 0xF6, 0x3E, 0xF1, 0x2F, 0xF3, 0x66, 0xFE,
        0xA5, 0xF4, 0xED, 0xF5,
    ]);
}

/// What is said of a file that is too small, of one that reaches beyond memory, and of a range
/// that ends before it starts.
pub proof fn refused_images_are_described(prg: Seq<u8>, start: u16, end: u16)
    ensures
        prg.len() < 3 ==> prg_error(prg) == Some(
            "file too small to be a PRG (needs load address + data)"@,
        ),
        prg.len() >= 3 && prg_error(prg) is Some ==> {
            let at = prg[0] + 0x100 * prg[1];
            prg_error(prg)->0 == "PRG overflows memory: start=$"@ + hex_word(at, true) + ", "@ + dec(
                prg.len() - 2,
            ) + " bytes, end=$"@ + radix_text(at + prg.len() - 3, 16, true)
        },
        bad_range_text(start, end) == "invalid range: start $"@ + hex_word(start as int, true)
            + " > end $"@ + hex_word(end as int, true),
{
}

} // verus!
