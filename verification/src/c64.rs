//! C64 memory: 64 KB RAM plus BASIC/KERNAL/CHARGEN ROM and the I/O area, banked
//! through the low three bits of the processor port at $0001 (LORAM/HIRAM/CHAREN).
//!
//! Banking follows the PLA table: BASIC needs LORAM && HIRAM, KERNAL needs HIRAM,
//! and $D000 shows I/O or CHARGEN (selected by CHAREN) whenever LORAM || HIRAM.
//! Writes always land in RAM (or the I/O area when it is banked in); ROM is never
//! writable, exactly like the real machine.

use vstd::prelude::*;
use vstd::string::*;

use crate::cpu::Bus;
use crate::fmt::{push_dec, push_hex_word, push_radix};

verus! {

use crate::bits::{bit_at, high_byte, low_byte, word, wrap16};
use crate::fmt::{dec, hex_word, radix_text};

#[verifier::ext_equal]
pub struct C64Mem {
    pub ram: Box<[u8; 0x10000]>,
    pub basic: Box<[u8; 0x2000]>,
    pub kernal: Box<[u8; 0x2000]>,
    pub chargen: Box<[u8; 0x1000]>,
    /// $D000-$DFFF register space when I/O is banked in. No chip behavior is
    /// emulated; reads return the last value written (initially zero). The one
    /// exception is $D012 (VIC raster line), which counts up on every CPU read
    /// so raster-wait loops terminate.
    pub io: Box<[u8; 0x1000]>,
    /// Load address of the most recent `load_prg`.
    pub prg_start: u16,
    /// Last address occupied by the most recent `load_prg`.
    pub prg_end: u16,
}

// ---------------------------------------------------------------------------
// Byte areas
// ---------------------------------------------------------------------------

/// `n` bytes that are all `v`.
pub open spec fn filled(n: nat, v: u8) -> Seq<u8> {
    Seq::new(n, |i: int| v)
}

/// `area` with `data` laid over it from position `at` on.
pub open spec fn overlaid(area: Seq<u8>, at: int, data: Seq<u8>) -> Seq<u8> {
    Seq::new(
        area.len(),
        |i: int|
            if at <= i < at + data.len() {
                data[i - at]
            } else {
                area[i]
            },
    )
}

/// `area` with a little-endian word stored at `at`.
pub open spec fn with_word(area: Seq<u8>, at: int, w: u16) -> Seq<u8> {
    area.update(at, low_byte(w)).update(at + 1, high_byte(w))
}

/// The array that holds the bytes `s`.
pub open spec fn array_of<const N: usize>(s: Seq<u8>) -> [u8; N] {
    choose|a: [u8; N]| a@ == s
}

/// An array is determined by its bytes.
pub proof fn array_of_its_bytes<const N: usize>(a: [u8; N])
    ensures
        array_of::<N>(a@) == a,
{
    let b = array_of::<N>(a@);
    assert(b@ == a@);
    assert forall|i: int| 0 <= i < N implies b[i] == a[i] by {
        assert(b@[i] == a@[i]);
    }
    assert(b =~= a);
}

/// Every byte sequence of the right length is held by an array.
pub proof fn array_of_holds<const N: usize>(s: Seq<u8>)
    requires
        s.len() == N,
    ensures
        array_of::<N>(s)@ == s,
{
    let a = array_prefix::<N>(s, N as nat);
    assert(a@ =~= s);
}

proof fn array_prefix<const N: usize>(s: Seq<u8>, n: nat) -> (a: [u8; N])
    requires
        s.len() == N,
        n <= N,
    ensures
        forall|i: int| 0 <= i < n ==> a@[i] == s[i],
    decreases n,
{
    if n == 0 {
        vstd::array::spec_array_fill_for_copy_type::<u8, N>(0)
    } else {
        let a = array_prefix::<N>(s, (n - 1) as nat);
        vstd::array::spec_array_update(a, n - 1, s[n - 1])
    }
}

// ---------------------------------------------------------------------------
// Banking
// ---------------------------------------------------------------------------

impl C64Mem {
    /// The processor port at $0001.
    pub open spec fn port(self) -> u8 {
        self.ram@[1]
    }

    pub open spec fn loram(self) -> bool {
        bit_at(self.port() as int, 1)
    }

    pub open spec fn hiram(self) -> bool {
        bit_at(self.port() as int, 2)
    }

    pub open spec fn charen(self) -> bool {
        bit_at(self.port() as int, 4)
    }

    /// $D000-$DFFF shows the I/O chips.
    pub open spec fn io_banked_in(self) -> bool {
        (self.loram() || self.hiram()) && self.charen()
    }

    /// The byte the CPU sees at `addr`, by the PLA table.
    pub open spec fn visible(self, addr: u16) -> u8 {
        if 0xA000 <= addr <= 0xBFFF && self.loram() && self.hiram() {
            self.basic@[addr - 0xA000]
        } else if 0xD000 <= addr <= 0xDFFF && self.io_banked_in() {
            self.io@[addr - 0xD000]
        } else if 0xD000 <= addr <= 0xDFFF && (self.loram() || self.hiram()) {
            self.chargen@[addr - 0xD000]
        } else if 0xE000 <= addr && self.hiram() {
            self.kernal@[addr - 0xE000]
        } else {
            self.ram@[addr as int]
        }
    }

    /// The little-endian word the CPU sees at `addr`.
    pub open spec fn visible_word(self, addr: u16) -> u16 {
        word(self.visible(addr), self.visible(wrap16(addr + 1)))
    }

    /// The memory with `v` stored in RAM.
    pub open spec fn with_ram_byte(self, addr: u16, v: u8) -> C64Mem {
        C64Mem { ram: Box::new(vstd::array::spec_array_update(*self.ram, addr as int, v)), ..self }
    }

    /// The memory with `v` stored in the I/O area.
    pub open spec fn with_io_byte(self, addr: u16, v: u8) -> C64Mem {
        C64Mem {
            io: Box::new(vstd::array::spec_array_update(*self.io, addr - 0xD000, v)),
            ..self
        }
    }

    /// The memory with other RAM contents.
    pub open spec fn with_ram(self, bytes: Seq<u8>) -> C64Mem {
        C64Mem { ram: Box::new(array_of(bytes)), ..self }
    }
}

/// The address at which a read counts the raster line up.
pub const RASTER: u16 = 0xD012;

impl Bus for C64Mem {
    /// A CPU read of $D012 with I/O banked in returns an incrementing line
    /// number, so raster waits terminate.
    open spec fn value_at(&self, addr: u16) -> u8 {
        if addr == RASTER && self.io_banked_in() {
            self.io@[0x12].wrapping_add(1)
        } else {
            self.visible(addr)
        }
    }

    open spec fn after_read(&self, addr: u16) -> C64Mem {
        if addr == RASTER && self.io_banked_in() {
            self.with_io_byte(RASTER, self.io@[0x12].wrapping_add(1))
        } else {
            *self
        }
    }

    /// I/O registers take the write when banked in; everything else always
    /// reaches the RAM underneath, even where ROM is visible.
    open spec fn after_write(&self, addr: u16, v: u8) -> C64Mem {
        if 0xD000 <= addr <= 0xDFFF && self.io_banked_in() {
            self.with_io_byte(addr, v)
        } else {
            self.with_ram_byte(addr, v)
        }
    }

    fn read(&mut self, addr: u16) -> (v: u8) {
        if addr == RASTER && self.io_visible() {
            let v: u8 = self.io[0x12].wrapping_add(1);
            self.io[0x12] = v;
            return v;
        }
        self.peek(addr)
    }

    fn write(&mut self, addr: u16, v: u8) {
        if addr >= 0xD000 && addr <= 0xDFFF && self.io_visible() {
            self.io[(addr - 0xD000) as usize] = v;
        } else {
            self.ram[addr as usize] = v;
        }
    }
}

// ---------------------------------------------------------------------------
// Start-up state
// ---------------------------------------------------------------------------

/// RAM at power-on: zeros, with the processor port at $37.
pub open spec fn power_on_ram() -> Seq<u8> {
    filled(0x10000, 0).update(1, 0x37)
}

/// Memory with empty ROM areas.
pub open spec fn power_on_mem() -> C64Mem {
    C64Mem {
        ram: Box::new(array_of(power_on_ram())),
        basic: Box::new(array_of(filled(0x2000, 0))),
        kernal: Box::new(array_of(filled(0x2000, 0))),
        chargen: Box::new(array_of(filled(0x1000, 0))),
        io: Box::new(array_of(filled(0x1000, 0))),
        prg_start: 0,
        prg_end: 0,
    }
}

/// BASIC indirect vectors $0300-$030B (IERROR..IEVAL).
pub open spec fn basic_vectors() -> Seq<u8> {
    seq![0x8B, 0xE3, 0x83, 0xA4, 0x7C, 0xA5, 0x1A, 0xA7, 0xE4, 0xA7, 0x86, 0xAE]
}

/// KERNAL RAM vectors $0314-$0333 (IRQ..SAVE), power-on defaults.
pub open spec fn kernal_vectors() -> Seq<u8> {
    seq![
        0x31, 0xEA, 0x66, 0xFE, 0x47, 0xFE, 0x4A, 0xF3, 0x91, 0xF2, 0x0E, 0xF2, 0x50, 0xF2, 0x33,
        0xF3, 0x57, 0xF1, 0xCA, 0xF1, 0xED, 0xF6, 0x3E, 0xF1, 0x2F, 0xF3, 0x66, 0xFE, 0xA5, 0xF4,
        0xED, 0xF5,
    ]
}

/// RAM as a program finds it after boot: BASIC memory pointers (TXTTAB $0801,
/// FRETOP and MEMSIZ $A000), TEMPPT, the vector tables, the screen editor.
pub open spec fn booted_ram(ram: Seq<u8>) -> Seq<u8> {
    let r1 = with_word(ram, 0x2B, 0x0801);
    let r2 = with_word(r1, 0x33, 0xA000);
    let r3 = with_word(r2, 0x37, 0xA000);
    let r4 = r3.update(0x16, 0x19);
    let r5 = overlaid(r4, 0x0300, basic_vectors());
    let r6 = overlaid(r5, 0x0314, kernal_vectors());
    let r7 = r6.update(0x0288, 0x04);
    let r8 = with_word(r7, 0xD1, 0x0400);
    r8.update(0xD5, 39).update(0xC8, 39)
}

/// A KERNAL that returns at once from everywhere, with GETIN ($FFE4) returning a
/// space and CHRIN ($FFCF) returning a carriage return.
pub open spec fn stub_rom() -> Seq<u8> {
    overlaid(
        overlaid(filled(0x2000, 0x60), 0x1FE4, seq![0xA9, 0x20, 0x60]),
        0x1FCF,
        seq![0xA9, 0x0D, 0x60],
    )
}

// ---------------------------------------------------------------------------
// PRG images
// ---------------------------------------------------------------------------

/// Load address of a PRG image.
pub open spec fn prg_load_address(prg: Seq<u8>) -> u16 {
    word(prg[0], prg[1])
}

/// Last address a PRG image occupies.
pub open spec fn prg_last_address(prg: Seq<u8>) -> int {
    prg_load_address(prg) + prg.len() - 3
}

/// Why a PRG image cannot be loaded.
pub open spec fn prg_error(prg: Seq<u8>) -> Option<Seq<char>> {
    if prg.len() < 3 {
        Some("file too small to be a PRG (needs load address + data)"@)
    } else if prg_last_address(prg) > 0xFFFF {
        Some(
            "PRG overflows memory: start=$"@ + hex_word(prg_load_address(prg) as int, true) + ", "@
                + dec(prg.len() - 2) + " bytes, end=$"@ + radix_text(
                prg_last_address(prg),
                16,
                true,
            ),
        )
    } else {
        None
    }
}

/// RAM after loading: the image, then VARTAB, ARYTAB, STREND and the end-of-load
/// pointer, which all point one past the last loaded byte.
pub open spec fn loaded_ram(ram: Seq<u8>, prg: Seq<u8>) -> Seq<u8> {
    let after = wrap16(prg_last_address(prg) + 1);
    let r0 = overlaid(ram, prg_load_address(prg) as int, prg.skip(2));
    let r1 = with_word(r0, 0x2D, after);
    let r2 = with_word(r1, 0x2F, after);
    let r3 = with_word(r2, 0x31, after);
    with_word(r3, 0xAE, after)
}

/// Memory after loading a PRG image that fits.
pub open spec fn loaded_mem(m: C64Mem, prg: Seq<u8>) -> C64Mem {
    C64Mem {
        prg_start: prg_load_address(prg),
        prg_end: prg_last_address(prg) as u16,
        ..m.with_ram(loaded_ram(m.ram@, prg))
    }
}

/// The PRG image of `ram[start..=end]`.
pub open spec fn prg_image(ram: Seq<u8>, start: u16, end: u16) -> Seq<u8> {
    seq![low_byte(start), high_byte(start)] + ram.subrange(start as int, end + 1)
}

/// What is said of a range that ends before it starts.
pub open spec fn bad_range_text(start: u16, end: u16) -> Seq<char> {
    "invalid range: start $"@ + hex_word(start as int, true) + " > end $"@ + hex_word(
        end as int,
        true,
    )
}

fn bad_range(start: u16, end: u16) -> (s: String)
    ensures
        s@ == bad_range_text(start, end),
{
    let mut s: String = String::from_str("invalid range: start $");
    push_hex_word(&mut s, start, true);
    s.append(" > end $");
    push_hex_word(&mut s, end, true);
    s
}

impl C64Mem {
    /// Memory with empty ROM areas. $01 defaults to $37.
    pub fn new() -> (m: C64Mem)
        ensures
            m == power_on_mem(),
            m.ram@ == power_on_ram(),
            m.basic@ == filled(0x2000, 0),
            m.kernal@ == filled(0x2000, 0),
            m.chargen@ == filled(0x1000, 0),
            m.io@ == filled(0x1000, 0),
    {
        let mut m: C64Mem = C64Mem {
            ram: Box::new([0u8; 0x10000]),
            basic: Box::new([0u8; 0x2000]),
            kernal: Box::new([0u8; 0x2000]),
            chargen: Box::new([0u8; 0x1000]),
            io: Box::new([0u8; 0x1000]),
            prg_start: 0,
            prg_end: 0,
        };
        m.ram[1] = 0x37;
        proof {
            assert(m.ram@ =~= power_on_ram());
            assert(m.basic@ =~= filled(0x2000, 0));
            assert(m.kernal@ =~= filled(0x2000, 0));
            assert(m.chargen@ =~= filled(0x1000, 0));
            assert(m.io@ =~= filled(0x1000, 0));
            array_of_its_bytes(*m.ram);
            array_of_its_bytes(*m.basic);
            array_of_its_bytes(*m.kernal);
            array_of_its_bytes(*m.chargen);
            array_of_its_bytes(*m.io);
        }
        m
    }

    /// Lay `data` over RAM from `at` on.
    fn copy_in(&mut self, at: usize, data: &[u8])
        requires
            at + data@.len() <= 0x10000,
        ensures
            final(self).ram@ == overlaid(old(self).ram@, at as int, data@),
            *final(self) == (C64Mem { ram: final(self).ram, ..*old(self) }),
    {
        let mut i: usize = 0;
        while i < data.len()
            invariant
                i <= data@.len(),
                at + data@.len() <= 0x10000,
                self.ram@ == overlaid(old(self).ram@, at as int, data@.take(i as int)),
                *self == (C64Mem { ram: self.ram, ..*old(self) }),
            decreases data@.len() - i,
        {
            self.ram[at + i] = data[i];
            i = i + 1;
            assert(self.ram@ =~= overlaid(old(self).ram@, at as int, data@.take(i as int)));
        }
        assert(data@.take(i as int) =~= data@);
    }

    /// Store a little-endian word in RAM.
    fn put_word(&mut self, at: usize, w: u16)
        requires
            at < 0xFFFF,
        ensures
            final(self).ram@ == with_word(old(self).ram@, at as int, w),
            *final(self) == (C64Mem { ram: final(self).ram, ..*old(self) }),
    {
        self.ram[at] = (w % 0x100) as u8;
        self.ram[at + 1] = (w / 0x100) as u8;
    }

    /// Set up the RAM state a program finds on a real C64 after boot, without
    /// running the reset sequence: BASIC memory pointers, the RAM vector tables
    /// at $0300/$0314 and the screen-editor basics.
    ///
    /// The CHRGET copy at $73-$8A is left zeroed on purpose. That zero-page area
    /// is prime depacker workspace and several crunchers rely on it starting at
    /// zero, while no depack path needs the interpreter's CHRGET.
    pub fn init_basic_env(&mut self)
        ensures
            *final(self) == old(self).with_ram(booted_ram(old(self).ram@)),
            final(self).ram@ == booted_ram(old(self).ram@),
    {
        let basic: [u8; 12] = [
            0x8B,
            0xE3,
            0x83,
            0xA4,
            0x7C,
            0xA5,
            0x1A,
            0xA7,
            0xE4,
            0xA7,
            0x86,
            0xAE,
        ];
        let kernal: [u8; 32] = [
            0x31,
            0xEA,
            0x66,
            0xFE,
            0x47,
            0xFE,
            0x4A,
            0xF3,
            0x91,
            0xF2,
            0x0E,
            0xF2,
            0x50,
            0xF2,
            0x33,
            0xF3,
            0x57,
            0xF1,
            0xCA,
            0xF1,
            0xED,
            0xF6,
            0x3E,
            0xF1,
            0x2F,
            0xF3,
            0x66,
            0xFE,
            0xA5,
            0xF4,
            0xED,
            0xF5,
        ];
        assert(basic@ =~= basic_vectors());
        assert(kernal@ =~= kernal_vectors());
        self.put_word(0x2B, 0x0801);
        self.put_word(0x33, 0xA000);
        self.put_word(0x37, 0xA000);
        // TEMPPT: temporary string descriptor stack pointer starts at $19. At 0
        // the descriptor copy would overwrite the processor port and bank out
        // the ROMs mid-print.
        self.ram[0x16] = 0x19;
        self.copy_in(0x0300, &basic);
        self.copy_in(0x0314, &kernal);
        self.ram[0x0288] = 0x04;
        self.put_word(0xD1, 0x0400);
        self.ram[0xD5] = 39;
        self.ram[0xC8] = 39;
        proof {
            array_of_its_bytes(*self.ram);
        }
    }

    /// Replace the KERNAL with RTS ($60) everywhere so any JSR into the ROM
    /// returns immediately, neutralizing KERNAL calls deterministically.
    ///
    /// Two entry points get real implementations so key/return prompts inside
    /// decrunchers terminate: GETIN ($FFE4) returns space (`LDA #$20 : RTS`) and
    /// CHRIN ($FFCF) returns a carriage return (`LDA #$0D : RTS`).
    pub fn stub_kernal(&mut self)
        ensures
            *final(self) == (C64Mem { kernal: Box::new(array_of(stub_rom())), ..*old(self) }),
            final(self).kernal@ == stub_rom(),
    {
        let mut rom: [u8; 0x2000] = [0x60u8; 0x2000];
        rom[0x1FE4] = 0xA9;
        rom[0x1FE5] = 0x20;
        rom[0x1FE6] = 0x60;
        rom[0x1FCF] = 0xA9;
        rom[0x1FD0] = 0x0D;
        rom[0x1FD1] = 0x60;
        assert(rom@ =~= stub_rom());
        self.kernal = Box::new(rom);
        proof {
            array_of_its_bytes(rom);
        }
    }

    fn ctrl(&self) -> (c: u8)
        ensures
            c == self.port(),
    {
        self.ram[0x0001]
    }

    /// Whether a write to $D000-$DFFF goes to the I/O chips rather than the
    /// RAM underneath, given the current PLA banking (same condition as
    /// [`Bus::write`] uses to route such writes).
    pub fn io_visible(&self) -> (b: bool)
        ensures
            b == self.io_banked_in(),
    {
        let c: u8 = self.ctrl();
        (c % 2 == 1 || (c / 2) % 2 == 1) && (c / 4) % 2 == 1
    }

    /// Read without side effects (usable while the CPU holds no borrow).
    pub fn peek(&self, addr: u16) -> (v: u8)
        ensures
            v == self.visible(addr),
    {
        let a: usize = addr as usize;
        let c: u8 = self.ctrl();
        let loram: bool = c % 2 == 1;
        let hiram: bool = (c / 2) % 2 == 1;
        if addr >= 0xA000 && addr <= 0xBFFF && loram && hiram {
            self.basic[a - 0xA000]
        } else if addr >= 0xD000 && addr <= 0xDFFF && (loram || hiram) {
            if (c / 4) % 2 == 1 {
                self.io[a - 0xD000]
            } else {
                self.chargen[a - 0xD000]
            }
        } else if addr >= 0xE000 && hiram {
            self.kernal[a - 0xE000]
        } else {
            self.ram[a]
        }
    }

    /// Banked little-endian word read (wraps at $FFFF like the CPU does).
    pub fn read_word(&self, addr: u16) -> (w: u16)
        ensures
            w == self.visible_word(addr),
    {
        let lo: u8 = self.peek(addr);
        let hi: u8 = self.peek(addr.wrapping_add(1));
        hi as u16 * 0x100 + lo as u16
    }

    /// Load a PRG image (2-byte little-endian load address + data) into RAM.
    /// Mirrors what LOAD does on the real machine: VARTAB ($2D/$2E) and the KERNAL
    /// end-of-load pointer ($AE/$AF) are set to one past the last loaded byte.
    /// Returns (start, end): first and last occupied address.
    pub fn load_prg(&mut self, prg: &[u8]) -> (r: Result<(u16, u16), String>)
        ensures
            match r {
                Ok((start, end)) => {
                    &&& prg_error(prg@) is None
                    &&& start == prg_load_address(prg@)
                    &&& end == prg_last_address(prg@)
                    &&& *final(self) == loaded_mem(*old(self), prg@)
                    &&& final(self).ram@ == loaded_ram(old(self).ram@, prg@)
                },
                Err(e) => prg_error(prg@) == Some(e@) && *final(self) == *old(self),
            },
    {
        if prg.len() < 3 {
            return Err(String::from_str("file too small to be a PRG (needs load address + data)"));
        }
        let start: u16 = prg[1] as u16 * 0x100 + prg[0] as u16;
        let last: u128 = start as u128 + prg.len() as u128 - 3;
        if last > 0xFFFF {
            let mut s: String = String::from_str("PRG overflows memory: start=$");
            push_hex_word(&mut s, start, true);
            s.append(", ");
            push_dec(&mut s, prg.len() as u128 - 2);
            s.append(" bytes, end=$");
            push_radix(&mut s, last, 16, true);
            return Err(s);
        }
        let end: u16 = last as u16;
        let data: &[u8] = vstd::slice::slice_subrange(prg, 2, prg.len());
        assert(data@ =~= prg@.skip(2));
        self.copy_in(start as usize, data);
        self.prg_start = start;
        self.prg_end = end;
        let after: u16 = end.wrapping_add(1);
        self.put_word(0x2D, after);
        self.put_word(0x2F, after);
        self.put_word(0x31, after);
        self.put_word(0xAE, after);
        proof {
            array_of_its_bytes(*self.ram);
        }
        Ok((start, end))
    }

    /// Serialize RAM `start..=end` as a PRG image (load address + data).
    pub fn save_prg(&self, start: u16, end: u16) -> (r: Result<Vec<u8>, String>)
        ensures
            match r {
                Ok(v) => start <= end && v@ == prg_image(self.ram@, start, end),
                Err(e) => start > end && e@ == bad_range_text(start, end),
            },
    {
        if start > end {
            return Err(bad_range(start, end));
        }
        let mut out: Vec<u8> = Vec::new();
        out.push((start % 0x100) as u8);
        out.push((start / 0x100) as u8);
        let mut i: usize = start as usize;
        while i <= end as usize
            invariant
                start <= end,
                start <= i <= end + 1,
                out@ == seq![low_byte(start), high_byte(start)] + self.ram@.subrange(
                    start as int,
                    i as int,
                ),
            decreases end + 1 - i,
        {
            out.push(self.ram[i]);
            i = i + 1;
            assert(self.ram@.subrange(start as int, i as int) =~= self.ram@.subrange(
                start as int,
                i - 1,
            ).push(self.ram@[i - 1]));
        }
        Ok(out)
    }
}

impl Default for C64Mem {
    fn default() -> (m: C64Mem)
        ensures
            m == power_on_mem(),
    {
        C64Mem::new()
    }
}

// ---------------------------------------------------------------------------
// Laws
// ---------------------------------------------------------------------------

/// ROM is never writable, and neither are the loader's notes: whatever the CPU
/// reads or writes, only RAM and the I/O area change.
pub proof fn rom_is_never_written(m: C64Mem, addr: u16, v: u8)
    ensures
        m.after_write(addr, v).basic == m.basic,
        m.after_write(addr, v).kernal == m.kernal,
        m.after_write(addr, v).chargen == m.chargen,
        m.after_read(addr).basic == m.basic,
        m.after_read(addr).kernal == m.kernal,
        m.after_read(addr).chargen == m.chargen,
        m.after_read(addr).ram == m.ram,
{
}

/// A write reaches exactly one byte: an I/O register when I/O is banked in at
/// that address, the RAM underneath otherwise, even where ROM is visible.
pub proof fn write_reaches_one_byte(m: C64Mem, addr: u16, v: u8)
    ensures
        0xD000 <= addr <= 0xDFFF && m.io_banked_in() ==> {
            &&& m.after_write(addr, v).io@ == m.io@.update(addr - 0xD000, v)
            &&& m.after_write(addr, v).ram == m.ram
        },
        !(0xD000 <= addr <= 0xDFFF && m.io_banked_in()) ==> {
            &&& m.after_write(addr, v).ram@ == m.ram@.update(addr as int, v)
            &&& m.after_write(addr, v).io == m.io
        },
{
}

/// A byte that was written is the byte that is seen, as long as the address shows
/// RAM or I/O and the write did not go to the processor port.
pub proof fn read_gives_back_what_was_written(m: C64Mem, addr: u16, v: u8)
    requires
        addr != 1,
        !(0xA000 <= addr <= 0xBFFF && m.loram() && m.hiram()),
        !(0xD000 <= addr <= 0xDFFF && (m.loram() || m.hiram()) && !m.charen()),
        !(0xE000 <= addr && m.hiram()),
    ensures
        m.after_write(addr, v).visible(addr) == v,
{
    write_reaches_one_byte(m, addr, v);
}

/// Each CPU read of the raster line with I/O banked in returns the next number,
/// and the register keeps it.
pub proof fn raster_counts_up(m: C64Mem)
    requires
        m.io_banked_in(),
    ensures
        m.value_at(RASTER) == m.visible(RASTER).wrapping_add(1),
        m.after_read(RASTER).visible(RASTER) == m.value_at(RASTER),
        m.after_read(RASTER).value_at(RASTER) == m.value_at(RASTER).wrapping_add(1),
{
}

/// Saving the range that a PRG image was loaded to gives the image back, unless
/// the image covers one of the pointers that loading sets.
pub proof fn save_gives_back_what_was_loaded(m: C64Mem, prg: Seq<u8>)
    requires
        prg_error(prg) is None,
        prg_load_address(prg) > 0xAF || prg_last_address(prg) < 0x2D || (prg_load_address(prg) > 0x32
            && prg_last_address(prg) < 0xAE),
    ensures
        ({
            let l = loaded_mem(m, prg);
            prg_image(l.ram@, l.prg_start, l.prg_end) == prg
        }),
{
    let l = loaded_mem(m, prg);
    let ram = loaded_ram(m.ram@, prg);
    array_of_holds::<0x10000>(ram);
    assert(prg_image(ram, l.prg_start, l.prg_end) =~= prg);
}

/// After a load, VARTAB, ARYTAB, STREND and the end-of-load pointer all hold the
/// address after the last loaded byte.
pub proof fn load_sets_the_pointers(m: C64Mem, prg: Seq<u8>)
    requires
        prg_error(prg) is None,
    ensures
        ({
            let l = loaded_mem(m, prg);
            let after = wrap16(prg_last_address(prg) + 1);
            &&& l.visible_word(0x2D) == after
            &&& l.visible_word(0x2F) == after
            &&& l.visible_word(0x31) == after
            &&& l.visible_word(0xAE) == after
        }),
{
    array_of_holds::<0x10000>(loaded_ram(m.ram@, prg));
}

} // verus!
