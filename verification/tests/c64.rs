//! C64 memory and banking.

use unidecrunch::{Bus, C64Mem};

#[test]
fn banking_follows_pla_table() {
    let mut m = C64Mem::new();
    m.ram[0xA000] = 0x11;
    m.ram[0xD000] = 0x22;
    m.ram[0xE000] = 0x33;
    m.basic[0] = 0xA1;
    m.kernal[0] = 0xE1;
    m.chargen[0] = 0xC1;

    // $37 = LORAM+HIRAM+CHAREN: BASIC, I/O, KERNAL
    m.ram[1] = 0x37;
    assert_eq!(m.peek(0xA000), 0xA1);
    assert_eq!(m.peek(0xE000), 0xE1);
    assert_eq!(m.peek(0xD000), 0); // untouched I/O register

    // $35: RAM, I/O, RAM
    m.ram[1] = 0x35;
    assert_eq!(m.peek(0xA000), 0x11);
    assert_eq!(m.peek(0xE000), 0x33);

    // $34: all RAM
    m.ram[1] = 0x34;
    assert_eq!(m.peek(0xD000), 0x22);

    // $36: RAM, I/O, KERNAL
    m.ram[1] = 0x36;
    assert_eq!(m.peek(0xA000), 0x11);
    assert_eq!(m.peek(0xE000), 0xE1);

    // $32 (%010): RAM, CHARGEN, KERNAL
    m.ram[1] = 0x32;
    assert_eq!(m.peek(0xD000), 0xC1);
    assert_eq!(m.peek(0xE000), 0xE1);

    // $31 (%001): RAM, CHARGEN, RAM
    m.ram[1] = 0x31;
    assert_eq!(m.peek(0xD000), 0xC1);
    assert_eq!(m.peek(0xE000), 0x33);
}

#[test]
fn writes_reach_ram_under_rom() {
    let mut m = C64Mem::new();
    m.kernal[0x123] = 0xE1;
    m.ram[1] = 0x37;
    m.write(0xE123, 0x99);
    assert_eq!(m.peek(0xE123), 0xE1); // ROM area is still visible
    assert_eq!(m.ram[0xE123], 0x99); // but RAM took the write
}

#[test]
fn prg_roundtrip_and_vartab() {
    let mut m = C64Mem::new();
    let prg = [0x01, 0x08, 0xAA, 0xBB, 0xCC];
    let (s, e) = m.load_prg(&prg).unwrap();
    assert_eq!((s, e), (0x0801, 0x0803));
    assert_eq!(m.read_word(0x2D), 0x0804);
    assert_eq!(m.read_word(0xAE), 0x0804);
    assert_eq!(m.save_prg(0x0801, 0x0803).unwrap(), prg);
}

#[test]
fn memory_starts_with_the_default_port() {
    let m = C64Mem::new();
    assert_eq!(m.ram[1], 0x37);
    assert_eq!(m.ram.iter().filter(|&&b| b != 0).count(), 1);
    assert!(m.io_visible());
    assert_eq!((m.prg_start, m.prg_end), (0, 0));
    assert_eq!(C64Mem::default().ram[..], m.ram[..]);
}

#[test]
fn boot_environment_is_set_up() {
    let mut m = C64Mem::new();
    m.init_basic_env();
    assert_eq!(m.read_word(0x2B), 0x0801);
    assert_eq!(m.read_word(0x33), 0xA000);
    assert_eq!(m.read_word(0x37), 0xA000);
    assert_eq!(m.ram[0x16], 0x19);
    assert_eq!(m.read_word(0x0300), 0xE38B);
    assert_eq!(m.read_word(0x030A), 0xAE86);
    assert_eq!(m.read_word(0x0314), 0xEA31);
    assert_eq!(m.read_word(0x0332), 0xF5ED);
    assert_eq!(m.ram[0x0288], 0x04);
    assert_eq!(m.read_word(0xD1), 0x0400);
    assert_eq!((m.ram[0xD5], m.ram[0xC8]), (39, 39));
    // The CHRGET area stays zeroed.
    assert!(m.ram[0x73..=0x8A].iter().all(|&b| b == 0));
}

#[test]
fn stubbed_kernal_returns_at_once() {
    let mut m = C64Mem::new();
    m.stub_kernal();
    assert_eq!(m.peek(0xE000), 0x60);
    assert_eq!([m.peek(0xFFE4), m.peek(0xFFE5), m.peek(0xFFE6)], [0xA9, 0x20, 0x60]);
    assert_eq!([m.peek(0xFFCF), m.peek(0xFFD0), m.peek(0xFFD1)], [0xA9, 0x0D, 0x60]);
    assert_eq!(m.peek(0xFFD2), 0x60);
}

#[test]
fn rom_areas_are_never_written() {
    let mut m = C64Mem::new();
    m.stub_kernal();
    let (basic, kernal, chargen) = (m.basic.clone(), m.kernal.clone(), m.chargen.clone());
    for port in 0..8u8 {
        m.ram[1] = 0x30 | port;
        for addr in [0xA000u16, 0xBFFF, 0xD000, 0xDFFF, 0xE000, 0xFFFF] {
            m.write(addr, 0x5A);
        }
    }
    assert_eq!(m.basic, basic);
    assert_eq!(m.kernal, kernal);
    assert_eq!(m.chargen, chargen);
    assert_eq!(m.ram[0xA000], 0x5A);
}

#[test]
fn io_takes_writes_only_when_visible() {
    let mut m = C64Mem::new();
    m.write(0xD020, 0x0E);
    assert_eq!((m.io[0x20], m.ram[0xD020]), (0x0E, 0));
    m.ram[1] = 0x34;
    assert!(!m.io_visible());
    m.write(0xD020, 0x77);
    assert_eq!((m.io[0x20], m.ram[0xD020]), (0x0E, 0x77));
    // $33: CHARGEN is visible, the write goes to RAM.
    m.ram[1] = 0x33;
    assert!(!m.io_visible());
    m.write(0xD021, 0x12);
    assert_eq!(m.ram[0xD021], 0x12);
}

#[test]
fn written_byte_is_read_back() {
    let mut m = C64Mem::new();
    for addr in [0x0000u16, 0x0002, 0x0801, 0x9FFF, 0xC000, 0xD400] {
        m.write(addr, 0xC3);
        assert_eq!(m.peek(addr), 0xC3);
    }
}

#[test]
fn raster_counts_up_on_cpu_reads() {
    let mut m = C64Mem::new();
    assert_eq!(m.read(0xD012), 1);
    assert_eq!(m.read(0xD012), 2);
    assert_eq!(m.peek(0xD012), 2);
    m.io[0x12] = 0xFF;
    assert_eq!(m.read(0xD012), 0);
    // With RAM banked in it is an ordinary byte.
    m.ram[1] = 0x34;
    assert_eq!(m.read(0xD012), 0);
    assert_eq!(m.read(0xD012), 0);
}

#[test]
fn words_wrap_at_the_top_of_memory() {
    let mut m = C64Mem::new();
    m.ram[1] = 0x34;
    m.ram[0xFFFF] = 0xCD;
    m.ram[0x0000] = 0xAB;
    assert_eq!(m.read_word(0xFFFF), 0xABCD);
}

#[test]
fn loading_sets_all_pointers() {
    let mut m = C64Mem::new();
    m.load_prg(&[0x00, 0xC0, 1, 2, 3, 4]).unwrap();
    for at in [0x2D, 0x2F, 0x31, 0xAE] {
        assert_eq!(m.read_word(at), 0xC004);
    }
    assert_eq!((m.prg_start, m.prg_end), (0xC000, 0xC003));
}

#[test]
fn images_that_do_not_fit_are_refused() {
    let mut m = C64Mem::new();
    assert_eq!(
        m.load_prg(&[0x01, 0x08]).unwrap_err(),
        "file too small to be a PRG (needs load address + data)"
    );
    let before = m.ram.clone();
    assert_eq!(
        m.load_prg(&[0xFE, 0xFF, 1, 2, 3]).unwrap_err(),
        "PRG overflows memory: start=$FFFE, 3 bytes, end=$10000"
    );
    assert_eq!(m.ram, before);
    // The last byte of memory is still in reach.
    assert_eq!(m.load_prg(&[0xFE, 0xFF, 1, 2]).unwrap(), (0xFFFE, 0xFFFF));
    assert_eq!(m.ram[0xFFFF], 2);
}

#[test]
fn empty_ranges_cannot_be_saved() {
    let m = C64Mem::new();
    assert_eq!(
        m.save_prg(0x1000, 0x0FFF).unwrap_err(),
        "invalid range: start $1000 > end $0FFF"
    );
    assert_eq!(m.save_prg(0x1000, 0x1000).unwrap(), [0x00, 0x10, 0x00]);
    assert_eq!(m.save_prg(0x0000, 0xFFFF).unwrap().len(), 0x10002);
}

#[test]
fn image_over_the_pointers_is_not_given_back() {
    // The loader's own pointers win over the image's bytes.
    let mut m = C64Mem::new();
    let mut prg = vec![0x20, 0x00];
    prg.extend_from_slice(&[0xEE; 0x40]);
    m.load_prg(&prg).unwrap();
    let saved = m.save_prg(0x20, 0x5F).unwrap();
    assert_ne!(saved, prg);
    assert_eq!(m.read_word(0x2D), 0x60);
}
