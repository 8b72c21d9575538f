//! Detection, fall-through and layers.

use unidecrunch::embedded::embedded_configs;
use unidecrunch::pattern::Tok;
use unidecrunch::UniDecrunch;

/// A PRG at $0801 with a SYS line to $080D, followed by `code`.
fn prg(code: &[u8]) -> Vec<u8> {
    let mut p = vec![0x01, 0x08, 0x0B, 0x08, 0x0A, 0x00, 0x9E, b'2', b'0', b'6', b'1', 0, 0, 0];
    p.extend_from_slice(code);
    p
}

/// Code at $080D that copies a depacker to `to` and runs it there. The depacker
/// fills $2000-$21FF through ($FB),Y and jumps to $2000.
fn packed(to: u16) -> Vec<u8> {
    let (lo, hi) = (to as u8, (to >> 8) as u8);
    let mut code = vec![
        0xA2, 0x00, 0xBD, 0x1D, 0x08, 0x9D, lo, hi, 0xE8, 0xE0, 0x1C, 0xD0, 0xF5, 0x4C, lo, hi,
    ];
    code.extend_from_slice(&[
        0xA9, 0x00, 0x85, 0xFB, 0xA9, 0x20, 0x85, 0xFC, 0xA0, 0x00, 0xA9, 0xAA, 0x91, 0xFB, 0xC8,
        0xD0, 0xFB, 0xE6, 0xFC, 0xA5, 0xFC, 0xC9, 0x22, 0x90, 0xF1, 0x4C, 0x00, 0x20,
    ]);
    code
}

fn config(name: &str, detect: &str, run: &str) -> String {
    format!("name = \"{name}\"\nengine = \"generic\"\n[detect]\n{detect}\n[run]\n{run}\n")
}

fn detector(texts: &[String]) -> UniDecrunch {
    let names: Vec<String> = (0..texts.len()).map(|i| format!("{i}.toml")).collect();
    let files: Vec<(&str, &str)> =
        names.iter().zip(texts).map(|(n, t)| (n.as_str(), t.as_str())).collect();
    UniDecrunch::with_config_texts(&files).unwrap()
}

const SYS: &str = "entry = \"sys\"";

fn jmp(to: &str) -> String {
    format!("pattern = \"*96 4C {to}\"\n{SYS}")
}

#[test]
fn embedded_definitions_load() {
    let ud = UniDecrunch::with_embedded_configs().unwrap();
    let files = embedded_configs();
    assert_eq!(ud.configs.len(), files.len());
    for (c, (name, _)) in ud.configs.iter().zip(&files) {
        assert_eq!(c.source, *name);
    }
    // Sorted by file name, the only catch-all last.
    assert!(files.windows(2).all(|w| w[0].0 < w[1].0));
    let always: Vec<bool> = ud.configs.iter().map(|c| c.detect_always).collect();
    assert!(always.iter().take(always.len() - 1).all(|a| !a));
    assert!(always[always.len() - 1]);
    // The default detector is the same.
    let names: Vec<String> = UniDecrunch::new().configs.iter().map(|c| c.name.clone()).collect();
    let expected: Vec<String> = ud.configs.iter().map(|c| c.name.clone()).collect();
    assert_eq!(names, expected);
    assert_eq!(expected[0], "Generic at $0100");
    assert_eq!(UniDecrunch::default().configs.len(), expected.len());
}

#[test]
fn embedded_texts_say_what_they_define() {
    let ud = UniDecrunch::new();
    let stops: Vec<Vec<u16>> = ud.configs.iter().map(|c| c.stop_pc.clone()).collect();
    assert_eq!(
        stops,
        vec![
            vec![0x0100, 0x0101],
            vec![0x0010],
            vec![0x0008],
            vec![0x0334],
            vec![0x0400],
            vec![0x0410],
            vec![],
        ]
    );
    for c in ud.configs.iter().take(6) {
        assert_eq!(c.detect_base, 0x0801);
        assert_eq!(c.detect_patterns.len(), c.stop_pc.len());
        assert_eq!(c.detect_patterns[0].toks[0], Tok::Gap(768));
        assert_eq!(c.detect_patterns[0].toks[1], Tok::Byte(0x4C));
        assert_eq!(c.detect_patterns[0].toks[2], Tok::Byte(c.stop_pc[0] as u8));
        assert_eq!(c.detect_patterns[0].toks[3], Tok::Byte((c.stop_pc[0] >> 8) as u8));
        assert_eq!(c.snap_start, vec![0x07FF]);
        assert_eq!(c.exit_above, 0x0800);
        assert_eq!(c.analyze_0100, c.stop_pc[0] == 0x0100);
        assert_eq!(c.use_guess_start, c.stop_pc[0] >= 0x0400);
    }
    let last = &ud.configs[6];
    assert_eq!(last.name, "Generic 6");
    assert_eq!(last.stop_below, Some(0x0800));
    assert!(last.exit_into_written);
    assert_eq!(last.exit_quiescent, 500_000);
}

#[test]
fn every_embedded_family_unpacks() {
    let ud = UniDecrunch::new();
    for (to, name) in [
        (0x0100u16, "Generic at $0100"),
        (0x0010, "Generic at $0010"),
        (0x0008, "Generic at $0008"),
        (0x0334, "Generic at $0334"),
        (0x0400, "Generic at $0400"),
        (0x0410, "Generic at $0410"),
        (0x0200, "Generic 6"),
    ] {
        let d = ud.decrunch_bytes(&prg(&packed(to))).unwrap().unwrap();
        assert_eq!(d.cruncher, name);
        assert_eq!((d.start, d.end, d.jump_start), (0x2000, 0x21FF, 0x2000), "{name}");
        assert_eq!(d.prg.len(), 2 + 512);
    }
}

#[test]
fn first_match_wins() {
    let a = config("A", &jmp("01 01"), "stop_pc = 0x0101");
    let b = config("B", &jmp("00 01"), "stop_pc = 0x0100");
    let c = config("C", &jmp("00 01"), "stop_pc = 0x0100");
    let ud = detector(&[a.clone(), b.clone(), c.clone()]);
    let p = prg(&packed(0x0100));
    assert_eq!(ud.detect_bytes(&p).unwrap().unwrap().name(), "B");
    // The definition that does not match changes nothing.
    let ud = detector(&[b, c, a]);
    assert_eq!(ud.detect_bytes(&p).unwrap().unwrap().name(), "B");
}

#[test]
fn detection_logs_what_it_found() {
    let text = format!(
        "{}[[variant]]\nname = \"V1\"\nbase = 0x080D\npattern = \"A2\"\n[[variant]]\nname = \"V2\"\nbase = 0x080D\npattern = \"A2 00\"\n[[variant]]\nname = \"V3\"\nbase = 0x080D\npattern = \"A3\"\n",
        config("A", &jmp("00 01"), "stop_pc = 0x0100")
    );
    let ud = detector(&[text]);
    let det = ud.detect_bytes(&prg(&packed(0x0100))).unwrap().unwrap();
    // The last matching variant wins.
    assert_eq!(det.variant, Some(1));
    assert_eq!(det.name(), "V2");
    assert_eq!(det.log, [
        "0.toml: signature matched at $0801",
        "entry: SYS 2061 ($080d)",
        "variant matched: V2",
    ]);
    let d = det.decrunch().unwrap();
    assert_eq!(d.cruncher, "V2");
    assert_eq!(d.log[3], "phase 1 done: pc=$0100 after 142 instructions");
}

#[test]
fn signatures_exclude_catch_alls() {
    let all = config("All", &format!("always = true\n{SYS}"), "stop_pc = 0x0100");
    let sig = config("Sig", &jmp("00 01"), "stop_pc = 0x0100");
    let p = prg(&packed(0x0100));
    let ud = detector(&[all.clone(), sig]);
    assert_eq!(ud.detect_bytes(&p).unwrap().unwrap().name(), "All");
    assert_eq!(ud.detect_signature_bytes(&p).unwrap().unwrap().name(), "Sig");
    assert_eq!(ud.decrunch_layer(&p, None).unwrap().unwrap().cruncher, "Sig");
    let ud = detector(&[all]);
    assert!(ud.detect_signature_bytes(&p).unwrap().is_none());
    assert!(ud.decrunch_layer(&p, None).unwrap().is_none());
    assert_eq!(ud.decrunch_bytes(&p).unwrap().unwrap().cruncher, "All");
}

#[test]
fn unpacking_falls_through() {
    // The first two match but never reach their stub.
    let a = config("A", &jmp("00 01"), "stop_pc = 0x0777\ncap = 5000");
    let b = config("B", &format!("always = true\n{SYS}"), "stop_pc = 0x0778\ncap = 5000");
    let c = config("C", &jmp("00 01"), "stop_pc = 0x0100");
    let p = prg(&packed(0x0100));
    let ud = detector(&[a.clone(), b.clone(), c]);
    let d = ud.decrunch_bytes(&p).unwrap().unwrap();
    assert_eq!(d.cruncher, "C");
    assert_eq!(d.log[0], "earlier attempts failed: 0.toml, 1.toml");
    assert_eq!(d.log[1], "2.toml: signature matched at $0801");
    // Nobody finishes: nothing is returned.
    let ud = detector(&[a, b]);
    assert!(ud.decrunch_bytes(&p).unwrap().is_none());
}

#[test]
fn failed_depack_is_an_error() {
    let ud = detector(&[config("A", &jmp("00 01"), "stop_pc = 0x0777\ncap = 100")]);
    let det = ud.detect_bytes(&prg(&packed(0x0100))).unwrap().unwrap();
    let e = det.decrunch().err().unwrap();
    assert_eq!(
        e.lines().collect::<Vec<_>>(),
        [
            "detected as \"A\" but the depacker did not finish:",
            "0.toml: signature matched at $0801",
            "entry: SYS 2061 ($080d)",
            "phase 1: never reached stop_pc [1911]/below None (pc=$0818)",
        ]
    );
}

#[test]
fn empty_results_are_errors() {
    // Time Cruncher with an end below its start.
    let text = "name = \"T\"\nengine = \"timecruncher\"\n[detect]\nalways = true\nentry = \"sys\"\n[run]\nversion = 31\n";
    let ud = detector(&[String::from(text)]);
    // JMP $0100; the stub area is filled by the program itself.
    let mut code = vec![0xA2, 0x00];
    // LDA #$4C, STA $0100, LDA #$69, STA $0101, LDA #$03, STA $0102
    for (v, a) in [(0x4Cu8, 0x00u8), (0x69, 0x01), (0x03, 0x02)] {
        code.extend_from_slice(&[0xA9, v, 0x8D, a, 0x01]);
    }
    // ($FC) = $3000: start = $3001, end = $2FFF
    code.extend_from_slice(&[0xA9, 0x30, 0x85, 0xFD, 0x4C, 0x00, 0x01]);
    let det = ud.detect_bytes(&prg(&code)).unwrap().unwrap();
    assert_eq!(det.decrunch().err().unwrap(), "invalid range: start $3001 > end $2FFF");
}

#[test]
fn bad_files_are_errors() {
    let ud = UniDecrunch::new();
    let e = "file too small to be a PRG (needs load address + data)";
    assert_eq!(ud.detect_bytes(&[1, 8]).err().unwrap(), e);
    assert_eq!(ud.detect_signature_bytes(&[]).err().unwrap(), e);
    assert_eq!(ud.decrunch_bytes(&[1]).err().unwrap(), e);
    assert_eq!(ud.decrunch_layer(&[1], None).err().unwrap(), e);
    // Without definitions nothing is tried.
    assert!(detector(&[]).detect_bytes(&[1]).unwrap().is_none());
}

#[test]
fn config_errors_stop_loading() {
    let good = config("A", &jmp("00 01"), "");
    let files = vec![("a.toml", good.as_str()), ("b.toml", "x"), ("c.toml", "y")];
    assert_eq!(
        UniDecrunch::with_config_texts(&files).err().unwrap(),
        "b.toml:1: expected key = value, got: x"
    );
}

#[test]
fn entry_falls_back_to_the_run_address() {
    // No SYS line: the program starts at $080D all the same.
    let mut p = prg(&packed(0x0100));
    p[6] = 0x8F;
    let ud = detector(&[config("A", &jmp("00 01"), "stop_pc = 0x0100")]);
    assert!(ud.detect_bytes(&p).unwrap().is_none());
    assert!(ud.decrunch_layer(&p, None).unwrap().is_none());
    let d = ud.decrunch_layer(&p, Some(0x080D)).unwrap().unwrap();
    assert_eq!(d.start, 0x2000);
    assert_eq!(d.log[1], "no parsable SYS line; using fallback entry $080d");
    assert_eq!(d.log[2], "entry: SYS 2061 ($080d)");
}

#[test]
fn fixed_entries_need_no_sys_line() {
    let mut p = prg(&packed(0x0100));
    p[6] = 0x8F;
    let ud =
        detector(&[config("A", "pattern = \"*96 4C 00 01\"\nentry = 0x080D", "stop_pc = 0x0100")]);
    let det = ud.detect_bytes(&p).unwrap().unwrap();
    assert_eq!(det.log, ["0.toml: signature matched at $0801"]);
    assert_eq!(det.decrunch().unwrap().end, 0x21FF);
}

/// A CrunchAB look-alike: the loader at $080D runs to $0340, the depacker ends at
/// $040A.
fn crunchab(verify: &str, target: &str) -> UniDecrunch {
    detector(&[format!(
        "name = \"AB\"\nengine = \"crunchab\"\n[detect]\nbase = 0x080D\npattern = \"A9 4C\"\n\
         [probe]\nentry = 0x080D\ntarget = {target}\nend_ptr = 0x040E\nverify_base = 0x0340\n\
         verify_pattern = \"{verify}\"\ncap = 1000\n"
    )])
}

fn crunchab_prg() -> Vec<u8> {
    let mut code = Vec::new();
    // Put JMP $0406 at $0340, and at $0406 LDA #$1F, STA $040F, JMP $2000 with
    // $040E/$040F as the pointer: $30FF before, $1FFF after.
    for (v, a) in [
        (0x4Cu8, 0x0340u16), (0x05, 0x0341), (0x04, 0x0342), (0xA9, 0x0405), (0x1F, 0x0406),
        (0x8D, 0x0407), (0x0F, 0x0408), (0x04, 0x0409), (0x4C, 0x040A), (0x00, 0x040B),
        (0x20, 0x040C), (0xFF, 0x040E), (0x30, 0x040F),
    ] {
        code.extend_from_slice(&[0xA9, v, 0x8D, a as u8, (a >> 8) as u8]);
    }
    code.extend_from_slice(&[0x4C, 0x40, 0x03]);
    prg(&code)
}

#[test]
fn probes_run_to_their_checkpoint() {
    let ud = crunchab("4C 05 04", "0x0340");
    let det = ud.detect_bytes(&crunchab_prg()).unwrap().unwrap();
    assert_eq!(det.log, ["0.toml: signature matched at $080d", "probe ok: end=$30ff"]);
    let d = det.decrunch().unwrap();
    assert_eq!(d.cruncher, "AB");
    assert_eq!((d.start, d.end, d.jump_start), (0x2000, 0x30FF, 0x2000));
    // Relocated code that does not verify, and a checkpoint that is never reached.
    assert!(crunchab("4C 06 04", "0x0340").detect_bytes(&crunchab_prg()).unwrap().is_none());
    assert!(crunchab("4C 05 04", "0x0350").detect_bytes(&crunchab_prg()).unwrap().is_none());
}

/// A program whose result spans nearly all of RAM and is itself a crunched file.
fn double_packed() -> Vec<u8> {
    let mut code = vec![
        // bank in all RAM, copy the depacker to $0100
        0xA9, 0x34, 0x85, 0x01, 0xA2, 0x00, 0xBD, 0x21, 0x08, 0x9D, 0x00, 0x01, 0xE8, 0xE0, 0x40,
        0xD0, 0xF5, 0x4C, 0x00, 0x01,
    ];
    // $0821: fill $0900-$FEFF with zeros through ($FB),Y, touch $0801 through the same
    // pointer, erase the JMP $0100, and jump to the second depacker at $0861.
    let first = [
        0xA9, 0x00, 0x85, 0xFB, 0xA9, 0x09, 0x85, 0xFC, 0xA0, 0x00, 0xA9, 0x00, 0x91, 0xFB, 0xC8,
        0xD0, 0xFB, 0xE6, 0xFC, 0xA5, 0xFC, 0xC9, 0xFF, 0x90, 0xF1, 0xA9, 0x01, 0x85, 0xFB, 0xA9,
        0x08, 0x85, 0xFC, 0xA9, 0x0B, 0x91, 0xFB, 0xA9, 0xEA, 0x8D, 0x1E, 0x08, 0x4C, 0x61, 0x08,
    ];
    code.extend_from_slice(&first);
    code.resize(0x0861 - 0x080D, 0xEA);
    // $0861: copy the second depacker from $0876 to $0334 and run it.
    code.extend_from_slice(&[
        0xA9, 0x37, 0x85, 0x01, 0xA2, 0x00, 0xBD, 0x76, 0x08, 0x9D, 0x34, 0x03, 0xE8, 0xE0, 0x20,
        0xD0, 0xF5, 0x4C, 0x34, 0x03, 0xEA,
    ]);
    code.extend_from_slice(&packed(0x0334)[16..]);
    prg(&code)
}

#[test]
fn layers_are_peeled_and_named() {
    let a = config("Outer", &jmp("00 01"), "stop_pc = 0x0100");
    let b = config("Inner", "pattern = \"*256 4C 34 03\"\nentry = 0x0861", "stop_pc = 0x0334");
    let ud = detector(&[a, b]);
    let p = double_packed();
    let outer = ud.decrunch_layer(&p, None).unwrap().unwrap();
    assert_eq!(outer.cruncher, "Outer");
    assert_eq!((outer.start, outer.end, outer.jump_start), (0x0801, 0xFEFF, 0x080D));
    let d = ud.decrunch_bytes(&p).unwrap().unwrap();
    assert_eq!(d.cruncher, "Outer \u{2192} Inner");
    assert_eq!((d.start, d.end), (0x2000, 0x21FF));
    assert!(d
        .log
        .iter()
        .any(|l| l == "--- output spans nearly all of RAM; peeling layer 2 ---"));
    assert_eq!(d.log[..outer.log.len()], outer.log[..]);
    // Without a definition for the inner layer the outer result is kept.
    let ud = detector(&[config("Outer", &jmp("00 01"), "stop_pc = 0x0100")]);
    let d = ud.decrunch_bytes(&p).unwrap().unwrap();
    assert_eq!((d.cruncher.as_str(), d.start, d.end), ("Outer", 0x0801, 0xFEFF));
}

#[test]
fn product_is_a_prg_image() {
    let d = UniDecrunch::new().decrunch_bytes(&prg(&packed(0x0100))).unwrap().unwrap();
    assert_eq!(d.prg[0] as u16 + 256 * d.prg[1] as u16, d.start);
    assert_eq!(d.prg.len(), 2 + (d.end - d.start + 1) as usize);
    assert_eq!(d.real_start, 0x2000);
}

#[test]
fn detection_can_be_looked_into() {
    let ud = UniDecrunch::new();
    let det = ud.detect_bytes(&prg(&packed(0x0334))).unwrap().unwrap();
    assert_eq!(det.config().name, "Generic at $0334");
    assert_eq!(det.variant(), None);
    assert_eq!(det.log()[0], "53-generic-jmp-0334.toml: signature matched at $0801");
    assert_eq!(det.log().len(), 2);
}
