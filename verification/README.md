# unidecrunch

A Verus library that detects and unpacks C64 cruncher/packer formats **without
knowing the compression algorithm**. The crunched program is executed inside a
6510 emulator, every memory write of the depacker is traced, and the unpacked
program is lifted straight out of emulated RAM.

Every function of the library carries a contract that Verus proves: what an
instruction does to the machine, which writes form a range, what a config text
means, which definition matches, and what the unpacked program is.

## Layout

| module | purpose |
|---|---|
| `bits`, `instr`, `cpu` | the 6510: flags, the opcode matrix, and the core, specified instruction by instruction |
| `c64`, `machine` | banked C64 memory, PRG images, and a ready-to-run machine |
| `ranges`, `writelist` | write-range tracing: how writes are folded into ranges and merged |
| `pattern` | byte patterns, and the BASIC `SYS` line |
| `text`, `fmt`, `toml`, `config`, `written` | config texts: characters, lines, values, cruncher definitions, and how they are written |
| `engine` | the unpack strategies: `generic` (with its traced run in `depack`), `timecruncher`, `crunchab` |
| `embedded`, `detect` | the built-in definitions, and the detector |
| `*_laws`, `engine::laws` | what holds of the library as a whole |

`app/` is the command-line front end, with everything that touches files.

## Using the library

```rust
use unidecrunch::UniDecrunch;

let ud = UniDecrunch::new();
if let Some(result) = ud.decrunch_bytes(&bytes)? {
    println!("{}: ${:04x}-${:04x}", result.cruncher, result.start, result.end);
}
```

The built-in definitions cover the families of stubs at known low addresses and, as
the last resort, any program with a SYS line; the other two engines run where a
config text selects them.

`decrunch_bytes` combines detection and unpacking and falls through to later
definitions when a matching engine fails. More definitions can be given as
config texts with `UniDecrunch::with_config_texts`:

```toml
name = "My Cruncher v1.0"
engine = "generic"

[detect]
base = 0x0801
pattern = "A9 34 85 01 *16 4C 00 01"
entry = "sys"

[run]
stop_pc = [0x0100, 0x0101]
exit_above = 0x0800
```

In a pattern, `A9` is an exact byte, `??` any byte, and `*16` a gap of up to 16
bytes before the next exact byte.

The 6510 core can be used on its own, with any memory that implements `Bus`. An
implementation states three specification functions next to `read` and `write`:
what a read returns, and what a read and a write make of the memory.
