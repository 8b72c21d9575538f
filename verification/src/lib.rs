//! Detection and generic unpacking of C64 cruncher formats.
//!
//! The library runs a crunched PRG inside a 6510 emulator, watches what the
//! decruncher writes where, and extracts the unpacked program without knowing
//! the compression format. Recognition signatures live in small config texts
//! (see [`toml`] and [`config`]); the unpack strategies ("engines") live in
//! [`engine`].
//!
//! Every function states in its contract what it returns or changes, over
//! specification functions that describe the machine, the traces and the
//! decisions mathematically.

pub mod bits;
pub mod c64;
pub mod config;
pub mod config_laws;
pub mod cpu;
pub mod cpu_laws;
pub mod decimal_laws;
pub mod definition_laws;
pub mod detect;
pub mod detect_laws;
pub mod detection_laws;
pub mod embedded;
pub mod embedded_laws;
pub mod engine;
pub mod fmt;
pub mod instr;
pub mod machine;
pub mod memory_laws;
pub mod modify_laws;
pub mod opcode_laws;
pub mod operand_laws;
pub mod pattern;
pub mod pattern_laws;
pub mod ranges;
pub mod stack_laws;
pub mod text;
pub mod text_laws;
pub mod toml;
pub mod trace_laws;
pub mod value_laws;
pub mod writelist;
pub mod written;

pub use c64::C64Mem;
pub use cpu::{Bus, Cpu, MemOp};
pub use detect::{Decrunched, Detection, UniDecrunch};
pub use instr::AddrMode;
pub use machine::Machine;
