//! Unpack engines. The configs select which engine runs and parameterize it;
//! the engines contain the run/trace/analyze logic.

use vstd::prelude::*;

use crate::config::{CruncherConfig, EngineKind, VariantCfg};
use crate::machine::Machine;

pub mod crunchab;
pub mod depack;
pub mod generic;
pub mod laws;
pub mod payload_laws;
pub mod run_laws;
pub mod timecruncher;

verus! {

use crate::config::{Definition, Variant};
use crate::engine::crunchab::crunchab_run;
use crate::engine::generic::generic_run;
use crate::engine::timecruncher::timecruncher_run;
use crate::fmt::{texts, texts_push};

/// What an engine found out.
pub struct EngineResult {
    pub ok: bool,
    /// Refined name (behavioral classification); None keeps the config/variant name.
    pub name: Option<String>,
    /// First address of the unpacked program (what gets saved).
    pub start: u16,
    /// The start address before any $0801 snapping/adjustment.
    pub real_start: u16,
    /// Last address of the unpacked program (inclusive).
    pub end: u16,
    /// Where the decruncher jumped to start the unpacked program.
    pub jump_start: u16,
}

/// The meaning of an engine's result.
pub struct Finding {
    pub ok: bool,
    pub name: Option<Seq<char>>,
    pub start: u16,
    pub real_start: u16,
    pub end: u16,
    pub jump_start: u16,
}

/// The text of an optional string.
pub open spec fn optional_text(s: Option<String>) -> Option<Seq<char>> {
    match s {
        Some(s) => Some(s@),
        None => None,
    }
}

impl View for EngineResult {
    type V = Finding;

    open spec fn view(&self) -> Finding {
        Finding {
            ok: self.ok,
            name: optional_text(self.name),
            start: self.start,
            real_start: self.real_start,
            end: self.end,
            jump_start: self.jump_start,
        }
    }
}

/// A run that found nothing.
pub open spec fn failure() -> Finding {
    Finding { ok: false, name: None, start: 0, real_start: 0, end: 0, jump_start: 0 }
}

/// A finished engine run: what it found, the machine it left, the lines it logged.
pub struct EngineRun {
    pub finding: Finding,
    pub machine: Machine,
    pub log: Seq<Seq<char>>,
}

pub open spec fn failed_run(machine: Machine, log: Seq<Seq<char>>) -> EngineRun {
    EngineRun { finding: failure(), machine, log }
}

pub open spec fn variant_of(v: Option<&VariantCfg>) -> Option<Variant> {
    match v {
        Some(v) => Some(v@),
        None => None,
    }
}

impl EngineResult {
    pub fn failed() -> (r: EngineResult)
        ensures
            r@ == failure(),
    {
        EngineResult { ok: false, name: None, start: 0, real_start: 0, end: 0, jump_start: 0 }
    }
}

/// Append a line to a log.
pub fn note(log: &mut Vec<String>, line: String)
    ensures
        texts(final(log)@) == texts(old(log)@).push(line@),
{
    proof {
        texts_push(log@, line);
    }
    log.push(line);
}

/// What the selected engine makes of a machine.
pub open spec fn engine_run(
    d: Definition,
    variant: Option<Variant>,
    probe_end: Option<u16>,
    m: Machine,
) -> EngineRun {
    match d.engine {
        EngineKind::Generic => generic_run(d, variant, m),
        EngineKind::TimeCruncher => timecruncher_run(d, m),
        EngineKind::CrunchAB => crunchab_run(d, probe_end, m),
    }
}

/// Run the engine a config selects.
pub fn run(
    cfg: &CruncherConfig,
    variant: Option<&VariantCfg>,
    probe_end: Option<u16>,
    m: &mut Machine,
    log: &mut Vec<String>,
) -> (r: EngineResult)
    ensures
        ({
            let e = engine_run(cfg@, variant_of(variant), probe_end, *old(m));
            &&& r@ == e.finding
            &&& *final(m) == e.machine
            &&& texts(final(log)@) == texts(old(log)@) + e.log
        }),
{
    match cfg.engine {
        EngineKind::Generic => generic::run(cfg, variant, m, log),
        EngineKind::TimeCruncher => timecruncher::run(cfg, m, log),
        EngineKind::CrunchAB => crunchab::run(cfg, probe_end, m, log),
    }
}

} // verus!
