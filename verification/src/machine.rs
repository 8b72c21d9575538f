//! A ready-to-run C64: CPU + banked memory, with helpers the engines share.

use vstd::prelude::*;

use crate::c64::C64Mem;
use crate::cpu::Cpu;

verus! {

use crate::c64::{array_of, booted_ram, power_on_mem, power_on_ram, stub_rom};
use crate::cpu::{is_running, power_on_cpu, stepped};

#[verifier::ext_equal]
pub struct Machine {
    pub cpu: Cpu,
    pub mem: C64Mem,
}

/// A machine after boot, with the KERNAL stubbed.
pub open spec fn power_on_machine() -> Machine {
    Machine {
        cpu: power_on_cpu(),
        mem: C64Mem {
            kernal: Box::new(array_of(stub_rom())),
            ..power_on_mem().with_ram(booted_ram(power_on_ram()))
        },
    }
}

/// The machine after one instruction.
pub open spec fn machine_stepped(m: Machine) -> Machine {
    let (cpu, mem) = stepped(m.cpu, m.mem);
    Machine { cpu, mem }
}

/// What a run waits for.
pub enum Goal {
    /// The PC lands on one of these addresses.
    OneOf(Seq<u16>),
    /// The PC drops below this address.
    Below(u16),
}

impl Goal {
    pub open spec fn reached(self, pc: u16) -> bool {
        match self {
            Goal::OneOf(targets) => targets.contains(pc),
            Goal::Below(limit) => pc < limit,
        }
    }
}

/// Run until the goal is reached: whether it was, and the machine at that point.
/// The run fails when the CPU stops or `cap` instructions elapse.
pub open spec fn run_to(m: Machine, goal: Goal, cap: nat) -> (bool, Machine)
    decreases cap,
{
    if cap == 0 {
        (false, m)
    } else {
        let next = machine_stepped(m);
        if !is_running(next.cpu) {
            (false, next)
        } else if goal.reached(next.cpu.pc) {
            (true, next)
        } else {
            run_to(next, goal, (cap - 1) as nat)
        }
    }
}

/// Whether `x` is among `items`.
pub fn contains_word(items: &[u16], x: u16) -> (b: bool)
    ensures
        b == items@.contains(x),
{
    let mut i: usize = 0;
    while i < items.len()
        invariant
            i <= items@.len(),
            forall|j: int| 0 <= j < i ==> items@[j] != x,
        decreases items@.len() - i,
    {
        if items[i] == x {
            return true;
        }
        i = i + 1;
    }
    false
}

impl Machine {
    pub fn new() -> (m: Machine)
        ensures
            m == power_on_machine(),
    {
        let mut mem: C64Mem = C64Mem::new();
        mem.init_basic_env();
        mem.stub_kernal();
        Machine { cpu: Cpu::new(), mem }
    }

    /// Execute one instruction; false once the CPU has stopped.
    pub fn step(&mut self) -> (go_on: bool)
        ensures
            *final(self) == machine_stepped(*old(self)),
            go_on == is_running(final(self).cpu),
    {
        self.cpu.step(&mut self.mem)
    }

    /// Run until the PC lands on one of `targets`. Returns true when a target is
    /// reached; false when the CPU stops (JAM/BRK) or `cap` instructions elapse.
    pub fn run_until(&mut self, targets: &[u16], cap: u64) -> (hit: bool)
        ensures
            (hit, *final(self)) == run_to(*old(self), Goal::OneOf(targets@), cap as nat),
    {
        let ghost goal = Goal::OneOf(targets@);
        let mut n: u64 = 0;
        while n < cap
            invariant
                n <= cap,
                goal == Goal::OneOf(targets@),
                run_to(*self, goal, (cap - n) as nat) == run_to(*old(self), goal, cap as nat),
            decreases cap - n,
        {
            if !self.step() {
                return false;
            }
            n = n + 1;
            if contains_word(targets, self.cpu.pc) {
                return true;
            }
        }
        false
    }

    /// Run until the PC drops below `limit`, with the same limits as
    /// [`Machine::run_until`].
    pub fn run_below(&mut self, limit: u16, cap: u64) -> (hit: bool)
        ensures
            (hit, *final(self)) == run_to(*old(self), Goal::Below(limit), cap as nat),
    {
        let ghost goal = Goal::Below(limit);
        let mut n: u64 = 0;
        while n < cap
            invariant
                n <= cap,
                goal == Goal::Below(limit),
                run_to(*self, goal, (cap - n) as nat) == run_to(*old(self), goal, cap as nat),
            decreases cap - n,
        {
            if !self.step() {
                return false;
            }
            n = n + 1;
            if self.cpu.pc < limit {
                return true;
            }
        }
        false
    }
}

impl Default for Machine {
    fn default() -> (m: Machine)
        ensures
            m == power_on_machine(),
    {
        Machine::new()
    }
}

// ---------------------------------------------------------------------------
// Laws
// ---------------------------------------------------------------------------

/// A run that reaches its goal leaves a running CPU with the PC on the goal.
pub proof fn successful_run_stands_on_its_goal(m: Machine, goal: Goal, cap: nat)
    ensures
        run_to(m, goal, cap).0 ==> {
            &&& is_running(run_to(m, goal, cap).1.cpu)
            &&& goal.reached(run_to(m, goal, cap).1.cpu.pc)
        },
    decreases cap,
{
    if cap > 0 {
        successful_run_stands_on_its_goal(machine_stepped(m), goal, (cap - 1) as nat);
    }
}

/// A higher instruction cap never changes a run that reaches its goal.
pub proof fn higher_cap_keeps_a_successful_run(m: Machine, goal: Goal, cap: nat, higher: nat)
    requires
        run_to(m, goal, cap).0,
        cap <= higher,
    ensures
        run_to(m, goal, higher) == run_to(m, goal, cap),
    decreases cap,
{
    let next = machine_stepped(m);
    if is_running(next.cpu) && !goal.reached(next.cpu.pc) {
        higher_cap_keeps_a_successful_run(next, goal, (cap - 1) as nat, (higher - 1) as nat);
    }
}

/// A halted machine reaches no goal and stays as it is.
pub proof fn halted_machine_reaches_nothing(m: Machine, goal: Goal, cap: nat)
    requires
        !is_running(m.cpu),
    ensures
        run_to(m, goal, cap) == (false, m),
{
}

/// The machine after `n` instructions.
pub open spec fn stepped_times(m: Machine, n: nat) -> Machine
    decreases n,
{
    if n == 0 {
        m
    } else {
        machine_stepped(stepped_times(m, (n - 1) as nat))
    }
}

proof fn first_step_first(m: Machine, n: nat)
    ensures
        stepped_times(m, n + 1) == stepped_times(machine_stepped(m), n),
    decreases n,
{
    if n > 0 {
        first_step_first(m, (n - 1) as nat);
    } else {
        assert(stepped_times(m, 1) == machine_stepped(stepped_times(m, 0)));
    }
}

/// The PC is where the run is to end: on one of the addresses, or below the limit.
pub open spec fn has_arrived(goal: Goal, pc: u16) -> bool {
    match goal {
        Goal::OneOf(targets) => exists|i: int| 0 <= i < targets.len() && #[trigger] targets[i] == pc,
        Goal::Below(limit) => pc < limit,
    }
}

/// After `n` instructions the machine runs and has arrived, and it did so at none of the
/// instructions before, at all of which it was still running.
pub open spec fn arrives_at(m: Machine, goal: Goal, n: nat) -> bool {
    &&& n >= 1
    &&& forall|k: nat| 1 <= k <= n ==> is_running((#[trigger] stepped_times(m, k)).cpu)
    &&& forall|k: nat|
        1 <= k < n ==> !has_arrived(goal, (#[trigger] stepped_times(m, k)).cpu.pc)
    &&& has_arrived(goal, stepped_times(m, n).cpu.pc)
}

/// A run stops at the first instruction that arrives: it succeeds exactly when the machine
/// arrives within the cap, and leaves the machine as it is there.
pub proof fn runs_stop_at_the_first_arrival(m: Machine, goal: Goal, cap: nat)
    ensures
        run_to(m, goal, cap).0 ==> exists|n: nat|
            n <= cap && #[trigger] arrives_at(m, goal, n) && run_to(m, goal, cap).1
                == stepped_times(m, n),
        forall|n: nat| n <= cap && #[trigger] arrives_at(m, goal, n) ==> run_to(m, goal, cap).0,
    decreases cap,
{
    reveal_with_fuel(stepped_times, 2);
    if cap > 0 {
        let next = machine_stepped(m);
        assert(stepped_times(m, 1) == next);
        if is_running(next.cpu) && goal.reached(next.cpu.pc) {
            assert(arrives_at(m, goal, 1));
        } else if is_running(next.cpu) {
            let fuel = (cap - 1) as nat;
            runs_stop_at_the_first_arrival(next, goal, fuel);
            if run_to(m, goal, cap).0 {
                let n = choose|n: nat|
                    n <= fuel && #[trigger] arrives_at(next, goal, n) && run_to(next, goal, fuel).1
                        == stepped_times(next, n);
                first_step_first(m, n);
                assert forall|k: nat| 1 <= k <= n + 1 implies is_running(
                    (#[trigger] stepped_times(m, k)).cpu,
                ) by {
                    if k > 1 {
                        first_step_first(m, (k - 1) as nat);
                        assert(is_running(stepped_times(next, (k - 1) as nat).cpu));
                    }
                }
                assert forall|k: nat| 1 <= k < n + 1 implies !has_arrived(
                    goal,
                    (#[trigger] stepped_times(m, k)).cpu.pc,
                ) by {
                    if k > 1 {
                        first_step_first(m, (k - 1) as nat);
                        assert(!has_arrived(goal, stepped_times(next, (k - 1) as nat).cpu.pc));
                    }
                }
                assert(arrives_at(m, goal, n + 1));
            }
            assert forall|n: nat| n <= cap && #[trigger] arrives_at(m, goal, n) implies run_to(
                m,
                goal,
                cap,
            ).0 by {
                if n > 1 {
                    let q = (n - 1) as nat;
                    first_step_first(m, q);
                    assert forall|k: nat| 1 <= k <= q implies is_running(
                        (#[trigger] stepped_times(next, k)).cpu,
                    ) by {
                        first_step_first(m, k);
                        assert(is_running(stepped_times(m, k + 1).cpu));
                    }
                    assert forall|k: nat| 1 <= k < q implies !has_arrived(
                        goal,
                        (#[trigger] stepped_times(next, k)).cpu.pc,
                    ) by {
                        first_step_first(m, k);
                        assert(!has_arrived(goal, stepped_times(m, k + 1).cpu.pc));
                    }
                    assert(arrives_at(next, goal, q));
                } else {
                    assert(has_arrived(goal, next.cpu.pc));
                }
            }
        } else {
            assert forall|n: nat| n <= cap && #[trigger] arrives_at(m, goal, n) implies run_to(
                m,
                goal,
                cap,
            ).0 by {
                assert(is_running(stepped_times(m, 1).cpu));
            }
        }
    }
}

/// A new machine has the CPU at power-on, memory at power-on with the BASIC environment
/// set up, and the stubbed KERNAL.
pub proof fn new_machine_is_booted(a: int)
    requires
        0 <= a < 0x10000,
    ensures
        ({
            let m = power_on_machine();
            &&& m.cpu == power_on_cpu()
            &&& m.mem.ram@ == booted_ram(power_on_ram())
            &&& m.mem.kernal@ == stub_rom()
            &&& m.mem.ram@[1] == 0x37
            &&& m.mem.basic == power_on_mem().basic && m.mem.io == power_on_mem().io
            &&& m.mem.chargen == power_on_mem().chargen
        }),
{
    crate::c64::array_of_holds::<0x10000>(booted_ram(power_on_ram()));
    crate::c64::array_of_holds::<0x2000>(stub_rom());
}

} // verus!
