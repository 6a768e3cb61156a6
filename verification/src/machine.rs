//! The machine state and its execution engine: an 8-bit program
//! counter over a 256-record ROM, a 256-cell RAM of signed 64-bit
//! integers, one accumulator, a jump-target register, and the CARRY,
//! ZERO and JUMP-pending flags, driven one instruction per `step`.
//!
//! The mathematical model of the machine is `MachineView`; `step`
//! performs exactly one `MachineView::step_after` transition, and
//! `run` performs `MachineView::run_model`.

use vstd::prelude::*;
use vstd::pervasive::VecAdditionalExecFns;

use crate::codec::RomLayout;
use crate::isa::Instruction;

verus! {

/// The flag set of the machine. CARRY and ZERO are rewritten by every
/// ALU operation and read by `JC`/`JZ`; JUMP-pending is raised by a
/// taken jump and consumed by the next control advance.
#[derive(Clone, Copy, Debug, PartialEq, Eq, Structural)]
pub struct ProgramFlags {
    pub carry: bool,
    pub zero: bool,
    pub jump: bool,
}

/// The error of an execution step: an operand used as a RAM or ROM
/// address lies outside 0..=255. Execution cannot safely continue.
#[derive(Clone, Copy, Debug, PartialEq, Eq, Structural)]
pub enum ExecError {
    AddressOutOfRange,
}

/// How a bounded run ended: on a `HLT` instruction, by exhausting
/// the step bound, or on an execution error.
#[derive(Clone, Copy, Debug, PartialEq, Eq, Structural)]
pub enum RunStatus {
    Halted,
    OutOfSteps,
    Fault,
}

/// The outcome of a bounded run: everything `OUT` emitted, in order,
/// and how the run ended.
pub struct RunResult {
    pub outputs: Vec<i64>,
    pub status: RunStatus,
}

/// The mutable execution context of one run.
pub struct ProgramState {
    pub program_counter: u8,
    pub ram: Vec<i64>,
    pub rom: Vec<RomLayout>,
    pub reg_a: i64,
    pub reg_jump: u8,
    pub flags: ProgramFlags,
}

/// The mathematical model of the machine state.
#[verifier::ext_equal]
pub ghost struct MachineView {
    pub pc: u8,
    pub ram: Seq<i64>,
    pub rom: Seq<RomLayout>,
    pub reg_a: i64,
    pub reg_jump: u8,
    pub carry: bool,
    pub zero: bool,
    pub jump: bool,
}

/// The model of a bounded run: the machine left behind, everything
/// `OUT` emitted, and how the run ended.
#[verifier::ext_equal]
pub ghost struct RunModel {
    pub state: MachineView,
    pub outputs: Seq<i64>,
    pub status: RunStatus,
}

impl View for ProgramState {
    type V = MachineView;

    open spec fn view(&self) -> MachineView {
        MachineView {
            pc: self.program_counter,
            ram: self.ram@,
            rom: self.rom@,
            reg_a: self.reg_a,
            reg_jump: self.reg_jump,
            carry: self.flags.carry,
            zero: self.flags.zero,
            jump: self.flags.jump,
        }
    }
}

/// 64-bit two's-complement wraparound addition.
pub open spec fn spec_wrap_add(a: i64, b: i64) -> i64 {
    vstd::wrapping::i64_specs::wrapping_add(a, b)
}

/// 64-bit two's-complement wraparound subtraction.
pub open spec fn spec_wrap_sub(a: i64, b: i64) -> i64 {
    vstd::wrapping::i64_specs::wrapping_sub(a, b)
}

/// Whether `a + b` overflows the 64-bit signed range.
pub open spec fn spec_add_overflows(a: i64, b: i64) -> bool {
    a + b > i64::MAX || a + b < i64::MIN
}

/// Whether `a - b` overflows the 64-bit signed range.
pub open spec fn spec_sub_overflows(a: i64, b: i64) -> bool {
    a - b > i64::MAX || a - b < i64::MIN
}

impl MachineView {
    /// The structural invariant: RAM and ROM have exactly 256 cells.
    pub open spec fn wf(self) -> bool {
        self.ram.len() == 256 && self.rom.len() == 256
    }

    /// The record the program counter points at.
    pub open spec fn fetched(self) -> RomLayout {
        self.rom[self.pc as int]
    }

    /// The operand of the fetched record.
    pub open spec fn operand(self) -> i64 {
        self.fetched().value
    }

    /// Whether the fetched instruction can execute: every operand
    /// used as a RAM or ROM address must lie in 0..=255. `JC`/`JZ`
    /// use their operand only when the tested flag is set.
    pub open spec fn step_enabled(self) -> bool {
        let v = self.operand();
        match self.fetched().instruction {
            Instruction::LDA => 0 <= v < 256,
            Instruction::STA => 0 <= v < 256,
            Instruction::ADD => 0 <= v < 256,
            Instruction::SUB => 0 <= v < 256,
            Instruction::JMP => 0 <= v < 256,
            Instruction::JC => self.carry ==> 0 <= v < 256,
            Instruction::JZ => self.zero ==> 0 <= v < 256,
            Instruction::LDR => 0 <= v < 256,
            Instruction::ADR => 0 <= v < 256,
            _ => true,
        }
    }

    /// The accumulator after the fetched instruction's effect.
    pub open spec fn reg_a_after(self) -> i64 {
        let v = self.operand();
        match self.fetched().instruction {
            Instruction::LDA => self.ram[v as int],
            Instruction::ADD => spec_wrap_add(self.reg_a, self.ram[v as int]),
            Instruction::SUB => spec_wrap_sub(self.reg_a, self.ram[v as int]),
            Instruction::LDI => v,
            Instruction::ADI => spec_wrap_add(self.reg_a, v),
            Instruction::LDR => self.rom[v as int].value,
            Instruction::ADR => spec_wrap_add(self.reg_a, self.rom[v as int].value),
            _ => self.reg_a,
        }
    }

    /// The RAM after the fetched instruction's effect: only `STA`
    /// writes a cell.
    pub open spec fn ram_after(self) -> Seq<i64> {
        if self.fetched().instruction == Instruction::STA {
            self.ram.update(self.operand() as int, self.reg_a)
        } else {
            self.ram
        }
    }

    /// The CARRY flag after the fetched instruction's effect: ALU
    /// instructions recompute it, all others leave it.
    pub open spec fn carry_after(self) -> bool {
        let v = self.operand();
        match self.fetched().instruction {
            Instruction::ADD => spec_add_overflows(self.reg_a, self.ram[v as int]),
            Instruction::SUB => spec_sub_overflows(self.reg_a, self.ram[v as int]),
            Instruction::ADI => spec_add_overflows(self.reg_a, v),
            Instruction::ADR => spec_add_overflows(self.reg_a, self.rom[v as int].value),
            _ => self.carry,
        }
    }

    /// The ZERO flag after the fetched instruction's effect: ALU
    /// instructions recompute it from the new accumulator, all
    /// others leave it.
    pub open spec fn zero_after(self) -> bool {
        match self.fetched().instruction {
            Instruction::ADD => self.reg_a_after() == 0,
            Instruction::SUB => self.reg_a_after() == 0,
            Instruction::ADI => self.reg_a_after() == 0,
            Instruction::ADR => self.reg_a_after() == 0,
            _ => self.zero,
        }
    }

    /// Whether a jump is pending after the fetched instruction's
    /// effect, before the control advance consumes it.
    pub open spec fn jump_pending_after(self) -> bool {
        match self.fetched().instruction {
            Instruction::JMP => true,
            Instruction::JC => self.carry || self.jump,
            Instruction::JZ => self.zero || self.jump,
            _ => self.jump,
        }
    }

    /// The jump register after the fetched instruction's effect: a
    /// taken jump loads it with the operand.
    pub open spec fn reg_jump_after(self) -> u8 {
        match self.fetched().instruction {
            Instruction::JMP => self.operand() as u8,
            Instruction::JC => if self.carry {
                self.operand() as u8
            } else {
                self.reg_jump
            },
            Instruction::JZ => if self.zero {
                self.operand() as u8
            } else {
                self.reg_jump
            },
            _ => self.reg_jump,
        }
    }

    /// The program counter after the control advance: the jump
    /// register when a jump is pending, else the old counter plus
    /// one, wrapping from 255 back to 0.
    pub open spec fn pc_after(self) -> u8 {
        if self.jump_pending_after() {
            self.reg_jump_after()
        } else if self.pc == 255 {
            0
        } else {
            (self.pc + 1) as u8
        }
    }

    /// The value `OUT` emits to the output sink, if the fetched
    /// instruction is `OUT`: the accumulator at fetch time.
    pub open spec fn output(self) -> Option<i64> {
        if self.fetched().instruction == Instruction::OUT {
            Some(self.reg_a)
        } else {
            None
        }
    }

    /// The machine after one whole transition: the fetched
    /// instruction's effect followed by the control advance, which
    /// consumes any pending jump.
    pub open spec fn step_after(self) -> MachineView {
        MachineView {
            pc: self.pc_after(),
            ram: self.ram_after(),
            rom: self.rom,
            reg_a: self.reg_a_after(),
            reg_jump: self.reg_jump_after(),
            carry: self.carry_after(),
            zero: self.zero_after(),
            jump: false,
        }
    }

    /// The model of running at most `fuel` transitions: stepping
    /// until `HLT` executes, the fuel runs out, or a step is not
    /// enabled, collecting everything `OUT` emits along the way.
    pub open spec fn run_model(self, fuel: nat) -> RunModel
        decreases fuel,
    {
        if fuel == 0 {
            RunModel { state: self, outputs: seq![], status: RunStatus::OutOfSteps }
        } else if !self.step_enabled() {
            RunModel { state: self, outputs: seq![], status: RunStatus::Fault }
        } else {
            let next = self.step_after();
            let emitted = match self.output() {
                Some(v) => seq![v],
                None => seq![],
            };
            if self.fetched().instruction == Instruction::HLT {
                RunModel { state: next, outputs: emitted, status: RunStatus::Halted }
            } else {
                let rest = next.run_model((fuel - 1) as nat);
                RunModel {
                    state: rest.state,
                    outputs: emitted + rest.outputs,
                    status: rest.status,
                }
            }
        }
    }
}

impl ProgramState {
    /// The structural invariant: RAM and ROM have exactly 256 cells.
    pub open spec fn wf(self) -> bool {
        self@.wf()
    }

    /// A fresh machine over a loaded ROM: counter at 0, RAM zeroed,
    /// registers zeroed, all flags clear.
    pub fn new(rom: Vec<RomLayout>) -> (r: ProgramState)
        requires
            rom@.len() == 256,
        ensures
            r.wf(),
            r@ == (MachineView {
                pc: 0,
                ram: Seq::new(256, |k: int| 0i64),
                rom: rom@,
                reg_a: 0,
                reg_jump: 0,
                carry: false,
                zero: false,
                jump: false,
            }),
    {
        let mut ram: Vec<i64> = Vec::new();
        while ram.len() < 256
            invariant
                ram@.len() <= 256,
                forall|k: int| 0 <= k < ram@.len() ==> ram@[k] == 0i64,
            decreases 256 - ram@.len(),
        {
            ram.push(0);
        }
        proof {
            assert(ram@ =~= Seq::new(256, |k: int| 0i64));
        }
        ProgramState {
            program_counter: 0,
            ram,
            rom,
            reg_a: 0,
            reg_jump: 0,
            flags: ProgramFlags { carry: false, zero: false, jump: false },
        }
    }

    /// One ALU operation: the accumulator takes `reg_a + value`
    /// (or `reg_a - value` when `subtract` is set) with 64-bit
    /// two's-complement wraparound; CARRY is set exactly when the
    /// mathematical result overflowed the signed 64-bit range, ZERO
    /// exactly when the new accumulator is zero. Both flags are
    /// recomputed from scratch.
    pub fn alu(&mut self, value: i64, subtract: bool)
        ensures
            final(self).reg_a == if subtract {
                spec_wrap_sub(old(self).reg_a, value)
            } else {
                spec_wrap_add(old(self).reg_a, value)
            },
            final(self).flags.carry == if subtract {
                spec_sub_overflows(old(self).reg_a, value)
            } else {
                spec_add_overflows(old(self).reg_a, value)
            },
            final(self).flags.zero == (final(self).reg_a == 0),
            final(self).flags.jump == old(self).flags.jump,
            final(self).program_counter == old(self).program_counter,
            final(self).ram@ == old(self).ram@,
            final(self).rom@ == old(self).rom@,
            final(self).reg_jump == old(self).reg_jump,
    {
        let (result, carry) = if subtract {
            match self.reg_a.checked_sub(value) {
                Some(r) => (r, false),
                None => (self.reg_a.wrapping_sub(value), true),
            }
        } else {
            match self.reg_a.checked_add(value) {
                Some(r) => (r, false),
                None => (self.reg_a.wrapping_add(value), true),
            }
        };
        self.flags.carry = carry;
        self.flags.zero = result == 0;
        self.reg_a = result;
    }

    /// The control advance: when a jump is pending, the counter takes
    /// the jump register and the pending flag is consumed; otherwise
    /// the counter increments, wrapping from 255 back to 0.
    pub fn count(&mut self)
        ensures
            final(self).program_counter == if old(self).flags.jump {
                old(self).reg_jump
            } else if old(self).program_counter == 255 {
                0
            } else {
                (old(self).program_counter + 1) as u8
            },
            final(self).flags.jump == false,
            final(self).flags.carry == old(self).flags.carry,
            final(self).flags.zero == old(self).flags.zero,
            final(self).ram@ == old(self).ram@,
            final(self).rom@ == old(self).rom@,
            final(self).reg_a == old(self).reg_a,
            final(self).reg_jump == old(self).reg_jump,
    {
        if self.flags.jump {
            self.program_counter = self.reg_jump;
            self.flags.jump = false;
        } else if self.program_counter == 255 {
            self.program_counter = 0;
        } else {
            self.program_counter = self.program_counter + 1;
        }
    }

    /// One fetch-decode-execute transition. Returns the executed
    /// opcode (the caller stops on `HLT`) and the value `OUT` hands
    /// to the output sink, if any. Fails, leaving the state
    /// untouched, exactly when an operand used as an address is
    /// outside 0..=255.
    pub fn step(&mut self) -> (r: Result<(Instruction, Option<i64>), ExecError>)
        requires
            old(self).wf(),
        ensures
            final(self).wf(),
            r is Ok <==> old(self)@.step_enabled(),
            r matches Ok(o) ==> {
                &&& o.0 == old(self)@.fetched().instruction
                &&& o.1 == old(self)@.output()
                &&& final(self)@ == old(self)@.step_after()
            },
            r is Err ==> {
                &&& r == Err::<(Instruction, Option<i64>), ExecError>(ExecError::AddressOutOfRange)
                &&& final(self)@ == old(self)@
            },
    {
        let rec = self.rom[self.program_counter as usize];
        let v = rec.value;
        let mut output: Option<i64> = None;

        match rec.instruction {
            Instruction::NOP => {},
            Instruction::LDA => {
                if v < 0 || v > 255 {
                    return Err(ExecError::AddressOutOfRange);
                }
                self.reg_a = self.ram[v as usize];
            },
            Instruction::STA => {
                if v < 0 || v > 255 {
                    return Err(ExecError::AddressOutOfRange);
                }
                self.ram.set(v as usize, self.reg_a);
            },
            Instruction::ADD => {
                if v < 0 || v > 255 {
                    return Err(ExecError::AddressOutOfRange);
                }
                let cell = self.ram[v as usize];
                self.alu(cell, false);
            },
            Instruction::SUB => {
                if v < 0 || v > 255 {
                    return Err(ExecError::AddressOutOfRange);
                }
                let cell = self.ram[v as usize];
                self.alu(cell, true);
            },
            Instruction::OUT => {
                output = Some(self.reg_a);
            },
            Instruction::JMP => {
                if v < 0 || v > 255 {
                    return Err(ExecError::AddressOutOfRange);
                }
                self.flags.jump = true;
                self.reg_jump = v as u8;
            },
            Instruction::JC => {
                if self.flags.carry {
                    if v < 0 || v > 255 {
                        return Err(ExecError::AddressOutOfRange);
                    }
                    self.flags.jump = true;
                    self.reg_jump = v as u8;
                }
            },
            Instruction::JZ => {
                if self.flags.zero {
                    if v < 0 || v > 255 {
                        return Err(ExecError::AddressOutOfRange);
                    }
                    self.flags.jump = true;
                    self.reg_jump = v as u8;
                }
            },
            Instruction::HLT => {},
            Instruction::LDI => {
                self.reg_a = v;
            },
            Instruction::ADI => {
                self.alu(v, false);
            },
            Instruction::LDR => {
                if v < 0 || v > 255 {
                    return Err(ExecError::AddressOutOfRange);
                }
                let word = self.rom[v as usize].value;
                self.reg_a = word;
            },
            Instruction::ADR => {
                if v < 0 || v > 255 {
                    return Err(ExecError::AddressOutOfRange);
                }
                let word = self.rom[v as usize].value;
                self.alu(word, false);
            },
        }

        self.count();
        proof {
            assert(self@ =~= old(self)@.step_after());
        }
        Ok((rec.instruction, output))
    }

    /// Runs at most `max_steps` transitions, stopping early when a
    /// `HLT` executes or a step fails, and collects everything `OUT`
    /// emits, in order. The caller chooses the bound: a program that
    /// never reaches `HLT` runs forever by design, so an unbounded
    /// loop belongs to the caller.
    pub fn run(&mut self, max_steps: u64) -> (r: RunResult)
        requires
            old(self).wf(),
        ensures
            final(self).wf(),
            ({
                let m = old(self)@.run_model(max_steps as nat);
                &&& final(self)@ == m.state
                &&& r.outputs@ == m.outputs
                &&& r.status == m.status
            }),
    {
        let ghost m0 = self@;
        let ghost total = max_steps as nat;
        let mut outputs: Vec<i64> = Vec::new();
        let mut steps: u64 = 0;
        loop
            invariant
                self.wf(),
                steps <= max_steps,
                m0 == old(self)@,
                total == max_steps as nat,
                m0.run_model(total).state == self@.run_model((max_steps - steps) as nat).state,
                m0.run_model(total).outputs == outputs@ + self@.run_model(
                    (max_steps - steps) as nat,
                ).outputs,
                m0.run_model(total).status == self@.run_model((max_steps - steps) as nat).status,
            decreases max_steps - steps,
        {
            let ghost fuel = (max_steps - steps) as nat;
            let ghost pre = self@;
            if steps == max_steps {
                proof {
                    assert(outputs@ + pre.run_model(0).outputs =~= outputs@);
                }
                return RunResult { outputs, status: RunStatus::OutOfSteps };
            }
            match self.step() {
                Err(_) => {
                    proof {
                        assert(outputs@ + pre.run_model(fuel).outputs =~= outputs@);
                    }
                    return RunResult { outputs, status: RunStatus::Fault };
                },
                Ok((instruction, out)) => {
                    let ghost emitted = match pre.output() {
                        Some(v) => seq![v],
                        None => seq![],
                    };
                    match out {
                        Some(v) => outputs.push(v),
                        None => {},
                    }
                    steps = steps + 1;
                    if instruction == Instruction::HLT {
                        proof {
                            assert(pre.run_model(fuel).outputs =~= emitted);
                            assert(m0.run_model(total).outputs =~= outputs@);
                        }
                        return RunResult { outputs, status: RunStatus::Halted };
                    }
                    proof {
                        let rest = self@.run_model((max_steps - steps) as nat);
                        assert(pre.run_model(fuel).outputs =~= emitted + rest.outputs);
                        assert(m0.run_model(total).outputs =~= outputs@ + rest.outputs);
                    }
                },
            }
        }
    }
}

/// `JC` and `JZ` redirect control only when the flag they test is
/// set: when it is, the counter takes the jump target; when it is
/// not (and no jump was already pending), the counter advances by
/// exactly one, wrapping from 255 back to 0.
pub proof fn lemma_conditional_jumps(m: MachineView)
    requires
        !m.jump,
        m.step_enabled(),
        m.fetched().instruction == Instruction::JC || m.fetched().instruction == Instruction::JZ,
    ensures
        m.fetched().instruction == Instruction::JC && m.carry ==> m.step_after().pc == m.operand(),
        m.fetched().instruction == Instruction::JZ && m.zero ==> m.step_after().pc == m.operand(),
        m.fetched().instruction == Instruction::JC && !m.carry ==> m.step_after().pc == (
        if m.pc == 255 {
            0
        } else {
            m.pc + 1
        }),
        m.fetched().instruction == Instruction::JZ && !m.zero ==> m.step_after().pc == (
        if m.pc == 255 {
            0
        } else {
            m.pc + 1
        }),
{
}

/// A `JMP` whose target is its own address pins the machine: the
/// state is a fixed point of the transition, so a bounded run of any
/// length ends by exhausting its bound, emitting nothing — the loop
/// is not an error, and only the caller's bound stops it.
pub proof fn lemma_jmp_to_self_loops_forever(m: MachineView, fuel: nat)
    requires
        m.fetched().instruction == Instruction::JMP,
        m.operand() == m.pc as i64,
        m.reg_jump == m.pc,
        !m.jump,
    ensures
        m.step_after() == m,
        m.run_model(fuel) == (RunModel {
            state: m,
            outputs: Seq::<i64>::empty(),
            status: RunStatus::OutOfSteps,
        }),
    decreases fuel,
{
    assert(m.step_after() =~= m);
    if fuel > 0 {
        lemma_jmp_to_self_loops_forever(m, (fuel - 1) as nat);
        assert(seq![] + Seq::<i64>::empty() =~= Seq::<i64>::empty());
    } else {
        assert(m.run_model(fuel) =~= (RunModel {
            state: m,
            outputs: Seq::<i64>::empty(),
            status: RunStatus::OutOfSteps,
        }));
    }
}

/// The program counter wraps from 255 back to 0 on increment: a
/// step from counter 255 that takes no jump lands on 0, without any
/// overflow error.
pub proof fn lemma_pc_wraps(m: MachineView)
    requires
        m.pc == 255,
        m.step_enabled(),
        !m.jump_pending_after(),
    ensures
        m.step_after().pc == 0,
{
}

} // verus!
