//! The interpreter: register file, action log, and the fetch-execute
//! stepper with exact step-back.
//!
//! `step` executes the instruction at the program counter against the
//! register file and the cached memory, appends the step's micro-effects
//! to the log, and advances (or, on a fault, halts). Its contract is the
//! machine model in [`crate::machine`]: the new state is exactly
//! [`Machine::step_spec`] of the old one. `step_back` reverse-applies the
//! most recent completed step's log entries, restoring registers, memory
//! and program counter exactly.

use crate::cache::Cache;
use crate::machine::{
    spec_alu_i, spec_alu_r, spec_branch_taken, spec_load_value, spec_reg_read, spec_reg_write,
    spec_shift, spec_sra, to_signed32, Machine,
};
use crate::memory::{Memory, MemoryAccess, MemoryInterface};
use crate::subword::{
    exec_sign_extend_byte, exec_sign_extend_half, exec_word_byte, exec_word_half,
    exec_word_set_byte, exec_word_set_half,
};
use crate::isa::{
    lemma_register_index_range, IOpcode, Instruction, ROpcode, RShiftOpcode, Register, SBOpcode,
    SOpcode,
};
use crate::types::Word;
use vstd::arithmetic::div_mod::{lemma_mod_add_multiples_vanish, lemma_small_mod};
use vstd::prelude::*;

verus! {

/// The 32 general-purpose registers. Slot 0 backs `X0`, the hard-wired
/// zero register: it starts at zero and writes to it are discarded, so it
/// always reads as zero.
#[derive(Debug)]
pub struct RegisterFile {
    registers: Vec<u32>,
}

impl View for RegisterFile {
    type V = Seq<u32>;

    closed spec fn view(&self) -> Seq<u32> {
        self.registers@
    }
}

impl RegisterFile {
    /// A register file of 32 zeroed registers.
    pub fn new() -> (rf: RegisterFile)
        ensures
            rf@.len() == 32,
            forall|i: int| 0 <= i < 32 ==> rf@[i] == 0u32,
    {
        RegisterFile { registers: vec![0u32; 32] }
    }

    /// Store `value` in `reg`; a write to `X0` is silently discarded.
    pub fn write_word(&mut self, reg: Register, value: Word)
        requires
            old(self)@.len() == 32,
        ensures
            final(self)@ == spec_reg_write(old(self)@, reg, value.0),
    {
        let index = reg.as_num();
        if index == 0 {
            return ;
        }
        self.registers[index] = value.0;
    }

    /// The current value of `reg`.
    pub fn read_word(&self, reg: Register) -> (w: Word)
        requires
            self@.len() == 32,
        ensures
            w.0 == spec_reg_read(self@, reg),
    {
        Word(self.registers[reg.as_num()])
    }
}

/// One observable micro-effect of a step, as recorded in the action log.
#[derive(Clone, Copy, Debug, PartialEq, Eq, Structural)]
pub enum Action {
    /// A source register was read: the register and the value seen.
    ReadRegister(Register, Word),
    /// A register was written: the register, its value before, and the
    /// value written. A write to `X0` is logged but was discarded.
    WriteRegister(Register, Word, Word),
    /// The program counter moved: its value before and after the step.
    Jump(usize, usize),
    /// The step waited this many cycles on the memory subsystem.
    Stall(usize),
    /// Memory was written: the effective address, and the enclosing
    /// word's value before and after (sub-word stores record the whole
    /// word, which is what reversing the step restores).
    WriteMemory(Word, Word, Word),
    /// The step faulted; no effect was applied and the run halted.
    Error,
}

/// Why a step failed. The first three are run faults: they halt the
/// machine and leave an `Error` entry in the log. The last two report a
/// step attempted on a machine that is no longer running.
#[derive(Clone, Copy, Debug, PartialEq, Eq, Structural)]
pub enum Fault {
    /// A memory access beyond the end of memory.
    InvalidAddress,
    /// A half-word access at an odd address.
    AlignmentFault,
    /// An opcode whose execution semantics are not defined.
    UnsupportedInstruction,
    /// The machine already halted on an earlier fault.
    Halted,
    /// The program counter has advanced past the end of the program.
    Finished,
}

/// The run state of the interpreter.
#[derive(Clone, Copy, Debug, PartialEq, Eq, Structural)]
pub enum State {
    /// The program counter addresses a valid instruction.
    Ready,
    /// A fault occurred; no further stepping is possible.
    Halted,
    /// The program counter advanced past the end of the program.
    Finished,
}

/// Addition that wraps modulo 2^32.
fn exec_add(a: u32, b: u32) -> (v: u32)
    ensures
        v == (a + b) % 0x1_0000_0000,
{
    ((a as u64 + b as u64) % 0x1_0000_0000) as u32
}

/// Subtraction that wraps modulo 2^32.
fn exec_sub(a: u32, b: u32) -> (v: u32)
    ensures
        v == (a - b) % 0x1_0000_0000,
{
    proof {
        lemma_mod_add_multiples_vanish(a - b, 0x1_0000_0000);
        if a >= b {
            lemma_small_mod((a - b) as nat, 0x1_0000_0000nat);
        } else {
            lemma_small_mod((a + 0x1_0000_0000 - b) as nat, 0x1_0000_0000nat);
        }
    }
    ((a as u64 + 0x1_0000_0000u64 - b as u64) % 0x1_0000_0000) as u32
}

/// Signed comparison of two words.
fn signed_lt(a: u32, b: u32) -> (r: bool)
    ensures
        r == (to_signed32(a) < to_signed32(b)),
{
    let an = a >= 0x8000_0000;
    let bn = b >= 0x8000_0000;
    if an != bn {
        an
    } else {
        a < b
    }
}

/// Arithmetic right shift by the low five bits of `s`.
fn exec_sra(a: u32, s: u32) -> (v: u32)
    ensures
        v == spec_sra(a, s),
{
    let sh = s % 32;
    ((a as i32) >> sh) as u32
}

/// The result of an immediate-operand ALU instruction.
fn exec_alu_i(op: IOpcode, a: u32, imm: u32) -> (v: u32)
    ensures
        v == spec_alu_i(op, a, imm),
{
    match op {
        IOpcode::ADDI => exec_add(a, imm),
        IOpcode::SLTI => if signed_lt(a, imm) {
            1
        } else {
            0
        },
        IOpcode::SLTIU => if a < imm {
            1
        } else {
            0
        },
        IOpcode::XORI => a ^ imm,
        IOpcode::ORI => a | imm,
        IOpcode::ANDI => a & imm,
        _ => 0,
    }
}

/// The result of a register-register ALU instruction.
fn exec_alu_r(op: ROpcode, a: u32, b: u32) -> (v: u32)
    ensures
        v == spec_alu_r(op, a, b),
{
    match op {
        ROpcode::ADD => exec_add(a, b),
        ROpcode::SUB => exec_sub(a, b),
        ROpcode::SLL => a << (b % 32),
        ROpcode::SLT => if signed_lt(a, b) {
            1
        } else {
            0
        },
        ROpcode::SLTU => if a < b {
            1
        } else {
            0
        },
        ROpcode::XOR => a ^ b,
        ROpcode::SRL => a >> (b % 32),
        ROpcode::SRA => exec_sra(a, b),
        ROpcode::OR => a | b,
        ROpcode::AND => a & b,
    }
}

/// The result of a shift-immediate instruction.
fn exec_shift(op: RShiftOpcode, a: u32, shamt: u32) -> (v: u32)
    ensures
        v == spec_shift(op, a, shamt),
{
    match op {
        RShiftOpcode::SLLI => a << (shamt % 32),
        RShiftOpcode::SRLI => a >> (shamt % 32),
        RShiftOpcode::SRAI => exec_sra(a, shamt),
    }
}

/// Whether a conditional branch is taken.
fn exec_branch_taken(op: SBOpcode, a: u32, b: u32) -> (r: bool)
    ensures
        r == spec_branch_taken(op, a, b),
{
    match op {
        SBOpcode::BEQ => a == b,
        SBOpcode::BNE => a != b,
        SBOpcode::BLT => signed_lt(a, b),
        SBOpcode::BGE => !signed_lt(a, b),
        SBOpcode::BLTU => a < b,
        SBOpcode::BGEU => a >= b,
    }
}

/// The interpreter: it owns the register file, the memory and the cache,
/// borrows the decoded program, and accumulates the action log across the
/// whole run.
pub struct Interpreter<'a> {
    register_file: RegisterFile,
    memory: Memory,
    cache: Cache,
    program: &'a [Instruction],
    pc: usize,
    state: State,
    actions: Vec<Action>,
}

impl<'a> View for Interpreter<'a> {
    type V = Machine;

    closed spec fn view(&self) -> Machine {
        Machine {
            regs: self.register_file@,
            mem: self.memory.contents(),
            cache: self.cache@,
            pc: self.pc as nat,
            state: self.state,
            log: self.actions@,
            program: self.program@,
        }
    }
}

impl<'a> Interpreter<'a> {
    /// Whether the interpreter is in a consistent state; established by
    /// `new` and preserved by every operation.
    pub closed spec fn wf(&self) -> bool {
        self@.wf()
    }

    /// A fresh interpreter: zeroed registers, `memory_words` words of
    /// zeroed memory behind an empty four-set cache of four-word blocks,
    /// the program counter at zero, and an empty log. The machine is
    /// `Ready`, or already `Finished` when the program is empty.
    pub fn new(memory_words: usize, program: &'a [Instruction]) -> (interp: Interpreter<'a>)
        ensures
            interp.wf(),
            interp@.regs =~= Seq::new(32, |i: int| 0u32),
            interp@.mem =~= Seq::new(memory_words as nat, |i: int| 0u32),
            interp@.pc == 0,
            interp@.log =~= Seq::<Action>::empty(),
            interp@.program == program@,
            interp@.cache.num_sets == 4,
            interp@.cache.block_words == 4,
            forall|i: int| 0 <= i < 4 ==> !(#[trigger] interp@.cache.lines[i]).valid,
            interp@.state == (if program@.len() > 0 {
                State::Ready
            } else {
                State::Finished
            }),
    {
        let state = if program.len() > 0 {
            State::Ready
        } else {
            State::Finished
        };
        let interp = Interpreter {
            register_file: RegisterFile::new(),
            memory: Memory::new(memory_words),
            cache: Cache::new(4, 4),
            program,
            pc: 0,
            state,
            actions: Vec::new(),
        };
        interp
    }

    /// Read-only access to the register file.
    pub fn registers(&self) -> (r: &RegisterFile)
        ensures
            r@ == self@.regs,
    {
        &self.register_file
    }

    /// The accumulated action log, for non-consuming traversal.
    pub fn iter(&self) -> (r: &Vec<Action>)
        ensures
            r@ == self@.log,
    {
        &self.actions
    }

    /// The current run state.
    pub fn state(&self) -> (s: State)
        ensures
            s == self@.state,
    {
        self.state
    }

    /// Append the error entry and halt; nothing else changes.
    fn commit_fault(&mut self)
        ensures
            final(self)@.log == old(self)@.log + seq![Action::Error],
            final(self)@.state == State::Halted,
            final(self)@.regs == old(self)@.regs,
            final(self)@.mem == old(self)@.mem,
            final(self)@.cache == old(self)@.cache,
            final(self)@.pc == old(self)@.pc,
            final(self)@.program == old(self)@.program,
    {
        self.actions.push(Action::Error);
        self.state = State::Halted;
        proof {
            assert(self@.log =~= old(self)@.log + seq![Action::Error]);
        }
    }

    /// Append the stall entry (when nonzero) and the closing jump to
    /// `pc + 1`, and advance: past the last instruction the run finishes
    /// with the counter parked at the program's length.
    fn commit_advance(&mut self, stall: usize)
        requires
            old(self)@.state == State::Ready,
            old(self)@.pc < old(self)@.program.len(),
        ensures
            final(self)@.log == old(self)@.log + (if stall > 0 {
                seq![Action::Stall(stall)]
            } else {
                Seq::<Action>::empty()
            }) + seq![Action::Jump(old(self)@.pc as usize, final(self)@.pc as usize)],
            final(self)@.pc == (if old(self)@.pc + 1 < old(self)@.program.len() {
                old(self)@.pc + 1
            } else {
                old(self)@.program.len()
            }),
            final(self)@.state == (if old(self)@.pc + 1 < old(self)@.program.len() {
                State::Ready
            } else {
                State::Finished
            }),
            final(self)@.regs == old(self)@.regs,
            final(self)@.mem == old(self)@.mem,
            final(self)@.cache == old(self)@.cache,
            final(self)@.program == old(self)@.program,
    {
        if stall > 0 {
            self.actions.push(Action::Stall(stall));
        }
        let plen = self.program.len();
        let next = self.pc + 1;
        if next < plen {
            self.actions.push(Action::Jump(self.pc, next));
            self.pc = next;
        } else {
            self.actions.push(Action::Jump(self.pc, plen));
            self.pc = plen;
            self.state = State::Finished;
        }
        proof {
            assert(self@.log =~= old(self)@.log + (if stall > 0 {
                seq![Action::Stall(stall)]
            } else {
                Seq::<Action>::empty()
            }) + seq![Action::Jump(old(self)@.pc as usize, self@.pc as usize)]);
        }
    }

    /// Execute a shift-immediate instruction.
    fn step_rshift(&mut self, op: RShiftOpcode, rd: Register, rs1: Register, shamt: u32) -> (r:
        Result<(), Fault>)
        requires
            old(self).wf(),
            old(self)@.state == State::Ready,
            old(self)@.program[old(self)@.pc as int] == (Instruction::RShift {
                opcode: op,
                rd,
                rs1,
                shamt,
            }),
        ensures
            final(self).wf(),
            final(self)@ == old(self)@.step_spec().0,
            r == Ok::<(), Fault>(()),
    {
        let a = self.register_file.read_word(rs1);
        let rd_orig = self.register_file.read_word(rd);
        self.actions.push(Action::ReadRegister(rs1, a));
        let v = Word(exec_shift(op, a.0, shamt));
        self.register_file.write_word(rd, v);
        self.actions.push(Action::WriteRegister(rd, rd_orig, v));
        self.commit_advance(0);
        proof {
            let m = old(self)@;
            lemma_register_index_range(rd);
            lemma_register_index_range(rs1);
            let mn = m.step_rshift_spec(op, rd, rs1, shamt).0;
            m.lemma_finish_wf(
                spec_reg_write(m.regs, rd, spec_shift(op, spec_reg_read(m.regs, rs1), shamt)),
                m.mem,
                m.cache,
                seq![
                    Action::ReadRegister(rs1, Word(spec_reg_read(m.regs, rs1))),
                    Action::WriteRegister(
                        rd,
                        Word(spec_reg_read(m.regs, rd)),
                        Word(spec_shift(op, spec_reg_read(m.regs, rs1), shamt)),
                    ),
                ],
                0,
                m.pc + 1int,
            );
            assert(self@.log =~= mn.log);
            assert(self@ == mn);
        }
        Ok(())
    }

    /// Execute a register-register ALU instruction.
    fn step_r(&mut self, op: ROpcode, rd: Register, rs1: Register, rs2: Register) -> (r: Result<
        (),
        Fault,
    >)
        requires
            old(self).wf(),
            old(self)@.state == State::Ready,
            old(self)@.program[old(self)@.pc as int] == (Instruction::R {
                opcode: op,
                rd,
                rs1,
                rs2,
            }),
        ensures
            final(self).wf(),
            final(self)@ == old(self)@.step_spec().0,
            r == Ok::<(), Fault>(()),
    {
        let a = self.register_file.read_word(rs1);
        let b = self.register_file.read_word(rs2);
        let rd_orig = self.register_file.read_word(rd);
        self.actions.push(Action::ReadRegister(rs1, a));
        self.actions.push(Action::ReadRegister(rs2, b));
        let v = Word(exec_alu_r(op, a.0, b.0));
        self.register_file.write_word(rd, v);
        self.actions.push(Action::WriteRegister(rd, rd_orig, v));
        self.commit_advance(0);
        proof {
            let m = old(self)@;
            lemma_register_index_range(rd);
            let mn = m.step_r_spec(op, rd, rs1, rs2).0;
            m.lemma_finish_wf(
                spec_reg_write(
                    m.regs,
                    rd,
                    spec_alu_r(op, spec_reg_read(m.regs, rs1), spec_reg_read(m.regs, rs2)),
                ),
                m.mem,
                m.cache,
                seq![
                    Action::ReadRegister(rs1, Word(spec_reg_read(m.regs, rs1))),
                    Action::ReadRegister(rs2, Word(spec_reg_read(m.regs, rs2))),
                    Action::WriteRegister(
                        rd,
                        Word(spec_reg_read(m.regs, rd)),
                        Word(spec_alu_r(op, spec_reg_read(m.regs, rs1), spec_reg_read(m.regs, rs2))),
                    ),
                ],
                0,
                m.pc + 1int,
            );
            assert(self@.log =~= mn.log);
            assert(self@ == mn);
        }
        Ok(())
    }

    /// Execute an immediate-format instruction: an ALU form, a load, or
    /// the unimplemented `JALR`/`SCALL`.
    fn step_i(&mut self, op: IOpcode, rd: Register, rs1: Register, imm: u32) -> (r: Result<
        (),
        Fault,
    >)
        requires
            old(self).wf(),
            old(self)@.state == State::Ready,
            old(self)@.program[old(self)@.pc as int] == (Instruction::I {
                opcode: op,
                rd,
                rs1,
                imm,
            }),
        ensures
            final(self).wf(),
            final(self)@ == old(self)@.step_spec().0,
            old(self)@.step_spec().1 is None ==> r == Ok::<(), Fault>(()),
            old(self)@.step_spec().1 matches Some(f) ==> r == Err::<(), Fault>(f),
    {
        let ghost m = old(self)@;
        let ghost reads = seq![
            Action::ReadRegister(rs1, Word(spec_reg_read(m.regs, rs1))),
        ];
        let a = self.register_file.read_word(rs1);
        self.actions.push(Action::ReadRegister(rs1, a));
        let rd_orig = self.register_file.read_word(rd);
        match op {
            IOpcode::ADDI | IOpcode::SLTI | IOpcode::SLTIU | IOpcode::XORI | IOpcode::ORI
                | IOpcode::ANDI => {
                let v = Word(exec_alu_i(op, a.0, imm));
                self.register_file.write_word(rd, v);
                self.actions.push(Action::WriteRegister(rd, rd_orig, v));
                self.commit_advance(0);
                proof {
                    lemma_register_index_range(rd);
                    let mn = m.step_i_spec(op, rd, rs1, imm).0;
                    m.lemma_finish_wf(
                        spec_reg_write(m.regs, rd, spec_alu_i(op, spec_reg_read(m.regs, rs1), imm)),
                        m.mem,
                        m.cache,
                        reads + seq![
                            Action::WriteRegister(
                                rd,
                                Word(spec_reg_read(m.regs, rd)),
                                Word(spec_alu_i(op, spec_reg_read(m.regs, rs1), imm)),
                            ),
                        ],
                        0,
                        m.pc + 1int,
                    );
                    assert(self@.log =~= mn.log);
                    assert(self@ == mn);
                }
                Ok(())
            },
            IOpcode::LB | IOpcode::LH | IOpcode::LW | IOpcode::LBU | IOpcode::LHU => {
                let addr = a.wrapping_add(Word(imm));
                if !self.memory.is_address_accessible(addr) {
                    self.commit_fault();
                    proof {
                        m.lemma_fault_wf(reads);
                        assert(self@.log =~= m.fault_spec(reads).log);
                        assert(self@ == m.step_spec().0);
                    }
                    return Err(Fault::InvalidAddress);
                }
                let off = addr.0 % 4;
                if (match op {
                    IOpcode::LH | IOpcode::LHU => true,
                    _ => false,
                }) && off % 2 != 0 {
                    self.commit_fault();
                    proof {
                        m.lemma_fault_wf(reads);
                        assert(self@.log =~= m.fault_spec(reads).log);
                        assert(self@ == m.step_spec().0);
                    }
                    return Err(Fault::AlignmentFault);
                }
                match self.cache.read_word(&self.memory, addr) {
                    Ok(MemoryAccess(w, stall)) => {
                        let v = Word(
                            match op {
                                IOpcode::LB => exec_sign_extend_byte(exec_word_byte(w.0, off)),
                                IOpcode::LBU => exec_word_byte(w.0, off),
                                IOpcode::LH => exec_sign_extend_half(exec_word_half(w.0, off / 2)),
                                IOpcode::LHU => exec_word_half(w.0, off / 2),
                                _ => w.0,
                            },
                        );
                        self.register_file.write_word(rd, v);
                        self.actions.push(Action::WriteRegister(rd, rd_orig, v));
                        self.commit_advance(stall);
                        proof {
                            lemma_register_index_range(rd);
                            let widx = crate::memory::word_index(addr);
                            let mn = m.step_i_spec(op, rd, rs1, imm).0;
                            assert(v.0 == spec_load_value(op, m.mem[widx], crate::memory::byte_offset(addr)));
                            m.lemma_finish_wf(
                                spec_reg_write(m.regs, rd, v.0),
                                m.mem,
                                m.cache.after_read(m.mem, widx),
                                reads + seq![
                                    Action::WriteRegister(rd, Word(spec_reg_read(m.regs, rd)), v),
                                ],
                                m.cache.read_stall(widx),
                                m.pc + 1int,
                            );
                            assert(self@.log =~= mn.log);
                            assert(self@ == mn);
                        }
                        Ok(())
                    },
                    Err(_) => {
                        proof {
                            assert(false);
                        }
                        Err(Fault::InvalidAddress)
                    },
                }
            },
            _ => {
                // JALR and SCALL are declared but have no execution
                // semantics: a fatal fault
                self.commit_fault();
                proof {
                    m.lemma_fault_wf(reads);
                    assert(self@.log =~= m.fault_spec(reads).log);
                    assert(self@ == m.step_spec().0);
                }
                Err(Fault::UnsupportedInstruction)
            },
        }
    }

    /// Execute a store instruction: `SB`/`SH` by read-modify-write of the
    /// enclosing word through the cache, `SW` as a plain word write.
    fn step_s(&mut self, op: SOpcode, rs1: Register, rs2: Register, imm: u32) -> (r: Result<
        (),
        Fault,
    >)
        requires
            old(self).wf(),
            old(self)@.state == State::Ready,
            old(self)@.program[old(self)@.pc as int] == (Instruction::S {
                opcode: op,
                rs1,
                rs2,
                imm,
            }),
        ensures
            final(self).wf(),
            final(self)@ == old(self)@.step_spec().0,
            old(self)@.step_spec().1 is None ==> r == Ok::<(), Fault>(()),
            old(self)@.step_spec().1 matches Some(f) ==> r == Err::<(), Fault>(f),
    {
        let ghost m = old(self)@;
        let ghost reads = seq![
            Action::ReadRegister(rs1, Word(spec_reg_read(m.regs, rs1))),
            Action::ReadRegister(rs2, Word(spec_reg_read(m.regs, rs2))),
        ];
        let a = self.register_file.read_word(rs1);
        let b = self.register_file.read_word(rs2);
        self.actions.push(Action::ReadRegister(rs1, a));
        self.actions.push(Action::ReadRegister(rs2, b));
        let addr = a.wrapping_add(Word(imm));
        if !self.memory.is_address_accessible(addr) {
            self.commit_fault();
            proof {
                m.lemma_fault_wf(reads);
                assert(self@.log =~= m.fault_spec(reads).log);
                assert(self@ == m.step_spec().0);
            }
            return Err(Fault::InvalidAddress);
        }
        let off = addr.0 % 4;
        if (match op {
            SOpcode::SH => true,
            _ => false,
        }) && off % 2 != 0 {
            self.commit_fault();
            proof {
                m.lemma_fault_wf(reads);
                assert(self@.log =~= m.fault_spec(reads).log);
                assert(self@ == m.step_spec().0);
            }
            return Err(Fault::AlignmentFault);
        }
        let ghost widx = crate::memory::word_index(addr);
        match op {
            SOpcode::SW => {
                match self.cache.write_word(&mut self.memory, addr, b) {
                    Ok(MemoryAccess(prev, _)) => {
                        self.actions.push(Action::WriteMemory(addr, prev, b));
                        self.commit_advance(0);
                        proof {
                            let mn = m.step_s_spec(op, rs1, rs2, imm).0;
                            m.lemma_finish_wf(
                                m.regs,
                                m.mem.update(widx, b.0),
                                m.cache.after_write(widx, b.0),
                                reads + seq![Action::WriteMemory(addr, Word(m.mem[widx]), b)],
                                0,
                                m.pc + 1int,
                            );
                            assert(self@.log =~= mn.log);
                            assert(self@ == mn);
                        }
                        Ok(())
                    },
                    Err(_) => {
                        proof {
                            assert(false);
                        }
                        Err(Fault::InvalidAddress)
                    },
                }
            },
            SOpcode::SB | SOpcode::SH => {
                match self.cache.read_word(&self.memory, addr) {
                    Ok(MemoryAccess(w, stall)) => {
                        let neww = match op {
                            SOpcode::SB => Word(exec_word_set_byte(w.0, off, b.0 % 0x100)),
                            _ => Word(exec_word_set_half(w.0, off / 2, b.0 % 0x10000)),
                        };
                        match self.cache.write_word(&mut self.memory, addr, neww) {
                            Ok(MemoryAccess(_, _)) => {
                                self.actions.push(Action::WriteMemory(addr, w, neww));
                                self.commit_advance(stall);
                                proof {
                                    let mn = m.step_s_spec(op, rs1, rs2, imm).0;
                                    m.lemma_finish_wf(
                                        m.regs,
                                        m.mem.update(widx, neww.0),
                                        m.cache.after_read(m.mem, widx).after_write(widx, neww.0),
                                        reads + seq![Action::WriteMemory(addr, w, neww)],
                                        m.cache.read_stall(widx),
                                        m.pc + 1int,
                                    );
                                    assert(self@.log =~= mn.log);
                                    assert(self@ == mn);
                                }
                                Ok(())
                            },
                            Err(_) => {
                                proof {
                                    assert(false);
                                }
                                Err(Fault::InvalidAddress)
                            },
                        }
                    },
                    Err(_) => {
                        proof {
                            assert(false);
                        }
                        Err(Fault::InvalidAddress)
                    },
                }
            },
        }
    }

    /// Execute a conditional branch: the only effect is the jump, to
    /// `pc + imm` (with `imm` read as signed) when taken, `pc + 1`
    /// otherwise. A target outside the program finishes the run.
    fn step_sb(&mut self, op: SBOpcode, rs1: Register, rs2: Register, imm: u32) -> (r: Result<
        (),
        Fault,
    >)
        requires
            old(self).wf(),
            old(self)@.state == State::Ready,
            old(self)@.program[old(self)@.pc as int] == (Instruction::SB {
                opcode: op,
                rs1,
                rs2,
                imm,
            }),
        ensures
            final(self).wf(),
            final(self)@ == old(self)@.step_spec().0,
            r == Ok::<(), Fault>(()),
    {
        let ghost m = old(self)@;
        let ghost reads = seq![
            Action::ReadRegister(rs1, Word(spec_reg_read(m.regs, rs1))),
            Action::ReadRegister(rs2, Word(spec_reg_read(m.regs, rs2))),
        ];
        let ghost target = if spec_branch_taken(op, spec_reg_read(m.regs, rs1), spec_reg_read(m.regs, rs2)) {
            m.pc as int + to_signed32(imm)
        } else {
            m.pc + 1int
        };
        let a = self.register_file.read_word(rs1);
        let b = self.register_file.read_word(rs2);
        self.actions.push(Action::ReadRegister(rs1, a));
        self.actions.push(Action::ReadRegister(rs2, b));
        let taken = exec_branch_taken(op, a.0, b.0);
        if !taken {
            self.commit_advance(0);
        } else {
            let plen = self.program.len();
            if imm < 0x8000_0000 {
                let o = imm as usize;
                if o < plen - self.pc {
                    let t = self.pc + o;
                    self.actions.push(Action::Jump(self.pc, t));
                    self.pc = t;
                } else {
                    self.actions.push(Action::Jump(self.pc, plen));
                    self.pc = plen;
                    self.state = State::Finished;
                }
            } else {
                let mag = (0xFFFF_FFFFu32 - imm) + 1;
                let magu = mag as usize;
                if magu <= self.pc {
                    let t = self.pc - magu;
                    self.actions.push(Action::Jump(self.pc, t));
                    self.pc = t;
                } else {
                    self.actions.push(Action::Jump(self.pc, plen));
                    self.pc = plen;
                    self.state = State::Finished;
                }
            }
        }
        proof {
            let mn = m.step_sb_spec(op, rs1, rs2, imm).0;
            m.lemma_finish_wf(m.regs, m.mem, m.cache, reads, 0, target);
            assert(self@.log =~= mn.log);
            assert(self@ == mn);
        }
        Ok(())
    }

    /// Whether the log still ends in an entry of the current step, rather
    /// than at a step boundary (a jump, an error, or the log's start).
    fn tail_undoable(&self) -> (b: bool)
        ensures
            b == (self@.log.len() > 0 && !(self@.log.last() is Jump) && !(self@.log.last()
                is Error)),
    {
        let n = self.actions.len();
        if n == 0 {
            return false;
        }
        match self.actions[n - 1] {
            Action::Jump(_, _) => false,
            Action::Error => false,
            _ => true,
        }
    }

    /// Reverse the most recent completed step: restore the program
    /// counter from its jump entry, reverse-apply its register- and
    /// memory-write entries, and remove the step's entries from the log.
    /// A no-op when the log is empty or when the run just faulted (an
    /// error entry has nothing to reverse).
    pub fn step_back(&mut self)
        requires
            old(self).wf(),
        ensures
            final(self).wf(),
            final(self)@ == old(self)@.step_back_spec(),
    {
        let n = self.actions.len();
        if n == 0 {
            return ;
        }
        let last = self.actions[n - 1];
        match last {
            Action::Jump(pb, _) => {
                let _ = self.actions.pop();
                self.pc = pb;
                self.state = State::Ready;
            },
            _ => {
                return ;
            },
        }
        proof {
            assert(old(self)@.log[old(self)@.log.len() - 1] == last);
            assert(self@.log =~= old(self)@.log.drop_last());
        }
        while self.tail_undoable()
            invariant
                self@.undo_tail_spec() == old(self)@.step_back_spec(),
                self@.program == old(self)@.program,
                self@.mem.len() == old(self)@.mem.len(),
                self@.regs.len() == 32,
                self@.regs[0] == 0,
                self@.cache.wf(),
                self@.cache.coherent(self@.mem),
                self@.mem.len() <= usize::MAX,
                self@.program.len() <= usize::MAX,
                self@.state == State::Ready,
                self@.pc < self@.program.len(),
                forall|i: int|
                    0 <= i < self@.log.len() ==> crate::machine::action_ok(
                        #[trigger] self@.log[i],
                        self@.program.len(),
                        self@.mem.len(),
                    ),
            decreases self@.log.len(),
        {
            let ghost prev = self@;
            let k = self.actions.len();
            let entry = self.actions[k - 1];
            proof {
                assert(prev.log[prev.log.len() - 1] == entry);
            }
            match entry {
                Action::Stall(_) => {
                    let _ = self.actions.pop();
                },
                Action::ReadRegister(_, _) => {
                    let _ = self.actions.pop();
                },
                Action::WriteRegister(target, before, _) => {
                    self.register_file.write_word(target, before);
                    let _ = self.actions.pop();
                    proof {
                        lemma_register_index_range(target);
                    }
                },
                Action::WriteMemory(addr, before, _) => {
                    let _ = self.cache.write_word(&mut self.memory, addr, before);
                    let _ = self.actions.pop();
                },
                Action::Jump(_, _) => {
                    proof {
                        assert(false);
                    }
                },
                Action::Error => {
                    proof {
                        assert(false);
                    }
                },
            }
            proof {
                assert(self@.log =~= prev.log.drop_last());
            }
        }
        proof {
            assert(self@.undo_tail_spec() == self@);
        }
    }

    /// Execute the instruction at the program counter: read the source
    /// registers, apply the instruction's effect, log every micro-effect,
    /// and advance — or, on a fault, log the error and halt. Stepping a
    /// machine that is not `Ready` changes nothing and reports why.
    pub fn step(&mut self) -> (r: Result<(), Fault>)
        requires
            old(self).wf(),
        ensures
            final(self).wf(),
            old(self)@.state == State::Halted ==> final(self)@ == old(self)@ && r == Err::<
                (),
                Fault,
            >(Fault::Halted),
            old(self)@.state == State::Finished ==> final(self)@ == old(self)@ && r == Err::<
                (),
                Fault,
            >(Fault::Finished),
            old(self)@.state == State::Ready ==> final(self)@ == old(self)@.step_spec().0,
            old(self)@.state == State::Ready && old(self)@.step_spec().1 is None ==> r == Ok::<
                (),
                Fault,
            >(()),
            old(self)@.state == State::Ready ==> (old(self)@.step_spec().1 matches Some(f) ==> r
                == Err::<(), Fault>(f)),
    {
        match self.state {
            State::Halted => Err(Fault::Halted),
            State::Finished => Err(Fault::Finished),
            State::Ready => {
                let instr = self.program[self.pc];
                match instr {
                    Instruction::RShift { opcode, rd, rs1, shamt } => self.step_rshift(
                        opcode,
                        rd,
                        rs1,
                        shamt,
                    ),
                    Instruction::R { opcode, rd, rs1, rs2 } => self.step_r(opcode, rd, rs1, rs2),
                    Instruction::I { opcode, rd, rs1, imm } => self.step_i(opcode, rd, rs1, imm),
                    Instruction::S { opcode, rs1, rs2, imm } => self.step_s(opcode, rs1, rs2, imm),
                    Instruction::SB { opcode, rs1, rs2, imm } => self.step_sb(
                        opcode,
                        rs1,
                        rs2,
                        imm,
                    ),
                    Instruction::U { .. } => {
                        let ghost m = old(self)@;
                        self.commit_fault();
                        proof {
                            m.lemma_fault_wf(Seq::empty());
                            assert(self@.log =~= m.fault_spec(Seq::empty()).log);
                            assert(self@ == m.step_spec().0);
                        }
                        Err(Fault::UnsupportedInstruction)
                    },
                    Instruction::UJ { .. } => {
                        let ghost m = old(self)@;
                        self.commit_fault();
                        proof {
                            m.lemma_fault_wf(Seq::empty());
                            assert(self@.log =~= m.fault_spec(Seq::empty()).log);
                            assert(self@ == m.step_spec().0);
                        }
                        Err(Fault::UnsupportedInstruction)
                    },
                }
            },
        }
    }
}

} // verus!
