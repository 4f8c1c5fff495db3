//! The mathematical model of the simulated machine.
//!
//! A [`Machine`] value captures everything the interpreter observes:
//! registers, memory, cache, program counter, run state, and the action
//! log. [`Machine::step_spec`] is the complete specification of one
//! fetch-execute step — every instruction's result, the exact log entries
//! it appends, and the fault it raises — and the interpreter's `step`
//! is proved to realise it. [`Machine::step_back_spec`] specifies the
//! reverse application of the most recent step's log entries.

use crate::cache::CacheModel;
use crate::interpreter::{Action, Fault, State};
use crate::isa::{IOpcode, Instruction, ROpcode, RShiftOpcode, Register, SBOpcode, SOpcode};
use crate::memory::{byte_offset, word_index};
use crate::subword::{sign_extend_byte, sign_extend_half, word_byte, word_half, word_set_byte,
    word_set_half};
use crate::types::Word;
use vstd::prelude::*;

verus! {

/// The two's-complement reading of a 32-bit word.
pub open spec fn to_signed32(w: u32) -> int {
    if w >= 0x8000_0000 {
        w - 0x1_0000_0000
    } else {
        w as int
    }
}

/// The value register `r` reads: the stored word. Because writes to `X0`
/// are discarded and the file starts zeroed, slot 0 always holds zero.
pub open spec fn spec_reg_read(regs: Seq<u32>, r: Register) -> u32 {
    regs[r.index()]
}

/// The register file after writing `v` to `r`: unchanged for `X0`, whose
/// writes are discarded.
pub open spec fn spec_reg_write(regs: Seq<u32>, r: Register, v: u32) -> Seq<u32> {
    if r.index() == 0 {
        regs
    } else {
        regs.update(r.index(), v)
    }
}

/// Arithmetic right shift: the word is read as signed, shifted by the
/// low five bits of `s`, and the result's bit pattern returned.
pub open spec fn spec_sra(a: u32, s: u32) -> u32 {
    ((a as i32) >> (s % 32)) as u32
}

/// The result of an immediate-operand ALU instruction: wrapping
/// addition, signed and unsigned comparison, and the bitwise operations.
pub open spec fn spec_alu_i(op: IOpcode, a: u32, imm: u32) -> u32
    recommends
        op == IOpcode::ADDI || op == IOpcode::SLTI || op == IOpcode::SLTIU || op == IOpcode::XORI
            || op == IOpcode::ORI || op == IOpcode::ANDI,
{
    match op {
        IOpcode::ADDI => ((a + imm) % 0x1_0000_0000) as u32,
        IOpcode::SLTI => if to_signed32(a) < to_signed32(imm) {
            1u32
        } else {
            0u32
        },
        IOpcode::SLTIU => if a < imm {
            1u32
        } else {
            0u32
        },
        IOpcode::XORI => a ^ imm,
        IOpcode::ORI => a | imm,
        IOpcode::ANDI => a & imm,
        _ => 0u32,
    }
}

/// The result of a register-register ALU instruction. `ADD` and `SUB`
/// wrap modulo 2^32; the shifts use the low five bits of `b`; `SLT`
/// compares signed, `SLTU` unsigned.
pub open spec fn spec_alu_r(op: ROpcode, a: u32, b: u32) -> u32 {
    match op {
        ROpcode::ADD => ((a + b) % 0x1_0000_0000) as u32,
        ROpcode::SUB => ((a - b) % 0x1_0000_0000) as u32,
        ROpcode::SLL => a << (b % 32),
        ROpcode::SLT => if to_signed32(a) < to_signed32(b) {
            1u32
        } else {
            0u32
        },
        ROpcode::SLTU => if a < b {
            1u32
        } else {
            0u32
        },
        ROpcode::XOR => a ^ b,
        ROpcode::SRL => a >> (b % 32),
        ROpcode::SRA => spec_sra(a, b),
        ROpcode::OR => a | b,
        ROpcode::AND => a & b,
    }
}

/// The result of a shift-immediate instruction, shifting by the low five
/// bits of `shamt`.
pub open spec fn spec_shift(op: RShiftOpcode, a: u32, shamt: u32) -> u32 {
    match op {
        RShiftOpcode::SLLI => a << (shamt % 32),
        RShiftOpcode::SRLI => a >> (shamt % 32),
        RShiftOpcode::SRAI => spec_sra(a, shamt),
    }
}

/// The word a load writes to its destination, given the enclosing memory
/// word and the byte offset: `LB`/`LH` sign-extend the sub-word, `LBU`/
/// `LHU` zero-extend it, `LW` takes the word.
pub open spec fn spec_load_value(op: IOpcode, w: u32, off: int) -> u32
    recommends
        op == IOpcode::LB || op == IOpcode::LH || op == IOpcode::LW || op == IOpcode::LBU || op
            == IOpcode::LHU,
        0 <= off < 4,
{
    match op {
        IOpcode::LB => sign_extend_byte(word_byte(w, off)) as u32,
        IOpcode::LBU => word_byte(w, off) as u32,
        IOpcode::LH => sign_extend_half(word_half(w, off / 2)) as u32,
        IOpcode::LHU => word_half(w, off / 2) as u32,
        IOpcode::LW => w,
        _ => 0u32,
    }
}

/// Whether a conditional branch is taken: `BLT`/`BGE` compare signed,
/// `BLTU`/`BGEU` unsigned.
pub open spec fn spec_branch_taken(op: SBOpcode, a: u32, b: u32) -> bool {
    match op {
        SBOpcode::BEQ => a == b,
        SBOpcode::BNE => a != b,
        SBOpcode::BLT => to_signed32(a) < to_signed32(b),
        SBOpcode::BGE => to_signed32(a) >= to_signed32(b),
        SBOpcode::BLTU => a < b,
        SBOpcode::BGEU => a >= b,
    }
}

/// A log entry the interpreter can safely reverse: a `Jump` names a valid
/// program index and a `WriteMemory` an in-bounds word.
pub open spec fn action_ok(a: Action, plen: nat, mlen: nat) -> bool {
    match a {
        Action::Jump(pb, _) => pb < plen,
        Action::WriteMemory(addr, _, _) => word_index(addr) < mlen,
        _ => true,
    }
}

/// The complete observable state of the simulated machine.
pub ghost struct Machine {
    pub regs: Seq<u32>,
    pub mem: Seq<u32>,
    pub cache: CacheModel,
    pub pc: nat,
    pub state: State,
    pub log: Seq<Action>,
    pub program: Seq<Instruction>,
}

impl Machine {
    /// Well-formedness: 32 registers with slot 0 zero, a well-formed
    /// cache coherent with memory, a program counter inside the program
    /// while running, and a log of reversible, complete steps.
    pub open spec fn wf(self) -> bool {
        &&& self.regs.len() == 32
        &&& self.regs[0] == 0
        &&& self.cache.wf()
        &&& self.cache.coherent(self.mem)
        &&& self.state == State::Ready ==> self.pc < self.program.len()
        &&& self.pc <= self.program.len()
        &&& self.program.len() <= usize::MAX
        &&& self.mem.len() <= usize::MAX
        &&& forall|i: int|
            0 <= i < self.log.len() ==> action_ok(
                #[trigger] self.log[i],
                self.program.len(),
                self.mem.len(),
            )
        &&& self.log.len() > 0 ==> (self.log.last() is Jump || self.log.last() is Error)
    }

    /// The machine after a successful step: state updated, and the log
    /// extended by the reads and effect, a stall entry when `stall` is
    /// nonzero, and the closing jump. A target outside the program ends
    /// the run in `Finished` with the counter parked past the end.
    pub open spec fn finish_spec(
        self,
        regs: Seq<u32>,
        mem: Seq<u32>,
        cache: CacheModel,
        entries: Seq<Action>,
        stall: nat,
        target: int,
    ) -> Machine {
        let in_range = 0 <= target < self.program.len();
        let pc_after = if in_range {
            target as nat
        } else {
            self.program.len()
        };
        Machine {
            regs,
            mem,
            cache,
            pc: pc_after,
            state: if in_range {
                State::Ready
            } else {
                State::Finished
            },
            log: self.log + entries + (if stall > 0 {
                seq![Action::Stall(stall as usize)]
            } else {
                Seq::empty()
            }) + seq![Action::Jump(self.pc as usize, pc_after as usize)],
            program: self.program,
        }
    }

    /// The machine after a faulting step: the reads gathered so far and a
    /// single error entry are appended, the state becomes `Halted`, and
    /// nothing else changes — the faulting instruction has no effect.
    pub open spec fn fault_spec(self, reads: Seq<Action>) -> Machine {
        Machine { state: State::Halted, log: self.log + reads + seq![Action::Error], ..self }
    }

    /// One step of an immediate-format instruction: the six ALU forms,
    /// the five loads, and the unimplemented `JALR`/`SCALL`.
    pub open spec fn step_i_spec(self, op: IOpcode, rd: Register, rs1: Register, imm: u32) -> (
        Machine,
        Option<Fault>,
    ) {
        let a = spec_reg_read(self.regs, rs1);
        let reads = seq![Action::ReadRegister(rs1, Word(a))];
        let rd_orig = spec_reg_read(self.regs, rd);
        if op == IOpcode::ADDI || op == IOpcode::SLTI || op == IOpcode::SLTIU || op
            == IOpcode::XORI || op == IOpcode::ORI || op == IOpcode::ANDI {
            let v = spec_alu_i(op, a, imm);
            (
                self.finish_spec(
                    spec_reg_write(self.regs, rd, v),
                    self.mem,
                    self.cache,
                    reads + seq![Action::WriteRegister(rd, Word(rd_orig), Word(v))],
                    0,
                    self.pc + 1int,
                ),
                None,
            )
        } else if op == IOpcode::LB || op == IOpcode::LH || op == IOpcode::LW || op == IOpcode::LBU
            || op == IOpcode::LHU {
            let ea = Word(((a + imm) % 0x1_0000_0000) as u32);
            let widx = word_index(ea);
            let off = byte_offset(ea);
            if widx >= self.mem.len() {
                (self.fault_spec(reads), Some(Fault::InvalidAddress))
            } else if (op == IOpcode::LH || op == IOpcode::LHU) && off % 2 != 0 {
                (self.fault_spec(reads), Some(Fault::AlignmentFault))
            } else {
                let v = spec_load_value(op, self.mem[widx], off);
                (
                    self.finish_spec(
                        spec_reg_write(self.regs, rd, v),
                        self.mem,
                        self.cache.after_read(self.mem, widx),
                        reads + seq![Action::WriteRegister(rd, Word(rd_orig), Word(v))],
                        self.cache.read_stall(widx),
                        self.pc + 1int,
                    ),
                    None,
                )
            }
        } else {
            (self.fault_spec(reads), Some(Fault::UnsupportedInstruction))
        }
    }

    /// One step of a shift-immediate instruction.
    pub open spec fn step_rshift_spec(
        self,
        op: RShiftOpcode,
        rd: Register,
        rs1: Register,
        shamt: u32,
    ) -> (Machine, Option<Fault>) {
        let a = spec_reg_read(self.regs, rs1);
        let rd_orig = spec_reg_read(self.regs, rd);
        let v = spec_shift(op, a, shamt);
        (
            self.finish_spec(
                spec_reg_write(self.regs, rd, v),
                self.mem,
                self.cache,
                seq![
                    Action::ReadRegister(rs1, Word(a)),
                    Action::WriteRegister(rd, Word(rd_orig), Word(v)),
                ],
                0,
                self.pc + 1int,
            ),
            None,
        )
    }

    /// One step of a register-register ALU instruction.
    pub open spec fn step_r_spec(self, op: ROpcode, rd: Register, rs1: Register, rs2: Register) -> (
        Machine,
        Option<Fault>,
    ) {
        let a = spec_reg_read(self.regs, rs1);
        let b = spec_reg_read(self.regs, rs2);
        let rd_orig = spec_reg_read(self.regs, rd);
        let v = spec_alu_r(op, a, b);
        (
            self.finish_spec(
                spec_reg_write(self.regs, rd, v),
                self.mem,
                self.cache,
                seq![
                    Action::ReadRegister(rs1, Word(a)),
                    Action::ReadRegister(rs2, Word(b)),
                    Action::WriteRegister(rd, Word(rd_orig), Word(v)),
                ],
                0,
                self.pc + 1int,
            ),
            None,
        )
    }

    /// One step of a store instruction: read-modify-write of the
    /// enclosing word for `SB`/`SH`, a plain word write for `SW`. The
    /// memory-write entry records the enclosing word before and after.
    pub open spec fn step_s_spec(self, op: SOpcode, rs1: Register, rs2: Register, imm: u32) -> (
        Machine,
        Option<Fault>,
    ) {
        let a = spec_reg_read(self.regs, rs1);
        let b = spec_reg_read(self.regs, rs2);
        let reads = seq![Action::ReadRegister(rs1, Word(a)), Action::ReadRegister(rs2, Word(b))];
        let ea = Word(((a + imm) % 0x1_0000_0000) as u32);
        let widx = word_index(ea);
        let off = byte_offset(ea);
        if widx >= self.mem.len() {
            (self.fault_spec(reads), Some(Fault::InvalidAddress))
        } else if op == SOpcode::SH && off % 2 != 0 {
            (self.fault_spec(reads), Some(Fault::AlignmentFault))
        } else {
            let w = self.mem[widx];
            let neww = match op {
                SOpcode::SB => word_set_byte(w, off, (b % 0x100) as u32),
                SOpcode::SH => word_set_half(w, off / 2, (b % 0x10000) as u32),
                SOpcode::SW => b,
            };
            let stall: nat = if op == SOpcode::SW {
                0
            } else {
                self.cache.read_stall(widx)
            };
            let cache = if op == SOpcode::SW {
                self.cache.after_write(widx, neww)
            } else {
                self.cache.after_read(self.mem, widx).after_write(widx, neww)
            };
            (
                self.finish_spec(
                    self.regs,
                    self.mem.update(widx, neww),
                    cache,
                    reads + seq![Action::WriteMemory(ea, Word(w), Word(neww))],
                    stall,
                    self.pc + 1int,
                ),
                None,
            )
        }
    }

    /// One step of a conditional branch: no effect entry, only the jump.
    /// The target is `pc + imm` (in instructions, `imm` read as signed)
    /// when taken, `pc + 1` when not.
    pub open spec fn step_sb_spec(self, op: SBOpcode, rs1: Register, rs2: Register, imm: u32) -> (
        Machine,
        Option<Fault>,
    ) {
        let a = spec_reg_read(self.regs, rs1);
        let b = spec_reg_read(self.regs, rs2);
        let reads = seq![Action::ReadRegister(rs1, Word(a)), Action::ReadRegister(rs2, Word(b))];
        let target = if spec_branch_taken(op, a, b) {
            self.pc as int + to_signed32(imm)
        } else {
            self.pc + 1int
        };
        (self.finish_spec(self.regs, self.mem, self.cache, reads, 0, target), None)
    }

    /// The complete specification of one fetch-execute step from a
    /// `Ready` machine: the successor machine and the fault, if any.
    pub open spec fn step_spec(self) -> (Machine, Option<Fault>)
        recommends
            self.wf(),
            self.state == State::Ready,
    {
        match self.program[self.pc as int] {
            Instruction::RShift { opcode, rd, rs1, shamt } => self.step_rshift_spec(
                opcode,
                rd,
                rs1,
                shamt,
            ),
            Instruction::R { opcode, rd, rs1, rs2 } => self.step_r_spec(opcode, rd, rs1, rs2),
            Instruction::I { opcode, rd, rs1, imm } => self.step_i_spec(opcode, rd, rs1, imm),
            Instruction::S { opcode, rs1, rs2, imm } => self.step_s_spec(opcode, rs1, rs2, imm),
            Instruction::SB { opcode, rs1, rs2, imm } => self.step_sb_spec(opcode, rs1, rs2, imm),
            Instruction::U { .. } => (
                self.fault_spec(Seq::empty()),
                Some(Fault::UnsupportedInstruction),
            ),
            Instruction::UJ { .. } => (
                self.fault_spec(Seq::empty()),
                Some(Fault::UnsupportedInstruction),
            ),
        }
    }

    /// A successful step yields a well-formed machine, provided the new
    /// components are themselves consistent and the appended entries are
    /// reversible.
    pub proof fn lemma_finish_wf(
        self,
        regs: Seq<u32>,
        mem: Seq<u32>,
        cache: CacheModel,
        entries: Seq<Action>,
        stall: nat,
        target: int,
    )
        requires
            self.wf(),
            self.state == State::Ready,
            regs.len() == 32,
            regs[0] == 0,
            cache.wf(),
            cache.coherent(mem),
            mem.len() == self.mem.len(),
            forall|i: int|
                0 <= i < entries.len() ==> action_ok(
                    #[trigger] entries[i],
                    self.program.len(),
                    self.mem.len(),
                ),
        ensures
            self.finish_spec(regs, mem, cache, entries, stall, target).wf(),
    {
        let mn = self.finish_spec(regs, mem, cache, entries, stall, target);
        let stall_part: Seq<Action> = if stall > 0 {
            seq![Action::Stall(stall as usize)]
        } else {
            Seq::empty()
        };
        let head = self.log + entries + stall_part;
        assert forall|i: int| 0 <= i < mn.log.len() implies action_ok(
            #[trigger] mn.log[i],
            mn.program.len(),
            mn.mem.len(),
        ) by {
            if i < self.log.len() {
                assert(mn.log[i] == self.log[i]);
                assert(action_ok(self.log[i], self.program.len(), self.mem.len()));
            } else if i < self.log.len() + entries.len() {
                assert(mn.log[i] == entries[i - self.log.len()]);
            } else if i < head.len() {
                assert(mn.log[i] == Action::Stall(stall as usize));
            } else {
                assert(mn.log[i] == mn.log.last());
                assert(mn.log.last() is Jump);
            }
        }
        assert(mn.log.last() is Jump);
    }

    /// A faulting step yields a well-formed, halted machine: the reads it
    /// appends carry no state and the closing entry is the error.
    pub proof fn lemma_fault_wf(self, reads: Seq<Action>)
        requires
            self.wf(),
            forall|i: int|
                0 <= i < reads.len() ==> action_ok(
                    #[trigger] reads[i],
                    self.program.len(),
                    self.mem.len(),
                ),
        ensures
            self.fault_spec(reads).wf(),
    {
        let mn = self.fault_spec(reads);
        assert forall|i: int| 0 <= i < mn.log.len() implies action_ok(
            #[trigger] mn.log[i],
            mn.program.len(),
            mn.mem.len(),
        ) by {
            if i < self.log.len() {
                assert(mn.log[i] == self.log[i]);
                assert(action_ok(self.log[i], self.program.len(), self.mem.len()));
            } else if i < self.log.len() + reads.len() {
                assert(mn.log[i] == reads[i - self.log.len()]);
            } else {
                assert(mn.log[i] == Action::Error);
            }
        }
        assert(mn.log.last() is Error);
    }

    /// Reverse application of the log entries of one step, from the end:
    /// stall and read entries carry no state, a register-write entry
    /// restores its before-value, a memory-write entry restores the
    /// enclosing word. Stops at the previous step's boundary.
    pub open spec fn undo_tail_spec(self) -> Machine
        decreases self.log.len(),
    {
        if self.log.len() == 0 {
            self
        } else {
            match self.log.last() {
                Action::Jump(_, _) => self,
                Action::Error => self,
                Action::Stall(_) => Machine { log: self.log.drop_last(), ..self }.undo_tail_spec(),
                Action::ReadRegister(_, _) => Machine {
                    log: self.log.drop_last(),
                    ..self
                }.undo_tail_spec(),
                Action::WriteRegister(r, before, _) => Machine {
                    regs: spec_reg_write(self.regs, r, before.0),
                    log: self.log.drop_last(),
                    ..self
                }.undo_tail_spec(),
                Action::WriteMemory(addr, before, _) => Machine {
                    mem: if word_index(addr) < self.mem.len() {
                        self.mem.update(word_index(addr), before.0)
                    } else {
                        self.mem
                    },
                    cache: if word_index(addr) < self.mem.len() {
                        self.cache.after_write(word_index(addr), before.0)
                    } else {
                        self.cache
                    },
                    log: self.log.drop_last(),
                    ..self
                }.undo_tail_spec(),
            }
        }
    }

    /// Stepping back: when the log ends with a completed step's jump, the
    /// program counter is restored from it, the machine made `Ready`
    /// again, and the step's entries reverse-applied and removed. An
    /// empty log, or an error tail, is a no-op.
    pub open spec fn step_back_spec(self) -> Machine {
        if self.log.len() == 0 {
            self
        } else {
            match self.log.last() {
                Action::Jump(pb, _) => Machine {
                    pc: pb as nat,
                    state: State::Ready,
                    log: self.log.drop_last(),
                    ..self
                }.undo_tail_spec(),
                _ => self,
            }
        }
    }
}

/// Register `X0` is hard-wired to zero: after a write to any register of
/// any value, `X0` still reads as zero.
pub proof fn lemma_x0_reads_zero(regs: Seq<u32>, r: Register, v: u32)
    requires
        regs.len() == 32,
        regs[0] == 0,
    ensures
        spec_reg_read(spec_reg_write(regs, r, v), Register::X0) == 0,
{
    crate::isa::lemma_register_index_range(r);
}

/// `ADD` and `SUB` wrap: for all words, the `ADD` result is the sum
/// modulo 2^32 and the `SUB` result the difference modulo 2^32.
pub proof fn lemma_add_sub_wrap(a: u32, b: u32)
    ensures
        spec_alu_r(ROpcode::ADD, a, b) == (a + b) % 0x1_0000_0000,
        spec_alu_r(ROpcode::SUB, a, b) == (a - b) % 0x1_0000_0000,
        spec_alu_i(IOpcode::ADDI, a, b) == (a + b) % 0x1_0000_0000,
{
}

/// `SLT`/`SLTI` compare their operands as signed values, `SLTU`/`SLTIU`
/// as unsigned ones; at the boundary, `0xFFFF_FFFF` (minus one, read
/// signed) is below `1` signed but above it unsigned.
pub proof fn lemma_slt_signedness(a: u32, b: u32)
    ensures
        spec_alu_r(ROpcode::SLT, a, b) == (if to_signed32(a) < to_signed32(b) {
            1u32
        } else {
            0u32
        }),
        spec_alu_r(ROpcode::SLTU, a, b) == (if a < b {
            1u32
        } else {
            0u32
        }),
        spec_alu_i(IOpcode::SLTI, a, b) == (if to_signed32(a) < to_signed32(b) {
            1u32
        } else {
            0u32
        }),
        spec_alu_i(IOpcode::SLTIU, a, b) == (if a < b {
            1u32
        } else {
            0u32
        }),
        spec_alu_r(ROpcode::SLT, 0xFFFF_FFFFu32, 1u32) == 1u32,
        spec_alu_r(ROpcode::SLTU, 0xFFFF_FFFFu32, 1u32) == 0u32,
{
}

/// Loads extend correctly: `LB`/`LH` sign-extend, so the loaded word
/// denotes, read signed, exactly the signed reading of the sub-word;
/// `LBU`/`LHU` zero-extend, so the loaded word equals the unsigned
/// sub-word.
pub proof fn lemma_load_extension(w: u32, off: int)
    requires
        0 <= off < 4,
    ensures
        to_signed32(spec_load_value(IOpcode::LB, w, off)) == crate::types::signed_reinterpret(
            word_byte(w, off),
            0x100,
        ),
        spec_load_value(IOpcode::LBU, w, off) == word_byte(w, off),
        to_signed32(spec_load_value(IOpcode::LH, w, off)) == crate::types::signed_reinterpret(
            word_half(w, off / 2),
            0x10000,
        ),
        spec_load_value(IOpcode::LHU, w, off) == word_half(w, off / 2),
{
    crate::subword::lemma_word_byte_range(w, off);
    crate::subword::lemma_word_half_range(w, off / 2);
    crate::subword::lemma_sign_extend_value(word_byte(w, off), word_half(w, off / 2));
}

/// A branch moves the program counter by the encoded signed offset when
/// taken and to the next instruction when not; a target outside the
/// program finishes the run. Branches touch neither registers nor memory.
pub proof fn lemma_branch_target(m: Machine, op: SBOpcode, rs1: Register, rs2: Register, imm: u32)
    requires
        m.wf(),
        m.state == State::Ready,
        m.program[m.pc as int] == (Instruction::SB { opcode: op, rs1, rs2, imm }),
    ensures
        ({
            let a = spec_reg_read(m.regs, rs1);
            let b = spec_reg_read(m.regs, rs2);
            let t = if spec_branch_taken(op, a, b) {
                m.pc + to_signed32(imm)
            } else {
                m.pc + 1int
            };
            let mn = m.step_spec().0;
            &&& m.step_spec().1 is None
            &&& (0 <= t < m.program.len() ==> mn.pc == t && mn.state == State::Ready)
            &&& (!(0 <= t < m.program.len()) ==> mn.pc == m.program.len() && mn.state
                == State::Finished)
            &&& mn.regs == m.regs
            &&& mn.mem == m.mem
        }),
{
}

/// A load or store whose effective address lies at or beyond the end of
/// memory fails with `InvalidAddress` and halts the machine: registers,
/// memory and program counter are untouched, and only the reads gathered
/// so far and an error entry are logged.
pub proof fn lemma_out_of_range_access_halts(m: Machine)
    requires
        m.wf(),
        m.state == State::Ready,
        match m.program[m.pc as int] {
            Instruction::I { opcode, rd, rs1, imm } => (opcode == IOpcode::LB || opcode
                == IOpcode::LH || opcode == IOpcode::LW || opcode == IOpcode::LBU || opcode
                == IOpcode::LHU) && word_index(
                Word(((spec_reg_read(m.regs, rs1) + imm) % 0x1_0000_0000) as u32),
            ) >= m.mem.len(),
            Instruction::S { opcode, rs1, rs2, imm } => word_index(
                Word(((spec_reg_read(m.regs, rs1) + imm) % 0x1_0000_0000) as u32),
            ) >= m.mem.len(),
            _ => false,
        },
    ensures
        m.step_spec().1 == Some(Fault::InvalidAddress),
        m.step_spec().0.state == State::Halted,
        m.step_spec().0.regs == m.regs,
        m.step_spec().0.mem == m.mem,
        m.step_spec().0.pc == m.pc,
        m.step_spec().0.log.last() is Error,
{
}

/// Popping read entries off the end of the log carries no state: reverse
/// application ignores them.
proof fn lemma_undo_pop_reads(m: Machine, reads: Seq<Action>)
    requires
        forall|i: int| 0 <= i < reads.len() ==> (#[trigger] reads[i]) is ReadRegister,
    ensures
        (Machine { log: m.log + reads, ..m }).undo_tail_spec() == (Machine {
            log: m.log,
            ..m
        }).undo_tail_spec(),
    decreases reads.len(),
{
    if reads.len() == 0 {
        assert(m.log + reads =~= m.log);
    } else {
        let m1 = Machine { log: m.log + reads, ..m };
        assert(m1.log.len() > 0);
        assert(m1.log.last() == reads.last());
        assert(m1.log.drop_last() =~= m.log + reads.drop_last());
        lemma_undo_pop_reads(m, reads.drop_last());
    }
}

/// Reverse application stops at a step boundary: an empty log, a jump,
/// or an error.
proof fn lemma_undo_boundary(m: Machine)
    requires
        m.log.len() == 0 || m.log.last() is Jump || m.log.last() is Error,
    ensures
        m.undo_tail_spec() == m,
{
}

/// Reversing a completed step that wrote a register restores the machine:
/// the register gets its before-value back and the log its old length.
proof fn lemma_undo_segment_reg(
    m: Machine,
    cache: CacheModel,
    reads: Seq<Action>,
    rd: Register,
    v: u32,
    stall: nat,
    target: int,
)
    requires
        m.wf(),
        m.state == State::Ready,
        forall|i: int| 0 <= i < reads.len() ==> (#[trigger] reads[i]) is ReadRegister,
    ensures
        ({
            let mn = m.finish_spec(
                spec_reg_write(m.regs, rd, v),
                m.mem,
                cache,
                reads + seq![
                    Action::WriteRegister(rd, Word(spec_reg_read(m.regs, rd)), Word(v)),
                ],
                stall,
                target,
            );
            let mb = mn.step_back_spec();
            &&& mb.regs == m.regs
            &&& mb.mem == m.mem
            &&& mb.pc == m.pc
            &&& mb.state == m.state
            &&& mb.log == m.log
            &&& mb.program == m.program
        }),
{
    crate::isa::lemma_register_index_range(rd);
    let wr = Action::WriteRegister(rd, Word(spec_reg_read(m.regs, rd)), Word(v));
    let entries = reads + seq![wr];
    let regs1 = spec_reg_write(m.regs, rd, v);
    let mn = m.finish_spec(regs1, m.mem, cache, entries, stall, target);
    let stall_part: Seq<Action> = if stall > 0 {
        seq![Action::Stall(stall as usize)]
    } else {
        Seq::empty()
    };
    let jump = Action::Jump(
        m.pc as usize,
        (if 0 <= target < m.program.len() {
            target as nat
        } else {
            m.program.len()
        }) as usize,
    );
    assert(mn.log.last() == jump);
    let m1 = Machine { pc: m.pc, state: State::Ready, log: mn.log.drop_last(), ..mn };
    assert(mn.step_back_spec() == m1.undo_tail_spec());
    assert(m1.log =~= (m.log + entries) + stall_part);
    let m2 = Machine { log: m.log + entries, ..m1 };
    if stall > 0 {
        assert(m1.log.last() == Action::Stall(stall as usize));
        assert(m1.log.drop_last() =~= m.log + entries);
        assert(m1.undo_tail_spec() == m2.undo_tail_spec());
    } else {
        assert(m1.log =~= m.log + entries);
        assert(m1 == m2);
    }
    assert(m2.log.last() == wr);
    assert(m2.log.drop_last() =~= m.log + reads);
    let regs2 = spec_reg_write(regs1, rd, spec_reg_read(m.regs, rd));
    assert(regs2 =~= m.regs);
    let m3 = Machine { regs: m.regs, log: m.log + reads, ..m2 };
    assert(m2.undo_tail_spec() == m3.undo_tail_spec());
    lemma_undo_pop_reads(Machine { log: m.log, ..m3 }, reads);
    lemma_undo_boundary(Machine { log: m.log, ..m3 });
}

/// Reversing a completed step that wrote memory restores the machine:
/// the enclosing word gets its before-value back.
proof fn lemma_undo_segment_mem(
    m: Machine,
    cache: CacheModel,
    reads: Seq<Action>,
    ea: Word,
    neww: u32,
    stall: nat,
    target: int,
)
    requires
        m.wf(),
        m.state == State::Ready,
        word_index(ea) < m.mem.len(),
        forall|i: int| 0 <= i < reads.len() ==> (#[trigger] reads[i]) is ReadRegister,
    ensures
        ({
            let widx = word_index(ea);
            let mn = m.finish_spec(
                m.regs,
                m.mem.update(widx, neww),
                cache,
                reads + seq![Action::WriteMemory(ea, Word(m.mem[widx]), Word(neww))],
                stall,
                target,
            );
            let mb = mn.step_back_spec();
            &&& mb.regs == m.regs
            &&& mb.mem == m.mem
            &&& mb.pc == m.pc
            &&& mb.state == m.state
            &&& mb.log == m.log
            &&& mb.program == m.program
        }),
{
    let widx = word_index(ea);
    let wm = Action::WriteMemory(ea, Word(m.mem[widx]), Word(neww));
    let entries = reads + seq![wm];
    let mem1 = m.mem.update(widx, neww);
    let mn = m.finish_spec(m.regs, mem1, cache, entries, stall, target);
    let stall_part: Seq<Action> = if stall > 0 {
        seq![Action::Stall(stall as usize)]
    } else {
        Seq::empty()
    };
    let jump = Action::Jump(
        m.pc as usize,
        (if 0 <= target < m.program.len() {
            target as nat
        } else {
            m.program.len()
        }) as usize,
    );
    assert(mn.log.last() == jump);
    let m1 = Machine { pc: m.pc, state: State::Ready, log: mn.log.drop_last(), ..mn };
    assert(mn.step_back_spec() == m1.undo_tail_spec());
    assert(m1.log =~= (m.log + entries) + stall_part);
    let m2 = Machine { log: m.log + entries, ..m1 };
    if stall > 0 {
        assert(m1.log.last() == Action::Stall(stall as usize));
        assert(m1.log.drop_last() =~= m.log + entries);
        assert(m1.undo_tail_spec() == m2.undo_tail_spec());
    } else {
        assert(m1.log =~= m.log + entries);
        assert(m1 == m2);
    }
    assert(m2.log.last() == wm);
    assert(m2.log.drop_last() =~= m.log + reads);
    assert(mem1.update(widx, m.mem[widx]) =~= m.mem);
    let m3 = Machine {
        mem: m.mem,
        cache: m2.cache.after_write(widx, m.mem[widx]),
        log: m.log + reads,
        ..m2
    };
    assert(m2.undo_tail_spec() == m3.undo_tail_spec());
    lemma_undo_pop_reads(Machine { log: m.log, ..m3 }, reads);
    lemma_undo_boundary(Machine { log: m.log, ..m3 });
}

/// Reversing a completed step with no effect entry (a branch) restores
/// the machine: only the jump and reads are removed.
proof fn lemma_undo_segment_none(
    m: Machine,
    reads: Seq<Action>,
    target: int,
)
    requires
        m.wf(),
        m.state == State::Ready,
        forall|i: int| 0 <= i < reads.len() ==> (#[trigger] reads[i]) is ReadRegister,
    ensures
        ({
            let mn = m.finish_spec(m.regs, m.mem, m.cache, reads, 0, target);
            let mb = mn.step_back_spec();
            &&& mb.regs == m.regs
            &&& mb.mem == m.mem
            &&& mb.pc == m.pc
            &&& mb.state == m.state
            &&& mb.log == m.log
            &&& mb.program == m.program
        }),
{
    let mn = m.finish_spec(m.regs, m.mem, m.cache, reads, 0, target);
    let jump = Action::Jump(
        m.pc as usize,
        (if 0 <= target < m.program.len() {
            target as nat
        } else {
            m.program.len()
        }) as usize,
    );
    assert(mn.log =~= (m.log + reads) + seq![jump]);
    assert(mn.log.last() == jump);
    let m1 = Machine { pc: m.pc, state: State::Ready, log: mn.log.drop_last(), ..mn };
    assert(mn.step_back_spec() == m1.undo_tail_spec());
    assert(m1.log =~= m.log + reads);
    let m2 = Machine { log: m.log + reads, ..m1 };
    assert(m1 == m2);
    lemma_undo_pop_reads(Machine { log: m.log, ..m2 }, reads);
    lemma_undo_boundary(Machine { log: m.log, ..m2 });
}

/// Stepping back immediately after a successful step restores registers,
/// memory, program counter, run state and log to their exact pre-step
/// values. (The cache may stay warm: it is not observable state.)
#[verifier::rlimit(100)]
#[verifier::spinoff_prover]
pub proof fn lemma_step_back_undoes_step(m: Machine)
    requires
        m.wf(),
        m.state == State::Ready,
        m.step_spec().1 is None,
    ensures
        m.step_spec().0.step_back_spec().regs == m.regs,
        m.step_spec().0.step_back_spec().mem == m.mem,
        m.step_spec().0.step_back_spec().pc == m.pc,
        m.step_spec().0.step_back_spec().state == m.state,
        m.step_spec().0.step_back_spec().log == m.log,
        m.step_spec().0.step_back_spec().program == m.program,
{
    match m.program[m.pc as int] {
        Instruction::RShift { opcode, rd, rs1, shamt } => {
            let a = spec_reg_read(m.regs, rs1);
            let reads = seq![Action::ReadRegister(rs1, Word(a))];
            assert(reads[0] is ReadRegister);
            lemma_undo_segment_reg(
                m,
                m.cache,
                reads,
                rd,
                spec_shift(opcode, a, shamt),
                0,
                m.pc + 1int,
            );
            assert(reads + seq![
                Action::WriteRegister(
                    rd,
                    Word(spec_reg_read(m.regs, rd)),
                    Word(spec_shift(opcode, a, shamt)),
                ),
            ] =~= seq![
                Action::ReadRegister(rs1, Word(a)),
                Action::WriteRegister(
                    rd,
                    Word(spec_reg_read(m.regs, rd)),
                    Word(spec_shift(opcode, a, shamt)),
                ),
            ]);
        },
        Instruction::R { opcode, rd, rs1, rs2 } => {
            let a = spec_reg_read(m.regs, rs1);
            let b = spec_reg_read(m.regs, rs2);
            let reads = seq![
                Action::ReadRegister(rs1, Word(a)),
                Action::ReadRegister(rs2, Word(b)),
            ];
            assert(reads[0] is ReadRegister);
            assert(reads[1] is ReadRegister);
            lemma_undo_segment_reg(
                m,
                m.cache,
                reads,
                rd,
                spec_alu_r(opcode, a, b),
                0,
                m.pc + 1int,
            );
            assert(reads + seq![
                Action::WriteRegister(
                    rd,
                    Word(spec_reg_read(m.regs, rd)),
                    Word(spec_alu_r(opcode, a, b)),
                ),
            ] =~= seq![
                Action::ReadRegister(rs1, Word(a)),
                Action::ReadRegister(rs2, Word(b)),
                Action::WriteRegister(
                    rd,
                    Word(spec_reg_read(m.regs, rd)),
                    Word(spec_alu_r(opcode, a, b)),
                ),
            ]);
        },
        Instruction::I { opcode, rd, rs1, imm } => {
            let a = spec_reg_read(m.regs, rs1);
            let reads = seq![Action::ReadRegister(rs1, Word(a))];
            assert(reads[0] is ReadRegister);
            if opcode == IOpcode::ADDI || opcode == IOpcode::SLTI || opcode == IOpcode::SLTIU
                || opcode == IOpcode::XORI || opcode == IOpcode::ORI || opcode == IOpcode::ANDI {
                lemma_undo_segment_reg(
                    m,
                    m.cache,
                    reads,
                    rd,
                    spec_alu_i(opcode, a, imm),
                    0,
                    m.pc + 1int,
                );
            } else {
                let ea = Word(((a + imm) % 0x1_0000_0000) as u32);
                let widx = word_index(ea);
                let off = byte_offset(ea);
                let v = spec_load_value(opcode, m.mem[widx], off);
                lemma_undo_segment_reg(
                    m,
                    m.cache.after_read(m.mem, widx),
                    reads,
                    rd,
                    v,
                    m.cache.read_stall(widx),
                    m.pc + 1int,
                );
            }
        },
        Instruction::S { opcode, rs1, rs2, imm } => {
            let a = spec_reg_read(m.regs, rs1);
            let b = spec_reg_read(m.regs, rs2);
            let reads = seq![
                Action::ReadRegister(rs1, Word(a)),
                Action::ReadRegister(rs2, Word(b)),
            ];
            assert(reads[0] is ReadRegister);
            assert(reads[1] is ReadRegister);
            let ea = Word(((a + imm) % 0x1_0000_0000) as u32);
            let widx = word_index(ea);
            let off = byte_offset(ea);
            let w = m.mem[widx];
            let neww = match opcode {
                SOpcode::SB => word_set_byte(w, off, (b % 0x100) as u32),
                SOpcode::SH => word_set_half(w, off / 2, (b % 0x10000) as u32),
                SOpcode::SW => b,
            };
            let stall: nat = if opcode == SOpcode::SW {
                0
            } else {
                m.cache.read_stall(widx)
            };
            let cache = if opcode == SOpcode::SW {
                m.cache.after_write(widx, neww)
            } else {
                m.cache.after_read(m.mem, widx).after_write(widx, neww)
            };
            lemma_undo_segment_mem(m, cache, reads, ea, neww, stall, m.pc + 1int);
        },
        Instruction::SB { opcode, rs1, rs2, imm } => {
            let a = spec_reg_read(m.regs, rs1);
            let b = spec_reg_read(m.regs, rs2);
            let reads = seq![
                Action::ReadRegister(rs1, Word(a)),
                Action::ReadRegister(rs2, Word(b)),
            ];
            assert(reads[0] is ReadRegister);
            assert(reads[1] is ReadRegister);
            let target = if spec_branch_taken(opcode, a, b) {
                m.pc + to_signed32(imm)
            } else {
                m.pc + 1int
            };
            lemma_undo_segment_none(m, reads, target);
        },
        Instruction::U { .. } => {
            assert(false);
        },
        Instruction::UJ { .. } => {
            assert(false);
        },
    }
}

} // verus!
