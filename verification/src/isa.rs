//! The instruction set: registers, opcodes grouped by instruction format,
//! and the pre-decoded instruction representation the interpreter executes.

use vstd::prelude::*;

verus! {

/// One of the 32 general-purpose registers. `X0` is hard-wired to zero:
/// it always reads as zero and writes to it are discarded.
#[derive(Clone, Copy, Debug, PartialEq, Eq, Structural)]
pub enum Register {
    X0,
    X1,
    X2,
    X3,
    X4,
    X5,
    X6,
    X7,
    X8,
    X9,
    X10,
    X11,
    X12,
    X13,
    X14,
    X15,
    X16,
    X17,
    X18,
    X19,
    X20,
    X21,
    X22,
    X23,
    X24,
    X25,
    X26,
    X27,
    X28,
    X29,
    X30,
    X31,
}

impl Register {
    /// The index of this register, between 0 and 31.
    pub open spec fn index(self) -> int {
        match self {
            Register::X0 => 0,
            Register::X1 => 1,
            Register::X2 => 2,
            Register::X3 => 3,
            Register::X4 => 4,
            Register::X5 => 5,
            Register::X6 => 6,
            Register::X7 => 7,
            Register::X8 => 8,
            Register::X9 => 9,
            Register::X10 => 10,
            Register::X11 => 11,
            Register::X12 => 12,
            Register::X13 => 13,
            Register::X14 => 14,
            Register::X15 => 15,
            Register::X16 => 16,
            Register::X17 => 17,
            Register::X18 => 18,
            Register::X19 => 19,
            Register::X20 => 20,
            Register::X21 => 21,
            Register::X22 => 22,
            Register::X23 => 23,
            Register::X24 => 24,
            Register::X25 => 25,
            Register::X26 => 26,
            Register::X27 => 27,
            Register::X28 => 28,
            Register::X29 => 29,
            Register::X30 => 30,
            Register::X31 => 31,
        }
    }

    /// The register's number, between 0 and 31.
    pub fn as_num(self) -> (n: usize)
        ensures
            n == self.index(),
            n < 32,
    {
        match self {
            Register::X0 => 0,
            Register::X1 => 1,
            Register::X2 => 2,
            Register::X3 => 3,
            Register::X4 => 4,
            Register::X5 => 5,
            Register::X6 => 6,
            Register::X7 => 7,
            Register::X8 => 8,
            Register::X9 => 9,
            Register::X10 => 10,
            Register::X11 => 11,
            Register::X12 => 12,
            Register::X13 => 13,
            Register::X14 => 14,
            Register::X15 => 15,
            Register::X16 => 16,
            Register::X17 => 17,
            Register::X18 => 18,
            Register::X19 => 19,
            Register::X20 => 20,
            Register::X21 => 21,
            Register::X22 => 22,
            Register::X23 => 23,
            Register::X24 => 24,
            Register::X25 => 25,
            Register::X26 => 26,
            Register::X27 => 27,
            Register::X28 => 28,
            Register::X29 => 29,
            Register::X30 => 30,
            Register::X31 => 31,
        }
    }

    /// The register with the given number. Numbers at or above 32 name no
    /// register.
    pub fn from_num(num: u32) -> (r: Register)
        requires
            num < 32,
        ensures
            r.index() == num,
    {
        match num {
            0 => Register::X0,
            1 => Register::X1,
            2 => Register::X2,
            3 => Register::X3,
            4 => Register::X4,
            5 => Register::X5,
            6 => Register::X6,
            7 => Register::X7,
            8 => Register::X8,
            9 => Register::X9,
            10 => Register::X10,
            11 => Register::X11,
            12 => Register::X12,
            13 => Register::X13,
            14 => Register::X14,
            15 => Register::X15,
            16 => Register::X16,
            17 => Register::X17,
            18 => Register::X18,
            19 => Register::X19,
            20 => Register::X20,
            21 => Register::X21,
            22 => Register::X22,
            23 => Register::X23,
            24 => Register::X24,
            25 => Register::X25,
            26 => Register::X26,
            27 => Register::X27,
            28 => Register::X28,
            29 => Register::X29,
            30 => Register::X30,
            _ => Register::X31,
        }
    }
}

/// Every register's index lies between 0 and 31.
pub proof fn lemma_register_index_range(r: Register)
    ensures
        0 <= r.index() < 32,
{
}

/// ABI name for `X0`.
#[allow(non_upper_case_globals)]
pub const Zero: Register = Register::X0;

/// ABI name for `X1`.
#[allow(non_upper_case_globals)]
pub const Ra: Register = Register::X1;

/// ABI name for `X2`.
#[allow(non_upper_case_globals)]
pub const Sp: Register = Register::X2;

/// ABI name for `X3`.
#[allow(non_upper_case_globals)]
pub const Gp: Register = Register::X3;

/// ABI name for `X4`.
#[allow(non_upper_case_globals)]
pub const Tp: Register = Register::X4;

/// ABI name for `X5`.
#[allow(non_upper_case_globals)]
pub const T0: Register = Register::X5;

/// ABI name for `X6`.
#[allow(non_upper_case_globals)]
pub const T1: Register = Register::X6;

/// ABI name for `X7`.
#[allow(non_upper_case_globals)]
pub const T2: Register = Register::X7;

/// ABI name for `X8`.
#[allow(non_upper_case_globals)]
pub const S0: Register = Register::X8;

/// ABI name for `X8`, as a frame pointer.
#[allow(non_upper_case_globals)]
pub const Fp: Register = Register::X8;

/// ABI name for `X9`.
#[allow(non_upper_case_globals)]
pub const S1: Register = Register::X9;

/// ABI name for `X10`.
#[allow(non_upper_case_globals)]
pub const A0: Register = Register::X10;

/// ABI name for `X11`.
#[allow(non_upper_case_globals)]
pub const A1: Register = Register::X11;

/// ABI name for `X12`.
#[allow(non_upper_case_globals)]
pub const A2: Register = Register::X12;

/// ABI name for `X13`.
#[allow(non_upper_case_globals)]
pub const A3: Register = Register::X13;

/// ABI name for `X14`.
#[allow(non_upper_case_globals)]
pub const A4: Register = Register::X14;

/// ABI name for `X15`.
#[allow(non_upper_case_globals)]
pub const A5: Register = Register::X15;

/// ABI name for `X16`.
#[allow(non_upper_case_globals)]
pub const A6: Register = Register::X16;

/// ABI name for `X17`.
#[allow(non_upper_case_globals)]
pub const A7: Register = Register::X17;

/// ABI name for `X18`.
#[allow(non_upper_case_globals)]
pub const S2: Register = Register::X18;

/// ABI name for `X19`.
#[allow(non_upper_case_globals)]
pub const S3: Register = Register::X19;

/// ABI name for `X20`.
#[allow(non_upper_case_globals)]
pub const S4: Register = Register::X20;

/// ABI name for `X21`.
#[allow(non_upper_case_globals)]
pub const S5: Register = Register::X21;

/// ABI name for `X22`.
#[allow(non_upper_case_globals)]
pub const S6: Register = Register::X22;

/// ABI name for `X23`.
#[allow(non_upper_case_globals)]
pub const S7: Register = Register::X23;

/// ABI name for `X24`.
#[allow(non_upper_case_globals)]
pub const S8: Register = Register::X24;

/// ABI name for `X25`.
#[allow(non_upper_case_globals)]
pub const S9: Register = Register::X25;

/// ABI name for `X26`.
#[allow(non_upper_case_globals)]
pub const S10: Register = Register::X26;

/// ABI name for `X27`.
#[allow(non_upper_case_globals)]
pub const S11: Register = Register::X27;

/// ABI name for `X28`.
#[allow(non_upper_case_globals)]
pub const T3: Register = Register::X28;

/// ABI name for `X29`.
#[allow(non_upper_case_globals)]
pub const T4: Register = Register::X29;

/// ABI name for `X30`.
#[allow(non_upper_case_globals)]
pub const T5: Register = Register::X30;

/// ABI name for `X31`.
#[allow(non_upper_case_globals)]
pub const T6: Register = Register::X31;

/// Opcodes of the U format. Their execution semantics are not defined yet:
/// executing one is an `UnsupportedInstruction` fault.
#[derive(Clone, Copy, Debug, PartialEq, Eq, Structural)]
pub enum UOpcode {
    LUI,
    AUIPC,
}

/// Opcodes of the UJ format. Their execution semantics are not defined yet:
/// executing one is an `UnsupportedInstruction` fault.
#[derive(Clone, Copy, Debug, PartialEq, Eq, Structural)]
pub enum UJOpcode {
    JAL,
}

/// Conditional branches. `BLT`/`BGE` compare signed, `BLTU`/`BGEU`
/// unsigned; the branch target is `pc + imm`, with the program counter
/// counted in instructions.
#[derive(Clone, Copy, Debug, PartialEq, Eq, Structural)]
pub enum SBOpcode {
    BEQ,
    BNE,
    BLT,
    BGE,
    BLTU,
    BGEU,
}

/// Stores of a byte, half-word or word to `rs1 + imm`.
#[derive(Clone, Copy, Debug, PartialEq, Eq, Structural)]
pub enum SOpcode {
    SB,
    SH,
    SW,
}

/// Immediate-operand instructions: loads from `rs1 + imm`, and
/// arithmetic, comparison and logical operations with an immediate.
/// `JALR` and `SCALL` are declared but unimplemented: executing either is
/// an `UnsupportedInstruction` fault.
#[derive(Clone, Copy, Debug, PartialEq, Eq, Structural)]
pub enum IOpcode {
    JALR,
    LB,
    LH,
    LW,
    LBU,
    LHU,
    ADDI,
    SLTI,
    SLTIU,
    XORI,
    ORI,
    ANDI,
    SCALL,
}

/// Register-register ALU operations. `ADD`/`SUB` wrap on overflow;
/// `SLT`/`SLTU` differ by signed versus unsigned comparison.
#[derive(Clone, Copy, Debug, PartialEq, Eq, Structural)]
pub enum ROpcode {
    ADD,
    SUB,
    SLL,
    SLT,
    SLTU,
    XOR,
    SRL,
    SRA,
    OR,
    AND,
}

/// Shifts by an immediate amount. `SRAI` is an arithmetic
/// (sign-preserving) right shift.
#[derive(Clone, Copy, Debug, PartialEq, Eq, Structural)]
pub enum RShiftOpcode {
    SLLI,
    SRLI,
    SRAI,
}

/// A pre-decoded instruction: one case per instruction format, each
/// carrying its opcode and typed operand fields. A program is an ordered
/// slice of these.
#[derive(Clone, Copy, Debug, PartialEq, Eq, Structural)]
#[allow(inconsistent_fields)]
pub enum Instruction {
    RShift { opcode: RShiftOpcode, rd: Register, rs1: Register, shamt: u32 },
    R { opcode: ROpcode, rd: Register, rs1: Register, rs2: Register },
    I { opcode: IOpcode, rd: Register, rs1: Register, imm: u32 },
    S { opcode: SOpcode, rs1: Register, rs2: Register, imm: u32 },
    SB { opcode: SBOpcode, rs1: Register, rs2: Register, imm: u32 },
    U { opcode: UOpcode, rd: Register, imm: u32 },
    UJ { opcode: UJOpcode, rd: Register, imm: u32 },
}

} // verus!
