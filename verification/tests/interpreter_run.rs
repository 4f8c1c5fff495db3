//! End-to-end tests of the interpreter: stepping, the action log,
//! faults, and step-back.

use riscvisualizer::cache::MISS_LATENCY;
use riscvisualizer::interpreter::{Action, Fault, Interpreter, RegisterFile, State};
use riscvisualizer::isa::{
    IOpcode, Instruction, ROpcode, RShiftOpcode, Register, SBOpcode, SOpcode, UJOpcode, UOpcode,
};
use riscvisualizer::types::Word;

fn addi(rd: Register, rs1: Register, imm: u32) -> Instruction {
    Instruction::I { opcode: IOpcode::ADDI, rd, rs1, imm }
}

#[test]
fn register_file_x0_reads_zero_after_any_write() {
    let mut rf = RegisterFile::new();
    rf.write_word(Register::X0, Word(0xDEAD_BEEF));
    assert_eq!(rf.read_word(Register::X0), Word(0));
    rf.write_word(Register::X1, Word(7));
    assert_eq!(rf.read_word(Register::X1), Word(7));
    assert_eq!(rf.read_word(Register::X0), Word(0));
}

#[test]
fn writes_to_x0_through_interpreter_are_discarded() {
    let program = vec![addi(Register::X0, Register::X0, 0xF0)];
    let mut interp = Interpreter::new(4, &program);
    interp.step().unwrap();
    assert_eq!(interp.registers().read_word(Register::X0), Word(0));
}

#[test]
fn addi_chain_accumulates() {
    // two immediates accumulate into 255
    let program = vec![
        addi(Register::X5, Register::X0, 0xF0),
        addi(Register::X5, Register::X5, 0x0F),
    ];
    let mut interp = Interpreter::new(4, &program);
    interp.step().unwrap();
    interp.step().unwrap();
    assert_eq!(interp.registers().read_word(Register::X5), Word(255));
    assert_eq!(interp.state(), State::Finished);
}

#[test]
fn addi_logs_reads_effect_and_jump() {
    let program = vec![
        addi(Register::X5, Register::X0, 0xF0),
        addi(Register::X5, Register::X5, 0x0F),
    ];
    let mut interp = Interpreter::new(4, &program);
    interp.step().unwrap();
    let log = interp.iter();
    assert_eq!(log.len(), 3);
    assert_eq!(log[0], Action::ReadRegister(Register::X0, Word(0)));
    assert_eq!(log[1], Action::WriteRegister(Register::X5, Word(0), Word(0xF0)));
    assert_eq!(log[2], Action::Jump(0, 1));
}

#[test]
fn add_wraps_modulo_two_to_the_32() {
    let program = vec![
        addi(Register::X1, Register::X0, 0xFFFF_FFFF),
        addi(Register::X2, Register::X0, 1),
        Instruction::R { opcode: ROpcode::ADD, rd: Register::X3, rs1: Register::X1, rs2: Register::X2 },
        Instruction::R { opcode: ROpcode::SUB, rd: Register::X4, rs1: Register::X0, rs2: Register::X2 },
    ];
    let mut interp = Interpreter::new(4, &program);
    for _ in 0..4 {
        interp.step().unwrap();
    }
    assert_eq!(interp.registers().read_word(Register::X3), Word(0));
    assert_eq!(interp.registers().read_word(Register::X4), Word(0xFFFF_FFFF));
}

#[test]
fn slt_compares_signed_sltu_unsigned() {
    // X1 = 0xFFFFFFFF (minus one signed), X2 = 1
    let program = vec![
        addi(Register::X1, Register::X0, 0xFFFF_FFFF),
        addi(Register::X2, Register::X0, 1),
        Instruction::R { opcode: ROpcode::SLT, rd: Register::X3, rs1: Register::X1, rs2: Register::X2 },
        Instruction::R { opcode: ROpcode::SLTU, rd: Register::X4, rs1: Register::X1, rs2: Register::X2 },
        Instruction::I { opcode: IOpcode::SLTI, rd: Register::X5, rs1: Register::X1, imm: 1 },
        Instruction::I { opcode: IOpcode::SLTIU, rd: Register::X6, rs1: Register::X1, imm: 1 },
    ];
    let mut interp = Interpreter::new(4, &program);
    for _ in 0..6 {
        interp.step().unwrap();
    }
    assert_eq!(interp.registers().read_word(Register::X3), Word(1));
    assert_eq!(interp.registers().read_word(Register::X4), Word(0));
    assert_eq!(interp.registers().read_word(Register::X5), Word(1));
    assert_eq!(interp.registers().read_word(Register::X6), Word(0));
}

#[test]
fn shifts_by_immediate() {
    let program = vec![
        addi(Register::X1, Register::X0, 0xFFFF_FF00),
        Instruction::RShift { opcode: RShiftOpcode::SRAI, rd: Register::X2, rs1: Register::X1, shamt: 4 },
        Instruction::RShift { opcode: RShiftOpcode::SRLI, rd: Register::X3, rs1: Register::X1, shamt: 4 },
        Instruction::RShift { opcode: RShiftOpcode::SLLI, rd: Register::X4, rs1: Register::X1, shamt: 4 },
    ];
    let mut interp = Interpreter::new(4, &program);
    for _ in 0..4 {
        interp.step().unwrap();
    }
    assert_eq!(interp.registers().read_word(Register::X2), Word(0xFFFF_FFF0));
    assert_eq!(interp.registers().read_word(Register::X3), Word(0x0FFF_FFF0));
    assert_eq!(interp.registers().read_word(Register::X4), Word(0xFFFF_F000));
}

#[test]
fn store_word_then_load_word_round_trips() {
    let program = vec![
        addi(Register::X6, Register::X0, 0xDEAD_BEEF),
        Instruction::S { opcode: SOpcode::SW, rs1: Register::X0, rs2: Register::X6, imm: 0 },
        Instruction::I { opcode: IOpcode::LW, rd: Register::X7, rs1: Register::X0, imm: 0 },
    ];
    let mut interp = Interpreter::new(4, &program);
    for _ in 0..3 {
        interp.step().unwrap();
    }
    assert_eq!(interp.registers().read_word(Register::X7), Word(0xDEAD_BEEF));
}

#[test]
fn lb_sign_extends_and_lbu_zero_extends() {
    let program = vec![
        addi(Register::X1, Register::X0, 0xFF),
        Instruction::S { opcode: SOpcode::SB, rs1: Register::X0, rs2: Register::X1, imm: 0 },
        Instruction::I { opcode: IOpcode::LB, rd: Register::X2, rs1: Register::X0, imm: 0 },
        Instruction::I { opcode: IOpcode::LBU, rd: Register::X3, rs1: Register::X0, imm: 0 },
    ];
    let mut interp = Interpreter::new(4, &program);
    for _ in 0..4 {
        interp.step().unwrap();
    }
    assert_eq!(interp.registers().read_word(Register::X2), Word(0xFFFF_FFFF));
    assert_eq!(interp.registers().read_word(Register::X3), Word(0x0000_00FF));
}

#[test]
fn lh_sign_extends_and_lhu_zero_extends() {
    let program = vec![
        addi(Register::X1, Register::X0, 0x8000),
        Instruction::S { opcode: SOpcode::SH, rs1: Register::X0, rs2: Register::X1, imm: 2 },
        Instruction::I { opcode: IOpcode::LH, rd: Register::X2, rs1: Register::X0, imm: 2 },
        Instruction::I { opcode: IOpcode::LHU, rd: Register::X3, rs1: Register::X0, imm: 2 },
        Instruction::I { opcode: IOpcode::LW, rd: Register::X4, rs1: Register::X0, imm: 0 },
    ];
    let mut interp = Interpreter::new(4, &program);
    for _ in 0..5 {
        interp.step().unwrap();
    }
    assert_eq!(interp.registers().read_word(Register::X2), Word(0xFFFF_8000));
    assert_eq!(interp.registers().read_word(Register::X3), Word(0x0000_8000));
    assert_eq!(interp.registers().read_word(Register::X4), Word(0x8000_0000));
}

#[test]
fn store_byte_at_offset_one_leaves_other_bytes() {
    let program = vec![
        addi(Register::X1, Register::X0, 0xAB),
        Instruction::S { opcode: SOpcode::SB, rs1: Register::X0, rs2: Register::X1, imm: 1 },
        Instruction::I { opcode: IOpcode::LW, rd: Register::X2, rs1: Register::X0, imm: 0 },
        Instruction::I { opcode: IOpcode::LBU, rd: Register::X3, rs1: Register::X0, imm: 0 },
        Instruction::I { opcode: IOpcode::LBU, rd: Register::X4, rs1: Register::X0, imm: 2 },
        Instruction::I { opcode: IOpcode::LBU, rd: Register::X5, rs1: Register::X0, imm: 3 },
    ];
    let mut interp = Interpreter::new(4, &program);
    for _ in 0..6 {
        interp.step().unwrap();
    }
    assert_eq!(interp.registers().read_word(Register::X2), Word(0x0000_AB00));
    assert_eq!(interp.registers().read_word(Register::X3), Word(0));
    assert_eq!(interp.registers().read_word(Register::X4), Word(0));
    assert_eq!(interp.registers().read_word(Register::X5), Word(0));
}

#[test]
fn branch_taken_jumps_by_offset_and_not_taken_falls_through() {
    // BEQ x0,x0,+3 is taken: the counter jumps from 1 to 4
    let program = vec![
        addi(Register::X1, Register::X0, 1),
        Instruction::SB { opcode: SBOpcode::BEQ, rs1: Register::X0, rs2: Register::X0, imm: 3 },
        addi(Register::X1, Register::X1, 1),
        addi(Register::X1, Register::X1, 1),
        addi(Register::X2, Register::X0, 9),
    ];
    let mut interp = Interpreter::new(4, &program);
    interp.step().unwrap();
    interp.step().unwrap();
    assert_eq!(interp.iter().last(), Some(&Action::Jump(1, 4)));
    interp.step().unwrap();
    assert_eq!(interp.registers().read_word(Register::X1), Word(1));
    assert_eq!(interp.registers().read_word(Register::X2), Word(9));
    assert_eq!(interp.state(), State::Finished);

    // BNE x0,x0,+3 is not taken: the counter falls through from 0 to 1
    let program2 = vec![
        Instruction::SB { opcode: SBOpcode::BNE, rs1: Register::X0, rs2: Register::X0, imm: 3 },
        addi(Register::X3, Register::X0, 5),
    ];
    let mut interp2 = Interpreter::new(4, &program2);
    interp2.step().unwrap();
    assert_eq!(interp2.iter().last(), Some(&Action::Jump(0, 1)));
    interp2.step().unwrap();
    assert_eq!(interp2.registers().read_word(Register::X3), Word(5));
}

#[test]
fn branch_with_negative_offset_loops_back() {
    // X1 counts down from 2; BNE x1,x0,-1 re-runs the decrement
    let program = vec![
        addi(Register::X1, Register::X0, 2),
        addi(Register::X1, Register::X1, 0xFFFF_FFFF),
        Instruction::SB { opcode: SBOpcode::BNE, rs1: Register::X1, rs2: Register::X0, imm: 0xFFFF_FFFF },
    ];
    let mut interp = Interpreter::new(4, &program);
    // addi; dec; bne (taken, back to 1); dec; bne (not taken, finish)
    for _ in 0..5 {
        interp.step().unwrap();
    }
    assert_eq!(interp.registers().read_word(Register::X1), Word(0));
    assert_eq!(interp.state(), State::Finished);
}

#[test]
fn branch_not_taken_when_operand_nonzero() {
    // the branch compares x1 (5) against x0: not taken, so x1 ends at 6
    let program = vec![
        addi(Register::X1, Register::X0, 5),
        Instruction::SB { opcode: SBOpcode::BEQ, rs1: Register::X1, rs2: Register::X0, imm: 2 },
        addi(Register::X1, Register::X1, 1),
    ];
    let mut interp = Interpreter::new(4, &program);
    interp.step().unwrap();
    interp.step().unwrap();
    interp.step().unwrap();
    assert_eq!(interp.registers().read_word(Register::X1), Word(6));
    assert_eq!(interp.state(), State::Finished);
}

#[test]
fn out_of_range_store_faults_and_halts() {
    // address 0x20 is word index 8, beyond a 4-word memory
    let program = vec![
        Instruction::S { opcode: SOpcode::SW, rs1: Register::X0, rs2: Register::X6, imm: 0x20 },
    ];
    let mut interp = Interpreter::new(4, &program);
    assert_eq!(interp.step(), Err(Fault::InvalidAddress));
    assert_eq!(interp.state(), State::Halted);
    let log = interp.iter();
    assert_eq!(log.len(), 3);
    assert_eq!(log[0], Action::ReadRegister(Register::X0, Word(0)));
    assert_eq!(log[1], Action::ReadRegister(Register::X6, Word(0)));
    assert_eq!(log[2], Action::Error);
    // further stepping is rejected without touching anything
    assert_eq!(interp.step(), Err(Fault::Halted));
    assert_eq!(interp.iter().len(), 3);
}

#[test]
fn out_of_range_load_faults_and_halts() {
    let program = vec![
        Instruction::I { opcode: IOpcode::LW, rd: Register::X1, rs1: Register::X0, imm: 0x20 },
    ];
    let mut interp = Interpreter::new(4, &program);
    assert_eq!(interp.step(), Err(Fault::InvalidAddress));
    assert_eq!(interp.state(), State::Halted);
    assert_eq!(interp.iter().last(), Some(&Action::Error));
    assert_eq!(interp.step(), Err(Fault::Halted));
}

#[test]
fn misaligned_halfword_load_faults() {
    let program = vec![
        Instruction::I { opcode: IOpcode::LH, rd: Register::X1, rs1: Register::X0, imm: 1 },
    ];
    let mut interp = Interpreter::new(4, &program);
    assert_eq!(interp.step(), Err(Fault::AlignmentFault));
    assert_eq!(interp.state(), State::Halted);
}

#[test]
fn unsupported_instructions_fault() {
    let program = vec![
        Instruction::U { opcode: UOpcode::LUI, rd: Register::X1, imm: 1 },
    ];
    let mut interp = Interpreter::new(4, &program);
    assert_eq!(interp.step(), Err(Fault::UnsupportedInstruction));
    assert_eq!(interp.state(), State::Halted);

    let program2 = vec![
        Instruction::UJ { opcode: UJOpcode::JAL, rd: Register::X1, imm: 1 },
    ];
    let mut interp2 = Interpreter::new(4, &program2);
    assert_eq!(interp2.step(), Err(Fault::UnsupportedInstruction));

    let program3 = vec![
        Instruction::I { opcode: IOpcode::JALR, rd: Register::X1, rs1: Register::X0, imm: 0 },
    ];
    let mut interp3 = Interpreter::new(4, &program3);
    assert_eq!(interp3.step(), Err(Fault::UnsupportedInstruction));
    // the register read gathered before the fault is still logged
    assert_eq!(interp3.iter()[0], Action::ReadRegister(Register::X0, Word(0)));
    assert_eq!(interp3.iter()[1], Action::Error);
}

#[test]
fn stepping_past_the_end_is_rejected() {
    let program = vec![addi(Register::X1, Register::X0, 1)];
    let mut interp = Interpreter::new(4, &program);
    interp.step().unwrap();
    assert_eq!(interp.state(), State::Finished);
    assert_eq!(interp.step(), Err(Fault::Finished));
    assert_eq!(interp.registers().read_word(Register::X1), Word(1));
}

#[test]
fn load_miss_logs_stall_and_hit_does_not() {
    let program = vec![
        Instruction::I { opcode: IOpcode::LW, rd: Register::X1, rs1: Register::X0, imm: 0 },
        Instruction::I { opcode: IOpcode::LW, rd: Register::X2, rs1: Register::X0, imm: 0 },
    ];
    let mut interp = Interpreter::new(16, &program);
    interp.step().unwrap();
    let log = interp.iter();
    // reads, effect, stall (a cold miss), jump
    assert_eq!(log.len(), 4);
    assert_eq!(log[2], Action::Stall(MISS_LATENCY));
    assert_eq!(log[3], Action::Jump(0, 1));
    interp.step().unwrap();
    // the second load hits: no stall entry
    let log = interp.iter();
    assert_eq!(log.len(), 7);
    assert_eq!(log[6], Action::Jump(1, 2));
}

#[test]
fn step_back_restores_registers_and_log() {
    let program = vec![
        addi(Register::X5, Register::X0, 0xF0),
        addi(Register::X5, Register::X5, 0x0F),
    ];
    let mut interp = Interpreter::new(4, &program);
    interp.step().unwrap();
    let x5_before = interp.registers().read_word(Register::X5);
    let log_before = interp.iter().clone();
    interp.step().unwrap();
    assert_eq!(interp.registers().read_word(Register::X5), Word(255));
    interp.step_back();
    assert_eq!(interp.registers().read_word(Register::X5), x5_before);
    assert_eq!(interp.iter(), &log_before);
    assert_eq!(interp.state(), State::Ready);
    // stepping forward again replays the same step
    interp.step().unwrap();
    assert_eq!(interp.registers().read_word(Register::X5), Word(255));
}

#[test]
fn step_back_restores_memory() {
    let program = vec![
        addi(Register::X1, Register::X0, 5),
        Instruction::S { opcode: SOpcode::SW, rs1: Register::X0, rs2: Register::X1, imm: 0 },
    ];
    let mut interp = Interpreter::new(4, &program);
    interp.step().unwrap();
    interp.step().unwrap();
    let log = interp.iter();
    assert_eq!(log[5], Action::WriteMemory(Word(0), Word(0), Word(5)));
    interp.step_back();
    // replaying the store sees the restored zero as the before-value
    interp.step().unwrap();
    assert_eq!(interp.iter()[5], Action::WriteMemory(Word(0), Word(0), Word(5)));
}

#[test]
fn step_back_to_the_beginning_then_no_op() {
    let program = vec![
        addi(Register::X1, Register::X0, 5),
        addi(Register::X2, Register::X1, 2),
    ];
    let mut interp = Interpreter::new(4, &program);
    interp.step().unwrap();
    interp.step().unwrap();
    interp.step_back();
    interp.step_back();
    assert_eq!(interp.iter().len(), 0);
    assert_eq!(interp.registers().read_word(Register::X1), Word(0));
    assert_eq!(interp.registers().read_word(Register::X2), Word(0));
    // an empty history makes step_back a no-op
    interp.step_back();
    assert_eq!(interp.iter().len(), 0);
    assert_eq!(interp.state(), State::Ready);
}

#[test]
fn step_back_is_no_op_after_a_fault() {
    let program = vec![
        Instruction::I { opcode: IOpcode::LW, rd: Register::X1, rs1: Register::X0, imm: 0x20 },
    ];
    let mut interp = Interpreter::new(4, &program);
    assert_eq!(interp.step(), Err(Fault::InvalidAddress));
    let log_len = interp.iter().len();
    interp.step_back();
    assert_eq!(interp.iter().len(), log_len);
    assert_eq!(interp.state(), State::Halted);
}

#[test]
fn empty_program_is_finished_immediately() {
    let program: Vec<Instruction> = vec![];
    let mut interp = Interpreter::new(4, &program);
    assert_eq!(interp.state(), State::Finished);
    assert_eq!(interp.step(), Err(Fault::Finished));
}

#[test]
fn word_access_ignores_the_byte_offset() {
    // word access is word-granular: an address's low two bits do not
    // move it to another word
    let program = vec![
        addi(Register::X1, Register::X0, 7),
        Instruction::S { opcode: SOpcode::SW, rs1: Register::X0, rs2: Register::X1, imm: 2 },
        Instruction::I { opcode: IOpcode::LW, rd: Register::X2, rs1: Register::X0, imm: 0 },
        Instruction::I { opcode: IOpcode::LW, rd: Register::X3, rs1: Register::X0, imm: 3 },
    ];
    let mut interp = Interpreter::new(4, &program);
    for _ in 0..4 {
        interp.step().unwrap();
    }
    assert_eq!(interp.registers().read_word(Register::X2), Word(7));
    assert_eq!(interp.registers().read_word(Register::X3), Word(7));
}

#[test]
fn logical_immediates() {
    let program = vec![
        addi(Register::X1, Register::X0, 0b1100),
        Instruction::I { opcode: IOpcode::XORI, rd: Register::X2, rs1: Register::X1, imm: 0b1010 },
        Instruction::I { opcode: IOpcode::ORI, rd: Register::X3, rs1: Register::X1, imm: 0b1010 },
        Instruction::I { opcode: IOpcode::ANDI, rd: Register::X4, rs1: Register::X1, imm: 0b1010 },
    ];
    let mut interp = Interpreter::new(4, &program);
    for _ in 0..4 {
        interp.step().unwrap();
    }
    assert_eq!(interp.registers().read_word(Register::X2), Word(0b0110));
    assert_eq!(interp.registers().read_word(Register::X3), Word(0b1110));
    assert_eq!(interp.registers().read_word(Register::X4), Word(0b1000));
}
