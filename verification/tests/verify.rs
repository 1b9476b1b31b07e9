use nvmirror::isa::{AluOp, BpfReg, Insn, JmpOp, MemWidth, Source};
use nvmirror::verify::{verify_program, VerifyError};

#[test]
fn verify_minimal_program() {
    // MOV64 R0, 0; EXIT
    let insns = vec![Insn::Alu64 { op: AluOp::Mov, dst: BpfReg::R0, src: Source::Imm(0) }, Insn::Exit];
    assert!(verify_program(&insns).is_ok());
}

#[test]
fn reject_uninit_read() {
    // ADD64 R0, R2 (R2 never initialized); EXIT
    let insns = vec![
        Insn::Alu64 { op: AluOp::Add, dst: BpfReg::R0, src: Source::Reg(BpfReg::R2) },
        Insn::Exit,
    ];
    assert!(matches!(verify_program(&insns), Err(VerifyError::UninitializedRegRead { pc: 0, .. })));
}

#[test]
fn reject_write_to_r10() {
    let insns = vec![Insn::Alu64 { op: AluOp::Mov, dst: BpfReg::R10, src: Source::Imm(0) }, Insn::Exit];
    assert!(matches!(verify_program(&insns), Err(VerifyError::WriteToR10 { pc: 0 })));
}

#[test]
fn reject_stack_overflow() {
    // STORE [R10 - 520], R1: out of bounds
    let insns = vec![
        Insn::Alu64 { op: AluOp::Mov, dst: BpfReg::R0, src: Source::Imm(0) },
        Insn::StoreReg { width: MemWidth::DW, dst: BpfReg::R10, src: BpfReg::R1, off: -520 },
        Insn::Exit,
    ];
    assert!(matches!(
        verify_program(&insns),
        Err(VerifyError::StackOutOfBounds { pc: 1, offset: -520 })
    ));
}

#[test]
fn verify_conditional_branch() {
    // R0 = 0; if R1 == 0 goto +1; R0 = 1; EXIT
    let insns = vec![
        Insn::Alu64 { op: AluOp::Mov, dst: BpfReg::R0, src: Source::Imm(0) },
        Insn::JmpCond { op: JmpOp::Jeq, dst: BpfReg::R1, src: Source::Imm(0), off: 1 },
        Insn::Alu64 { op: AluOp::Mov, dst: BpfReg::R0, src: Source::Imm(1) },
        Insn::Exit,
    ];
    assert!(verify_program(&insns).is_ok());
}

#[test]
fn reject_branch_out_of_bounds() {
    let insns = vec![
        Insn::Alu64 { op: AluOp::Mov, dst: BpfReg::R0, src: Source::Imm(0) },
        Insn::Ja { off: 100 },
        Insn::Exit,
    ];
    assert!(matches!(verify_program(&insns), Err(VerifyError::BranchOutOfBounds { .. })));
}

#[test]
fn reject_no_exit() {
    let insns = vec![
        Insn::Alu64 { op: AluOp::Mov, dst: BpfReg::R0, src: Source::Imm(0) },
        Insn::Ja { off: -1 }, // infinite loop, no exit
    ];
    assert!(verify_program(&insns).is_err());
}

#[test]
fn verify_call_clobbers_r1_r5() {
    // R0 = call(1); reading R2 afterwards must fail.
    let insns = vec![
        Insn::Call { func_id: 1 },
        Insn::Alu64 { op: AluOp::Add, dst: BpfReg::R0, src: Source::Reg(BpfReg::R2) },
        Insn::Exit,
    ];
    assert!(matches!(verify_program(&insns), Err(VerifyError::UninitializedRegRead { pc: 1, .. })));
}

// --- further cases ---

#[test]
fn reject_empty_program() {
    assert_eq!(verify_program(&[]), Err(VerifyError::EmptyProgram));
}

#[test]
fn count_blocks_of_branching_program() {
    // Leaders: 0, the branch target 3, and 2 (after the branch): 3 blocks.
    let insns = vec![
        Insn::Alu64 { op: AluOp::Mov, dst: BpfReg::R0, src: Source::Imm(0) },
        Insn::JmpCond { op: JmpOp::Jeq, dst: BpfReg::R1, src: Source::Imm(0), off: 1 },
        Insn::Alu64 { op: AluOp::Mov, dst: BpfReg::R0, src: Source::Imm(1) },
        Insn::Exit,
    ];
    assert_eq!(verify_program(&insns), Ok(3));
}

#[test]
fn stack_access_inside_frame_is_accepted() {
    let insns = vec![
        Insn::StoreImm { width: MemWidth::DW, dst: BpfReg::R10, off: -512, imm: 7 },
        Insn::Load { width: MemWidth::DW, dst: BpfReg::R0, src: BpfReg::R10, off: -512 },
        Insn::Exit,
    ];
    assert_eq!(verify_program(&insns), Ok(1));
}

#[test]
fn reject_code_after_exit_that_nothing_reaches() {
    // R0 = 0; EXIT; R0 = 1; EXIT: the second block is never entered.
    let insns = vec![
        Insn::Alu64 { op: AluOp::Mov, dst: BpfReg::R0, src: Source::Imm(0) },
        Insn::Exit,
        Insn::Alu64 { op: AluOp::Mov, dst: BpfReg::R0, src: Source::Imm(1) },
        Insn::Exit,
    ];
    assert_eq!(verify_program(&insns), Err(VerifyError::UnreachableCode { pc: 2 }));
}

#[test]
fn jumped_over_code_reached_by_a_branch_is_accepted() {
    // R0 = 0; if R1 == 0 goto 3; JA 4; R0 = 1; EXIT: the MOV that JA skips is
    // entered from the conditional branch.
    let insns = vec![
        Insn::Alu64 { op: AluOp::Mov, dst: BpfReg::R0, src: Source::Imm(0) },
        Insn::JmpCond { op: JmpOp::Jeq, dst: BpfReg::R1, src: Source::Imm(0), off: 1 },
        Insn::Ja { off: 1 },
        Insn::Alu64 { op: AluOp::Mov, dst: BpfReg::R0, src: Source::Imm(1) },
        Insn::Exit,
    ];
    assert_eq!(verify_program(&insns), Ok(4));
}

#[test]
fn reject_read_written_on_only_one_path() {
    // if R1 == 0 goto 3; R2 = 1; R0 = R2; EXIT: when the jump is taken R2
    // has never been written at the MOV that reads it.
    let insns = vec![
        Insn::JmpCond { op: JmpOp::Jeq, dst: BpfReg::R1, src: Source::Imm(0), off: 1 },
        Insn::Alu64 { op: AluOp::Mov, dst: BpfReg::R2, src: Source::Imm(1) },
        Insn::Alu64 { op: AluOp::Mov, dst: BpfReg::R0, src: Source::Reg(BpfReg::R2) },
        Insn::Exit,
    ];
    assert_eq!(
        verify_program(&insns),
        Err(VerifyError::UninitializedRegRead { pc: 2, reg: BpfReg::R2 })
    );
}

#[test]
fn reject_wide_store_reaching_past_the_frame_pointer() {
    // An 8-byte store at R10-4 covers R10-4 .. R10+3.
    let insns = vec![
        Insn::Alu64 { op: AluOp::Mov, dst: BpfReg::R0, src: Source::Imm(0) },
        Insn::StoreReg { width: MemWidth::DW, dst: BpfReg::R10, src: BpfReg::R1, off: -4 },
        Insn::Exit,
    ];
    assert_eq!(verify_program(&insns), Err(VerifyError::StackOutOfBounds { pc: 1, offset: -4 }));
    // A 4-byte store at R10-4 fits.
    let ok = vec![
        Insn::Alu64 { op: AluOp::Mov, dst: BpfReg::R0, src: Source::Imm(0) },
        Insn::StoreReg { width: MemWidth::W, dst: BpfReg::R10, src: BpfReg::R1, off: -4 },
        Insn::Exit,
    ];
    assert!(verify_program(&ok).is_ok());
}

#[test]
fn reject_loops() {
    // R0 = 0; if R0 == 0 goto 1 (itself); EXIT: a loop that never ends.
    let insns = vec![
        Insn::Alu64 { op: AluOp::Mov, dst: BpfReg::R0, src: Source::Imm(0) },
        Insn::JmpCond { op: JmpOp::Jeq, dst: BpfReg::R0, src: Source::Imm(0), off: -1 },
        Insn::Exit,
    ];
    assert_eq!(verify_program(&insns), Err(VerifyError::BackEdgeBudgetExceeded { pc: 1 }));
    // A backward unconditional jump.
    let back = vec![
        Insn::Alu64 { op: AluOp::Mov, dst: BpfReg::R0, src: Source::Imm(0) },
        Insn::Exit,
        Insn::Ja { off: -3 },
    ];
    assert_eq!(verify_program(&back), Err(VerifyError::BackEdgeBudgetExceeded { pc: 2 }));
}

#[test]
fn reject_running_off_the_end() {
    let insns = vec![Insn::Alu64 { op: AluOp::Mov, dst: BpfReg::R0, src: Source::Imm(0) }];
    assert_eq!(verify_program(&insns), Err(VerifyError::FallthroughAfterExit { pc: 0 }));
}

#[test]
fn reject_program_that_only_tail_calls() {
    let insns = vec![Insn::Alu64 { op: AluOp::Mov, dst: BpfReg::R0, src: Source::Imm(0) }, Insn::TailCall];
    assert_eq!(verify_program(&insns), Err(VerifyError::NoExitInstruction));
}

#[test]
fn reject_first_violation_past_a_branch() {
    // R0 = 0; if R1 == 0 goto +1; R0 = 1; R0 += R3; EXIT: R0 is set on
    // both paths, R3 on neither.
    let insns = vec![
        Insn::Alu64 { op: AluOp::Mov, dst: BpfReg::R0, src: Source::Imm(0) },
        Insn::JmpCond { op: JmpOp::Jeq, dst: BpfReg::R1, src: Source::Imm(0), off: 1 },
        Insn::Alu64 { op: AluOp::Mov, dst: BpfReg::R0, src: Source::Imm(1) },
        Insn::Alu64 { op: AluOp::Add, dst: BpfReg::R0, src: Source::Reg(BpfReg::R3) },
        Insn::Exit,
    ];
    assert_eq!(
        verify_program(&insns),
        Err(VerifyError::UninitializedRegRead { pc: 3, reg: BpfReg::R3 })
    );
}
