use nvmirror::engine::{compile, compile_sized, dry_run_size, JitError, Target};
use nvmirror::interpreter::InterpreterState;
use nvmirror::verify::{verify_program, VerifyError};
use nvmirror::isa::{
    AluOp, BpfReg, Insn, JmpOp, RawInsn, Source, BPF_ALU64, BPF_EXIT, BPF_JEQ, BPF_JMP, BPF_K,
    BPF_MOV,
};

fn make_raw(opcode: u8, dst: u8, src: u8, off: i16, imm: i32) -> RawInsn {
    RawInsn { opcode, regs: (src << 4) | dst, off, imm }
}

#[test]
fn compile_minimal_aarch64() {
    // MOV64 R0, 42; EXIT
    let raw = [make_raw(BPF_ALU64 | BPF_MOV | BPF_K, 0, 0, 0, 42), make_raw(BPF_JMP | BPF_EXIT, 0, 0, 0, 0)];
    let output = compile(&raw, Target::AArch64).unwrap();
    assert!(!output.code.is_empty());
    assert_eq!(output.code.len() % 4, 0); // AArch64 instructions are 4-byte aligned
}

#[test]
fn compile_minimal_riscv() {
    let raw = [make_raw(BPF_ALU64 | BPF_MOV | BPF_K, 0, 0, 0, 42), make_raw(BPF_JMP | BPF_EXIT, 0, 0, 0, 0)];
    let output = compile(&raw, Target::RiscV64).unwrap();
    assert!(!output.code.is_empty());
    assert_eq!(output.code.len() % 4, 0);
}

#[test]
fn compile_with_branch() {
    // R0 = 0; if R1 == 0 goto +1; R0 = 1; EXIT
    let raw = [
        make_raw(BPF_ALU64 | BPF_MOV | BPF_K, 0, 0, 0, 0),
        make_raw(BPF_JMP | BPF_JEQ | BPF_K, 1, 0, 1, 0),
        make_raw(BPF_ALU64 | BPF_MOV | BPF_K, 0, 0, 0, 1),
        make_raw(BPF_JMP | BPF_EXIT, 0, 0, 0, 0),
    ];
    let output = compile(&raw, Target::AArch64).unwrap();
    assert!(!output.code.is_empty());
}

#[test]
fn interpreter_basic() {
    let insns = vec![Insn::Alu64 { op: AluOp::Mov, dst: BpfReg::R0, src: Source::Imm(42) }, Insn::Exit];
    let mut state = InterpreterState::new();
    let result = state.run(&insns, 100);
    assert_eq!(result, 42);
}

#[test]
fn interpreter_branch() {
    let insns = vec![
        Insn::Alu64 { op: AluOp::Mov, dst: BpfReg::R0, src: Source::Imm(0) },
        Insn::Alu64 { op: AluOp::Mov, dst: BpfReg::R2, src: Source::Imm(5) },
        Insn::JmpCond { op: JmpOp::Jeq, dst: BpfReg::R2, src: Source::Imm(5), off: 1 },
        Insn::Alu64 { op: AluOp::Mov, dst: BpfReg::R0, src: Source::Imm(99) },
        Insn::Alu64 { op: AluOp::Mov, dst: BpfReg::R0, src: Source::Imm(42) },
        Insn::Exit,
    ];
    let mut state = InterpreterState::new();
    let result = state.run(&insns, 100);
    assert_eq!(result, 42); // skips R0=99 and sets R0=42
}

#[test]
fn two_pass_compilation() {
    let raw = [make_raw(BPF_ALU64 | BPF_MOV | BPF_K, 0, 0, 0, 42), make_raw(BPF_JMP | BPF_EXIT, 0, 0, 0, 0)];
    let output = compile_sized(&raw, Target::AArch64).unwrap();
    assert!(!output.code.is_empty());
}

// --- further cases ---

#[test]
fn minimal_aarch64_code_is_exact() {
    // MOVZ X7, #42; MOV X0, X7; RET
    let raw = [make_raw(BPF_ALU64 | BPF_MOV | BPF_K, 0, 0, 0, 42), make_raw(BPF_JMP | BPF_EXIT, 0, 0, 0, 0)];
    let output = compile(&raw, Target::AArch64).unwrap();
    let words: Vec<u32> = output
        .code
        .chunks(4)
        .map(|c| u32::from_le_bytes([c[0], c[1], c[2], c[3]]))
        .collect();
    assert_eq!(words, vec![0xD2800547, 0xAA0703E0, 0xD65F03C0]);
}

#[test]
fn minimal_riscv_code_is_exact() {
    // ADDI a0, x0, 42; JALR x0, 0(ra)
    let raw = [make_raw(BPF_ALU64 | BPF_MOV | BPF_K, 0, 0, 0, 42), make_raw(BPF_JMP | BPF_EXIT, 0, 0, 0, 0)];
    let output = compile(&raw, Target::RiscV64).unwrap();
    assert_eq!(output.code, vec![0x13, 0x05, 0xA0, 0x02, 0x67, 0x80, 0x00, 0x00]);
}

#[test]
fn branch_displacement_is_patched() {
    // R0 = 0; if R0 == 0 goto +1; R0 = 1; EXIT
    // AArch64: MOVZ X7,#0 | MOVZ X9,#0 | CMP X7,X9 | B.EQ +2 | MOVZ X7,#1 | MOV X0,X7 | RET
    let raw = [
        make_raw(BPF_ALU64 | BPF_MOV | BPF_K, 0, 0, 0, 0),
        make_raw(BPF_JMP | BPF_JEQ | BPF_K, 0, 0, 1, 0),
        make_raw(BPF_ALU64 | BPF_MOV | BPF_K, 0, 0, 0, 1),
        make_raw(BPF_JMP | BPF_EXIT, 0, 0, 0, 0),
    ];
    let output = compile(&raw, Target::AArch64).unwrap();
    let words: Vec<u32> = output
        .code
        .chunks(4)
        .map(|c| u32::from_le_bytes([c[0], c[1], c[2], c[3]]))
        .collect();
    assert_eq!(words[3], 0x54000000 | (2 << 5)); // B.EQ, two instructions ahead
}

#[test]
fn decode_error_is_reported() {
    assert!(matches!(compile(&[], Target::AArch64), Err(JitError::Decode(_))));
}

#[test]
fn verify_error_is_reported() {
    let raw = [make_raw(BPF_ALU64 | BPF_MOV | BPF_K, 10, 0, 0, 0), make_raw(BPF_JMP | BPF_EXIT, 0, 0, 0, 0)];
    assert!(matches!(compile(&raw, Target::RiscV64), Err(JitError::Verify(_))));
}

#[test]
fn dry_run_bounds_the_code() {
    let raw = [
        make_raw(BPF_ALU64 | BPF_MOV | BPF_K, 0, 0, 0, 0),
        make_raw(BPF_JMP | BPF_JEQ | BPF_K, 0, 0, 1, 0),
        make_raw(BPF_ALU64 | BPF_MOV | BPF_K, 0, 0, 0, 1),
        make_raw(BPF_JMP | BPF_EXIT, 0, 0, 0, 0),
    ];
    for target in [Target::AArch64, Target::RiscV64] {
        let out = compile_sized(&raw, target).unwrap();
        let size = dry_run_size(&out.ir, target).unwrap();
        assert!(out.code.len() <= size);
        let again = compile(&raw, target).unwrap();
        assert_eq!(again.code, out.code);
    }
}

#[test]
fn compile_and_compile_sized_agree() {
    let programs = [
        vec![make_raw(BPF_ALU64 | BPF_MOV | BPF_K, 0, 0, 0, 42), make_raw(BPF_JMP | BPF_EXIT, 0, 0, 0, 0)],
        vec![
            make_raw(BPF_ALU64 | BPF_MOV | BPF_K, 0, 0, 0, 1),
            make_raw(BPF_JMP | BPF_JEQ | BPF_K, 1, 0, 1, 0),
            make_raw(BPF_ALU64 | BPF_MOV | BPF_K, 0, 0, 0, 2),
            make_raw(BPF_JMP | BPF_EXIT, 0, 0, 0, 0),
        ],
    ];
    for p in programs.iter() {
        for target in [Target::AArch64, Target::RiscV64] {
            let a = compile(p, target).unwrap();
            let b = compile_sized(p, target).unwrap();
            assert_eq!(a.code, b.code);
            assert_eq!(a.num_blocks, b.num_blocks);
        }
    }
}

#[test]
fn compile_reports_the_verifier_error_itself() {
    // R10 = 0; EXIT
    let raw = [make_raw(BPF_ALU64 | BPF_MOV | BPF_K, 10, 0, 0, 0), make_raw(BPF_JMP | BPF_EXIT, 0, 0, 0, 0)];
    let insns = vec![Insn::Alu64 { op: AluOp::Mov, dst: BpfReg::R10, src: Source::Imm(0) }, Insn::Exit];
    assert_eq!(verify_program(&insns), Err(VerifyError::WriteToR10 { pc: 0 }));
    for target in [Target::AArch64, Target::RiscV64] {
        match compile(&raw, target) {
            Err(JitError::Verify(e)) => assert_eq!(e, VerifyError::WriteToR10 { pc: 0 }),
            _ => panic!("expected the verifier's error"),
        }
        match compile_sized(&raw, target) {
            Err(JitError::Verify(e)) => assert_eq!(e, VerifyError::WriteToR10 { pc: 0 }),
            _ => panic!("expected the verifier's error"),
        }
    }
}

#[test]
fn num_blocks_counts_the_ir_blocks() {
    // R0 = 0; if R1 == 0 goto +1; R0 = 1; EXIT: three blocks
    let raw = [
        make_raw(BPF_ALU64 | BPF_MOV | BPF_K, 0, 0, 0, 0),
        make_raw(BPF_JMP | BPF_JEQ | BPF_K, 1, 0, 1, 0),
        make_raw(BPF_ALU64 | BPF_MOV | BPF_K, 0, 0, 0, 1),
        make_raw(BPF_JMP | BPF_EXIT, 0, 0, 0, 0),
    ];
    for target in [Target::AArch64, Target::RiscV64] {
        let out = compile(&raw, target).unwrap();
        assert_eq!(out.num_blocks, 3);
        assert_eq!(out.ir.blocks.len(), 3);
    }
}

#[test]
fn compile_and_compile_sized_fail_alike() {
    // R0 += R2 (R2 never written); EXIT
    let raw = [make_raw(0x0f, 0, 2, 0, 0), make_raw(BPF_JMP | BPF_EXIT, 0, 0, 0, 0)];
    for target in [Target::AArch64, Target::RiscV64] {
        let a = compile(&raw, target);
        let b = compile_sized(&raw, target);
        match (a, b) {
            (Err(JitError::Verify(e1)), Err(JitError::Verify(e2))) => {
                assert_eq!(e1, VerifyError::UninitializedRegRead { pc: 0, reg: BpfReg::R2 });
                assert_eq!(e1, e2);
            }
            _ => panic!("expected the verifier's error from both"),
        }
    }
}
