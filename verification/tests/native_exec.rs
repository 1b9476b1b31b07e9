//! Interpreter and compiler agreement on small programs. Executing the
//! generated machine code needs an AArch64 host and lives in the
//! application; these tests check the interpreter's result and that the
//! code is produced.

use nvmirror::decode::decode_program;
use nvmirror::engine::{compile, Target};
use nvmirror::interpreter::InterpreterState;
use nvmirror::isa::{RawInsn, BPF_ADD, BPF_ALU64, BPF_EXIT, BPF_JEQ, BPF_JMP, BPF_K, BPF_MOV, BPF_MUL};

fn make_raw(opcode: u8, dst: u8, src: u8, off: i16, imm: i32) -> RawInsn {
    RawInsn { opcode, regs: (src << 4) | dst, off, imm }
}

#[test]
fn interpreter_matches_for_mov_exit() {
    let raw = [make_raw(BPF_ALU64 | BPF_MOV | BPF_K, 0, 0, 0, 42), make_raw(BPF_JMP | BPF_EXIT, 0, 0, 0, 0)];
    let insns = decode_program(&raw).unwrap();
    let mut interp = InterpreterState::new();
    let interp_result = interp.run(&insns, 100);
    assert_eq!(interp_result, 42);
    let output = compile(&raw, Target::AArch64).unwrap();
    assert!(!output.code.is_empty());
}

#[test]
fn interpreter_matches_for_alu_sequence() {
    // R0 = 10; R0 += 20; R0 *= 3; EXIT → 90
    let raw = [
        make_raw(BPF_ALU64 | BPF_MOV | BPF_K, 0, 0, 0, 10),
        make_raw(BPF_ALU64 | BPF_ADD | BPF_K, 0, 0, 0, 20),
        make_raw(BPF_ALU64 | BPF_MUL | BPF_K, 0, 0, 0, 3),
        make_raw(BPF_JMP | BPF_EXIT, 0, 0, 0, 0),
    ];
    let insns = decode_program(&raw).unwrap();
    let mut interp = InterpreterState::new();
    let interp_result = interp.run(&insns, 100);
    assert_eq!(interp_result, 90);
    let output = compile(&raw, Target::AArch64).unwrap();
    assert!(!output.code.is_empty());
    // Code is 4-byte aligned
    assert_eq!(output.code.len() % 4, 0);
}

#[test]
fn interpreter_matches_for_conditional_branch() {
    // R2 = 5; R0 = 0; if R2 == 5 goto +1; R0 = 99; R0 = 42; EXIT
    let raw = [
        make_raw(BPF_ALU64 | BPF_MOV | BPF_K, 2, 0, 0, 5),
        make_raw(BPF_ALU64 | BPF_MOV | BPF_K, 0, 0, 0, 0),
        make_raw(BPF_JMP | BPF_JEQ | BPF_K, 2, 0, 1, 5),
        make_raw(BPF_ALU64 | BPF_MOV | BPF_K, 0, 0, 0, 99),
        make_raw(BPF_ALU64 | BPF_MOV | BPF_K, 0, 0, 0, 42),
        make_raw(BPF_JMP | BPF_EXIT, 0, 0, 0, 0),
    ];
    let insns = decode_program(&raw).unwrap();
    let mut interp = InterpreterState::new();
    let interp_result = interp.run(&insns, 100);
    assert_eq!(interp_result, 42);
    let output = compile(&raw, Target::AArch64).unwrap();
    assert!(!output.code.is_empty());
}

#[test]
fn riscv_compilation_produces_valid_output() {
    let raw = [make_raw(BPF_ALU64 | BPF_MOV | BPF_K, 0, 0, 0, 42), make_raw(BPF_JMP | BPF_EXIT, 0, 0, 0, 0)];
    let output = compile(&raw, Target::RiscV64).unwrap();
    assert!(!output.code.is_empty());
    assert_eq!(output.code.len() % 4, 0, "RISC-V instructions must be 4-byte aligned");
}

#[test]
fn both_targets_produce_same_ir() {
    let raw = [make_raw(BPF_ALU64 | BPF_MOV | BPF_K, 0, 0, 0, 42), make_raw(BPF_JMP | BPF_EXIT, 0, 0, 0, 0)];
    let aarch64_output = compile(&raw, Target::AArch64).unwrap();
    let riscv_output = compile(&raw, Target::RiscV64).unwrap();
    // Both produce the same number of basic blocks
    assert_eq!(aarch64_output.num_blocks, riscv_output.num_blocks);
}
