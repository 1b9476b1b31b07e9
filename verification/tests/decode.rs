use nvmirror::decode::{decode_program, DecodeError};
use nvmirror::isa::{
    AluOp, BpfReg, Insn, JmpOp, MemWidth, RawInsn, Source, BPF_ADD, BPF_ALU64, BPF_DW, BPF_EXIT,
    BPF_IMM, BPF_JEQ, BPF_JMP, BPF_K, BPF_LD, BPF_LDX, BPF_MEM, BPF_MOV, BPF_STX, BPF_X,
};

fn make_raw(opcode: u8, dst: u8, src: u8, off: i16, imm: i32) -> RawInsn {
    RawInsn { opcode, regs: (src << 4) | dst, off, imm }
}

#[test]
fn decode_mov64_imm() {
    // MOV64 R1, 42
    let raw = [make_raw(BPF_ALU64 | BPF_MOV | BPF_K, 1, 0, 0, 42)];
    let insns = decode_program(&raw).unwrap();
    assert_eq!(insns.len(), 1);
    assert_eq!(insns[0], Insn::Alu64 { op: AluOp::Mov, dst: BpfReg::R1, src: Source::Imm(42) });
}

#[test]
fn decode_add64_reg() {
    // ADD64 R0, R1
    let raw = [make_raw(BPF_ALU64 | BPF_ADD | BPF_X, 0, 1, 0, 0)];
    let insns = decode_program(&raw).unwrap();
    assert_eq!(
        insns[0],
        Insn::Alu64 { op: AluOp::Add, dst: BpfReg::R0, src: Source::Reg(BpfReg::R1) }
    );
}

#[test]
fn decode_exit() {
    let raw = [make_raw(BPF_JMP | BPF_EXIT, 0, 0, 0, 0)];
    let insns = decode_program(&raw).unwrap();
    assert_eq!(insns[0], Insn::Exit);
}

#[test]
fn decode_lddw() {
    // LDDW R3, 0x0000_0002_0000_0001
    let raw = [make_raw(BPF_LD | BPF_IMM | BPF_DW, 3, 0, 0, 1), make_raw(0, 0, 0, 0, 2)];
    let insns = decode_program(&raw).unwrap();
    assert_eq!(insns.len(), 1);
    assert_eq!(insns[0], Insn::LoadImm64 { dst: BpfReg::R3, imm: 0x0000_0002_0000_0001 });
}

#[test]
fn decode_jeq_imm() {
    // JEQ R2, 10, +3
    let raw = [make_raw(BPF_JMP | BPF_JEQ | BPF_K, 2, 0, 3, 10)];
    let insns = decode_program(&raw).unwrap();
    assert_eq!(
        insns[0],
        Insn::JmpCond { op: JmpOp::Jeq, dst: BpfReg::R2, src: Source::Imm(10), off: 3 }
    );
}

#[test]
fn decode_store_load() {
    // STX [R10-8], R1 (64-bit)
    let raw_stx = [make_raw(BPF_STX | BPF_MEM | BPF_DW, 10, 1, -8, 0)];
    let insns = decode_program(&raw_stx).unwrap();
    assert_eq!(
        insns[0],
        Insn::StoreReg { width: MemWidth::DW, dst: BpfReg::R10, src: BpfReg::R1, off: -8 }
    );
    // LDX R2, [R10-8] (64-bit)
    let raw_ldx = [make_raw(BPF_LDX | BPF_MEM | BPF_DW, 2, 10, -8, 0)];
    let insns = decode_program(&raw_ldx).unwrap();
    assert_eq!(
        insns[0],
        Insn::Load { width: MemWidth::DW, dst: BpfReg::R2, src: BpfReg::R10, off: -8 }
    );
}

#[test]
fn reject_empty() {
    assert_eq!(decode_program(&[]), Err(DecodeError::EmptyProgram));
}

#[test]
fn reject_invalid_register() {
    let raw = [make_raw(BPF_ALU64 | BPF_MOV | BPF_K, 15, 0, 0, 0)];
    assert!(matches!(decode_program(&raw), Err(DecodeError::InvalidRegister { pc: 0, raw: 15 })));
}

// --- further cases ---

#[test]
fn reject_truncated_lddw() {
    let raw = [make_raw(BPF_LD | BPF_IMM | BPF_DW, 3, 0, 0, 1)];
    assert_eq!(decode_program(&raw), Err(DecodeError::TruncatedWideInsn { pc: 0 }));
}

#[test]
fn reject_unknown_opcode() {
    // class LD with a non-IMM mode is not supported
    let raw = [make_raw(0x20, 0, 0, 0, 0)];
    assert_eq!(decode_program(&raw), Err(DecodeError::UnknownOpcode { pc: 0, opcode: 0x20 }));
}

#[test]
fn lddw_counts_as_two_raw_slots() {
    // LDDW R0; EXIT: two typed instructions from three raw slots
    let raw = [
        make_raw(BPF_LD | BPF_IMM | BPF_DW, 0, 0, 0, -1),
        make_raw(0, 0, 0, 0, -1),
        make_raw(BPF_JMP | BPF_EXIT, 0, 0, 0, 0),
    ];
    let insns = decode_program(&raw).unwrap();
    assert_eq!(insns, vec![Insn::LoadImm64 { dst: BpfReg::R0, imm: u64::MAX }, Insn::Exit]);
}
