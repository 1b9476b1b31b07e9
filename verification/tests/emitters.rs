use nvmirror::aarch64::{AArch64EmitError, AArch64Emitter};
use nvmirror::ir::{BasicBlockId, CodeEmitter, IrBasicBlock, IrNode, IrProgram, Operand, PhysReg};
use nvmirror::isa::{AluOp, AtomicOp, BpfReg, Insn, JmpOp, MemWidth, Source};
use nvmirror::regalloc::{aarch64_regmap, lower_to_ir};
use nvmirror::riscv::{RiscVEmitError, RiscVEmitter};
use nvmirror::shim::mapping_size;

fn words(bytes: &[u8]) -> Vec<u32> {
    bytes.chunks(4).map(|c| u32::from_le_bytes([c[0], c[1], c[2], c[3]])).collect()
}

#[test]
fn atomic_with_offset_is_the_widest_aarch64_node() {
    // Offset into X9 (MOVZ + MOVK×3 for a negative offset, ADD), DMB, LDADD, DMB
    let mut e = AArch64Emitter::new(64);
    let node = IrNode::Atomic {
        width: MemWidth::DW,
        op: AtomicOp::Add,
        base: PhysReg(1),
        src: PhysReg(2),
        off: -8,
    };
    assert!(e.emit_node(&node).is_ok());
    let code = e.finalize().unwrap();
    let w = words(&code);
    assert_eq!(w.len(), 8);
    assert_eq!(w[5], 0xD5033BBF);
    assert_eq!(w[7], 0xD5033BBF);
}

#[test]
fn unresolved_jump_is_reported() {
    let mut a = AArch64Emitter::new(0);
    assert!(a.emit_node(&IrNode::Jump { target: BasicBlockId(5) }).is_ok());
    assert_eq!(a.finalize(), Err(AArch64EmitError::RelocationOutOfRange { bb: BasicBlockId(5) }));
    let mut r = RiscVEmitter::new(0);
    assert!(r.emit_node(&IrNode::Jump { target: BasicBlockId(2) }).is_ok());
    assert_eq!(r.finalize(), Err(RiscVEmitError::RelocationOutOfRange { bb: BasicBlockId(2) }));
}

#[test]
fn riscv_branch_beyond_reach_is_reported() {
    // A conditional branch over 1100 words exceeds the B-type range.
    let mut r = RiscVEmitter::new(0);
    let cond = nvmirror::ir::BranchCond {
        op: JmpOp::Jeq,
        lhs: PhysReg(10),
        rhs: Operand::Reg(PhysReg(11)),
        is_32bit: false,
    };
    assert!(r.emit_node(&IrNode::Branch { cond, target: BasicBlockId(0) }).is_ok());
    for _ in 0..1100 {
        assert!(r.emit_node(&IrNode::Ret).is_ok());
    }
    assert!(r.emit_node(&IrNode::Label { bb: BasicBlockId(0) }).is_ok());
    assert_eq!(r.finalize(), Err(RiscVEmitError::RelocationOutOfRange { bb: BasicBlockId(0) }));
}

#[test]
fn backward_jump_is_patched() {
    // Label 0; RET; B back to 0: displacement -1 instruction.
    let mut a = AArch64Emitter::new(0);
    let prog = IrProgram {
        blocks: vec![IrBasicBlock { id: BasicBlockId(0), nodes: vec![IrNode::Ret, IrNode::Jump { target: BasicBlockId(0) }] }],
        frame_size: 0,
    };
    assert!(a.emit_program(&prog).is_ok());
    let w = words(&a.finalize().unwrap());
    assert_eq!(w, vec![0xAA0703E0, 0xD65F03C0, 0x17FFFFFE]);
}

#[test]
fn calculate_size_is_exact_and_within_the_worst_case() {
    let insns = vec![
        Insn::Alu64 { op: AluOp::Mov, dst: BpfReg::R0, src: Source::Imm(0x1234_5678) },
        Insn::JmpCond { op: JmpOp::Jset, dst: BpfReg::R0, src: Source::Imm(-1), off: 1 },
        Insn::Alu64 { op: AluOp::Mod, dst: BpfReg::R0, src: Source::Imm(7) },
        Insn::Exit,
    ];
    let ir = lower_to_ir(&insns, &aarch64_regmap());
    let mut a = AArch64Emitter::new(0);
    assert!(a.emit_program(&ir).is_ok());
    let code = a.finalize().unwrap();
    assert_eq!(code.len(), AArch64Emitter::new(0).calculate_size(&ir));
    let mut r = RiscVEmitter::new(0);
    assert!(r.emit_program(&ir).is_ok());
    let code = r.finalize().unwrap();
    assert_eq!(code.len(), RiscVEmitter::new(0).calculate_size(&ir));
    // never more than one label plus 8 words per node, 4 bytes each
    let units: usize = ir.blocks.iter().map(|b| 1 + b.nodes.len() * 8).sum();
    assert!(AArch64Emitter::new(0).calculate_size(&ir) <= units * 4);
}

#[test]
fn lowered_branches_target_existing_blocks() {
    let insns = vec![
        Insn::Alu64 { op: AluOp::Mov, dst: BpfReg::R0, src: Source::Imm(0) },
        Insn::JmpCond { op: JmpOp::Jgt, dst: BpfReg::R1, src: Source::Imm(3), off: 2 },
        Insn::Ja { off: 0 },
        Insn::Alu64 { op: AluOp::Mov, dst: BpfReg::R0, src: Source::Imm(1) },
        Insn::Exit,
    ];
    let ir = lower_to_ir(&insns, &aarch64_regmap());
    for b in &ir.blocks {
        for n in &b.nodes {
            match n {
                IrNode::Branch { target, .. } | IrNode::Jump { target } => {
                    assert!((target.0 as usize) < ir.blocks.len())
                }
                _ => {}
            }
        }
    }
}

#[test]
fn mapping_sizes_are_whole_pages() {
    assert_eq!(mapping_size(1), Ok(4096));
    assert_eq!(mapping_size(4096), Ok(4096));
    assert_eq!(mapping_size(4097), Ok(8192));
    assert_eq!(mapping_size(65536), Ok(65536));
    assert_eq!(mapping_size(65537), Err("JIT buffer exceeds maximum size"));
}

fn aarch64_words_of(nodes: &[IrNode]) -> Vec<u32> {
    let mut e = AArch64Emitter::new(64);
    for n in nodes {
        assert!(e.emit_node(n).is_ok());
    }
    words(&e.finalize().unwrap())
}

fn riscv_words_of(nodes: &[IrNode]) -> Vec<u32> {
    let mut e = RiscVEmitter::new(64);
    for n in nodes {
        assert!(e.emit_node(n).is_ok());
    }
    words(&e.finalize().unwrap())
}

#[test]
fn aarch64_prologue_sets_the_frame_pointer_from_sp() {
    let w = aarch64_words_of(&[IrNode::Prologue { frame_size: 64 }]);
    assert_eq!(w, vec![0xA9BC7BFD, 0x910003FD, 0xA90153F3, 0xA9025BF5, 0xF9001BF9]);
}

#[test]
fn aarch64_jset_tests_the_and_of_its_operands() {
    let cond = nvmirror::ir::BranchCond {
        op: JmpOp::Jset,
        lhs: PhysReg(0),
        rhs: Operand::Reg(PhysReg(1)),
        is_32bit: false,
    };
    let w = aarch64_words_of(&[
        IrNode::Label { bb: BasicBlockId(0) },
        IrNode::Branch { cond, target: BasicBlockId(0) },
    ]);
    assert_eq!(w[0], 0xEA01001F); // TST X0, X1
    assert_eq!(w[1] & 0xFF00001F, 0x54000001); // B.NE
}

#[test]
fn aarch64_negative_offsets_use_the_unscaled_forms() {
    let w = aarch64_words_of(&[IrNode::Store {
        width: MemWidth::DW,
        base: PhysReg(25),
        src: PhysReg(1),
        off: -8,
    }]);
    assert_eq!(w, vec![0xF81F8321]); // STUR X1, [X25, #-8]
    let w = aarch64_words_of(&[IrNode::Load {
        width: MemWidth::W,
        dst: PhysReg(1),
        base: PhysReg(25),
        off: -4,
    }]);
    assert_eq!(w, vec![0xB85FC321]); // LDUR W1, [X25, #-4]
    // Below -256 the address goes through X10: MOVN X10, #511; ADD X10, X25, X10; STR X1, [X10]
    let w = aarch64_words_of(&[IrNode::Store {
        width: MemWidth::DW,
        base: PhysReg(25),
        src: PhysReg(1),
        off: -512,
    }]);
    assert_eq!(w, vec![0x92803FEA, 0x8B0A032A, 0xF9000141]);
    // Aligned non-negative offsets keep the scaled form.
    let w = aarch64_words_of(&[IrNode::Load {
        width: MemWidth::DW,
        dst: PhysReg(2),
        base: PhysReg(31),
        off: 48,
    }]);
    assert_eq!(w, vec![0xF9401BE2]); // LDR X2, [SP, #48]
}

#[test]
fn riscv_lui_loads_the_upper_bits() {
    let w = riscv_words_of(&[IrNode::LoadImm64 { dst: PhysReg(10), imm: 0x12345 }]);
    assert_eq!(w, vec![0x00012537, 0x34550513]);
}

#[test]
fn riscv_alu32_zero_extends_its_result() {
    let w = riscv_words_of(&[IrNode::Alu32 {
        op: AluOp::Add,
        dst: PhysReg(10),
        src: Operand::Reg(PhysReg(11)),
    }]);
    // ADDW a0, a0, a1; SLLI a0, a0, 32; SRLI a0, a0, 32
    assert_eq!(w, vec![0x00B5053B, 0x02051513, 0x02055513]);
}

#[test]
fn dry_run_gives_the_exact_size() {
    let p = IrProgram {
        blocks: vec![IrBasicBlock {
            id: BasicBlockId(0),
            nodes: vec![
                IrNode::Alu64 { op: AluOp::Mov, dst: PhysReg(7), src: Operand::Imm(42) },
                IrNode::Ret,
            ],
        }],
        frame_size: 0,
    };
    let e = AArch64Emitter::new(0);
    assert_eq!(e.calculate_size(&p), 12); // MOVZ X7, #42; MOV X0, X7; RET
    let mut e = AArch64Emitter::new(0);
    assert!(e.emit_program(&p).is_ok());
    assert_eq!(e.finalize().unwrap().len(), 12);
    let r = RiscVEmitter::new(0);
    let mut r2 = RiscVEmitter::new(0);
    assert!(r2.emit_program(&p).is_ok());
    assert_eq!(r.calculate_size(&p), r2.finalize().unwrap().len());
}
