use nvmirror::ir::{IrNode, PhysReg};
use nvmirror::isa::{AluOp, BpfReg, Insn, JmpOp, MemWidth, Source};
use nvmirror::regalloc::{aarch64_regmap, lower_to_ir, riscv64_regmap};

#[test]
fn lower_minimal_program() {
    let insns = vec![Insn::Alu64 { op: AluOp::Mov, dst: BpfReg::R0, src: Source::Imm(0) }, Insn::Exit];
    let regmap = aarch64_regmap();
    let ir = lower_to_ir(&insns, &regmap);
    assert_eq!(ir.blocks.len(), 1);
    assert!(matches!(ir.blocks[0].nodes.last(), Some(IrNode::Ret)));
}

#[test]
fn lower_with_branch() {
    let insns = vec![
        Insn::Alu64 { op: AluOp::Mov, dst: BpfReg::R0, src: Source::Imm(0) },
        Insn::JmpCond { op: JmpOp::Jeq, dst: BpfReg::R1, src: Source::Imm(0), off: 1 },
        Insn::Alu64 { op: AluOp::Mov, dst: BpfReg::R0, src: Source::Imm(1) },
        Insn::Exit,
    ];
    let regmap = aarch64_regmap();
    let ir = lower_to_ir(&insns, &regmap);
    // Several basic blocks because of the branch
    assert!(ir.blocks.len() >= 2);
}

#[test]
fn frame_size_aligned() {
    let insns = vec![
        Insn::StoreReg { width: MemWidth::DW, dst: BpfReg::R10, src: BpfReg::R1, off: -8 },
        Insn::Alu64 { op: AluOp::Mov, dst: BpfReg::R0, src: Source::Imm(0) },
        Insn::Exit,
    ];
    let regmap = aarch64_regmap();
    let ir = lower_to_ir(&insns, &regmap);
    assert_eq!(ir.frame_size % 16, 0);
    assert!(ir.frame_size >= 8);
}

// --- further cases ---

#[test]
fn regmaps_place_r0_and_r10() {
    let a = aarch64_regmap();
    assert_eq!(a.map[0], PhysReg(7));
    assert_eq!(a.map[10], PhysReg(25));
    assert_eq!(a.tmp, PhysReg(9));
    let r = riscv64_regmap();
    assert_eq!(r.map[0], PhysReg(10));
    assert_eq!(r.map[10], PhysReg(22));
    assert_eq!(r.tmp, PhysReg(23));
}

#[test]
fn lower_frame_gets_prologue_and_epilogue() {
    // Stack use: a 64-byte frame, the prologue opens block 0, the exit
    // tears the frame down before returning.
    let insns = vec![
        Insn::StoreReg { width: MemWidth::DW, dst: BpfReg::R10, src: BpfReg::R1, off: -8 },
        Insn::Alu64 { op: AluOp::Mov, dst: BpfReg::R0, src: Source::Imm(0) },
        Insn::Exit,
    ];
    let ir = lower_to_ir(&insns, &aarch64_regmap());
    assert_eq!(ir.frame_size, 64);
    let nodes = &ir.blocks[0].nodes;
    assert_eq!(nodes[0], IrNode::Prologue { frame_size: 64 });
    assert_eq!(nodes[nodes.len() - 2], IrNode::Epilogue { frame_size: 64 });
    assert_eq!(nodes[nodes.len() - 1], IrNode::Ret);
}
