//! RISC-V RV64 machine code emitter for the eBPF JIT compiler.
//!
//! Uses the RV64I base with the M (multiply/divide) and A (atomics)
//! extensions; compressed instructions are not used, so every instruction
//! is one 32-bit word. The words each IR node expands to are stated by
//! `node_words`; `finalize` patches the branch offsets (`patch_upto`) and
//! serialises the words as little-endian bytes.
use vstd::prelude::*;

pub mod encode;

use crate::ir::{
    BasicBlockId, BranchCond, CodeEmitter, EmitState, IrBasicBlock, IrNode, IrProgram, Operand,
    PhysReg, Relocation, blocks_closed, grow_labels, node_target, program_stream, words_le_bytes,
    words_to_bytes,
};
use crate::isa::{AluOp, AtomicOp, EndianWidth, JmpOp, MemWidth};
use crate::interpreter::spec_eval_jmp;
use self::encode::{lemma_b_enc_fields, lemma_r_enc_fields};
use self::encode::{
    addi, addw, amoadd_d, amoand_d, amoor_d, amoswap_d, amoxor_d, andi, bge, bgeu, blt, bltu, bne,
    beq, divu, divuw, encode_b_type_imm, encode_j_type_imm, fence_rw_rw, jal, jalr, lbu, ld, lhu,
    lr_d, lui, lwu, mulw, ori, remu, remuw, sb, sc_d, sd, sh, sign_extend_12, sll, sllw, slli, sra,
    sraw, srai, srl, srlw, srli, subw, sw, xori,
};

verus! {

/// Largest number of instruction words one IR node expands to; the dry
/// run sizes the buffer with it.
const MAX_EXPANSION_RATIO: usize = 10;

/// The JIT's scratch register (s7).
pub const TMP: u8 = 23;

#[derive(Debug, Clone, PartialEq, Eq, Structural)]
pub enum RiscVEmitError {
    BufferOverflow,
    UnsupportedNode,
    RelocationOutOfRange { bb: BasicBlockId },
    InvalidImmediate { value: i64 },
}

/// RISC-V RV64 code emitter. A relocation marked conditional is a B-type
/// branch; the others are JAL jumps.
pub struct RiscVEmitter {
    /// Instruction words emitted so far.
    code: Vec<u32>,
    /// Word index at which each labelled basic block starts.
    bb_offsets: Vec<Option<usize>>,
    relocations: Vec<Relocation>,
}

impl View for RiscVEmitter {
    type V = EmitState;

    closed spec fn view(&self) -> EmitState {
        EmitState { words: self.code@, labels: self.bb_offsets@, relocs: self.relocations@ }
    }
}

// ---------------------------------------------------------------------------
// The words each node expands to
// ---------------------------------------------------------------------------

/// Upper 20 bits of a 32-bit value, rounded so that adding the
/// sign-extended low 12 bits gives the value back.
pub open spec fn hi20(v: i64) -> i32 {
    (((v + 0x800) as i64) >> 12i64) as i32
}

/// Low 12 bits of a value.
pub open spec fn lo12(v: i64) -> i32 {
    (v as i32) & 0xFFF
}

/// The LUI operand that loads the upper part `hi` into bits [31:12].
pub open spec fn upper_imm(hi: i32) -> i32 {
    ((hi as u32) << 12u32) as i32
}

fn upper_imm_of(hi: i32) -> (r: i32)
    ensures
        r == upper_imm(hi),
{
    #[verifier::truncate] (((#[verifier::truncate] (hi as u32)) << 12u32) as i32)
}

/// LUI of `hi20(v)`, then ADDI of the low bits when they are non-zero.
pub open spec fn lui_addi_words(rd: u8, v: i64) -> Seq<u32> {
    seq![lui(rd, upper_imm(hi20(v)))] + if lo12(v) != 0 {
        seq![addi(rd, rd, sign_extend_12(lo12(v)))]
    } else {
        Seq::empty()
    }
}

/// Adding the low 32 bits of a 64-bit immediate through the scratch
/// register.
pub open spec fn lower_words(rd: u8, lower: i64) -> Seq<u32> {
    if hi20(lower) != 0 {
        seq![lui(TMP, upper_imm(hi20(lower)))] + (if lo12(lower) != 0 {
            seq![addi(TMP, TMP, sign_extend_12(lo12(lower)))]
        } else {
            Seq::empty()
        }) + seq![crate::riscv::encode::add(rd, rd, TMP)]
    } else if lo12(lower) != 0 {
        seq![addi(TMP, 0, sign_extend_12(lo12(lower))), crate::riscv::encode::add(rd, rd, TMP)]
    } else {
        Seq::empty()
    }
}

/// Loading a 64-bit immediate: one ADDI for 12-bit values, LUI (+ ADDI)
/// for 32-bit values, else the upper half, a shift by 32, and the lower
/// half added through the scratch register.
pub open spec fn load_imm64_words(rd: u8, imm: u64) -> Seq<u32> {
    let val = imm as i64;
    if imm == 0 {
        seq![addi(rd, 0, 0)]
    } else if -2048 <= val < 2048 {
        seq![addi(rd, 0, val as i32)]
    } else if -0x80000000 <= val < 0x80000000 {
        lui_addi_words(rd, val)
    } else {
        lui_addi_words(rd, (imm >> 32u64) as i64) + seq![slli(rd, rd, 32)] + lower_words(
            rd,
            (imm & 0xFFFFFFFF) as i64,
        )
    }
}

/// 64-bit register-register ALU operation `d = d op s`.
pub open spec fn alu64_reg_words(op: AluOp, d: u8, s: u8) -> Seq<u32> {
    match op {
        AluOp::Add => seq![crate::riscv::encode::add(d, d, s)],
        AluOp::Sub => seq![crate::riscv::encode::sub(d, d, s)],
        AluOp::Mul => seq![crate::riscv::encode::mul(d, d, s)],
        AluOp::Div => seq![divu(d, d, s)],
        AluOp::Mod => seq![remu(d, d, s)],
        AluOp::Or => seq![crate::riscv::encode::or(d, d, s)],
        AluOp::And => seq![crate::riscv::encode::and(d, d, s)],
        AluOp::Xor => seq![crate::riscv::encode::xor(d, d, s)],
        AluOp::Lsh => seq![sll(d, d, s)],
        AluOp::Rsh => seq![srl(d, d, s)],
        AluOp::Arsh => seq![sra(d, d, s)],
        AluOp::Mov => seq![addi(d, s, 0)],
        AluOp::Neg => seq![crate::riscv::encode::sub(d, 0, d)],
    }
}

/// An immediate operand loaded into the scratch register, then the
/// register form.
pub open spec fn alu64_via_tmp(op: AluOp, d: u8, v: i64) -> Seq<u32> {
    load_imm64_words(TMP, v as u64) + alu64_reg_words(op, d, TMP)
}

/// Does `v` fit a 12-bit signed immediate?
pub open spec fn fits12(v: i64) -> bool {
    -2048 <= v < 2048
}

/// 64-bit ALU node `d = d op src`.
pub open spec fn alu64_words(op: AluOp, d: u8, src: Operand) -> Seq<u32> {
    match src {
        Operand::Reg(rs) => alu64_reg_words(op, d, rs.0),
        Operand::Imm(v) => match op {
            AluOp::Neg => seq![crate::riscv::encode::sub(d, 0, d)],
            AluOp::Add => if fits12(v) {
                seq![addi(d, d, v as i32)]
            } else {
                alu64_via_tmp(op, d, v)
            },
            AluOp::Mov => load_imm64_words(d, v as u64),
            AluOp::Lsh => seq![slli(d, d, (v & 63) as u32)],
            AluOp::Rsh => seq![srli(d, d, (v & 63) as u32)],
            AluOp::Arsh => seq![srai(d, d, (v & 63) as u32)],
            AluOp::And => if fits12(v) {
                seq![andi(d, d, v as i32)]
            } else {
                alu64_via_tmp(op, d, v)
            },
            AluOp::Or => if fits12(v) {
                seq![ori(d, d, v as i32)]
            } else {
                alu64_via_tmp(op, d, v)
            },
            AluOp::Xor => if fits12(v) {
                seq![xori(d, d, v as i32)]
            } else {
                alu64_via_tmp(op, d, v)
            },
            _ => alu64_via_tmp(op, d, v),
        },
    }
}

/// Clear the upper 32 bits: SLLI 32, SRLI 32.
pub open spec fn zext32_words(d: u8) -> Seq<u32> {
    seq![slli(d, d, 32), srli(d, d, 32)]
}

/// The instruction of a 32-bit register-register ALU operation, before
/// the result is zero-extended.
pub open spec fn alu32_op_word(op: AluOp, d: u8, s: u8) -> u32 {
    match op {
        AluOp::Add => addw(d, d, s),
        AluOp::Sub => subw(d, d, s),
        AluOp::Mul => mulw(d, d, s),
        AluOp::Div => divuw(d, d, s),
        AluOp::Mod => remuw(d, d, s),
        AluOp::Lsh => sllw(d, d, s),
        AluOp::Rsh => srlw(d, d, s),
        AluOp::Arsh => sraw(d, d, s),
        AluOp::Mov => addi(d, s, 0),
        AluOp::Or => crate::riscv::encode::or(d, d, s),
        AluOp::And => crate::riscv::encode::and(d, d, s),
        AluOp::Xor => crate::riscv::encode::xor(d, d, s),
        AluOp::Neg => subw(d, 0, d),
    }
}

/// 32-bit register-register ALU operation: the operation, then a
/// zero-extension, since the result is the 32-bit value `(u32)(dst OP src)`
/// and the W-form instructions sign-extend.
pub open spec fn alu32_reg_words(op: AluOp, d: u8, s: u8) -> Seq<u32> {
    seq![alu32_op_word(op, d, s)] + zext32_words(d)
}

/// 32-bit ALU node.
pub open spec fn alu32_words(op: AluOp, d: u8, src: Operand) -> Seq<u32> {
    match src {
        Operand::Reg(rs) => alu32_reg_words(op, d, rs.0),
        Operand::Imm(v) => match op {
            AluOp::Neg => seq![subw(d, 0, d)] + zext32_words(d),
            _ => load_imm64_words(TMP, v as u64) + alu32_reg_words(op, d, TMP),
        },
    }
}

pub open spec fn load_word(width: MemWidth, d: u8, b: u8, off: i16) -> u32 {
    match width {
        MemWidth::B => lbu(d, b, off as i32),
        MemWidth::H => lhu(d, b, off as i32),
        MemWidth::W => lwu(d, b, off as i32),
        MemWidth::DW => ld(d, b, off as i32),
    }
}

pub open spec fn store_word(width: MemWidth, b: u8, s: u8, off: i16) -> u32 {
    match width {
        MemWidth::B => sb(s, b, off as i32),
        MemWidth::H => sh(s, b, off as i32),
        MemWidth::W => sw(s, b, off as i32),
        MemWidth::DW => sd(s, b, off as i32),
    }
}

/// Words that put a branch's right-hand side into a register.
pub open spec fn operand_setup(rhs: Operand) -> Seq<u32> {
    match rhs {
        Operand::Reg(_) => Seq::empty(),
        Operand::Imm(v) => load_imm64_words(TMP, v as u64),
    }
}

/// The register holding a branch's right-hand side.
pub open spec fn operand_reg(rhs: Operand) -> u8 {
    match rhs {
        Operand::Reg(r) => r.0,
        Operand::Imm(_) => TMP,
    }
}

/// The compare-and-branch words of a jump (offset zero), the branch last.
/// Unsigned and signed "greater" forms swap the operands; JSET tests the
/// AND of the operands against zero.
pub open spec fn cond_branch_words(op: JmpOp, a: u8, b: u8) -> Seq<u32> {
    match op {
        JmpOp::Jeq => seq![beq(a, b, 0)],
        JmpOp::Jne => seq![bne(a, b, 0)],
        JmpOp::Jgt => seq![bltu(b, a, 0)],
        JmpOp::Jge => seq![bgeu(a, b, 0)],
        JmpOp::Jlt => seq![bltu(a, b, 0)],
        JmpOp::Jle => seq![bgeu(b, a, 0)],
        JmpOp::Jsgt => seq![blt(b, a, 0)],
        JmpOp::Jsge => seq![bge(a, b, 0)],
        JmpOp::Jslt => seq![blt(a, b, 0)],
        JmpOp::Jsle => seq![bge(b, a, 0)],
        JmpOp::Jset => seq![crate::riscv::encode::and(TMP, a, b), bne(TMP, 0, 0)],
        JmpOp::Ja => seq![jal(0, 0)],
    }
}

/// Register `r` of `x` as RISC-V reads it: x0 is always zero.
pub open spec fn rv_reg(x: Seq<u64>, r: int) -> u64 {
    if r == 0 {
        0
    } else {
        x[r]
    }
}

/// Whether the conditional branch word `w` is taken on registers `x`, by
/// the RISC-V base ISA: funct3 selects BEQ, BNE, BLT, BGE, BLTU or BGEU,
/// which compare the registers named by the rs1 and rs2 fields.
pub open spec fn rv_branch_taken(w: u32, x: Seq<u64>) -> bool {
    let f3 = (w >> 12u32) & 0x7;
    let p = rv_reg(x, ((w >> 15u32) & 0x1F) as int);
    let q = rv_reg(x, ((w >> 20u32) & 0x1F) as int);
    if f3 == 0 {
        p == q
    } else if f3 == 1 {
        p != q
    } else if f3 == 4 {
        (p as i64) < (q as i64)
    } else if f3 == 5 {
        (p as i64) >= (q as i64)
    } else if f3 == 6 {
        p < q
    } else if f3 == 7 {
        p >= q
    } else {
        false
    }
}

/// The registers after word `w` when it is the base ISA's AND (opcode OP,
/// funct3 7, funct7 0): rd gets rs1 & rs2 (x0 stays zero).
pub open spec fn rv_after_and(w: u32, x: Seq<u64>) -> Seq<u64> {
    let rd = ((w >> 7u32) & 0x1F) as int;
    if w & 0x7F == 0x33 && (w >> 12u32) & 0x7 == 7 && (w >> 25u32) & 0x7F == 0 && rd != 0 {
        x.update(
            rd,
            rv_reg(x, ((w >> 15u32) & 0x1F) as int) & rv_reg(x, ((w >> 20u32) & 0x1F) as int),
        )
    } else {
        x
    }
}

/// Every conditional eBPF jump compiles to words that end in a RISC-V
/// branch taken exactly when the jump is: run on any registers `x`, with
/// the operands in registers `a` and `b`, the branch word (after the AND
/// into the scratch register, for JSET) is taken if and only if the eBPF
/// comparison of the two registers holds.
pub proof fn lemma_branch_taken(op: JmpOp, a: u8, b: u8, x: Seq<u64>)
    requires
        a < 32,
        b < 32,
        x.len() == 32,
        op != JmpOp::Ja,
    ensures
        ({
            let ws = cond_branch_words(op, a, b);
            let x2 = if op == JmpOp::Jset {
                rv_after_and(ws[0], x)
            } else {
                x
            };
            &&& ws.last() & 0x7F == 0x63
            &&& rv_branch_taken(ws.last(), x2) == spec_eval_jmp(
                op,
                rv_reg(x, a as int),
                rv_reg(x, b as int),
            )
        }),
{
    match op {
        JmpOp::Jeq => lemma_b_enc_fields(0, b, a, 0),
        JmpOp::Jne => lemma_b_enc_fields(0, b, a, 1),
        JmpOp::Jgt => lemma_b_enc_fields(0, a, b, 6),
        JmpOp::Jge => lemma_b_enc_fields(0, b, a, 7),
        JmpOp::Jlt => lemma_b_enc_fields(0, b, a, 6),
        JmpOp::Jle => lemma_b_enc_fields(0, a, b, 7),
        JmpOp::Jsgt => lemma_b_enc_fields(0, a, b, 4),
        JmpOp::Jsge => lemma_b_enc_fields(0, b, a, 5),
        JmpOp::Jslt => lemma_b_enc_fields(0, b, a, 4),
        JmpOp::Jsle => lemma_b_enc_fields(0, a, b, 5),
        JmpOp::Jset => {
            lemma_r_enc_fields(0, b, a, 7, TMP, 0x33);
            lemma_b_enc_fields(0, 0, TMP, 1);
            let ws = cond_branch_words(op, a, b);
            let x2 = rv_after_and(ws[0], x);
            assert(x2[TMP as int] == rv_reg(x, a as int) & rv_reg(x, b as int));
        },
        JmpOp::Ja => {},
    }
}

/// Conditional branch: operand setup, then the compare-and-branch words.
pub open spec fn branch_words(c: BranchCond) -> Seq<u32> {
    operand_setup(c.rhs) + cond_branch_words(c.op, c.lhs.0, operand_reg(c.rhs))
}

/// The atomic instruction(s) for `op`, address in the scratch register.
/// Compare-and-exchange is an LR/SC loop against a0 (eBPF R0).
pub open spec fn atomic_op_words(op: AtomicOp, src: u8) -> Seq<u32> {
    match op {
        AtomicOp::Add | AtomicOp::FetchAdd => seq![amoadd_d(0, src, TMP)],
        AtomicOp::Or | AtomicOp::FetchOr => seq![amoor_d(0, src, TMP)],
        AtomicOp::And | AtomicOp::FetchAnd => seq![amoand_d(0, src, TMP)],
        AtomicOp::Xor | AtomicOp::FetchXor => seq![amoxor_d(0, src, TMP)],
        AtomicOp::Xchg => seq![amoswap_d(0, src, TMP)],
        AtomicOp::CmpXchg => seq![
            lr_d(TMP, TMP),
            bne(TMP, 10, 12),
            sc_d(TMP, src, TMP),
            bne(TMP, 0, -12i32),
        ],
    }
}

/// Atomic node: address into the scratch register, fence, the atomic,
/// fence.
pub open spec fn atomic_words(op: AtomicOp, base: u8, src: u8, off: i16) -> Seq<u32> {
    seq![addi(TMP, base, off as i32), fence_rw_rw()] + atomic_op_words(op, src) + seq![
        fence_rw_rw(),
    ]
}

/// Frame setup: lower SP, save RA, FP and s2-s6, set FP.
pub open spec fn prologue_words(fs: u16) -> Seq<u32> {
    let f = fs as i32;
    seq![
        addi(2, 2, (-f) as i32),
        sd(1, 2, (f - 8) as i32),
        sd(8, 2, (f - 16) as i32),
        sd(18, 2, (f - 24) as i32),
        sd(19, 2, (f - 32) as i32),
        sd(20, 2, (f - 40) as i32),
        sd(21, 2, (f - 48) as i32),
        sd(22, 2, (f - 56) as i32),
        addi(8, 2, f),
    ]
}

/// Frame teardown: restore s6-s2, FP and RA, raise SP.
pub open spec fn epilogue_words(fs: u16) -> Seq<u32> {
    let f = fs as i32;
    seq![
        ld(22, 2, (f - 56) as i32),
        ld(21, 2, (f - 48) as i32),
        ld(20, 2, (f - 40) as i32),
        ld(19, 2, (f - 32) as i32),
        ld(18, 2, (f - 24) as i32),
        ld(8, 2, (f - 16) as i32),
        ld(1, 2, (f - 8) as i32),
        addi(2, 2, f),
    ]
}

/// The instruction words an IR node expands to (branch offsets zero).
/// Byte swapping is not implemented: an endian node is a no-op ADDI.
pub open spec fn node_words(node: IrNode) -> Seq<u32> {
    match node {
        IrNode::Alu64 { op, dst, src } => alu64_words(op, dst.0, src),
        IrNode::Alu32 { op, dst, src } => alu32_words(op, dst.0, src),
        IrNode::Load { width, dst, base, off } => seq![load_word(width, dst.0, base.0, off)],
        IrNode::Store { width, base, src, off } => seq![store_word(width, base.0, src.0, off)],
        IrNode::StoreImm { width, base, off, imm } => load_imm64_words(TMP, imm as i64 as u64)
            + seq![store_word(width, base.0, TMP, off)],
        IrNode::LoadImm64 { dst, imm } => load_imm64_words(dst.0, imm),
        IrNode::Branch { cond, .. } => branch_words(cond),
        IrNode::Jump { .. } => seq![jal(0, 0)],
        IrNode::Call { .. } => seq![jalr(1, TMP, 0)],
        IrNode::Ret => seq![jalr(0, 1, 0)],
        IrNode::Spill { reg, slot } => seq![sd(reg.0, 2, slot.offset as i32)],
        IrNode::Fill { reg, slot } => seq![ld(reg.0, 2, slot.offset as i32)],
        IrNode::Atomic { op, base, src, off, .. } => atomic_words(op, base.0, src.0, off),
        IrNode::Endian { dst, .. } => seq![addi(dst.0, dst.0, 0)],
        IrNode::Label { .. } => Seq::empty(),
        IrNode::Prologue { frame_size } => prologue_words(frame_size),
        IrNode::Epilogue { frame_size } => epilogue_words(frame_size),
    }
}

/// The branch word of a node, by its position among the node's words.
pub open spec fn node_reloc(node: IrNode) -> Option<(int, BasicBlockId, bool)> {
    match node {
        IrNode::Branch { cond, target } => Some((branch_words(cond).len() - 1, target, true)),
        IrNode::Jump { target } => Some((0, target, false)),
        _ => None,
    }
}

/// The emitter state after one node.
pub open spec fn emit_step(s: EmitState, node: IrNode) -> EmitState {
    match node {
        IrNode::Label { bb } => s.label(bb),
        _ => s.emit(node_words(node), node_reloc(node)),
    }
}

/// The emitter state after a sequence of nodes.
pub open spec fn emit_all(s: EmitState, nodes: Seq<IrNode>) -> EmitState
    decreases nodes.len(),
{
    if nodes.len() == 0 {
        s
    } else {
        emit_step(emit_all(s, nodes.drop_last()), nodes.last())
    }
}

/// Nodes the emitter takes: a label's index plus one must fit in a `usize`.
pub open spec fn accepts_node(node: IrNode) -> bool {
    match node {
        IrNode::Label { bb } => (bb.0 as int) < usize::MAX,
        _ => true,
    }
}

// ---------------------------------------------------------------------------
// Relocation
// ---------------------------------------------------------------------------

/// B-type branches reach ±4 KiB, JAL ±1 MiB (`disp` in instructions).
pub open spec fn in_branch_range(disp: int, conditional: bool) -> bool {
    if conditional {
        -0x1000 <= 4 * disp < 0x1000
    } else {
        -0x100000 <= 4 * disp < 0x100000
    }
}

/// A branch word with byte offset `4 * disp` filled in, keeping the
/// opcode, funct3 and registers (B-type) or the link register (JAL).
pub open spec fn patch_value(word: u32, disp: int, conditional: bool) -> u32 {
    if conditional {
        encode_b_type_imm((4 * disp) as i32) | (word & 0x01FFF07F)
    } else {
        encode_j_type_imm((4 * disp) as i32) | 0x6F | (word & 0xF80)
    }
}

/// Displacement (in instructions) from a relocation's word to its target
/// block's start.
pub open spec fn reloc_disp(s: EmitState, r: Relocation) -> int {
    match s.label_of(r.target) {
        Some(t) => t - r.offset,
        None => 0,
    }
}

/// The relocation's target block is labelled and within branch range.
pub open spec fn reloc_resolves(s: EmitState, r: Relocation) -> bool {
    &&& s.label_of(r.target) is Some
    &&& in_branch_range(reloc_disp(s, r), r.is_conditional)
}

/// The first `n` relocations all resolve.
pub open spec fn resolves_upto(s: EmitState, n: int) -> bool {
    forall|i: int| 0 <= i < n ==> reloc_resolves(s, #[trigger] s.relocs[i])
}

/// The code words with the first `n` relocations patched, in order.
pub open spec fn patch_upto(s: EmitState, n: int) -> Seq<u32>
    decreases n,
{
    if n <= 0 {
        s.words
    } else {
        let w = patch_upto(s, n - 1);
        let r = s.relocs[n - 1];
        w.update(r.offset as int, patch_value(w[r.offset as int], reloc_disp(s, r), r.is_conditional))
    }
}

/// Size units of the dry run: one per block label plus the worst-case
/// expansion of each node.
pub open spec fn size_units(blocks: Seq<IrBasicBlock>) -> int
    decreases blocks.len(),
{
    if blocks.len() == 0 {
        0
    } else {
        size_units(blocks.drop_last()) + 1 + 10 * blocks.last().nodes@.len()
    }
}

// ---------------------------------------------------------------------------
// The emitter
// ---------------------------------------------------------------------------

/// `hi20` of a value that fits in 32 bits (signed or unsigned).
fn hi20_of(v: i64) -> (r: i32)
    requires
        -0x80000000 <= v < 0x100000000,
    ensures
        r == hi20(v),
{
    ((v + 0x800) >> 12i64) as i32
}

fn lo12_of(v: i64) -> (r: i32)
    ensures
        r == lo12(v),
{
    (#[verifier::truncate] (v as i32)) & 0xFFF
}

impl RiscVEmitter {
    /// An empty emitter; `estimated_size` (in bytes) sizes the code buffer.
    pub fn new(estimated_size: usize) -> (r: Self)
        ensures
            r@ == EmitState::empty(),
            r@.well_formed(),
    {
        RiscVEmitter {
            code: Vec::with_capacity(estimated_size / 4),
            bb_offsets: Vec::new(),
            relocations: Vec::new(),
        }
    }

    fn emit32(&mut self, insn: u32)
        ensures
            final(self).code@ == old(self).code@.push(insn),
            final(self).bb_offsets == old(self).bb_offsets,
            final(self).relocations == old(self).relocations,
    {
        self.code.push(insn);
    }

    /// Index of the next instruction word.
    fn current_offset(&self) -> (r: usize)
        ensures
            r == self.code@.len(),
    {
        self.code.len()
    }

    fn ensure_bb_map(&mut self, bb: BasicBlockId)
        requires
            (bb.0 as int) < usize::MAX,
        ensures
            final(self).bb_offsets@ == grow_labels(old(self).bb_offsets@, bb.0 as int),
            final(self).code == old(self).code,
            final(self).relocations == old(self).relocations,
    {
        let idx = bb.0 as usize;
        if self.bb_offsets.len() <= idx {
            let ghost before = self.bb_offsets@;
            self.bb_offsets.resize(idx + 1, None);
            proof {
                let g = grow_labels(before, idx as int);
                assert forall|i: int| 0 <= i < self.bb_offsets@.len() implies self.bb_offsets@[i]
                    == g[i] by {
                    if i < before.len() {
                        assert(self.bb_offsets@.subrange(0, before.len() as int)[i] == before[i]);
                    } else {
                        assert(cloned::<Option<usize>>(None, self.bb_offsets@[i]));
                    }
                }
                assert(self.bb_offsets@ =~= g);
            }
        }
    }

    /// LUI of the rounded upper 20 bits, then ADDI of the low 12 when
    /// non-zero.
    fn emit_lui_addi(&mut self, rd: u8, v: i64)
        requires
            -0x80000000 <= v < 0x100000000,
        ensures
            final(self).code@ == old(self).code@ + lui_addi_words(rd, v),
            final(self).bb_offsets == old(self).bb_offsets,
            final(self).relocations == old(self).relocations,
    {
        let ghost start = self.code@;
        let hi = hi20_of(v);
        let lo = lo12_of(v);
        self.emit32(lui(rd, upper_imm_of(hi)));
        if lo != 0 {
            self.emit32(addi(rd, rd, sign_extend_12(lo)));
        }
        assert(self.code@ =~= start + lui_addi_words(rd, v));
    }

    /// Load a 64-bit immediate into `rd` (at most 6 instructions).
    fn emit_load_imm64(&mut self, rd: u8, imm: u64)
        ensures
            final(self).code@ == old(self).code@ + load_imm64_words(rd, imm),
            final(self).bb_offsets == old(self).bb_offsets,
            final(self).relocations == old(self).relocations,
    {
        let ghost start = self.code@;
        if imm == 0 {
            // ADDI rd, x0, 0
            self.emit32(addi(rd, 0, 0));
            assert(self.code@ =~= start + load_imm64_words(rd, imm));
            return;
        }
        let val = #[verifier::truncate] (imm as i64);
        // Fits a 12-bit signed immediate
        if val >= -2048 && val < 2048 {
            self.emit32(addi(rd, 0, val as i32));
            assert(self.code@ =~= start + load_imm64_words(rd, imm));
            return;
        }
        // Fits 32 bits: LUI + ADDI
        if val >= -2147483648 && val < 2147483648 {
            self.emit_lui_addi(rd, val);
            return;
        }
        // Full 64 bits: upper half, shift left 32, add the lower half.
        let hi_half = imm >> 32;
        let lo_half = imm & 0xFFFFFFFF;
        assert(hi_half < 0x100000000 && lo_half < 0x100000000) by (bit_vector)
            requires
                hi_half == imm >> 32u64,
                lo_half == imm & 0xFFFFFFFF,
        ;
        let upper = hi_half as i64;
        let lower = lo_half as i64;
        self.emit_lui_addi(rd, upper);
        self.emit32(slli(rd, rd, 32));
        let tmp = TMP;
        let hi_lower = hi20_of(lower);
        let lo_lower = lo12_of(lower);
        if hi_lower != 0 {
            self.emit32(lui(tmp, upper_imm_of(hi_lower)));
            if lo_lower != 0 {
                self.emit32(addi(tmp, tmp, sign_extend_12(lo_lower)));
            }
            self.emit32(crate::riscv::encode::add(rd, rd, tmp));
        } else if lo_lower != 0 {
            self.emit32(addi(tmp, 0, sign_extend_12(lo_lower)));
            self.emit32(crate::riscv::encode::add(rd, rd, tmp));
        }
        assert(self.code@ =~= start + load_imm64_words(rd, imm));
    }

    /// Load `val` into `tmp` and return `tmp`.
    fn materialize_imm(&mut self, val: i64, tmp: u8) -> (r: u8)
        ensures
            r == tmp,
            final(self).code@ == old(self).code@ + load_imm64_words(tmp, val as u64),
            final(self).bb_offsets == old(self).bb_offsets,
            final(self).relocations == old(self).relocations,
    {
        self.emit_load_imm64(tmp, #[verifier::truncate] (val as u64));
        tmp
    }
    fn emit_alu64_node(&mut self, op: &AluOp, dst: PhysReg, src: &Operand)
        ensures
            final(self).code@ == old(self).code@ + alu64_words(*op, dst.0, *src),
            final(self).bb_offsets == old(self).bb_offsets,
            final(self).relocations == old(self).relocations,
        decreases
            match src {
                Operand::Imm(_) => 1int,
                Operand::Reg(_) => 0int,
            },
    {
        let tmp = TMP;
        let ghost start = self.code@;
        match (op, src) {
            (AluOp::Add, Operand::Reg(rs)) => self.emit32(
                crate::riscv::encode::add(dst.0, dst.0, rs.0),
            ),
            (AluOp::Sub, Operand::Reg(rs)) => self.emit32(
                crate::riscv::encode::sub(dst.0, dst.0, rs.0),
            ),
            (AluOp::Mul, Operand::Reg(rs)) => self.emit32(
                crate::riscv::encode::mul(dst.0, dst.0, rs.0),
            ),
            (AluOp::Div, Operand::Reg(rs)) => self.emit32(divu(dst.0, dst.0, rs.0)),
            (AluOp::Mod, Operand::Reg(rs)) => self.emit32(remu(dst.0, dst.0, rs.0)),
            (AluOp::Or, Operand::Reg(rs)) => self.emit32(
                crate::riscv::encode::or(dst.0, dst.0, rs.0),
            ),
            (AluOp::And, Operand::Reg(rs)) => self.emit32(
                crate::riscv::encode::and(dst.0, dst.0, rs.0),
            ),
            (AluOp::Xor, Operand::Reg(rs)) => self.emit32(
                crate::riscv::encode::xor(dst.0, dst.0, rs.0),
            ),
            (AluOp::Lsh, Operand::Reg(rs)) => self.emit32(sll(dst.0, dst.0, rs.0)),
            (AluOp::Rsh, Operand::Reg(rs)) => self.emit32(srl(dst.0, dst.0, rs.0)),
            (AluOp::Arsh, Operand::Reg(rs)) => self.emit32(sra(dst.0, dst.0, rs.0)),
            (AluOp::Mov, Operand::Reg(rs)) => self.emit32(addi(dst.0, rs.0, 0)),  // MV
            (AluOp::Neg, _) => self.emit32(crate::riscv::encode::sub(dst.0, 0, dst.0)),
            (AluOp::Add, Operand::Imm(v)) if *v >= -2048 && *v < 2048 => {
                self.emit32(addi(dst.0, dst.0, *v as i32));
            },
            (AluOp::Mov, Operand::Imm(v)) => {
                self.emit_load_imm64(dst.0, #[verifier::truncate] (*v as u64));
            },
            (AluOp::Lsh, Operand::Imm(v)) => {
                self.emit32(slli(dst.0, dst.0, #[verifier::truncate] ((*v & 63) as u32)));
            },
            (AluOp::Rsh, Operand::Imm(v)) => {
                self.emit32(srli(dst.0, dst.0, #[verifier::truncate] ((*v & 63) as u32)));
            },
            (AluOp::Arsh, Operand::Imm(v)) => {
                self.emit32(srai(dst.0, dst.0, #[verifier::truncate] ((*v & 63) as u32)));
            },
            (AluOp::And, Operand::Imm(v)) if *v >= -2048 && *v < 2048 => {
                self.emit32(andi(dst.0, dst.0, *v as i32));
            },
            (AluOp::Or, Operand::Imm(v)) if *v >= -2048 && *v < 2048 => {
                self.emit32(ori(dst.0, dst.0, *v as i32));
            },
            (AluOp::Xor, Operand::Imm(v)) if *v >= -2048 && *v < 2048 => {
                self.emit32(xori(dst.0, dst.0, *v as i32));
            },
            (_, Operand::Imm(v)) => {
                let rs = self.materialize_imm(*v, tmp);
                self.emit_alu64_node(op, dst, &Operand::Reg(PhysReg(rs)));
            },
        }
        assert(self.code@ =~= start + alu64_words(*op, dst.0, *src));
    }

    /// SLLI 32; SRLI 32: clear the upper half of `d`.
    fn emit_zext32(&mut self, d: u8)
        ensures
            final(self).code@ == old(self).code@ + zext32_words(d),
            final(self).bb_offsets == old(self).bb_offsets,
            final(self).relocations == old(self).relocations,
    {
        let ghost start = self.code@;
        self.emit32(slli(d, d, 32));
        self.emit32(srli(d, d, 32));
        assert(self.code@ =~= start + zext32_words(d));
    }

    fn emit_alu32_node(&mut self, op: &AluOp, dst: PhysReg, src: &Operand)
        ensures
            final(self).code@ == old(self).code@ + alu32_words(*op, dst.0, *src),
            final(self).bb_offsets == old(self).bb_offsets,
            final(self).relocations == old(self).relocations,
        decreases
            match src {
                Operand::Imm(_) => 1int,
                Operand::Reg(_) => 0int,
            },
    {
        let tmp = TMP;
        let ghost start = self.code@;
        match (op, src) {
            (AluOp::Neg, _) => {
                self.emit32(subw(dst.0, 0, dst.0));
                self.emit_zext32(dst.0);
            },
            (_, Operand::Reg(rs)) => {
                let w = match op {
                    AluOp::Add => addw(dst.0, dst.0, rs.0),
                    AluOp::Sub => subw(dst.0, dst.0, rs.0),
                    AluOp::Mul => mulw(dst.0, dst.0, rs.0),
                    AluOp::Div => divuw(dst.0, dst.0, rs.0),
                    AluOp::Mod => remuw(dst.0, dst.0, rs.0),
                    AluOp::Lsh => sllw(dst.0, dst.0, rs.0),
                    AluOp::Rsh => srlw(dst.0, dst.0, rs.0),
                    AluOp::Arsh => sraw(dst.0, dst.0, rs.0),
                    AluOp::Mov => addi(dst.0, rs.0, 0),
                    AluOp::Or => crate::riscv::encode::or(dst.0, dst.0, rs.0),
                    AluOp::And => crate::riscv::encode::and(dst.0, dst.0, rs.0),
                    AluOp::Xor => crate::riscv::encode::xor(dst.0, dst.0, rs.0),
                    AluOp::Neg => subw(dst.0, 0, dst.0),
                };
                self.emit32(w);
                self.emit_zext32(dst.0);
            },
            (_, Operand::Imm(v)) => {
                let rs = self.materialize_imm(*v, tmp);
                self.emit_alu32_node(op, dst, &Operand::Reg(PhysReg(rs)));
            },
        }
        assert(self.code@ =~= start + alu32_words(*op, dst.0, *src));
    }

    fn emit_load_node(&mut self, width: &MemWidth, dst: PhysReg, base: PhysReg, off: i16)
        ensures
            final(self).code@ == old(self).code@.push(load_word(*width, dst.0, base.0, off)),
            final(self).bb_offsets == old(self).bb_offsets,
            final(self).relocations == old(self).relocations,
    {
        match width {
            MemWidth::B => self.emit32(lbu(dst.0, base.0, off as i32)),
            MemWidth::H => self.emit32(lhu(dst.0, base.0, off as i32)),
            MemWidth::W => self.emit32(lwu(dst.0, base.0, off as i32)),
            MemWidth::DW => self.emit32(ld(dst.0, base.0, off as i32)),
        }
    }

    fn emit_store_node(&mut self, width: &MemWidth, base: PhysReg, src: PhysReg, off: i16)
        ensures
            final(self).code@ == old(self).code@.push(store_word(*width, base.0, src.0, off)),
            final(self).bb_offsets == old(self).bb_offsets,
            final(self).relocations == old(self).relocations,
    {
        match width {
            MemWidth::B => self.emit32(sb(src.0, base.0, off as i32)),
            MemWidth::H => self.emit32(sh(src.0, base.0, off as i32)),
            MemWidth::W => self.emit32(sw(src.0, base.0, off as i32)),
            MemWidth::DW => self.emit32(sd(src.0, base.0, off as i32)),
        }
    }

    fn emit_branch_node(&mut self, cond: &BranchCond, target: BasicBlockId)
        ensures
            final(self).code@ == old(self).code@ + branch_words(*cond),
            final(self).relocations@ == old(self).relocations@.push(
                Relocation {
                    offset: (old(self).code@.len() + branch_words(*cond).len() - 1) as usize,
                    target,
                    is_conditional: true,
                },
            ),
            final(self).bb_offsets == old(self).bb_offsets,
    {
        let tmp = TMP;
        let ghost start = self.code@;
        let rhs_reg = match &cond.rhs {
            Operand::Reg(r) => r.0,
            Operand::Imm(v) => {
                self.materialize_imm(*v, tmp);
                tmp
            },
        };
        let reloc_offset = self.current_offset();
        let lhs = cond.lhs.0;
        let insn = match cond.op {
            JmpOp::Jeq => beq(lhs, rhs_reg, 0),
            JmpOp::Jne => bne(lhs, rhs_reg, 0),
            JmpOp::Jgt => bltu(rhs_reg, lhs, 0),  // unsigned a > b <=> b < a
            JmpOp::Jge => bgeu(lhs, rhs_reg, 0),
            JmpOp::Jlt => bltu(lhs, rhs_reg, 0),
            JmpOp::Jle => bgeu(rhs_reg, lhs, 0),  // unsigned a <= b <=> b >= a
            JmpOp::Jsgt => blt(rhs_reg, lhs, 0),
            JmpOp::Jsge => bge(lhs, rhs_reg, 0),
            JmpOp::Jslt => blt(lhs, rhs_reg, 0),
            JmpOp::Jsle => bge(rhs_reg, lhs, 0),
            JmpOp::Jset => {
                // AND tmp, lhs, rhs; BNE tmp, x0, target
                self.emit32(crate::riscv::encode::and(tmp, lhs, rhs_reg));
                bne(tmp, 0, 0)
            },
            JmpOp::Ja => jal(0, 0),
        };
        self.emit32(insn);
        let end = self.current_offset();
        assert(reloc_offset + 1 < end || !matches!(cond.op, JmpOp::Jset));
        let extra: usize = if matches!(cond.op, JmpOp::Jset) {
            1
        } else {
            0
        };
        self.relocations.push(
            Relocation { offset: reloc_offset + extra, target, is_conditional: true },
        );
        assert(self.code@ =~= start + branch_words(*cond));
    }

    fn emit_atomic_node(
        &mut self,
        _width: &MemWidth,
        op: &AtomicOp,
        base: PhysReg,
        src: PhysReg,
        off: i16,
    )
        ensures
            final(self).code@ == old(self).code@ + atomic_words(*op, base.0, src.0, off),
            final(self).bb_offsets == old(self).bb_offsets,
            final(self).relocations == old(self).relocations,
    {
        let tmp = TMP;
        let ghost start = self.code@;
        // Address (base + off) into the scratch register.
        if off != 0 {
            self.emit32(addi(tmp, base.0, off as i32));
        } else {
            self.emit32(addi(tmp, base.0, 0));  // MV
        }
        // FENCE rw, rw: full barrier
        self.emit32(fence_rw_rw());
        let ghost mid = self.code@;
        match op {
            AtomicOp::Add | AtomicOp::FetchAdd => self.emit32(amoadd_d(0, src.0, tmp)),
            AtomicOp::Or | AtomicOp::FetchOr => self.emit32(amoor_d(0, src.0, tmp)),
            AtomicOp::And | AtomicOp::FetchAnd => self.emit32(amoand_d(0, src.0, tmp)),
            AtomicOp::Xor | AtomicOp::FetchXor => self.emit32(amoxor_d(0, src.0, tmp)),
            AtomicOp::Xchg => self.emit32(amoswap_d(0, src.0, tmp)),
            AtomicOp::CmpXchg => {
                // LR/SC loop: skip the SC when the loaded value differs
                // from a0 (eBPF R0), retry when the SC fails.
                let loop_start = self.current_offset();
                self.emit32(lr_d(tmp, tmp));
                self.emit32(bne(tmp, 10, 12));
                self.emit32(sc_d(tmp, src.0, tmp));
                let back = (self.current_offset() - loop_start) * 4;
                self.emit32(bne(tmp, 0, -(back as i32)));
            },
        }
        assert(self.code@ =~= mid + atomic_op_words(*op, src.0));
        self.emit32(fence_rw_rw());
        assert(self.code@ =~= start + atomic_words(*op, base.0, src.0, off));
    }

    /// Byte swapping is not implemented: a no-op ADDI stands in for it.
    fn emit_endian_node(&mut self, _to_be: bool, _width: &EndianWidth, dst: PhysReg)
        ensures
            final(self).code@ == old(self).code@.push(addi(dst.0, dst.0, 0)),
            final(self).bb_offsets == old(self).bb_offsets,
            final(self).relocations == old(self).relocations,
    {
        self.emit32(addi(dst.0, dst.0, 0));
    }

    /// Branch displacement (in instructions) from word `at` to word
    /// `target`, when it is within the branch's range.
    fn branch_displacement(target: usize, at: usize, conditional: bool) -> (r: Option<i32>)
        ensures
            match r {
                Some(d) => d == target - at && in_branch_range(target - at, conditional),
                None => !in_branch_range(target - at, conditional),
            },
    {
        let limit: usize = if conditional {
            0x400
        } else {
            0x40000
        };
        if target >= at {
            let d = target - at;
            if d < limit {
                Some(d as i32)
            } else {
                None
            }
        } else {
            let d = at - target;
            if d <= limit {
                Some(-(d as i32))
            } else {
                None
            }
        }
    }
}

/// Emitting a node keeps relocations on emitted words and labels inside
/// the code.
pub proof fn lemma_emit_step_well_formed(s: EmitState, node: IrNode)
    requires
        s.well_formed(),
    ensures
        emit_step(s, node).well_formed(),
{
    let t = emit_step(s, node);
    match node {
        IrNode::Label { bb } => {
            let g = grow_labels(s.labels, bb.0 as int);
            assert forall|i: int| 0 <= i < t.labels.len() implies match #[trigger] t.labels[i] {
                Some(o) => o <= t.words.len(),
                None => true,
            } by {
                if i != bb.0 as int && i < s.labels.len() {
                    assert(t.labels[i] == s.labels[i]);
                }
            }
        },
        _ => {
            assert(branch_words_len_pos(node));
        },
    }
}

/// A branch node's words end with the branch.
spec fn branch_words_len_pos(node: IrNode) -> bool {
    match node {
        IrNode::Branch { cond, .. } => branch_words(cond).len() >= 1,
        _ => true,
    }
}

/// Emitting `a` then `b` is emitting `a + b`.
pub proof fn lemma_emit_all_append(s: EmitState, a: Seq<IrNode>, b: Seq<IrNode>)
    ensures
        emit_all(s, a + b) == emit_all(emit_all(s, a), b),
    decreases b.len(),
{
    if b.len() == 0 {
        assert(a + b =~= a);
    } else {
        assert((a + b).drop_last() =~= a + b.drop_last());
        lemma_emit_all_append(s, a, b.drop_last());
    }
}

/// Emitting a sequence of nodes keeps the state well formed.
pub proof fn lemma_emit_all_well_formed(s: EmitState, nodes: Seq<IrNode>)
    requires
        s.well_formed(),
    ensures
        emit_all(s, nodes).well_formed(),
    decreases nodes.len(),
{
    if nodes.len() > 0 {
        lemma_emit_all_well_formed(s, nodes.drop_last());
        lemma_emit_step_well_formed(emit_all(s, nodes.drop_last()), nodes.last());
    }
}

impl CodeEmitter for RiscVEmitter {
    type Error = RiscVEmitError;

    open spec fn well_formed(&self) -> bool {
        self@.well_formed()
    }

    open spec fn accepts(node: IrNode) -> bool {
        accepts_node(node)
    }

    open spec fn program_accepted(blocks: Seq<IrBasicBlock>) -> bool {
        forall|k: int|
            0 <= k < blocks.len() ==> {
                &&& accepts_node(IrNode::Label { bb: (#[trigger] blocks[k]).id })
                &&& forall|j: int|
                    0 <= j < blocks[k].nodes@.len() ==> accepts_node(#[trigger] blocks[k].nodes@[j])
            }
    }

    open spec fn size_fits(blocks: Seq<IrBasicBlock>) -> bool {
        4 * size_units(blocks) <= usize::MAX
    }

    fn emit_node(&mut self, node: &IrNode) -> (r: Result<(), Self::Error>)
        ensures
            r is Ok,
            final(self)@ == emit_step(old(self)@, *node),
    {
        proof {
            lemma_emit_step_well_formed(self@, *node);
        }
        let ghost start = self.code@;
        match node {
            IrNode::Alu64 { op, dst, src } => self.emit_alu64_node(op, *dst, src),
            IrNode::Alu32 { op, dst, src } => self.emit_alu32_node(op, *dst, src),
            IrNode::Load { width, dst, base, off } => self.emit_load_node(width, *dst, *base, *off),
            IrNode::Store { width, base, src, off } => self.emit_store_node(
                width,
                *base,
                *src,
                *off,
            ),
            IrNode::StoreImm { width, base, off, imm } => {
                let tmp = TMP;
                self.emit_load_imm64(tmp, #[verifier::truncate] (*imm as i64 as u64));
                self.emit_store_node(width, *base, PhysReg(tmp), *off);
            },
            IrNode::LoadImm64 { dst, imm } => self.emit_load_imm64(dst.0, *imm),
            IrNode::Branch { cond, target } => self.emit_branch_node(cond, *target),
            IrNode::Jump { target } => {
                let reloc_offset = self.current_offset();
                // JAL x0, offset: jump without link, patched by `finalize`
                self.emit32(jal(0, 0));
                self.relocations.push(
                    Relocation { offset: reloc_offset, target: *target, is_conditional: false },
                );
            },
            IrNode::Call { func_id: _ } => {
                // JALR ra, 0(s7): the helper's address is in the scratch register.
                self.emit32(jalr(1, TMP, 0));
            },
            IrNode::Ret => self.emit32(jalr(0, 1, 0)),  // JR ra
            IrNode::Spill { reg, slot } => self.emit32(sd(reg.0, 2, slot.offset as i32)),
            IrNode::Fill { reg, slot } => self.emit32(ld(reg.0, 2, slot.offset as i32)),
            IrNode::Atomic { width, op, base, src, off } => self.emit_atomic_node(
                width,
                op,
                *base,
                *src,
                *off,
            ),
            IrNode::Endian { to_be, width, dst } => self.emit_endian_node(*to_be, width, *dst),
            IrNode::Label { bb } => {
                self.ensure_bb_map(*bb);
                let off = self.current_offset();
                self.bb_offsets.set(bb.0 as usize, Some(off));
            },
            IrNode::Prologue { frame_size } => {
                let f = *frame_size as i32;
                // ADDI sp, sp, -frame_size
                self.emit32(addi(2, 2, -f));
                // Save RA, FP and the callee-saved s2-s6 (eBPF R6-R10).
                self.emit32(sd(1, 2, f - 8));
                self.emit32(sd(8, 2, f - 16));
                self.emit32(sd(18, 2, f - 24));
                self.emit32(sd(19, 2, f - 32));
                self.emit32(sd(20, 2, f - 40));
                self.emit32(sd(21, 2, f - 48));
                self.emit32(sd(22, 2, f - 56));
                // ADDI s0, sp, frame_size
                self.emit32(addi(8, 2, f));
            },
            IrNode::Epilogue { frame_size } => {
                let f = *frame_size as i32;
                self.emit32(ld(22, 2, f - 56));
                self.emit32(ld(21, 2, f - 48));
                self.emit32(ld(20, 2, f - 40));
                self.emit32(ld(19, 2, f - 32));
                self.emit32(ld(18, 2, f - 24));
                self.emit32(ld(8, 2, f - 16));
                self.emit32(ld(1, 2, f - 8));
                // ADDI sp, sp, frame_size
                self.emit32(addi(2, 2, f));
            },
        }
        assert(self.code@ =~= start + node_words(*node));
        assert(self@ =~= emit_step(old(self)@, *node));
        Ok(())
    }

    fn emit_program(&mut self, program: &IrProgram) -> (r: Result<(), Self::Error>)
        ensures
            r is Ok,
            final(self)@ == emit_all(old(self)@, program_stream(program.blocks@)),
    {
        let ghost blocks = program.blocks@;
        let mut i: usize = 0;
        while i < program.blocks.len()
            invariant
                blocks == program.blocks@,
                i <= blocks.len(),
                Self::program_accepted(blocks),
                self.well_formed(),
                self@ == emit_all(old(self)@, program_stream(blocks.subrange(0, i as int))),
            decreases blocks.len() - i,
        {
            let block = &program.blocks[i];
            let ghost pre = program_stream(blocks.subrange(0, i as int));
            let label = IrNode::Label { bb: block.id };
            proof {
                assert(accepts_node(IrNode::Label { bb: blocks[i as int].id }));
            }
            let _ = self.emit_node(&label);
            assert(pre.push(label).drop_last() =~= pre);
            let mut j: usize = 0;
            while j < block.nodes.len()
                invariant
                    blocks == program.blocks@,
                    i < blocks.len(),
                    *block == blocks[i as int],
                    j <= block.nodes@.len(),
                    Self::program_accepted(blocks),
                    self.well_formed(),
                    self@ == emit_all(
                        old(self)@,
                        pre.push(label) + block.nodes@.subrange(0, j as int),
                    ),
                decreases block.nodes@.len() - j,
            {
                let ghost done = pre.push(label) + block.nodes@.subrange(0, j as int);
                let node = &block.nodes[j];
                proof {
                    assert(accepts_node(blocks[i as int].nodes@[j as int]));
                }
                let _ = self.emit_node(node);
                proof {
                    let next = pre.push(label) + block.nodes@.subrange(0, j + 1);
                    assert(next.drop_last() =~= done);
                    assert(next.last() == *node);
                }
                j = j + 1;
            }
            proof {
                let sub = blocks.subrange(0, i + 1);
                assert(sub.drop_last() =~= blocks.subrange(0, i as int));
                assert(sub.last() == *block);
                assert(block.nodes@.subrange(0, j as int) =~= block.nodes@);
                assert(pre + seq![label] + block.nodes@ =~= pre.push(label) + block.nodes@);
            }
            i = i + 1;
        }
        assert(blocks.subrange(0, i as int) =~= blocks);
        Ok(())
    }

    fn finalize(&mut self) -> (r: Result<Vec<u8>, Self::Error>)
        ensures
            final(self)@.labels == old(self)@.labels,
            final(self)@.relocs == old(self)@.relocs,
            match r {
                Ok(bytes) => {
                    &&& resolves_upto(old(self)@, old(self)@.relocs.len() as int)
                    &&& final(self)@.words == patch_upto(
                        old(self)@,
                        old(self)@.relocs.len() as int,
                    )
                    &&& bytes@ == words_le_bytes(final(self)@.words)
                },
                Err(e) => exists|k: int|
                    0 <= k < old(self)@.relocs.len() && resolves_upto(old(self)@, k)
                        && !reloc_resolves(old(self)@, #[trigger] old(self)@.relocs[k]) && e
                        == RiscVEmitError::RelocationOutOfRange { bb: old(self)@.relocs[k].target }
                        && final(self)@.words == patch_upto(old(self)@, k),
            },
    {
        let ghost s0 = self@;
        let mut i: usize = 0;
        while i < self.relocations.len()
            invariant
                s0 == old(self)@,
                s0.well_formed(),
                i <= s0.relocs.len(),
                self.bb_offsets@ == s0.labels,
                self.relocations@ == s0.relocs,
                self.code@ == patch_upto(s0, i as int),
                self.code@.len() == s0.words.len(),
                resolves_upto(s0, i as int),
            decreases s0.relocs.len() - i,
        {
            let reloc = self.relocations[i];
            let idx = reloc.target.0 as usize;
            let target_offset = if idx < self.bb_offsets.len() {
                match self.bb_offsets[idx] {
                    Some(o) => o,
                    None => {
                        return Err(RiscVEmitError::RelocationOutOfRange { bb: reloc.target });
                    },
                }
            } else {
                return Err(RiscVEmitError::RelocationOutOfRange { bb: reloc.target });
            };
            assert(s0.label_of(reloc.target) == Some(target_offset));
            let at = reloc.offset;
            let imm = match Self::branch_displacement(target_offset, at, reloc.is_conditional) {
                Some(d) => d,
                None => {
                    return Err(RiscVEmitError::RelocationOutOfRange { bb: reloc.target });
                },
            };
            let existing = self.code[at];
            let offset = imm * 4;  // in bytes
            let patched = if reloc.is_conditional {
                // B-type: keep opcode, funct3, rs1 and rs2
                encode_b_type_imm(offset) | (existing & 0x01FFF07F)
            } else {
                // JAL: keep rd
                encode_j_type_imm(offset) | 0x6F | (existing & 0xF80)
            };
            assert(patched == patch_value(existing, reloc_disp(s0, reloc), reloc.is_conditional));
            self.code.set(at, patched);
            i = i + 1;
        }
        Ok(words_to_bytes(&self.code))
    }

    fn calculate_size(&self, program: &IrProgram) -> (r: usize)
        ensures
            r == 4 * emit_all(EmitState::empty(), program_stream(program.blocks@)).words.len(),
    {
        // Dry run: emit into a scratch emitter and measure; patching the
        // relocations later changes no word count.
        let mut scratch = RiscVEmitter::new(0);
        let _ = scratch.emit_program(program);
        proof {
            lemma_stream_words_bound(EmitState::empty(), program.blocks@);
        }
        scratch.code.len() * 4
    }
}

/// Size units of a prefix never exceed those of the whole.
pub proof fn lemma_size_units_prefix(blocks: Seq<IrBasicBlock>, n: int)
    requires
        0 <= n <= blocks.len(),
    ensures
        0 <= size_units(blocks.subrange(0, n)) <= size_units(blocks),
    decreases blocks.len(),
{
    if n < blocks.len() {
        assert(blocks.drop_last() =~= blocks.drop_last().subrange(0, blocks.len() - 1));
        lemma_size_units_prefix(blocks.drop_last(), n);
        assert(blocks.drop_last().subrange(0, n) =~= blocks.subrange(0, n));
    } else {
        assert(blocks.subrange(0, n) =~= blocks);
        lemma_size_units_nonneg(blocks);
    }
}

pub proof fn lemma_size_units_nonneg(blocks: Seq<IrBasicBlock>)
    ensures
        size_units(blocks) >= 0,
    decreases blocks.len(),
{
    if blocks.len() > 0 {
        lemma_size_units_nonneg(blocks.drop_last());
    }
}

/// No IR node expands to more than `MAX_EXPANSION_RATIO` (10) words.
pub proof fn lemma_node_words_bound(node: IrNode)
    ensures
        node_words(node).len() <= 10,
{
}

/// Emitting a program adds at most its dry-run size units of words.
pub proof fn lemma_stream_words_bound(s: EmitState, blocks: Seq<IrBasicBlock>)
    ensures
        s.words.len() <= emit_all(s, program_stream(blocks)).words.len() <= s.words.len()
            + size_units(blocks),
    decreases blocks.len(),
{
    if blocks.len() > 0 {
        let pre = program_stream(blocks.drop_last());
        let label = IrNode::Label { bb: blocks.last().id };
        lemma_stream_words_bound(s, blocks.drop_last());
        lemma_emit_all_append(s, pre + seq![label], blocks.last().nodes@);
        lemma_emit_all_append(s, pre, seq![label]);
        let mid = emit_all(s, pre);
        assert(seq![label].drop_last() =~= Seq::<IrNode>::empty());
        assert(emit_all(mid, Seq::<IrNode>::empty()) == mid);
        assert(emit_all(mid, seq![label]) == emit_step(mid, label));
        assert(program_stream(blocks) == pre + seq![label] + blocks.last().nodes@);
        lemma_emit_all_nodes_bound(emit_all(s, pre + seq![label]), blocks.last().nodes@);
    }
}

/// Each node adds at most 10 words.
pub proof fn lemma_emit_all_nodes_bound(s: EmitState, nodes: Seq<IrNode>)
    ensures
        s.words.len() <= emit_all(s, nodes).words.len() <= s.words.len() + 10 * nodes.len(),
    decreases nodes.len(),
{
    if nodes.len() > 0 {
        lemma_emit_all_nodes_bound(s, nodes.drop_last());
        lemma_node_words_bound(nodes.last());
    }
}

/// Patching relocations never changes the number of code words.
pub proof fn lemma_patch_upto_len(s: EmitState, n: int)
    requires
        s.well_formed(),
        n <= s.relocs.len(),
    ensures
        patch_upto(s, n).len() == s.words.len(),
    decreases n,
{
    if n > 0 {
        lemma_patch_upto_len(s, n - 1);
    }
}

/// The worst-case size is an upper bound: the code a fresh emitter
/// produces for a program has at most `size_units` words.
pub proof fn lemma_dry_run_bounds_code(blocks: Seq<IrBasicBlock>)
    ensures
        4 * emit_all(EmitState::empty(), program_stream(blocks)).words.len() <= 4 * size_units(
            blocks,
        ),
{
    lemma_stream_words_bound(EmitState::empty(), blocks);
}

// ---------------------------------------------------------------------------
// Relocations of a well-formed program resolve
// ---------------------------------------------------------------------------

/// Every relocation targets a block below `nb`.
pub open spec fn relocs_below(s: EmitState, nb: int) -> bool {
    forall|i: int| 0 <= i < s.relocs.len() ==> ((#[trigger] s.relocs[i]).target.0 as int) < nb
}

/// Emitting label-free nodes whose targets are below `nb` keeps the label
/// table, keeps the relocations below `nb`, and only adds words.
proof fn lemma_emit_nodes_targets(s: EmitState, nodes: Seq<IrNode>, nb: int)
    requires
        relocs_below(s, nb),
        forall|j: int|
            0 <= j < nodes.len() ==> !(#[trigger] nodes[j] is Label) && match node_target(nodes[j]) {
                Some(t) => (t.0 as int) < nb,
                None => true,
            },
    ensures
        emit_all(s, nodes).labels == s.labels,
        relocs_below(emit_all(s, nodes), nb),
        emit_all(s, nodes).words.len() >= s.words.len(),
    decreases nodes.len(),
{
    if nodes.len() > 0 {
        let init = nodes.drop_last();
        assert forall|j: int| 0 <= j < init.len() implies !(#[trigger] init[j] is Label) && match node_target(
            init[j],
        ) {
            Some(t) => (t.0 as int) < nb,
            None => true,
        } by {
            assert(init[j] == nodes[j]);
        }
        lemma_emit_nodes_targets(s, init, nb);
        let last = nodes.last();
        assert(!(last is Label));
        assert(match node_target(last) {
            Some(t) => (t.0 as int) < nb,
            None => true,
        });
    }
}

/// After the first `j` blocks of a closed program, blocks `0..j` are
/// labelled inside the code and every relocation targets a block.
proof fn lemma_stream_labels(blocks: Seq<IrBasicBlock>, j: int)
    requires
        blocks_closed(blocks),
        blocks.len() <= u32::MAX,
        0 <= j <= blocks.len(),
    ensures
        ({
            let s = emit_all(EmitState::empty(), program_stream(blocks.subrange(0, j)));
            &&& s.labels.len() == j
            &&& forall|i: int|
                0 <= i < j ==> ((#[trigger] s.labels[i]) matches Some(pos) && pos <= s.words.len())
            &&& relocs_below(s, blocks.len() as int)
        }),
    decreases j,
{
    let nb = blocks.len() as int;
    if j == 0 {
        assert(blocks.subrange(0, 0) =~= Seq::<IrBasicBlock>::empty());
    } else {
        lemma_stream_labels(blocks, j - 1);
        let sub = blocks.subrange(0, j);
        assert(sub.drop_last() =~= blocks.subrange(0, j - 1));
        assert(sub.last() == blocks[j - 1]);
        let pre = program_stream(blocks.subrange(0, j - 1));
        let b = blocks[j - 1];
        let label = IrNode::Label { bb: b.id };
        let e = EmitState::empty();
        assert(program_stream(sub) == pre + seq![label] + b.nodes@);
        lemma_emit_all_append(e, pre + seq![label], b.nodes@);
        lemma_emit_all_append(e, pre, seq![label]);
        let mid = emit_all(e, pre);
        assert(seq![label].drop_last() =~= Seq::<IrNode>::empty());
        assert(emit_all(mid, Seq::<IrNode>::empty()) == mid);
        assert(emit_all(mid, seq![label]) == emit_step(mid, label));
        let after = emit_step(mid, label);
        assert(b.id == BasicBlockId((j - 1) as u32));
        assert(after.labels =~= mid.labels.push(Some(mid.words.len() as usize)));
        assert forall|jj: int| 0 <= jj < b.nodes@.len() implies !(#[trigger] b.nodes@[jj] is Label)
            && match node_target(b.nodes@[jj]) {
            Some(t) => (t.0 as int) < nb,
            None => true,
        } by {
            assert(b.nodes@[jj] == blocks[j - 1].nodes@[jj]);
        }
        lemma_emit_nodes_targets(after, b.nodes@, nb);
    }
}

/// In a closed program small enough for a B-type branch's reach, every
/// relocation resolves: `finalize` succeeds.
pub proof fn lemma_closed_program_resolves(blocks: Seq<IrBasicBlock>)
    requires
        blocks_closed(blocks),
        blocks.len() <= u32::MAX,
        size_units(blocks) < 0x400,
    ensures
        ({
            let s = emit_all(EmitState::empty(), program_stream(blocks));
            resolves_upto(s, s.relocs.len() as int)
        }),
{
    let nb = blocks.len() as int;
    lemma_stream_labels(blocks, nb);
    assert(blocks.subrange(0, nb) =~= blocks);
    let e = EmitState::empty();
    let s = emit_all(e, program_stream(blocks));
    lemma_emit_all_well_formed(e, program_stream(blocks));
    lemma_stream_words_bound(e, blocks);
    assert forall|i: int| 0 <= i < s.relocs.len() implies reloc_resolves(s, #[trigger] s.relocs[i]) by {
        let r = s.relocs[i];
        let t = r.target.0 as int;
        assert(t < nb);
        assert(s.labels[t] matches Some(pos) && pos <= s.words.len());
        assert(r.offset < s.words.len());
    }
}

} // verus!
