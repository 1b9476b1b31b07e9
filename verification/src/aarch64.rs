//! AArch64 (ARMv8-A) machine code emitter for the eBPF JIT compiler.
//!
//! Every AArch64 instruction is one 32-bit word (4 bytes). The emitter
//! keeps its code as a sequence of words; the instruction words each IR
//! node expands to are stated by `node_words`, and `finalize` patches the
//! branch displacements (`patch_upto`) and serialises the words as
//! little-endian bytes.
use vstd::prelude::*;

pub mod encode;

use crate::ir::{
    BasicBlockId, BranchCond, CodeEmitter, EmitState, IrBasicBlock, IrNode, IrProgram, Operand,
    PhysReg, Relocation, blocks_closed, grow_labels, node_target, program_stream, words_le_bytes,
    words_to_bytes,
};
use crate::isa::{AluOp, AtomicOp, EndianWidth, JmpOp, MemWidth};
use crate::interpreter::spec_eval_jmp;
use self::encode::{
    add_w_imm, add_w_reg, add_x_imm, add_x_reg, and_w_reg, and_x_imm_mask, and_x_reg, asr_x_imm,
    asrv_w, asrv_x, b_cond, b_imm, blr, cas_x, cmp_w_reg, cmp_x_reg, dmb_ish, enc_bfm, eor_w_reg,
    eor_x_reg, ldadd_x, ldclr_x, ldeor_x, ldp_offset, ldp_post, ldr_w_imm, ldr_x_imm, ldrb_imm,
    ldrh_imm, ldset_x, lsl_x_imm, lslv_w, lslv_x, lsr_x_imm, lsrv_w, lsrv_x, mov_w_reg, mov_x_reg,
    ldst_unscaled, movk_w, movk_x, movn_x, movz_w, movz_x, msub_w, msub_x, mul_w, mul_x, orr_w_reg, orr_x_reg, ret,
    rev16_w, rev_w, rev_x, stp_offset, stp_pre, str_w_imm, str_x_imm, strb_imm, strh_imm,
    sub_w_imm, sub_w_reg, sub_x_imm, sub_x_reg, swp_x, tst_w_reg, tst_x_reg, udiv_w, udiv_x, CC_AL, CC_EQ, CC_GE,
    CC_GT, CC_HI, CC_HS, CC_LE, CC_LO, CC_LS, CC_LT, CC_NE,
};

verus! {

/// Largest number of instruction words one IR node expands to; the dry
/// run sizes the buffer with it.
const MAX_EXPANSION_RATIO: usize = 8;

#[derive(Debug, Clone, PartialEq, Eq, Structural)]
pub enum AArch64EmitError {
    BufferOverflow,
    UnsupportedNode,
    RelocationOutOfRange { bb: BasicBlockId },
    InvalidImmediate { value: i64 },
}

/// AArch64 code emitter.
pub struct AArch64Emitter {
    /// Instruction words emitted so far.
    code: Vec<u32>,
    /// Word index at which each labelled basic block starts.
    bb_offsets: Vec<Option<usize>>,
    relocations: Vec<Relocation>,
}

impl View for AArch64Emitter {
    type V = EmitState;

    closed spec fn view(&self) -> EmitState {
        EmitState { words: self.code@, labels: self.bb_offsets@, relocs: self.relocations@ }
    }
}

// ---------------------------------------------------------------------------
// The words each node expands to
// ---------------------------------------------------------------------------

/// The `k`-th 16-bit chunk of a 64-bit immediate, lowest first.
pub open spec fn imm_chunk(imm: u64, k: int) -> u16 {
    (if k == 0 {
        imm & 0xFFFF
    } else if k == 1 {
        (imm >> 16u64) & 0xFFFF
    } else if k == 2 {
        (imm >> 32u64) & 0xFFFF
    } else {
        (imm >> 48u64) & 0xFFFF
    }) as u16
}

/// MOVK of chunk `k` when that chunk is non-zero, nothing otherwise.
pub open spec fn movk_if_nonzero(rd: u8, imm: u64, k: int) -> Seq<u32> {
    if imm_chunk(imm, k) != 0 {
        seq![movk_x(rd, imm_chunk(imm, k), k as u8)]
    } else {
        Seq::empty()
    }
}

/// Loading a 64-bit immediate: MOVZ of the low chunk, then a MOVK for each
/// non-zero higher chunk.
pub open spec fn load_imm64_words(rd: u8, imm: u64) -> Seq<u32> {
    seq![movz_x(rd, imm_chunk(imm, 0), 0)] + movk_if_nonzero(rd, imm, 1) + movk_if_nonzero(
        rd,
        imm,
        2,
    ) + movk_if_nonzero(rd, imm, 3)
}

/// LSL Xd, Xn, #shift as its UBFM encoding.
pub open spec fn lsl_imm_word(rd: u8, rn: u8, shift: u8) -> u32 {
    enc_bfm(0xD3400000, rd, rn, ((64 - shift) % 64) as u32, (63 - shift) as u32)
}

/// 64-bit register-register ALU operation `d = d op s`.
pub open spec fn alu64_reg_words(op: AluOp, d: u8, s: u8) -> Seq<u32> {
    match op {
        AluOp::Add => seq![add_x_reg(d, d, s)],
        AluOp::Sub => seq![sub_x_reg(d, d, s)],
        AluOp::Mul => seq![mul_x(d, d, s)],
        AluOp::Div => seq![udiv_x(d, d, s)],
        AluOp::Mod => seq![udiv_x(12, d, s), msub_x(d, 12, s, d)],
        AluOp::Or => seq![orr_x_reg(d, d, s)],
        AluOp::And => seq![and_x_reg(d, d, s)],
        AluOp::Xor => seq![eor_x_reg(d, d, s)],
        AluOp::Lsh => seq![lslv_x(d, d, s)],
        AluOp::Rsh => seq![lsrv_x(d, d, s)],
        AluOp::Arsh => seq![asrv_x(d, d, s)],
        AluOp::Mov => seq![mov_x_reg(d, s)],
        AluOp::Neg => seq![sub_x_reg(d, 31, d)],
    }
}

/// An immediate operand loaded into X9, then the register form.
pub open spec fn alu64_via_tmp(op: AluOp, d: u8, v: i64) -> Seq<u32> {
    load_imm64_words(9, v as u64) + alu64_reg_words(op, d, 9)
}

/// 64-bit ALU node `d = d op src`.
pub open spec fn alu64_words(op: AluOp, d: u8, src: Operand) -> Seq<u32> {
    match src {
        Operand::Reg(rs) => alu64_reg_words(op, d, rs.0),
        Operand::Imm(v) => match op {
            AluOp::Neg => seq![sub_x_reg(d, 31, d)],
            AluOp::Add => if 0 <= v < 4096 {
                seq![add_x_imm(d, d, v as u16)]
            } else {
                alu64_via_tmp(op, d, v)
            },
            AluOp::Sub => if 0 <= v < 4096 {
                seq![sub_x_imm(d, d, v as u16)]
            } else {
                alu64_via_tmp(op, d, v)
            },
            AluOp::Mov => load_imm64_words(d, v as u64),
            AluOp::Lsh => seq![lsl_imm_word(d, d, (v & 63) as u8)],
            AluOp::Rsh => seq![lsr_x_imm(d, d, (v & 63) as u8)],
            AluOp::Arsh => seq![asr_x_imm(d, d, (v & 63) as u8)],
            _ => alu64_via_tmp(op, d, v),
        },
    }
}

/// 32-bit register-register ALU operation.
pub open spec fn alu32_reg_words(op: AluOp, d: u8, s: u8) -> Seq<u32> {
    match op {
        AluOp::Add => seq![add_w_reg(d, d, s)],
        AluOp::Sub => seq![sub_w_reg(d, d, s)],
        AluOp::Mul => seq![mul_w(d, d, s)],
        AluOp::Div => seq![udiv_w(d, d, s)],
        AluOp::Mod => seq![udiv_w(12, d, s), msub_w(d, 12, s, d)],
        AluOp::Or => seq![orr_w_reg(d, d, s)],
        AluOp::And => seq![and_w_reg(d, d, s)],
        AluOp::Xor => seq![eor_w_reg(d, d, s)],
        AluOp::Lsh => seq![lslv_w(d, d, s)],
        AluOp::Rsh => seq![lsrv_w(d, d, s)],
        AluOp::Arsh => seq![asrv_w(d, d, s)],
        AluOp::Mov => seq![mov_w_reg(d, s)],
        AluOp::Neg => seq![sub_w_reg(d, 31, d)],
    }
}

/// MOV Wd, #imm: MOVZ of the low half, MOVK of the high half when the
/// immediate (as `u64`) exceeds 16 bits.
pub open spec fn mov32_imm_words(d: u8, v: i64) -> Seq<u32> {
    seq![movz_w(d, v as u16, 0)] + if (v as u64) > 0xFFFF {
        seq![movk_w(d, ((v as u64) >> 16u64) as u16, 1)]
    } else {
        Seq::empty()
    }
}

/// 32-bit ALU node.
pub open spec fn alu32_words(op: AluOp, d: u8, src: Operand) -> Seq<u32> {
    match src {
        Operand::Reg(rs) => alu32_reg_words(op, d, rs.0),
        Operand::Imm(v) => match op {
            AluOp::Neg => seq![sub_w_reg(d, 31, d)],
            AluOp::Mov => mov32_imm_words(d, v),
            AluOp::Add => if 0 <= v < 4096 {
                seq![add_w_imm(d, d, v as u16)]
            } else {
                load_imm64_words(9, v as u64) + alu32_reg_words(op, d, 9)
            },
            AluOp::Sub => if 0 <= v < 4096 {
                seq![sub_w_imm(d, d, v as u16)]
            } else {
                load_imm64_words(9, v as u64) + alu32_reg_words(op, d, 9)
            },
            _ => load_imm64_words(9, v as u64) + alu32_reg_words(op, d, 9),
        },
    }
}

pub open spec fn load_word(width: MemWidth, d: u8, b: u8, off: i16) -> u32 {
    match width {
        MemWidth::B => ldrb_imm(d, b, off),
        MemWidth::H => ldrh_imm(d, b, off),
        MemWidth::W => ldr_w_imm(d, b, off),
        MemWidth::DW => ldr_x_imm(d, b, off),
    }
}

pub open spec fn store_word(width: MemWidth, b: u8, s: u8, off: i16) -> u32 {
    match width {
        MemWidth::B => strb_imm(s, b, off),
        MemWidth::H => strh_imm(s, b, off),
        MemWidth::W => str_w_imm(s, b, off),
        MemWidth::DW => str_x_imm(s, b, off),
    }
}

/// Bytes moved by an access of `width`.
pub open spec fn access_bytes(width: MemWidth) -> int {
    match width {
        MemWidth::B => 1,
        MemWidth::H => 2,
        MemWidth::W => 4,
        MemWidth::DW => 8,
    }
}

/// The scaled unsigned-offset form encodes `off`: non-negative, a multiple
/// of the access size, and at most 4095 units.
pub open spec fn scaled_fits(width: MemWidth, off: i16) -> bool {
    0 <= off && (off as int) % access_bytes(width) == 0 && (off as int) / access_bytes(width) < 4096
}

/// The LDUR/STUR opcode of a width.
pub open spec fn unscaled_base(width: MemWidth, is_load: bool) -> u32 {
    let b: u32 = match width {
        MemWidth::B => 0x38000000,
        MemWidth::H => 0x78000000,
        MemWidth::W => 0xB8000000,
        MemWidth::DW => 0xF8000000,
    };
    if is_load {
        b | 0x00400000
    } else {
        b
    }
}

/// X10 = `b + off`: the offset by one MOVZ (non-negative) or MOVN
/// (negative), then an ADD.
pub open spec fn address_words(b: u8, off: i16) -> Seq<u32> {
    seq![
        if off >= 0 {
            movz_x(10, off as u16, 0)
        } else {
            movn_x(10, !(off as u16), 0)
        },
        add_x_reg(10, b, 10),
    ]
}

/// A load of `width` from `b + off` into `d`: the scaled form when it fits,
/// else LDUR for offsets in [-256, 256), else the address computed in X10.
pub open spec fn load_words(width: MemWidth, d: u8, b: u8, off: i16) -> Seq<u32> {
    if scaled_fits(width, off) {
        seq![load_word(width, d, b, off)]
    } else if -256 <= off < 256 {
        seq![ldst_unscaled(unscaled_base(width, true), d, b, off)]
    } else {
        address_words(b, off) + seq![load_word(width, d, 10, 0)]
    }
}

/// A store of `s` (its low `width` bytes) to `b + off`, in the same three
/// forms as `load_words`.
pub open spec fn store_words(width: MemWidth, b: u8, s: u8, off: i16) -> Seq<u32> {
    if scaled_fits(width, off) {
        seq![store_word(width, b, s, off)]
    } else if -256 <= off < 256 {
        seq![ldst_unscaled(unscaled_base(width, false), s, b, off)]
    } else {
        address_words(b, off) + seq![store_word(width, 10, s, 0)]
    }
}

/// The AArch64 condition code of an eBPF jump.
pub open spec fn cc_of(op: JmpOp) -> u8 {
    match op {
        JmpOp::Jeq => CC_EQ,
        JmpOp::Jne => CC_NE,
        JmpOp::Jgt => CC_HI,
        JmpOp::Jge => CC_HS,
        JmpOp::Jlt => CC_LO,
        JmpOp::Jle => CC_LS,
        JmpOp::Jsgt => CC_GT,
        JmpOp::Jsge => CC_GE,
        JmpOp::Jslt => CC_LT,
        JmpOp::Jsle => CC_LE,
        JmpOp::Jset => CC_NE,
        JmpOp::Ja => CC_AL,
    }
}

/// AArch64 `ConditionHolds`: whether condition code `cc` holds on the flags
/// N, Z, C, V. Bits 3..1 pick the test (EQ, CS, MI, VS, HI, GE, GT, AL);
/// bit 0 inverts it, except for 0b1111.
pub open spec fn cond_holds(cc: u8, n: bool, z: bool, c: bool, v: bool) -> bool {
    let base = if cc / 2 == 0 {
        z
    } else if cc / 2 == 1 {
        c
    } else if cc / 2 == 2 {
        n
    } else if cc / 2 == 3 {
        v
    } else if cc / 2 == 4 {
        c && !z
    } else if cc / 2 == 5 {
        n == v
    } else if cc / 2 == 6 {
        n == v && !z
    } else {
        true
    };
    if cc % 2 == 1 && cc != 15 {
        !base
    } else {
        base
    }
}

/// The signed difference of two 64-bit values wrapped to 64 bits.
pub open spec fn wrap_i64(d: int) -> int {
    if d > i64::MAX {
        d - 0x1_0000_0000_0000_0000
    } else if d < i64::MIN {
        d + 0x1_0000_0000_0000_0000
    } else {
        d
    }
}

/// The flags N, Z, C, V that `CMP Xa, Xb` (SUBS) leaves: the sign and the
/// zero test of `a - b`, no unsigned borrow, and signed overflow.
pub open spec fn subs_flags(a: u64, b: u64) -> (bool, bool, bool, bool) {
    let d = (a as i64) - (b as i64);
    (wrap_i64(d) < 0, a == b, a >= b, d > i64::MAX || d < i64::MIN)
}

/// The flags N, Z, C, V that `TST Xa, Xb` (ANDS) leaves.
pub open spec fn tst_flags(a: u64, b: u64) -> (bool, bool, bool, bool) {
    ((a & b) >= 0x8000_0000_0000_0000, (a & b) == 0, false, false)
}

/// The flags the compare word of a jump leaves.
pub open spec fn jump_flags(op: JmpOp, a: u64, b: u64) -> (bool, bool, bool, bool) {
    if op == JmpOp::Jset {
        tst_flags(a, b)
    } else {
        subs_flags(a, b)
    }
}

/// The B.cond of every eBPF jump is taken exactly when the jump is: its
/// condition code holds on the flags that comparing the two 64-bit
/// operands leaves (TST for JSET, CMP otherwise) if and only if the eBPF
/// comparison holds.
pub proof fn lemma_branch_condition(op: JmpOp, a: u64, b: u64)
    ensures
        ({
            let (n, z, c, v) = jump_flags(op, a, b);
            cond_holds(cc_of(op), n, z, c, v) == spec_eval_jmp(op, a, b)
        }),
{
    let d = (a as i64) - (b as i64);
    assert((a == b) == ((a as i64) == (b as i64))) by (bit_vector);
    assert((wrap_i64(d) < 0) == if d > i64::MAX || d < i64::MIN {
        d >= 0
    } else {
        d < 0
    });
    let (n, z, c, v) = jump_flags(op, a, b);
    match op {
        JmpOp::Jeq => assert(cond_holds(0, n, z, c, v) == z),
        JmpOp::Jne => assert(cond_holds(1, n, z, c, v) == !z),
        JmpOp::Jgt => assert(cond_holds(8, n, z, c, v) == (c && !z)),
        JmpOp::Jge => assert(cond_holds(2, n, z, c, v) == c),
        JmpOp::Jlt => assert(cond_holds(3, n, z, c, v) == !c),
        JmpOp::Jle => assert(cond_holds(9, n, z, c, v) == !(c && !z)),
        JmpOp::Jsgt => {
            assert(cond_holds(12, n, z, c, v) == (n == v && !z));
        },
        JmpOp::Jsge => assert(cond_holds(10, n, z, c, v) == (n == v)),
        JmpOp::Jslt => assert(cond_holds(11, n, z, c, v) == (n != v)),
        JmpOp::Jsle => {
            assert(cond_holds(13, n, z, c, v) == !(n == v && !z));
        },
        JmpOp::Jset => assert(cond_holds(1, n, z, c, v) == !z),
        JmpOp::Ja => assert(cond_holds(14, n, z, c, v)),
    }
}

/// Words that put a branch's right-hand side into a register.
pub open spec fn operand_setup(rhs: Operand) -> Seq<u32> {
    match rhs {
        Operand::Reg(_) => Seq::empty(),
        Operand::Imm(v) => load_imm64_words(9, v as u64),
    }
}

/// The register holding a branch's right-hand side.
pub open spec fn operand_reg(rhs: Operand) -> u8 {
    match rhs {
        Operand::Reg(r) => r.0,
        Operand::Imm(_) => 9,
    }
}

/// The flag-setting word of a branch: TST (AND) for JSET, whose condition
/// is `(lhs & rhs) != 0`, else CMP (SUB).
pub open spec fn compare_word(op: JmpOp, lhs: u8, rhs: u8, is_32bit: bool) -> u32 {
    if op == JmpOp::Jset {
        if is_32bit {
            tst_w_reg(lhs, rhs)
        } else {
            tst_x_reg(lhs, rhs)
        }
    } else if is_32bit {
        cmp_w_reg(lhs, rhs)
    } else {
        cmp_x_reg(lhs, rhs)
    }
}

/// Conditional branch: operand setup, compare, then B.cond with a zero
/// displacement (patched by `finalize`).
pub open spec fn branch_words(c: BranchCond) -> Seq<u32> {
    operand_setup(c.rhs) + seq![
        compare_word(c.op, c.lhs.0, operand_reg(c.rhs), c.is_32bit),
        b_cond(cc_of(c.op), 0),
    ]
}

/// The LSE atomic instruction for `op`, address in X9.
pub open spec fn atomic_op_word(op: AtomicOp, src: u8) -> u32 {
    match op {
        AtomicOp::Add | AtomicOp::FetchAdd => ldadd_x(src, 31, 9),
        AtomicOp::Or | AtomicOp::FetchOr => ldset_x(src, 31, 9),
        AtomicOp::And | AtomicOp::FetchAnd => ldclr_x(src, 31, 9),
        AtomicOp::Xor | AtomicOp::FetchXor => ldeor_x(src, 31, 9),
        AtomicOp::Xchg => swp_x(src, 31, 9),
        AtomicOp::CmpXchg => cas_x(0, src, 9),
    }
}

/// Atomic node: address into X9, barrier, the atomic, barrier.
pub open spec fn atomic_words(op: AtomicOp, base: u8, src: u8, off: i16) -> Seq<u32> {
    (if off != 0 {
        load_imm64_words(9, off as i64 as u64) + seq![add_x_reg(9, base, 9)]
    } else {
        seq![mov_x_reg(9, base)]
    }) + seq![dmb_ish(), atomic_op_word(op, src), dmb_ish()]
}

/// Byte swap to big endian; conversion to little endian emits nothing.
pub open spec fn endian_words(to_be: bool, width: EndianWidth, d: u8) -> Seq<u32> {
    if to_be {
        match width {
            EndianWidth::Bits16 => seq![rev16_w(d, d), and_x_imm_mask(d, d, 0xFFFF)],
            EndianWidth::Bits32 => seq![rev_w(d, d)],
            EndianWidth::Bits64 => seq![rev_x(d, d)],
        }
    } else {
        Seq::empty()
    }
}

/// Frame setup: push FP/LR, set FP to SP (ADD X29, SP, #0; an ORR would
/// read XZR in place of SP), save X19-X22 and X25.
pub open spec fn prologue_words(fs: u16) -> Seq<u32> {
    seq![
        stp_pre(29, 30, 31, (-(fs as i16)) as i16),
        add_x_imm(29, 31, 0),
        stp_offset(19, 20, 31, 16),
        stp_offset(21, 22, 31, 32),
        str_x_imm(25, 31, 48),
    ]
}

/// Frame teardown: restore X19-X22 and X25, pop FP/LR.
pub open spec fn epilogue_words(fs: u16) -> Seq<u32> {
    seq![
        ldp_offset(19, 20, 31, 16),
        ldp_offset(21, 22, 31, 32),
        ldr_x_imm(25, 31, 48),
        ldp_post(29, 30, 31, fs as i16),
    ]
}

/// The instruction words an IR node expands to (branch displacements zero).
pub open spec fn node_words(node: IrNode) -> Seq<u32> {
    match node {
        IrNode::Alu64 { op, dst, src } => alu64_words(op, dst.0, src),
        IrNode::Alu32 { op, dst, src } => alu32_words(op, dst.0, src),
        IrNode::Load { width, dst, base, off } => load_words(width, dst.0, base.0, off),
        IrNode::Store { width, base, src, off } => store_words(width, base.0, src.0, off),
        IrNode::StoreImm { width, base, off, imm } => load_imm64_words(9, imm as i64 as u64)
            + store_words(width, base.0, 9, off),
        IrNode::LoadImm64 { dst, imm } => load_imm64_words(dst.0, imm),
        IrNode::Branch { cond, .. } => branch_words(cond),
        IrNode::Jump { .. } => seq![b_imm(0)],
        IrNode::Call { .. } => seq![blr(9)],
        IrNode::Ret => seq![mov_x_reg(0, 7), ret()],
        IrNode::Spill { reg, slot } => seq![str_x_imm(reg.0, 31, slot.offset)],
        IrNode::Fill { reg, slot } => seq![ldr_x_imm(reg.0, 31, slot.offset)],
        IrNode::Atomic { op, base, src, off, .. } => atomic_words(op, base.0, src.0, off),
        IrNode::Endian { to_be, width, dst } => endian_words(to_be, width, dst.0),
        IrNode::Label { .. } => Seq::empty(),
        IrNode::Prologue { frame_size } => prologue_words(frame_size),
        IrNode::Epilogue { frame_size } => epilogue_words(frame_size),
    }
}

/// The branch word of a node, by its position among the node's words.
pub open spec fn node_reloc(node: IrNode) -> Option<(int, BasicBlockId, bool)> {
    match node {
        IrNode::Branch { cond, target } => Some((branch_words(cond).len() - 1, target, true)),
        IrNode::Jump { target } => Some((0, target, false)),
        _ => None,
    }
}

/// The emitter state after one node.
pub open spec fn emit_step(s: EmitState, node: IrNode) -> EmitState {
    match node {
        IrNode::Label { bb } => s.label(bb),
        _ => s.emit(node_words(node), node_reloc(node)),
    }
}

/// The emitter state after a sequence of nodes.
pub open spec fn emit_all(s: EmitState, nodes: Seq<IrNode>) -> EmitState
    decreases nodes.len(),
{
    if nodes.len() == 0 {
        s
    } else {
        emit_step(emit_all(s, nodes.drop_last()), nodes.last())
    }
}

/// Nodes the emitter takes: a label's index plus one must fit in a
/// `usize`, and a prologue's frame size must negate within an `i16`.
pub open spec fn accepts_node(node: IrNode) -> bool {
    match node {
        IrNode::Label { bb } => (bb.0 as int) < usize::MAX,
        IrNode::Prologue { frame_size } => frame_size != 0x8000,
        _ => true,
    }
}

// ---------------------------------------------------------------------------
// Relocation
// ---------------------------------------------------------------------------

/// B.cond reaches ±2^18 instructions, B ±2^25.
pub open spec fn in_branch_range(disp: int, conditional: bool) -> bool {
    if conditional {
        -0x40000 <= disp < 0x40000
    } else {
        -0x2000000 <= disp < 0x2000000
    }
}

/// A branch word with displacement `disp` (in instructions) filled in.
pub open spec fn patch_value(word: u32, disp: int, conditional: bool) -> u32 {
    if conditional {
        (word & 0xFF00001F) | (((disp as u32) & 0x7FFFF) << 5)
    } else {
        0x14000000 | ((disp as u32) & 0x03FFFFFF)
    }
}

/// Displacement from a relocation's word to its target block's start.
pub open spec fn reloc_disp(s: EmitState, r: Relocation) -> int {
    match s.label_of(r.target) {
        Some(t) => t - r.offset,
        None => 0,
    }
}

/// The relocation's target block is labelled and within branch range.
pub open spec fn reloc_resolves(s: EmitState, r: Relocation) -> bool {
    &&& s.label_of(r.target) is Some
    &&& in_branch_range(reloc_disp(s, r), r.is_conditional)
}

/// The first `n` relocations all resolve.
pub open spec fn resolves_upto(s: EmitState, n: int) -> bool {
    forall|i: int| 0 <= i < n ==> reloc_resolves(s, #[trigger] s.relocs[i])
}

/// The code words with the first `n` relocations patched, in order.
pub open spec fn patch_upto(s: EmitState, n: int) -> Seq<u32>
    decreases n,
{
    if n <= 0 {
        s.words
    } else {
        let w = patch_upto(s, n - 1);
        let r = s.relocs[n - 1];
        w.update(r.offset as int, patch_value(w[r.offset as int], reloc_disp(s, r), r.is_conditional))
    }
}

/// Size units of the dry run: one per block label plus the worst-case
/// expansion of each node.
pub open spec fn size_units(blocks: Seq<IrBasicBlock>) -> int
    decreases blocks.len(),
{
    if blocks.len() == 0 {
        0
    } else {
        size_units(blocks.drop_last()) + 1 + 8 * blocks.last().nodes@.len()
    }
}


// ---------------------------------------------------------------------------
// The emitter
// ---------------------------------------------------------------------------

impl AArch64Emitter {
    /// An empty emitter; `estimated_size` (in bytes) sizes the code buffer.
    pub fn new(estimated_size: usize) -> (r: Self)
        ensures
            r@ == EmitState::empty(),
            r@.well_formed(),
    {
        AArch64Emitter {
            code: Vec::with_capacity(estimated_size / 4),
            bb_offsets: Vec::new(),
            relocations: Vec::new(),
        }
    }

    fn emit32(&mut self, insn: u32)
        ensures
            final(self).code@ == old(self).code@.push(insn),
            final(self).bb_offsets == old(self).bb_offsets,
            final(self).relocations == old(self).relocations,
    {
        self.code.push(insn);
    }

    /// Index of the next instruction word.
    fn current_offset(&self) -> (r: usize)
        ensures
            r == self.code@.len(),
    {
        self.code.len()
    }

    fn ensure_bb_map(&mut self, bb: BasicBlockId)
        requires
            (bb.0 as int) < usize::MAX,
        ensures
            final(self).bb_offsets@ == grow_labels(old(self).bb_offsets@, bb.0 as int),
            final(self).code == old(self).code,
            final(self).relocations == old(self).relocations,
    {
        let idx = bb.0 as usize;
        if self.bb_offsets.len() <= idx {
            let ghost before = self.bb_offsets@;
            self.bb_offsets.resize(idx + 1, None);
            proof {
                let g = grow_labels(before, idx as int);
                assert forall|i: int| 0 <= i < self.bb_offsets@.len() implies self.bb_offsets@[i]
                    == g[i] by {
                    if i < before.len() {
                        assert(self.bb_offsets@.subrange(0, before.len() as int)[i] == before[i]);
                    } else {
                        assert(cloned::<Option<usize>>(None, self.bb_offsets@[i]));
                    }
                }
                assert(self.bb_offsets@ =~= g);
            }
        }
    }

    /// MOVZ/MOVK sequence loading `imm` into `dst`: one MOVZ for the low
    /// chunk, a MOVK for each non-zero chunk up to the highest one.
    fn emit_load_imm64(&mut self, dst: PhysReg, imm: u64)
        ensures
            final(self).code@ == old(self).code@ + load_imm64_words(dst.0, imm),
            final(self).bb_offsets == old(self).bb_offsets,
            final(self).relocations == old(self).relocations,
    {
        let chunks: [u16; 4] = [
            (imm & 0xFFFF) as u16,
            ((imm >> 16) & 0xFFFF) as u16,
            ((imm >> 32) & 0xFFFF) as u16,
            ((imm >> 48) & 0xFFFF) as u16,
        ];
        assert(forall|k: int| 0 <= k < 4 ==> chunks@[k] == imm_chunk(imm, k));
        // Highest non-zero chunk, for the minimal instruction count.
        let mut top: usize = 0;
        let mut i: usize = 3;
        while i > 0
            invariant_except_break
                i <= 3,
                top == 0,
                forall|k: int| i < k < 4 ==> chunks@[k] == 0,
            ensures
                top < 4,
                forall|k: int| top < k < 4 ==> chunks@[k] == 0,
            decreases i,
        {
            if chunks[i] != 0 {
                top = i;
                break;
            }
            i = i - 1;
        }
        assert(forall|k: int| top < k < 4 ==> chunks@[k] == 0);
        let ghost start = self.code@;
        self.emit32(movz_x(dst.0, chunks[0], 0));
        let mut shift: usize = 1;
        while shift < 4
            invariant
                1 <= shift <= 4,
                top < 4,
                forall|k: int| 0 <= k < 4 ==> chunks@[k] == imm_chunk(imm, k),
                forall|k: int| top < k < 4 ==> chunks@[k] == 0,
                self.code@ == start + seq![movz_x(dst.0, imm_chunk(imm, 0), 0)] + (if shift > 1 {
                    movk_if_nonzero(dst.0, imm, 1)
                } else {
                    Seq::empty()
                }) + (if shift > 2 {
                    movk_if_nonzero(dst.0, imm, 2)
                } else {
                    Seq::empty()
                }) + (if shift > 3 {
                    movk_if_nonzero(dst.0, imm, 3)
                } else {
                    Seq::empty()
                }),
                self.bb_offsets == old(self).bb_offsets,
                self.relocations == old(self).relocations,
            decreases 4 - shift,
        {
            let chunk = chunks[shift];
            let ghost before = self.code@;
            if shift <= top {
                if chunk != 0 {
                    self.emit32(movk_x(dst.0, chunk, shift as u8));
                }
            }
            proof {
                let m = movk_if_nonzero(dst.0, imm, shift as int);
                assert(self.code@ =~= before + m);
            }
            shift = shift + 1;
        }
        assert(self.code@ =~= start + load_imm64_words(dst.0, imm));
    }

    /// Load `val` into `tmp` and return `tmp`.
    fn materialize_imm(&mut self, val: i64, tmp: PhysReg) -> (r: PhysReg)
        ensures
            r == tmp,
            final(self).code@ == old(self).code@ + load_imm64_words(tmp.0, val as u64),
            final(self).bb_offsets == old(self).bb_offsets,
            final(self).relocations == old(self).relocations,
    {
        self.emit_load_imm64(tmp, #[verifier::truncate] (val as u64));
        tmp
    }
    fn emit_alu64_node(&mut self, op: &AluOp, dst: PhysReg, src: &Operand)
        ensures
            final(self).code@ == old(self).code@ + alu64_words(*op, dst.0, *src),
            final(self).bb_offsets == old(self).bb_offsets,
            final(self).relocations == old(self).relocations,
        decreases
            match src {
                Operand::Imm(_) => 1int,
                Operand::Reg(_) => 0int,
            },
    {
        let tmp = PhysReg(9);
        let ghost start = self.code@;
        match (op, src) {
            // Register-register forms
            (AluOp::Add, Operand::Reg(rs)) => self.emit32(add_x_reg(dst.0, dst.0, rs.0)),
            (AluOp::Sub, Operand::Reg(rs)) => self.emit32(sub_x_reg(dst.0, dst.0, rs.0)),
            (AluOp::Mul, Operand::Reg(rs)) => self.emit32(mul_x(dst.0, dst.0, rs.0)),
            (AluOp::Div, Operand::Reg(rs)) => self.emit32(udiv_x(dst.0, dst.0, rs.0)),
            (AluOp::Mod, Operand::Reg(rs)) => {
                // X12 as second scratch: UDIV X12, Xd, Xs; MSUB Xd, X12, Xs, Xd
                self.emit32(udiv_x(12, dst.0, rs.0));
                self.emit32(msub_x(dst.0, 12, rs.0, dst.0));
            },
            (AluOp::Or, Operand::Reg(rs)) => self.emit32(orr_x_reg(dst.0, dst.0, rs.0)),
            (AluOp::And, Operand::Reg(rs)) => self.emit32(and_x_reg(dst.0, dst.0, rs.0)),
            (AluOp::Xor, Operand::Reg(rs)) => self.emit32(eor_x_reg(dst.0, dst.0, rs.0)),
            (AluOp::Lsh, Operand::Reg(rs)) => self.emit32(lslv_x(dst.0, dst.0, rs.0)),
            (AluOp::Rsh, Operand::Reg(rs)) => self.emit32(lsrv_x(dst.0, dst.0, rs.0)),
            (AluOp::Arsh, Operand::Reg(rs)) => self.emit32(asrv_x(dst.0, dst.0, rs.0)),
            (AluOp::Mov, Operand::Reg(rs)) => self.emit32(mov_x_reg(dst.0, rs.0)),
            (AluOp::Neg, _) => self.emit32(sub_x_reg(dst.0, 31, dst.0)),
            // Register-immediate forms
            (AluOp::Add, Operand::Imm(v)) if *v >= 0 && *v < 4096 => {
                self.emit32(add_x_imm(dst.0, dst.0, *v as u16));
            },
            (AluOp::Sub, Operand::Imm(v)) if *v >= 0 && *v < 4096 => {
                self.emit32(sub_x_imm(dst.0, dst.0, *v as u16));
            },
            (AluOp::Mov, Operand::Imm(v)) => {
                self.emit_load_imm64(dst, #[verifier::truncate] (*v as u64));
            },
            (AluOp::Lsh, Operand::Imm(v)) => {
                let shift = shift_amount(*v);
                let w = lsl_x_imm(dst.0, dst.0, shift);
                self.emit32(w);
            },
            (AluOp::Rsh, Operand::Imm(v)) => {
                let shift = shift_amount(*v);
                self.emit32(lsr_x_imm(dst.0, dst.0, shift));
            },
            (AluOp::Arsh, Operand::Imm(v)) => {
                let shift = shift_amount(*v);
                self.emit32(asr_x_imm(dst.0, dst.0, shift));
            },
            // Fallback: immediate into X9, then the register form
            (_, Operand::Imm(v)) => {
                let rs = self.materialize_imm(*v, tmp);
                self.emit_alu64_node(op, dst, &Operand::Reg(rs));
            },
        }
        assert(self.code@ =~= start + alu64_words(*op, dst.0, *src));
    }

    fn emit_alu32_node(&mut self, op: &AluOp, dst: PhysReg, src: &Operand)
        ensures
            final(self).code@ == old(self).code@ + alu32_words(*op, dst.0, *src),
            final(self).bb_offsets == old(self).bb_offsets,
            final(self).relocations == old(self).relocations,
        decreases
            match src {
                Operand::Imm(_) => 1int,
                Operand::Reg(_) => 0int,
            },
    {
        let tmp = PhysReg(9);
        let ghost start = self.code@;
        match (op, src) {
            (AluOp::Add, Operand::Reg(rs)) => self.emit32(add_w_reg(dst.0, dst.0, rs.0)),
            (AluOp::Sub, Operand::Reg(rs)) => self.emit32(sub_w_reg(dst.0, dst.0, rs.0)),
            (AluOp::Mul, Operand::Reg(rs)) => self.emit32(mul_w(dst.0, dst.0, rs.0)),
            (AluOp::Div, Operand::Reg(rs)) => self.emit32(udiv_w(dst.0, dst.0, rs.0)),
            (AluOp::Or, Operand::Reg(rs)) => self.emit32(orr_w_reg(dst.0, dst.0, rs.0)),
            (AluOp::And, Operand::Reg(rs)) => self.emit32(and_w_reg(dst.0, dst.0, rs.0)),
            (AluOp::Xor, Operand::Reg(rs)) => self.emit32(eor_w_reg(dst.0, dst.0, rs.0)),
            (AluOp::Lsh, Operand::Reg(rs)) => self.emit32(lslv_w(dst.0, dst.0, rs.0)),
            (AluOp::Rsh, Operand::Reg(rs)) => self.emit32(lsrv_w(dst.0, dst.0, rs.0)),
            (AluOp::Arsh, Operand::Reg(rs)) => self.emit32(asrv_w(dst.0, dst.0, rs.0)),
            (AluOp::Mov, Operand::Reg(rs)) => self.emit32(mov_w_reg(dst.0, rs.0)),
            (AluOp::Neg, _) => self.emit32(sub_w_reg(dst.0, 31, dst.0)),
            (AluOp::Mod, Operand::Reg(rs)) => {
                self.emit32(udiv_w(12, dst.0, rs.0));
                self.emit32(msub_w(dst.0, 12, rs.0, dst.0));
            },
            (AluOp::Mov, Operand::Imm(v)) => {
                self.emit32(movz_w(dst.0, #[verifier::truncate] (*v as u16), 0));
                let u = #[verifier::truncate] (*v as u64);
                if u > 0xFFFF {
                    self.emit32(movk_w(dst.0, #[verifier::truncate] ((u >> 16) as u16), 1));
                }
            },
            (AluOp::Add, Operand::Imm(v)) if *v >= 0 && *v < 4096 => {
                self.emit32(add_w_imm(dst.0, dst.0, *v as u16));
            },
            (AluOp::Sub, Operand::Imm(v)) if *v >= 0 && *v < 4096 => {
                self.emit32(sub_w_imm(dst.0, dst.0, *v as u16));
            },
            (_, Operand::Imm(v)) => {
                let rs = self.materialize_imm(*v, tmp);
                self.emit_alu32_node(op, dst, &Operand::Reg(rs));
            },
        }
        assert(self.code@ =~= start + alu32_words(*op, dst.0, *src));
    }

    fn emit_load_word(&mut self, width: &MemWidth, dst: u8, base: u8, off: i16)
        ensures
            final(self).code@ == old(self).code@.push(load_word(*width, dst, base, off)),
            final(self).bb_offsets == old(self).bb_offsets,
            final(self).relocations == old(self).relocations,
    {
        match width {
            MemWidth::B => self.emit32(ldrb_imm(dst, base, off)),
            MemWidth::H => self.emit32(ldrh_imm(dst, base, off)),
            MemWidth::W => self.emit32(ldr_w_imm(dst, base, off)),
            MemWidth::DW => self.emit32(ldr_x_imm(dst, base, off)),
        }
    }

    fn emit_store_word(&mut self, width: &MemWidth, base: u8, src: u8, off: i16)
        ensures
            final(self).code@ == old(self).code@.push(store_word(*width, base, src, off)),
            final(self).bb_offsets == old(self).bb_offsets,
            final(self).relocations == old(self).relocations,
    {
        match width {
            MemWidth::B => self.emit32(strb_imm(src, base, off)),
            MemWidth::H => self.emit32(strh_imm(src, base, off)),
            MemWidth::W => self.emit32(str_w_imm(src, base, off)),
            MemWidth::DW => self.emit32(str_x_imm(src, base, off)),
        }
    }

    /// The three offset forms: which one `load_words` and `store_words` use.
    fn offset_form(width: &MemWidth, off: i16) -> (r: u8)
        ensures
            r == 0 <==> scaled_fits(*width, off),
            r == 1 <==> !scaled_fits(*width, off) && -256 <= off < 256,
            r <= 2,
    {
        let size: i16 = match width {
            MemWidth::B => 1,
            MemWidth::H => 2,
            MemWidth::W => 4,
            MemWidth::DW => 8,
        };
        if off >= 0 && off % size == 0 && off / size < 4096 {
            0
        } else if off >= -256 && off < 256 {
            1
        } else {
            2
        }
    }

    fn emit_address(&mut self, base: u8, off: i16)
        ensures
            final(self).code@ == old(self).code@ + address_words(base, off),
            final(self).bb_offsets == old(self).bb_offsets,
            final(self).relocations == old(self).relocations,
    {
        let ghost start = self.code@;
        if off >= 0 {
            self.emit32(movz_x(10, off as u16, 0));
        } else {
            self.emit32(movn_x(10, !(#[verifier::truncate] (off as u16)), 0));
        }
        self.emit32(add_x_reg(10, base, 10));
        assert(self.code@ =~= start + address_words(base, off));
    }

    fn unscaled_opcode(width: &MemWidth, is_load: bool) -> (r: u32)
        ensures
            r == unscaled_base(*width, is_load),
    {
        let b: u32 = match width {
            MemWidth::B => 0x38000000,
            MemWidth::H => 0x78000000,
            MemWidth::W => 0xB8000000,
            MemWidth::DW => 0xF8000000,
        };
        if is_load {
            b | 0x00400000
        } else {
            b
        }
    }

    fn emit_load_node(&mut self, width: &MemWidth, dst: PhysReg, base: PhysReg, off: i16)
        ensures
            final(self).code@ == old(self).code@ + load_words(*width, dst.0, base.0, off),
            final(self).bb_offsets == old(self).bb_offsets,
            final(self).relocations == old(self).relocations,
    {
        let ghost start = self.code@;
        let form = Self::offset_form(width, off);
        if form == 0 {
            self.emit_load_word(width, dst.0, base.0, off);
        } else if form == 1 {
            self.emit32(ldst_unscaled(Self::unscaled_opcode(width, true), dst.0, base.0, off));
        } else {
            self.emit_address(base.0, off);
            self.emit_load_word(width, dst.0, 10, 0);
        }
        assert(self.code@ =~= start + load_words(*width, dst.0, base.0, off));
    }

    fn emit_store_node(&mut self, width: &MemWidth, base: PhysReg, src: PhysReg, off: i16)
        ensures
            final(self).code@ == old(self).code@ + store_words(*width, base.0, src.0, off),
            final(self).bb_offsets == old(self).bb_offsets,
            final(self).relocations == old(self).relocations,
    {
        let ghost start = self.code@;
        let form = Self::offset_form(width, off);
        if form == 0 {
            self.emit_store_word(width, base.0, src.0, off);
        } else if form == 1 {
            self.emit32(ldst_unscaled(Self::unscaled_opcode(width, false), src.0, base.0, off));
        } else {
            self.emit_address(base.0, off);
            self.emit_store_word(width, 10, src.0, 0);
        }
        assert(self.code@ =~= start + store_words(*width, base.0, src.0, off));
    }

    /// TST (for JSET) or CMP of two registers, 32- or 64-bit.
    fn emit_compare(&mut self, op: &JmpOp, lhs: u8, rhs: u8, is_32bit: bool)
        ensures
            final(self).code@ == old(self).code@.push(compare_word(*op, lhs, rhs, is_32bit)),
            final(self).bb_offsets == old(self).bb_offsets,
            final(self).relocations == old(self).relocations,
    {
        if *op == JmpOp::Jset {
            if is_32bit {
                self.emit32(tst_w_reg(lhs, rhs));
            } else {
                self.emit32(tst_x_reg(lhs, rhs));
            }
        } else if is_32bit {
            self.emit32(cmp_w_reg(lhs, rhs));
        } else {
            self.emit32(cmp_x_reg(lhs, rhs));
        }
    }

    fn emit_branch_node(&mut self, cond: &BranchCond, target: BasicBlockId)
        ensures
            final(self).code@ == old(self).code@ + branch_words(*cond),
            final(self).relocations@ == old(self).relocations@.push(
                Relocation {
                    offset: (old(self).code@.len() + branch_words(*cond).len() - 1) as usize,
                    target,
                    is_conditional: true,
                },
            ),
            final(self).bb_offsets == old(self).bb_offsets,
    {
        let tmp = PhysReg(9);
        let ghost start = self.code@;
        // Materialize the right-hand side if it is an immediate.
        let rhs_reg = match &cond.rhs {
            Operand::Reg(r) => *r,
            Operand::Imm(v) => {
                self.materialize_imm(*v, tmp);
                tmp
            },
        };
        self.emit_compare(&cond.op, cond.lhs.0, rhs_reg.0, cond.is_32bit);
        // B.cond with a zero displacement, patched by `finalize`.
        let cc = jmpop_to_condition_code(&cond.op);
        let reloc_offset = self.current_offset();
        self.emit32(b_cond(cc, 0));
        self.relocations.push(Relocation { offset: reloc_offset, target, is_conditional: true });
        assert(self.code@ =~= start + branch_words(*cond));
    }

    fn emit_atomic_node(
        &mut self,
        _width: &MemWidth,
        op: &AtomicOp,
        base: PhysReg,
        src: PhysReg,
        off: i16,
    )
        ensures
            final(self).code@ == old(self).code@ + atomic_words(*op, base.0, src.0, off),
            final(self).bb_offsets == old(self).bb_offsets,
            final(self).relocations == old(self).relocations,
    {
        let tmp = PhysReg(9);
        let ghost start = self.code@;
        // Address (base + off) into X9.
        if off != 0 {
            self.emit_load_imm64(tmp, #[verifier::truncate] (off as i64 as u64));
            self.emit32(add_x_reg(tmp.0, base.0, tmp.0));
        } else {
            self.emit32(mov_x_reg(tmp.0, base.0));
        }
        // DMB ISH: full barrier before and after the LSE atomic.
        self.emit32(dmb_ish());
        match op {
            AtomicOp::Add | AtomicOp::FetchAdd => self.emit32(ldadd_x(src.0, 31, tmp.0)),
            AtomicOp::Or | AtomicOp::FetchOr => self.emit32(ldset_x(src.0, 31, tmp.0)),
            AtomicOp::And | AtomicOp::FetchAnd => self.emit32(ldclr_x(src.0, 31, tmp.0)),
            AtomicOp::Xor | AtomicOp::FetchXor => self.emit32(ldeor_x(src.0, 31, tmp.0)),
            AtomicOp::Xchg => self.emit32(swp_x(src.0, 31, tmp.0)),
            // CAS: compare with X0, swap in src at [X9]
            AtomicOp::CmpXchg => self.emit32(cas_x(0, src.0, tmp.0)),
        }
        self.emit32(dmb_ish());
        assert(self.code@ =~= start + atomic_words(*op, base.0, src.0, off));
    }

    /// Little-endian hardware: only the conversion to big endian swaps.
    fn emit_endian_node(&mut self, to_be: bool, width: &EndianWidth, dst: PhysReg)
        ensures
            final(self).code@ == old(self).code@ + endian_words(to_be, *width, dst.0),
            final(self).bb_offsets == old(self).bb_offsets,
            final(self).relocations == old(self).relocations,
    {
        let ghost start = self.code@;
        if to_be {
            match width {
                EndianWidth::Bits16 => {
                    self.emit32(rev16_w(dst.0, dst.0));
                    self.emit32(and_x_imm_mask(dst.0, dst.0, 0xFFFF));
                },
                EndianWidth::Bits32 => self.emit32(rev_w(dst.0, dst.0)),
                EndianWidth::Bits64 => self.emit32(rev_x(dst.0, dst.0)),
            }
        }
        assert(self.code@ =~= start + endian_words(to_be, *width, dst.0));
    }

    /// Branch displacement (in instructions) from word `at` to word
    /// `target`, when it is within the branch's range.
    fn branch_displacement(target: usize, at: usize, conditional: bool) -> (r: Option<i32>)
        ensures
            match r {
                Some(d) => d == target - at && in_branch_range(target - at, conditional),
                None => !in_branch_range(target - at, conditional),
            },
    {
        let limit: usize = if conditional {
            0x40000
        } else {
            0x2000000
        };
        if target >= at {
            let d = target - at;
            if d < limit {
                Some(d as i32)
            } else {
                None
            }
        } else {
            let d = at - target;
            if d <= limit {
                Some(-(d as i32))
            } else {
                None
            }
        }
    }
}

/// The shift amount of an immediate shift: its low six bits.
fn shift_amount(v: i64) -> (r: u8)
    ensures
        r == (v & 63) as u8,
        r <= 63,
{
    assert(0 <= v & 63 <= 63) by (bit_vector);
    (v & 63) as u8
}

/// Map an eBPF jump to its AArch64 condition code.
fn jmpop_to_condition_code(op: &JmpOp) -> (r: u8)
    ensures
        r == cc_of(*op),
{
    match op {
        JmpOp::Jeq => CC_EQ,
        JmpOp::Jne => CC_NE,
        JmpOp::Jgt => CC_HI,  // unsigned greater than
        JmpOp::Jge => CC_HS,  // unsigned greater or equal
        JmpOp::Jlt => CC_LO,  // unsigned less than
        JmpOp::Jle => CC_LS,  // unsigned less or equal
        JmpOp::Jsgt => CC_GT,
        JmpOp::Jsge => CC_GE,
        JmpOp::Jslt => CC_LT,
        JmpOp::Jsle => CC_LE,
        JmpOp::Jset => CC_NE,
        JmpOp::Ja => CC_AL,
    }
}

/// Emitting a node keeps relocations on emitted words and labels inside
/// the code.
pub proof fn lemma_emit_step_well_formed(s: EmitState, node: IrNode)
    requires
        s.well_formed(),
    ensures
        emit_step(s, node).well_formed(),
{
    let t = emit_step(s, node);
    match node {
        IrNode::Label { bb } => {
            let g = grow_labels(s.labels, bb.0 as int);
            assert forall|i: int| 0 <= i < t.labels.len() implies match #[trigger] t.labels[i] {
                Some(o) => o <= t.words.len(),
                None => true,
            } by {
                if i != bb.0 as int && i < s.labels.len() {
                    assert(t.labels[i] == s.labels[i]);
                }
            }
        },
        _ => {
            assert(branch_words_len_pos(node));
        },
    }
}

/// A branch node's words end with the branch.
spec fn branch_words_len_pos(node: IrNode) -> bool {
    match node {
        IrNode::Branch { cond, .. } => branch_words(cond).len() >= 2,
        _ => true,
    }
}

/// Emitting `a` then `b` is emitting `a + b`.
pub proof fn lemma_emit_all_append(s: EmitState, a: Seq<IrNode>, b: Seq<IrNode>)
    ensures
        emit_all(s, a + b) == emit_all(emit_all(s, a), b),
    decreases b.len(),
{
    if b.len() == 0 {
        assert(a + b =~= a);
    } else {
        assert((a + b).drop_last() =~= a + b.drop_last());
        lemma_emit_all_append(s, a, b.drop_last());
    }
}

/// Emitting a sequence of nodes keeps the state well formed.
pub proof fn lemma_emit_all_well_formed(s: EmitState, nodes: Seq<IrNode>)
    requires
        s.well_formed(),
    ensures
        emit_all(s, nodes).well_formed(),
    decreases nodes.len(),
{
    if nodes.len() > 0 {
        lemma_emit_all_well_formed(s, nodes.drop_last());
        lemma_emit_step_well_formed(emit_all(s, nodes.drop_last()), nodes.last());
    }
}

impl CodeEmitter for AArch64Emitter {
    type Error = AArch64EmitError;

    open spec fn well_formed(&self) -> bool {
        self@.well_formed()
    }

    open spec fn accepts(node: IrNode) -> bool {
        accepts_node(node)
    }

    open spec fn program_accepted(blocks: Seq<IrBasicBlock>) -> bool {
        forall|k: int|
            0 <= k < blocks.len() ==> {
                &&& accepts_node(IrNode::Label { bb: (#[trigger] blocks[k]).id })
                &&& forall|j: int|
                    0 <= j < blocks[k].nodes@.len() ==> accepts_node(#[trigger] blocks[k].nodes@[j])
            }
    }

    open spec fn size_fits(blocks: Seq<IrBasicBlock>) -> bool {
        4 * size_units(blocks) <= usize::MAX
    }

    fn emit_node(&mut self, node: &IrNode) -> (r: Result<(), Self::Error>)
        ensures
            r is Ok,
            final(self)@ == emit_step(old(self)@, *node),
    {
        proof {
            lemma_emit_step_well_formed(self@, *node);
        }
        let ghost start = self.code@;
        match node {
            IrNode::Alu64 { op, dst, src } => self.emit_alu64_node(op, *dst, src),
            IrNode::Alu32 { op, dst, src } => self.emit_alu32_node(op, *dst, src),
            IrNode::Load { width, dst, base, off } => self.emit_load_node(width, *dst, *base, *off),
            IrNode::Store { width, base, src, off } => self.emit_store_node(
                width,
                *base,
                *src,
                *off,
            ),
            IrNode::StoreImm { width, base, off, imm } => {
                let tmp = PhysReg(9);
                self.emit_load_imm64(tmp, #[verifier::truncate] (*imm as i64 as u64));
                self.emit_store_node(width, *base, tmp, *off);
            },
            IrNode::LoadImm64 { dst, imm } => self.emit_load_imm64(*dst, *imm),
            IrNode::Branch { cond, target } => self.emit_branch_node(cond, *target),
            IrNode::Jump { target } => {
                let reloc_offset = self.current_offset();
                self.emit32(b_imm(0));  // displacement patched by `finalize`
                self.relocations.push(
                    Relocation { offset: reloc_offset, target: *target, is_conditional: false },
                );
            },
            IrNode::Call { func_id: _ } => {
                // BLR X9: the helper's address is in the scratch register.
                self.emit32(blr(9));
            },
            IrNode::Ret => {
                // eBPF R0 lives in X7; the calling convention returns in X0.
                self.emit32(mov_x_reg(0, 7));
                self.emit32(ret());
            },
            IrNode::Spill { reg, slot } => self.emit32(str_x_imm(reg.0, 31, slot.offset)),
            IrNode::Fill { reg, slot } => self.emit32(ldr_x_imm(reg.0, 31, slot.offset)),
            IrNode::Atomic { width, op, base, src, off } => self.emit_atomic_node(
                width,
                op,
                *base,
                *src,
                *off,
            ),
            IrNode::Endian { to_be, width, dst } => self.emit_endian_node(*to_be, width, *dst),
            IrNode::Label { bb } => {
                self.ensure_bb_map(*bb);
                let off = self.current_offset();
                self.bb_offsets.set(bb.0 as usize, Some(off));
            },
            IrNode::Prologue { frame_size } => {
                // STP X29, X30, [SP, #-frame_size]!; ADD X29, SP, #0
                let fs = #[verifier::truncate] (*frame_size as i16);
                assert(fs != i16::MIN) by (bit_vector)
                    requires
                        *frame_size != 0x8000u16,
                        fs == *frame_size as i16,
                ;
                self.emit32(stp_pre(29, 30, 31, -fs));
                self.emit32(add_x_imm(29, 31, 0));
                // Save the callee-saved registers in use (X19-X22, X25).
                self.emit32(stp_offset(19, 20, 31, 16));
                self.emit32(stp_offset(21, 22, 31, 32));
                self.emit32(str_x_imm(25, 31, 48));
            },
            IrNode::Epilogue { frame_size } => {
                self.emit32(ldp_offset(19, 20, 31, 16));
                self.emit32(ldp_offset(21, 22, 31, 32));
                self.emit32(ldr_x_imm(25, 31, 48));
                // LDP X29, X30, [SP], #frame_size
                self.emit32(ldp_post(29, 30, 31, #[verifier::truncate] (*frame_size as i16)));
            },
        }
        assert(self.code@ =~= start + node_words(*node));
        assert(self@ =~= emit_step(old(self)@, *node));
        Ok(())
    }

    fn emit_program(&mut self, program: &IrProgram) -> (r: Result<(), Self::Error>)
        ensures
            r is Ok,
            final(self)@ == emit_all(old(self)@, program_stream(program.blocks@)),
    {
        let ghost blocks = program.blocks@;
        let mut i: usize = 0;
        while i < program.blocks.len()
            invariant
                blocks == program.blocks@,
                i <= blocks.len(),
                Self::program_accepted(blocks),
                self.well_formed(),
                self@ == emit_all(old(self)@, program_stream(blocks.subrange(0, i as int))),
            decreases blocks.len() - i,
        {
            let block = &program.blocks[i];
            let ghost pre = program_stream(blocks.subrange(0, i as int));
            let label = IrNode::Label { bb: block.id };
            proof {
                assert(accepts_node(IrNode::Label { bb: blocks[i as int].id }));
            }
            let _ = self.emit_node(&label);
            assert(pre.push(label).drop_last() =~= pre);
            let mut j: usize = 0;
            while j < block.nodes.len()
                invariant
                    blocks == program.blocks@,
                    i < blocks.len(),
                    *block == blocks[i as int],
                    j <= block.nodes@.len(),
                    Self::program_accepted(blocks),
                    self.well_formed(),
                    self@ == emit_all(
                        old(self)@,
                        pre.push(label) + block.nodes@.subrange(0, j as int),
                    ),
                decreases block.nodes@.len() - j,
            {
                let ghost done = pre.push(label) + block.nodes@.subrange(0, j as int);
                let node = &block.nodes[j];
                proof {
                    assert(accepts_node(blocks[i as int].nodes@[j as int]));
                }
                let _ = self.emit_node(node);
                proof {
                    let next = pre.push(label) + block.nodes@.subrange(0, j + 1);
                    assert(next.drop_last() =~= done);
                    assert(next.last() == *node);
                }
                j = j + 1;
            }
            proof {
                let sub = blocks.subrange(0, i + 1);
                assert(sub.drop_last() =~= blocks.subrange(0, i as int));
                assert(sub.last() == *block);
                assert(block.nodes@.subrange(0, j as int) =~= block.nodes@);
                assert(pre + seq![label] + block.nodes@ =~= pre.push(label) + block.nodes@);
            }
            i = i + 1;
        }
        assert(blocks.subrange(0, i as int) =~= blocks);
        Ok(())
    }

    fn finalize(&mut self) -> (r: Result<Vec<u8>, Self::Error>)
        ensures
            final(self)@.labels == old(self)@.labels,
            final(self)@.relocs == old(self)@.relocs,
            match r {
                Ok(bytes) => {
                    &&& resolves_upto(old(self)@, old(self)@.relocs.len() as int)
                    &&& final(self)@.words == patch_upto(
                        old(self)@,
                        old(self)@.relocs.len() as int,
                    )
                    &&& bytes@ == words_le_bytes(final(self)@.words)
                },
                Err(e) => exists|k: int|
                    0 <= k < old(self)@.relocs.len() && resolves_upto(old(self)@, k)
                        && !reloc_resolves(old(self)@, #[trigger] old(self)@.relocs[k]) && e
                        == AArch64EmitError::RelocationOutOfRange { bb: old(self)@.relocs[k].target }
                        && final(self)@.words == patch_upto(old(self)@, k),
            },
    {
        let ghost s0 = self@;
        let mut i: usize = 0;
        while i < self.relocations.len()
            invariant
                s0 == old(self)@,
                s0.well_formed(),
                i <= s0.relocs.len(),
                self.bb_offsets@ == s0.labels,
                self.relocations@ == s0.relocs,
                self.code@ == patch_upto(s0, i as int),
                self.code@.len() == s0.words.len(),
                resolves_upto(s0, i as int),
            decreases s0.relocs.len() - i,
        {
            let reloc = self.relocations[i];
            let idx = reloc.target.0 as usize;
            let target_offset = if idx < self.bb_offsets.len() {
                match self.bb_offsets[idx] {
                    Some(o) => o,
                    None => {
                        return Err(AArch64EmitError::RelocationOutOfRange { bb: reloc.target });
                    },
                }
            } else {
                return Err(AArch64EmitError::RelocationOutOfRange { bb: reloc.target });
            };
            assert(s0.label_of(reloc.target) == Some(target_offset));
            let at = reloc.offset;
            let imm = match Self::branch_displacement(target_offset, at, reloc.is_conditional) {
                Some(d) => d,
                None => {
                    return Err(AArch64EmitError::RelocationOutOfRange { bb: reloc.target });
                },
            };
            let existing = self.code[at];
            let bits = #[verifier::truncate] (imm as u32);
            let patched = if reloc.is_conditional {
                // B.cond: 19-bit displacement at [23:5]
                (existing & 0xFF00001F) | ((bits & 0x7FFFF) << 5)
            } else {
                // B: 26-bit displacement at [25:0]
                0x14000000u32 | (bits & 0x03FFFFFF)
            };
            assert(patched == patch_value(existing, reloc_disp(s0, reloc), reloc.is_conditional));
            self.code.set(at, patched);
            i = i + 1;
        }
        Ok(words_to_bytes(&self.code))
    }

    fn calculate_size(&self, program: &IrProgram) -> (r: usize)
        ensures
            r == 4 * emit_all(EmitState::empty(), program_stream(program.blocks@)).words.len(),
    {
        // Dry run: emit into a scratch emitter and measure; patching the
        // relocations later changes no word count.
        let mut scratch = AArch64Emitter::new(0);
        let _ = scratch.emit_program(program);
        proof {
            lemma_stream_words_bound(EmitState::empty(), program.blocks@);
        }
        scratch.code.len() * 4
    }
}

/// Size units of a prefix never exceed those of the whole.
pub proof fn lemma_size_units_prefix(blocks: Seq<IrBasicBlock>, n: int)
    requires
        0 <= n <= blocks.len(),
    ensures
        0 <= size_units(blocks.subrange(0, n)) <= size_units(blocks),
    decreases blocks.len(),
{
    if n < blocks.len() {
        assert(blocks.drop_last() =~= blocks.drop_last().subrange(0, blocks.len() - 1));
        lemma_size_units_prefix(blocks.drop_last(), n);
        assert(blocks.drop_last().subrange(0, n) =~= blocks.subrange(0, n));
    } else {
        assert(blocks.subrange(0, n) =~= blocks);
        lemma_size_units_nonneg(blocks);
    }
}

pub proof fn lemma_size_units_nonneg(blocks: Seq<IrBasicBlock>)
    ensures
        size_units(blocks) >= 0,
    decreases blocks.len(),
{
    if blocks.len() > 0 {
        lemma_size_units_nonneg(blocks.drop_last());
    }
}

/// No IR node expands to more than `MAX_EXPANSION_RATIO` (8) words.
pub proof fn lemma_node_words_bound(node: IrNode)
    ensures
        node_words(node).len() <= 8,
{
}

/// Emitting a program adds at most its dry-run size units of words.
pub proof fn lemma_stream_words_bound(s: EmitState, blocks: Seq<IrBasicBlock>)
    ensures
        s.words.len() <= emit_all(s, program_stream(blocks)).words.len() <= s.words.len()
            + size_units(blocks),
    decreases blocks.len(),
{
    if blocks.len() > 0 {
        let pre = program_stream(blocks.drop_last());
        let label = IrNode::Label { bb: blocks.last().id };
        lemma_stream_words_bound(s, blocks.drop_last());
        lemma_emit_all_append(s, pre + seq![label], blocks.last().nodes@);
        lemma_emit_all_append(s, pre, seq![label]);
        let mid = emit_all(s, pre);
        assert(seq![label].drop_last() =~= Seq::<IrNode>::empty());
        assert(emit_all(mid, Seq::<IrNode>::empty()) == mid);
        assert(emit_all(mid, seq![label]) == emit_step(mid, label));
        assert(program_stream(blocks) == pre + seq![label] + blocks.last().nodes@);
        lemma_emit_all_nodes_bound(emit_all(s, pre + seq![label]), blocks.last().nodes@);
    }
}

/// Each node adds at most 8 words.
pub proof fn lemma_emit_all_nodes_bound(s: EmitState, nodes: Seq<IrNode>)
    ensures
        s.words.len() <= emit_all(s, nodes).words.len() <= s.words.len() + 8 * nodes.len(),
    decreases nodes.len(),
{
    if nodes.len() > 0 {
        lemma_emit_all_nodes_bound(s, nodes.drop_last());
        lemma_node_words_bound(nodes.last());
    }
}

/// Patching relocations never changes the number of code words.
pub proof fn lemma_patch_upto_len(s: EmitState, n: int)
    requires
        s.well_formed(),
        n <= s.relocs.len(),
    ensures
        patch_upto(s, n).len() == s.words.len(),
    decreases n,
{
    if n > 0 {
        lemma_patch_upto_len(s, n - 1);
    }
}

/// The worst-case size is an upper bound: the code a fresh emitter
/// produces for a program has at most `size_units` words.
pub proof fn lemma_dry_run_bounds_code(blocks: Seq<IrBasicBlock>)
    ensures
        4 * emit_all(EmitState::empty(), program_stream(blocks)).words.len() <= 4 * size_units(
            blocks,
        ),
{
    lemma_stream_words_bound(EmitState::empty(), blocks);
}

// ---------------------------------------------------------------------------
// Relocations of a well-formed program resolve
// ---------------------------------------------------------------------------

/// Every relocation targets a block below `nb`.
pub open spec fn relocs_below(s: EmitState, nb: int) -> bool {
    forall|i: int| 0 <= i < s.relocs.len() ==> ((#[trigger] s.relocs[i]).target.0 as int) < nb
}

/// Emitting label-free nodes whose targets are below `nb` keeps the label
/// table, keeps the relocations below `nb`, and only adds words.
proof fn lemma_emit_nodes_targets(s: EmitState, nodes: Seq<IrNode>, nb: int)
    requires
        relocs_below(s, nb),
        forall|j: int|
            0 <= j < nodes.len() ==> !(#[trigger] nodes[j] is Label) && match node_target(nodes[j]) {
                Some(t) => (t.0 as int) < nb,
                None => true,
            },
    ensures
        emit_all(s, nodes).labels == s.labels,
        relocs_below(emit_all(s, nodes), nb),
        emit_all(s, nodes).words.len() >= s.words.len(),
    decreases nodes.len(),
{
    if nodes.len() > 0 {
        let init = nodes.drop_last();
        assert forall|j: int| 0 <= j < init.len() implies !(#[trigger] init[j] is Label) && match node_target(
            init[j],
        ) {
            Some(t) => (t.0 as int) < nb,
            None => true,
        } by {
            assert(init[j] == nodes[j]);
        }
        lemma_emit_nodes_targets(s, init, nb);
        let last = nodes.last();
        assert(!(last is Label));
        assert(match node_target(last) {
            Some(t) => (t.0 as int) < nb,
            None => true,
        });
    }
}

/// After the first `j` blocks of a closed program, blocks `0..j` are
/// labelled inside the code and every relocation targets a block.
proof fn lemma_stream_labels(blocks: Seq<IrBasicBlock>, j: int)
    requires
        blocks_closed(blocks),
        blocks.len() <= u32::MAX,
        0 <= j <= blocks.len(),
    ensures
        ({
            let s = emit_all(EmitState::empty(), program_stream(blocks.subrange(0, j)));
            &&& s.labels.len() == j
            &&& forall|i: int|
                0 <= i < j ==> ((#[trigger] s.labels[i]) matches Some(pos) && pos <= s.words.len())
            &&& relocs_below(s, blocks.len() as int)
        }),
    decreases j,
{
    let nb = blocks.len() as int;
    if j == 0 {
        assert(blocks.subrange(0, 0) =~= Seq::<IrBasicBlock>::empty());
    } else {
        lemma_stream_labels(blocks, j - 1);
        let sub = blocks.subrange(0, j);
        assert(sub.drop_last() =~= blocks.subrange(0, j - 1));
        assert(sub.last() == blocks[j - 1]);
        let pre = program_stream(blocks.subrange(0, j - 1));
        let b = blocks[j - 1];
        let label = IrNode::Label { bb: b.id };
        let e = EmitState::empty();
        assert(program_stream(sub) == pre + seq![label] + b.nodes@);
        lemma_emit_all_append(e, pre + seq![label], b.nodes@);
        lemma_emit_all_append(e, pre, seq![label]);
        let mid = emit_all(e, pre);
        assert(seq![label].drop_last() =~= Seq::<IrNode>::empty());
        assert(emit_all(mid, Seq::<IrNode>::empty()) == mid);
        assert(emit_all(mid, seq![label]) == emit_step(mid, label));
        let after = emit_step(mid, label);
        assert(b.id == BasicBlockId((j - 1) as u32));
        assert(after.labels =~= mid.labels.push(Some(mid.words.len() as usize)));
        assert forall|jj: int| 0 <= jj < b.nodes@.len() implies !(#[trigger] b.nodes@[jj] is Label)
            && match node_target(b.nodes@[jj]) {
            Some(t) => (t.0 as int) < nb,
            None => true,
        } by {
            assert(b.nodes@[jj] == blocks[j - 1].nodes@[jj]);
        }
        lemma_emit_nodes_targets(after, b.nodes@, nb);
    }
}

/// In a closed program small enough for B.cond's reach, every
/// relocation resolves: `finalize` succeeds.
pub proof fn lemma_closed_program_resolves(blocks: Seq<IrBasicBlock>)
    requires
        blocks_closed(blocks),
        blocks.len() <= u32::MAX,
        size_units(blocks) < 0x40000,
    ensures
        ({
            let s = emit_all(EmitState::empty(), program_stream(blocks));
            resolves_upto(s, s.relocs.len() as int)
        }),
{
    let nb = blocks.len() as int;
    lemma_stream_labels(blocks, nb);
    assert(blocks.subrange(0, nb) =~= blocks);
    let e = EmitState::empty();
    let s = emit_all(e, program_stream(blocks));
    lemma_emit_all_well_formed(e, program_stream(blocks));
    lemma_stream_words_bound(e, blocks);
    assert forall|i: int| 0 <= i < s.relocs.len() implies reloc_resolves(s, #[trigger] s.relocs[i]) by {
        let r = s.relocs[i];
        let t = r.target.0 as int;
        assert(t < nb);
        assert(s.labels[t] matches Some(pos) && pos <= s.words.len());
        assert(r.offset < s.words.len());
    }
}

} // verus!
