//! eBPF bytecode decoder.
//!
//! Translates a slice of `RawInsn` into a sequence of typed `Insn` values.
//! This pass performs syntactic validation only; semantic verification
//! (reachability, register liveness, bounds) is done by [`crate::verify`].
//!
//! The accepted grammar is stated by `spec_decode_program`; the executable
//! decoder is a single linear scan proved equal to it.
use vstd::prelude::*;

use crate::isa::{
    alu_op_of, jmp_op_of, reg_of, width_of_code, AluOp, AtomicOp, BpfReg, EndianWidth, Insn,
    JmpOp, MemWidth, RawInsn, Source, BPF_ALU, BPF_ALU64, BPF_ATOMIC, BPF_ATOMIC_ADD,
    BPF_ATOMIC_AND, BPF_ATOMIC_CMPXCHG, BPF_ATOMIC_FETCH, BPF_ATOMIC_OR, BPF_ATOMIC_XCHG,
    BPF_ATOMIC_XOR, BPF_CALL, BPF_DW, BPF_END, BPF_EXIT, BPF_IMM, BPF_JA, BPF_JMP, BPF_JMP32,
    BPF_LD, BPF_LDX, BPF_ST, BPF_STX, BPF_X, MAX_INSNS, BPF_JEQ, BPF_JGE, BPF_JGT, BPF_JLE,
    BPF_JLT, BPF_JNE, BPF_JSET, BPF_JSGE, BPF_JSGT, BPF_JSLE, BPF_JSLT,
};
use crate::interpreter::spec_eval_jmp;

verus! {

#[derive(Debug, Clone, Copy, PartialEq, Eq, Structural)]
pub enum DecodeError {
    UnknownOpcode { pc: usize, opcode: u8 },
    InvalidRegister { pc: usize, raw: u8 },
    TruncatedWideInsn { pc: usize },
    ProgramTooLarge { count: usize },
    EmptyProgram,
    InvalidAtomicOp { pc: usize, imm: u32 },
    InvalidEndianWidth { pc: usize, imm: i32 },
}

// ---------------------------------------------------------------------------
// The grammar, as spec functions
// ---------------------------------------------------------------------------

/// A register field: R0..R10, anything larger is rejected.
pub open spec fn spec_reg(raw: u8, pc: usize) -> Result<BpfReg, DecodeError> {
    if raw <= 10 {
        Ok(reg_of(raw as int))
    } else {
        Err(DecodeError::InvalidRegister { pc, raw })
    }
}

/// The source operand: a register when the X bit is set, else the
/// sign-extended immediate.
pub open spec fn spec_source(r: RawInsn, pc: usize) -> Result<Source, DecodeError> {
    if r.opcode & BPF_X != 0 {
        match spec_reg(r.spec_src_reg(), pc) {
            Ok(s) => Ok(Source::Reg(s)),
            Err(e) => Err(e),
        }
    } else {
        Ok(Source::Imm(r.imm as i64))
    }
}

pub open spec fn unknown(r: RawInsn, pc: usize) -> DecodeError {
    DecodeError::UnknownOpcode { pc, opcode: r.opcode }
}

/// ALU / ALU64 class (including the byte-swap END operation).
pub open spec fn spec_decode_alu(r: RawInsn, pc: usize, is_64: bool) -> Result<Insn, DecodeError> {
    match spec_reg(r.spec_dst_reg(), pc) {
        Err(e) => Err(e),
        Ok(dst) => if r.opcode & 0xf0 == BPF_END {
            let to_be = (r.opcode & BPF_X) != 0;
            if r.imm == 16 {
                Ok(Insn::Endian { to_be, width: EndianWidth::Bits16, dst })
            } else if r.imm == 32 {
                Ok(Insn::Endian { to_be, width: EndianWidth::Bits32, dst })
            } else if r.imm == 64 {
                Ok(Insn::Endian { to_be, width: EndianWidth::Bits64, dst })
            } else {
                Err(DecodeError::InvalidEndianWidth { pc, imm: r.imm })
            }
        } else {
            match alu_op_of(r.opcode) {
                None => Err(unknown(r, pc)),
                Some(op) => match spec_source(r, pc) {
                    Err(e) => Err(e),
                    Ok(src) => if is_64 {
                        Ok(Insn::Alu64 { op, dst, src })
                    } else {
                        Ok(Insn::Alu32 { op, dst, src })
                    },
                },
            }
        },
    }
}

/// JMP class: JA, CALL, EXIT, or a conditional jump.
pub open spec fn spec_decode_jmp(r: RawInsn, pc: usize) -> Result<Insn, DecodeError> {
    let h = r.opcode & 0xf0;
    if h == BPF_JA {
        Ok(Insn::Ja { off: r.off })
    } else if h == BPF_CALL {
        Ok(Insn::Call { func_id: r.imm as u32 })
    } else if h == BPF_EXIT {
        Ok(Insn::Exit)
    } else {
        match jmp_op_of(r.opcode) {
            None => Err(unknown(r, pc)),
            Some(op) => match spec_reg(r.spec_dst_reg(), pc) {
                Err(e) => Err(e),
                Ok(dst) => match spec_source(r, pc) {
                    Err(e) => Err(e),
                    Ok(src) => Ok(Insn::JmpCond { op, dst, src, off: r.off }),
                },
            },
        }
    }
}

/// JMP32 class: conditional jumps on 32-bit operands.
pub open spec fn spec_decode_jmp32(r: RawInsn, pc: usize) -> Result<Insn, DecodeError> {
    match jmp_op_of(r.opcode) {
        None => Err(unknown(r, pc)),
        Some(op) => match spec_reg(r.spec_dst_reg(), pc) {
            Err(e) => Err(e),
            Ok(dst) => match spec_source(r, pc) {
                Err(e) => Err(e),
                Ok(src) => Ok(Insn::JmpCond32 { op, dst, src, off: r.off }),
            },
        },
    }
}

/// LDX class: register load.
pub open spec fn spec_decode_ldx(r: RawInsn, pc: usize) -> Result<Insn, DecodeError> {
    match spec_reg(r.spec_dst_reg(), pc) {
        Err(e) => Err(e),
        Ok(dst) => match spec_reg(r.spec_src_reg(), pc) {
            Err(e) => Err(e),
            Ok(src) => Ok(Insn::Load { width: width_of_code(r.opcode), dst, src, off: r.off }),
        },
    }
}

/// The atomic operation selected by an immediate.
pub open spec fn spec_decode_atomic_op(imm: u32, pc: usize) -> Result<AtomicOp, DecodeError> {
    let fetch = imm & BPF_ATOMIC_FETCH != 0;
    let base = imm & !BPF_ATOMIC_FETCH;
    if base == BPF_ATOMIC_ADD {
        Ok(if fetch { AtomicOp::FetchAdd } else { AtomicOp::Add })
    } else if base == BPF_ATOMIC_OR {
        Ok(if fetch { AtomicOp::FetchOr } else { AtomicOp::Or })
    } else if base == BPF_ATOMIC_AND {
        Ok(if fetch { AtomicOp::FetchAnd } else { AtomicOp::And })
    } else if base == BPF_ATOMIC_XOR {
        Ok(if fetch { AtomicOp::FetchXor } else { AtomicOp::Xor })
    } else if imm == BPF_ATOMIC_XCHG {
        Ok(AtomicOp::Xchg)
    } else if imm == BPF_ATOMIC_CMPXCHG {
        Ok(AtomicOp::CmpXchg)
    } else {
        Err(DecodeError::InvalidAtomicOp { pc, imm })
    }
}

/// STX class: register store, or atomic operation in ATOMIC mode.
pub open spec fn spec_decode_stx(r: RawInsn, pc: usize) -> Result<Insn, DecodeError> {
    let width = width_of_code(r.opcode);
    match spec_reg(r.spec_dst_reg(), pc) {
        Err(e) => Err(e),
        Ok(dst) => match spec_reg(r.spec_src_reg(), pc) {
            Err(e) => Err(e),
            Ok(src) => if r.opcode & 0xe0 == BPF_ATOMIC {
                match spec_decode_atomic_op(r.imm as u32, pc) {
                    Err(e) => Err(e),
                    Ok(op) => Ok(Insn::Atomic { width, op, dst, src, off: r.off }),
                }
            } else {
                Ok(Insn::StoreReg { width, dst, src, off: r.off })
            },
        },
    }
}

/// ST class: immediate store.
pub open spec fn spec_decode_st(r: RawInsn, pc: usize) -> Result<Insn, DecodeError> {
    match spec_reg(r.spec_dst_reg(), pc) {
        Err(e) => Err(e),
        Ok(dst) => Ok(
            Insn::StoreImm { width: width_of_code(r.opcode), dst, off: r.off, imm: r.imm },
        ),
    }
}

/// The 64-bit immediate of an LDDW pair: low word from the first slot,
/// high word from the second.
pub open spec fn wide_imm(lo: i32, hi: i32) -> u64 {
    (lo as u32 + 0x1_0000_0000 * (hi as u32)) as u64
}

/// Is the slot an LDDW (LD class, IMM mode, DW size)?
pub open spec fn is_lddw(r: RawInsn) -> bool {
    r.spec_insn_class() == BPF_LD && r.opcode & 0xe0 == BPF_IMM && r.opcode & 0x18 == BPF_DW
}

/// A one-slot instruction's decoding, with its width.
pub open spec fn one(res: Result<Insn, DecodeError>) -> Result<(Insn, int), DecodeError> {
    match res {
        Ok(i) => Ok((i, 1int)),
        Err(e) => Err(e),
    }
}

/// Decode the instruction starting at slot `pc`, with the number of slots
/// it occupies.
pub open spec fn spec_decode_at(raw: Seq<RawInsn>, pc: int) -> Result<(Insn, int), DecodeError> {
    let r = raw[pc];
    let upc = pc as usize;
    let class = r.spec_insn_class();
    if class == BPF_ALU64 {
        one(spec_decode_alu(r, upc, true))
    } else if class == BPF_ALU {
        one(spec_decode_alu(r, upc, false))
    } else if class == BPF_JMP {
        one(spec_decode_jmp(r, upc))
    } else if class == BPF_JMP32 {
        one(spec_decode_jmp32(r, upc))
    } else if class == BPF_LDX {
        one(spec_decode_ldx(r, upc))
    } else if class == BPF_STX {
        one(spec_decode_stx(r, upc))
    } else if class == BPF_ST {
        one(spec_decode_st(r, upc))
    } else if is_lddw(r) {
        if pc + 1 >= raw.len() {
            Err(DecodeError::TruncatedWideInsn { pc: upc })
        } else {
            match spec_reg(r.spec_dst_reg(), upc) {
                Err(e) => Err(e),
                Ok(dst) => Ok((Insn::LoadImm64 { dst, imm: wide_imm(r.imm, raw[pc + 1].imm) }, 2int)),
            }
        }
    } else {
        Err(unknown(r, upc))
    }
}

/// Decode all slots from `pc` to the end.
pub open spec fn spec_decode_from(raw: Seq<RawInsn>, pc: int) -> Result<Seq<Insn>, DecodeError>
    decreases raw.len() - pc,
{
    if pc < 0 || pc >= raw.len() {
        Ok(Seq::empty())
    } else {
        match spec_decode_at(raw, pc) {
            Err(e) => Err(e),
            Ok((insn, w)) => if w <= 0 {
                Ok(Seq::empty())
            } else {
                match spec_decode_from(raw, pc + w) {
                    Err(e) => Err(e),
                    Ok(rest) => Ok(seq![insn] + rest),
                }
            },
        }
    }
}

/// The decoder's result on a whole program: the first error in slot order,
/// or every instruction in order.
pub open spec fn spec_decode_program(raw: Seq<RawInsn>) -> Result<Seq<Insn>, DecodeError> {
    if raw.len() == 0 {
        Err(DecodeError::EmptyProgram)
    } else if raw.len() > MAX_INSNS {
        Err(DecodeError::ProgramTooLarge { count: raw.len() as usize })
    } else {
        spec_decode_from(raw, 0)
    }
}

// ---------------------------------------------------------------------------
// Executable decoder
// ---------------------------------------------------------------------------

/// Decode a slice of raw eBPF instructions into typed instructions.
///
/// Wide instructions (LDDW) consume two slots; the returned Vec may
/// be shorter than the input slice.
pub fn decode_program(raw: &[RawInsn]) -> (res: Result<Vec<Insn>, DecodeError>)
    ensures
        match (res, spec_decode_program(raw@)) {
            (Ok(v), Ok(s)) => v@ == s,
            (Err(e1), Err(e2)) => e1 == e2,
            _ => false,
        },
        res matches Ok(v) ==> 0 < v@.len() <= raw@.len() <= MAX_INSNS,
{
    if raw.len() == 0 {
        return Err(DecodeError::EmptyProgram);
    }
    if raw.len() > MAX_INSNS {
        return Err(DecodeError::ProgramTooLarge { count: raw.len() });
    }
    let mut insns: Vec<Insn> = Vec::with_capacity(raw.len());
    let mut pc: usize = 0;
    proof {
        lemma_decode_from_len(raw@, 0);
    }
    while pc < raw.len()
        invariant
            0 <= pc <= raw@.len(),
            raw@.len() <= MAX_INSNS,
            insns@.len() <= pc,
            pc > 0 ==> insns@.len() > 0,
            spec_decode_from(raw@, 0) == match spec_decode_from(raw@, pc as int) {
                Ok(rest) => Ok(insns@ + rest),
                Err(e) => Err::<Seq<Insn>, DecodeError>(e),
            },
        decreases raw@.len() - pc,
    {
        let r = &raw[pc];
        let class = r.insn_class();
        let insn;
        if class == BPF_ALU64 {
            insn = decode_alu(r, pc, true)?;
        } else if class == BPF_ALU {
            insn = decode_alu(r, pc, false)?;
        } else if class == BPF_JMP {
            insn = decode_jmp(r, pc)?;
        } else if class == BPF_JMP32 {
            insn = decode_jmp32(r, pc)?;
        } else if class == BPF_LDX {
            insn = decode_ldx(r, pc)?;
        } else if class == BPF_STX {
            insn = decode_stx(r, pc)?;
        } else if class == BPF_ST {
            insn = decode_st(r, pc)?;
        } else if class == BPF_LD {
            let mode = r.opcode & 0xe0;
            if mode == BPF_IMM && (r.opcode & 0x18) == BPF_DW {
                if pc + 1 >= raw.len() {
                    return Err(DecodeError::TruncatedWideInsn { pc });
                }
                let next = &raw[pc + 1];
                let lo: u32 = #[verifier::truncate] (r.imm as u32);
                let hi: u32 = #[verifier::truncate] (next.imm as u32);
                let imm_lo = lo as u64;
                let imm_hi = (hi as u64) << 32;
                let imm = imm_lo | imm_hi;
                assert(imm as int == lo + 0x1_0000_0000 * hi) by (bit_vector)
                    requires
                        imm == (lo as u64) | ((hi as u64) << 32),
                ;
                let dst = reg(r.dst_reg(), pc)?;
                let ghost prev = insns@;
                let ghost new_insn = Insn::LoadImm64 { dst, imm };
                insns.push(Insn::LoadImm64 { dst, imm });
                proof {
                    assert(spec_decode_at(raw@, pc as int) == Ok::<(Insn, int), DecodeError>((new_insn, 2)));
                    lemma_accumulate(raw@, pc as int, prev, new_insn, 2);
                }
                pc += 2;
                continue;
            }
            return Err(DecodeError::UnknownOpcode { pc, opcode: r.opcode });
        } else {
            return Err(DecodeError::UnknownOpcode { pc, opcode: r.opcode });
        }
        let ghost prev = insns@;
        insns.push(insn);
        proof {
            assert(spec_decode_at(raw@, pc as int) == Ok::<(Insn, int), DecodeError>((insn, 1)));
            lemma_accumulate(raw@, pc as int, prev, insn, 1);
        }
        pc += 1;
    }
    proof {
        assert(insns@ + Seq::<Insn>::empty() =~= insns@);
    }
    Ok(insns)
}

/// One step of the decoding accumulator: appending the instruction at `pc`
/// to the prefix decoded so far keeps the whole-program result unchanged.
proof fn lemma_accumulate(raw: Seq<RawInsn>, pc: int, prev: Seq<Insn>, insn: Insn, w: int)
    requires
        0 <= pc < raw.len(),
        w > 0,
        spec_decode_at(raw, pc) == Ok::<(Insn, int), DecodeError>((insn, w)),
    ensures
        match spec_decode_from(raw, pc) {
            Ok(rest) => Ok::<Seq<Insn>, DecodeError>(prev + rest),
            Err(e) => Err::<Seq<Insn>, DecodeError>(e),
        } == match spec_decode_from(raw, pc + w) {
            Ok(rest) => Ok::<Seq<Insn>, DecodeError>(prev.push(insn) + rest),
            Err(e) => Err::<Seq<Insn>, DecodeError>(e),
        },
{
    match spec_decode_from(raw, pc + w) {
        Ok(rest) => {
            assert(prev + (seq![insn] + rest) =~= prev.push(insn) + rest);
        },
        Err(e) => {},
    }
}

/// Every decoded program is no longer than its input: each instruction
/// occupies at least one slot.
proof fn lemma_decode_from_len(raw: Seq<RawInsn>, pc: int)
    requires
        0 <= pc <= raw.len(),
    ensures
        spec_decode_from(raw, pc) matches Ok(s) ==> s.len() <= raw.len() - pc,
        spec_decode_from(raw, pc) matches Ok(s) ==> (pc < raw.len() ==> s.len() > 0),
    decreases raw.len() - pc,
{
    if pc < raw.len() {
        match spec_decode_at(raw, pc) {
            Err(_) => {},
            Ok((insn, w)) => {
                if w > 0 && pc + w <= raw.len() {
                    lemma_decode_from_len(raw, pc + w);
                }
            },
        }
    }
}

fn reg(raw: u8, pc: usize) -> (r: Result<BpfReg, DecodeError>)
    ensures
        r == spec_reg(raw, pc),
{
    match BpfReg::from_raw(raw) {
        Some(x) => Ok(x),
        None => Err(DecodeError::InvalidRegister { pc, raw }),
    }
}

fn source(r: &RawInsn, pc: usize) -> (res: Result<Source, DecodeError>)
    ensures
        res == spec_source(*r, pc),
{
    if r.opcode & BPF_X != 0 {
        Ok(Source::Reg(reg(r.src_reg(), pc)?))
    } else {
        Ok(Source::Imm(r.imm as i64))
    }
}

fn decode_alu(r: &RawInsn, pc: usize, is_64: bool) -> (res: Result<Insn, DecodeError>)
    ensures
        res == spec_decode_alu(*r, pc, is_64),
{
    let op_bits = r.opcode & 0xf0;
    let dst = reg(r.dst_reg(), pc)?;
    if op_bits == BPF_END {
        let to_be = (r.opcode & BPF_X) != 0;
        let width = if r.imm == 16 {
            EndianWidth::Bits16
        } else if r.imm == 32 {
            EndianWidth::Bits32
        } else if r.imm == 64 {
            EndianWidth::Bits64
        } else {
            return Err(DecodeError::InvalidEndianWidth { pc, imm: r.imm });
        };
        return Ok(Insn::Endian { to_be, width, dst });
    }
    let op = match AluOp::from_opcode_bits(r.opcode) {
        Some(op) => op,
        None => return Err(DecodeError::UnknownOpcode { pc, opcode: r.opcode }),
    };
    let src = source(r, pc)?;
    if is_64 {
        Ok(Insn::Alu64 { op, dst, src })
    } else {
        Ok(Insn::Alu32 { op, dst, src })
    }
}

fn decode_jmp(r: &RawInsn, pc: usize) -> (res: Result<Insn, DecodeError>)
    ensures
        res == spec_decode_jmp(*r, pc),
{
    let op_bits = r.opcode & 0xf0;
    if op_bits == BPF_JA {
        Ok(Insn::Ja { off: r.off })
    } else if op_bits == BPF_CALL {
        Ok(Insn::Call { func_id: r.imm as u32 })
    } else if op_bits == BPF_EXIT {
        Ok(Insn::Exit)
    } else {
        let op = match JmpOp::from_opcode_bits(r.opcode) {
            Some(op) => op,
            None => return Err(DecodeError::UnknownOpcode { pc, opcode: r.opcode }),
        };
        let dst = reg(r.dst_reg(), pc)?;
        let src = source(r, pc)?;
        Ok(Insn::JmpCond { op, dst, src, off: r.off })
    }
}

fn decode_jmp32(r: &RawInsn, pc: usize) -> (res: Result<Insn, DecodeError>)
    ensures
        res == spec_decode_jmp32(*r, pc),
{
    let op = match JmpOp::from_opcode_bits(r.opcode) {
        Some(op) => op,
        None => return Err(DecodeError::UnknownOpcode { pc, opcode: r.opcode }),
    };
    let dst = reg(r.dst_reg(), pc)?;
    let src = source(r, pc)?;
    Ok(Insn::JmpCond32 { op, dst, src, off: r.off })
}

fn width(r: &RawInsn) -> (w: MemWidth)
    ensures
        w == width_of_code(r.opcode),
{
    match MemWidth::from_size_code(r.opcode) {
        Some(w) => w,
        None => MemWidth::DW,
    }
}

fn decode_ldx(r: &RawInsn, pc: usize) -> (res: Result<Insn, DecodeError>)
    ensures
        res == spec_decode_ldx(*r, pc),
{
    let width = width(r);
    let dst = reg(r.dst_reg(), pc)?;
    let src = reg(r.src_reg(), pc)?;
    Ok(Insn::Load { width, dst, src, off: r.off })
}

fn decode_stx(r: &RawInsn, pc: usize) -> (res: Result<Insn, DecodeError>)
    ensures
        res == spec_decode_stx(*r, pc),
{
    let mode = r.opcode & 0xe0;
    let width = width(r);
    let dst = reg(r.dst_reg(), pc)?;
    let src = reg(r.src_reg(), pc)?;
    if mode == BPF_ATOMIC {
        let atomic_op = decode_atomic_op(r.imm as u32, pc)?;
        Ok(Insn::Atomic { width, op: atomic_op, dst, src, off: r.off })
    } else {
        Ok(Insn::StoreReg { width, dst, src, off: r.off })
    }
}

fn decode_st(r: &RawInsn, pc: usize) -> (res: Result<Insn, DecodeError>)
    ensures
        res == spec_decode_st(*r, pc),
{
    let width = width(r);
    let dst = reg(r.dst_reg(), pc)?;
    Ok(Insn::StoreImm { width, dst, off: r.off, imm: r.imm })
}

fn decode_atomic_op(imm: u32, pc: usize) -> (res: Result<AtomicOp, DecodeError>)
    ensures
        res == spec_decode_atomic_op(imm, pc),
{
    let fetch = imm & BPF_ATOMIC_FETCH != 0;
    let base = imm & !BPF_ATOMIC_FETCH;
    if base == BPF_ATOMIC_ADD {
        Ok(if fetch { AtomicOp::FetchAdd } else { AtomicOp::Add })
    } else if base == BPF_ATOMIC_OR {
        Ok(if fetch { AtomicOp::FetchOr } else { AtomicOp::Or })
    } else if base == BPF_ATOMIC_AND {
        Ok(if fetch { AtomicOp::FetchAnd } else { AtomicOp::And })
    } else if base == BPF_ATOMIC_XOR {
        Ok(if fetch { AtomicOp::FetchXor } else { AtomicOp::Xor })
    } else if imm == BPF_ATOMIC_XCHG {
        Ok(AtomicOp::Xchg)
    } else if imm == BPF_ATOMIC_CMPXCHG {
        Ok(AtomicOp::CmpXchg)
    } else {
        Err(DecodeError::InvalidAtomicOp { pc, imm })
    }
}

/// The decoder never produces a tail call: from slot `pc` on, none of the
/// decoded instructions is one.
proof fn lemma_decode_from_no_tail_call(raw: Seq<RawInsn>, pc: int)
    requires
        spec_decode_from(raw, pc) is Ok,
    ensures
        forall|i: int|
            0 <= i < spec_decode_from(raw, pc)->Ok_0.len() ==> !(
            #[trigger] spec_decode_from(raw, pc)->Ok_0[i] is TailCall),
    decreases raw.len() - pc,
{
    if 0 <= pc < raw.len() {
        match spec_decode_at(raw, pc) {
            Err(_) => {},
            Ok((insn, w)) => {
                if w > 0 {
                    lemma_decode_from_no_tail_call(raw, pc + w);
                    let rest = spec_decode_from(raw, pc + w)->Ok_0;
                    assert(!(insn is TailCall));
                    assert forall|i: int| 0 <= i < rest.len() + 1 implies !(#[trigger] (seq![insn]
                        + rest)[i] is TailCall) by {
                        if i > 0 {
                            assert((seq![insn] + rest)[i] == rest[i - 1]);
                        }
                    }
                }
            },
        }
    }
}

/// A decoded program holds no tail call, and no more instructions than
/// slots.
pub proof fn lemma_decoded_no_tail_call(raw: Seq<RawInsn>)
    requires
        spec_decode_program(raw) is Ok,
    ensures
        forall|i: int|
            0 <= i < spec_decode_program(raw)->Ok_0.len() ==> !(
            #[trigger] spec_decode_program(raw)->Ok_0[i] is TailCall),
        spec_decode_program(raw)->Ok_0.len() <= raw.len() <= MAX_INSNS,
{
    lemma_decode_from_no_tail_call(raw, 0);
    lemma_decode_from_len(raw, 0);
}

/// The jump a JMP opcode names is the one the eBPF instruction set gives
/// its operation bits (`bits & 0xf0`): for every pair of operands, the
/// decoded operation compares them as the ISA says (JEQ equal, JGT/JGE/
/// JLT/JLE unsigned, JSGT/JSGE/JSLT/JSLE signed, JSET a common bit, JNE
/// different).
pub proof fn lemma_jump_opcodes(bits: u8, a: u64, b: u64)
    ensures
        bits & 0xf0 == BPF_JEQ ==> jmp_op_of(bits) is Some && spec_eval_jmp(
            jmp_op_of(bits)->0,
            a,
            b,
        ) == (a == b),
        bits & 0xf0 == BPF_JNE ==> jmp_op_of(bits) is Some && spec_eval_jmp(
            jmp_op_of(bits)->0,
            a,
            b,
        ) == (a != b),
        bits & 0xf0 == BPF_JGT ==> jmp_op_of(bits) is Some && spec_eval_jmp(
            jmp_op_of(bits)->0,
            a,
            b,
        ) == (a > b),
        bits & 0xf0 == BPF_JGE ==> jmp_op_of(bits) is Some && spec_eval_jmp(
            jmp_op_of(bits)->0,
            a,
            b,
        ) == (a >= b),
        bits & 0xf0 == BPF_JLT ==> jmp_op_of(bits) is Some && spec_eval_jmp(
            jmp_op_of(bits)->0,
            a,
            b,
        ) == (a < b),
        bits & 0xf0 == BPF_JLE ==> jmp_op_of(bits) is Some && spec_eval_jmp(
            jmp_op_of(bits)->0,
            a,
            b,
        ) == (a <= b),
        bits & 0xf0 == BPF_JSGT ==> jmp_op_of(bits) is Some && spec_eval_jmp(
            jmp_op_of(bits)->0,
            a,
            b,
        ) == ((a as i64) > (b as i64)),
        bits & 0xf0 == BPF_JSGE ==> jmp_op_of(bits) is Some && spec_eval_jmp(
            jmp_op_of(bits)->0,
            a,
            b,
        ) == ((a as i64) >= (b as i64)),
        bits & 0xf0 == BPF_JSLT ==> jmp_op_of(bits) is Some && spec_eval_jmp(
            jmp_op_of(bits)->0,
            a,
            b,
        ) == ((a as i64) < (b as i64)),
        bits & 0xf0 == BPF_JSLE ==> jmp_op_of(bits) is Some && spec_eval_jmp(
            jmp_op_of(bits)->0,
            a,
            b,
        ) == ((a as i64) <= (b as i64)),
        bits & 0xf0 == BPF_JSET ==> jmp_op_of(bits) is Some && spec_eval_jmp(
            jmp_op_of(bits)->0,
            a,
            b,
        ) == ((a & b) != 0),
        bits & 0xf0 == BPF_JA ==> jmp_op_of(bits) == Some(JmpOp::Ja),
{
}

} // verus!
