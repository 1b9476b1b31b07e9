//! Reference interpreter for eBPF programs, the oracle of differential
//! testing against the JIT output.
//!
//! Two things the interpreter observes come from the machine it runs on:
//! the address of its stack buffer (memory accesses are taken relative to
//! it) and the host byte order (for conversions to little endian). The
//! semantics below is stated for every value of both. `run` first points
//! R10, the frame pointer, at the top of the stack buffer, and keeps the
//! buffer in place and the byte order fixed for the whole run (`run_from`,
//! `one_order`).
use vstd::prelude::*;

use crate::isa::{AluOp, BpfReg, EndianWidth, Insn, JmpOp, MemWidth, Source, NUM_REGS, STACK_SIZE};

verus! {

// ---------------------------------------------------------------------------
// Operation semantics
// ---------------------------------------------------------------------------

/// 64-bit ALU semantics: wrapping arithmetic, division by zero gives 0,
/// modulo by zero keeps the dividend, shift amounts taken mod 64.
pub open spec fn spec_eval_alu64(op: AluOp, dst: u64, src: u64) -> u64 {
    match op {
        AluOp::Add => ((dst + src) % 0x1_0000_0000_0000_0000) as u64,
        AluOp::Sub => ((dst - src) % 0x1_0000_0000_0000_0000) as u64,
        AluOp::Mul => ((dst as nat * src as nat) % 0x1_0000_0000_0000_0000) as u64,
        AluOp::Div => if src == 0 {
            0
        } else {
            dst / src
        },
        AluOp::Mod => if src == 0 {
            dst
        } else {
            dst % src
        },
        AluOp::Or => dst | src,
        AluOp::And => dst & src,
        AluOp::Xor => dst ^ src,
        AluOp::Lsh => dst << (src & 63),
        AluOp::Rsh => dst >> (src & 63),
        AluOp::Arsh => ((dst as i64) >> (src & 63)) as u64,
        AluOp::Mov => src,
        AluOp::Neg => ((0 - dst) % 0x1_0000_0000_0000_0000) as u64,
    }
}

/// 32-bit ALU semantics, shift amounts taken mod 32.
pub open spec fn spec_eval_alu32(op: AluOp, dst: u32, src: u32) -> u32 {
    match op {
        AluOp::Add => ((dst + src) % 0x1_0000_0000) as u32,
        AluOp::Sub => ((dst - src) % 0x1_0000_0000) as u32,
        AluOp::Mul => ((dst as nat * src as nat) % 0x1_0000_0000) as u32,
        AluOp::Div => if src == 0 {
            0
        } else {
            dst / src
        },
        AluOp::Mod => if src == 0 {
            dst
        } else {
            dst % src
        },
        AluOp::Or => dst | src,
        AluOp::And => dst & src,
        AluOp::Xor => dst ^ src,
        AluOp::Lsh => dst << (src & 31),
        AluOp::Rsh => dst >> (src & 31),
        AluOp::Arsh => ((dst as i32) >> (src & 31)) as u32,
        AluOp::Mov => src,
        AluOp::Neg => ((0 - dst) % 0x1_0000_0000) as u32,
    }
}

/// Branch conditions: unsigned and signed comparisons, bit test.
pub open spec fn spec_eval_jmp(op: JmpOp, a: u64, b: u64) -> bool {
    match op {
        JmpOp::Jeq => a == b,
        JmpOp::Jne => a != b,
        JmpOp::Jgt => a > b,
        JmpOp::Jge => a >= b,
        JmpOp::Jlt => a < b,
        JmpOp::Jle => a <= b,
        JmpOp::Jsgt => (a as i64) > (b as i64),
        JmpOp::Jsge => (a as i64) >= (b as i64),
        JmpOp::Jslt => (a as i64) < (b as i64),
        JmpOp::Jsle => (a as i64) <= (b as i64),
        JmpOp::Jset => (a & b) != 0,
        JmpOp::Ja => true,
    }
}

/// Byte `i` (little-endian numbering) of `v`.
pub open spec fn byte_of(v: u64, i: int) -> u8 {
    ((v >> (8 * i) as u64) & 0xff) as u8
}

pub open spec fn spec_bswap16(x: u16) -> u16 {
    ((x & 0xff) << 8) | (x >> 8)
}

pub open spec fn spec_bswap32(x: u32) -> u32 {
    ((x & 0xff) << 24) | ((x & 0xff00) << 8) | ((x >> 8) & 0xff00) | (x >> 24)
}

pub open spec fn spec_bswap64(x: u64) -> u64 {
    ((x & 0xff) << 56) | ((x & 0xff00) << 40) | ((x & 0xff0000) << 24) | ((x & 0xff000000) << 8)
        | ((x >> 8) & 0xff000000) | ((x >> 24) & 0xff0000) | ((x >> 40) & 0xff00) | (x >> 56)
}

/// Byte-swap semantics: to big endian reverses the bytes of the low
/// `width` bits; to little endian keeps them on a little-endian host
/// (`le`) and reverses them on a big-endian one.
pub open spec fn spec_eval_endian(to_be: bool, width: EndianWidth, val: u64, le: bool) -> u64 {
    let swap = to_be || !le;
    match width {
        EndianWidth::Bits16 => if swap {
            spec_bswap16(val as u16) as u64
        } else {
            val as u16 as u64
        },
        EndianWidth::Bits32 => if swap {
            spec_bswap32(val as u32) as u64
        } else {
            val as u32 as u64
        },
        EndianWidth::Bits64 => if swap {
            spec_bswap64(val)
        } else {
            val
        },
    }
}

/// Little-endian load of `width` bytes at `offset`; 0 when out of range.
pub open spec fn spec_read_stack(stack: Seq<u8>, offset: int, width: MemWidth) -> u64 {
    let o = offset;
    if offset + width.spec_byte_len() > STACK_SIZE {
        0
    } else {
        match width {
            MemWidth::B => stack[o] as u64,
            MemWidth::H => (stack[o] + 0x100 * stack[o + 1]) as u64,
            MemWidth::W => (stack[o] + 0x100 * stack[o + 1] + 0x10000 * stack[o + 2] + 0x1000000
                * stack[o + 3]) as u64,
            MemWidth::DW => (stack[o] + 0x100 * stack[o + 1] + 0x10000 * stack[o + 2] + 0x1000000
                * stack[o + 3] + 0x1_0000_0000 * stack[o + 4] + 0x100_0000_0000 * stack[o + 5]
                + 0x1_0000_0000_0000 * stack[o + 6] + 0x100_0000_0000_0000 * stack[o + 7]) as u64,
        }
    }
}

/// Little-endian store of the low `width` bytes of `val` at `offset`;
/// nothing when out of range.
pub open spec fn spec_write_stack(stack: Seq<u8>, offset: int, width: MemWidth, val: u64) -> Seq<u8> {
    if offset + width.spec_byte_len() > STACK_SIZE {
        stack
    } else {
        Seq::new(
            stack.len(),
            |j: int|
                if offset <= j < offset + width.spec_byte_len() {
                    byte_of(val, j - offset)
                } else {
                    stack[j]
                },
        )
    }
}

// ---------------------------------------------------------------------------
// Machine state and one step
// ---------------------------------------------------------------------------

/// The abstract machine: registers, stack bytes, pc and halt flag.
pub struct MachineState {
    pub regs: Seq<u64>,
    pub stack: Seq<u8>,
    pub pc: usize,
    pub halted: bool,
}

pub struct InterpreterState {
    pub regs: [u64; NUM_REGS],
    pub stack: [u8; STACK_SIZE],
    pub pc: usize,
    pub halted: bool,
}

impl View for InterpreterState {
    type V = MachineState;

    open spec fn view(&self) -> MachineState {
        MachineState { regs: self.regs@, stack: self.stack@, pc: self.pc, halted: self.halted }
    }
}

pub open spec fn reg_val(s: MachineState, r: BpfReg) -> u64 {
    s.regs[r.spec_index() as int]
}

pub open spec fn src_val(s: MachineState, src: Source) -> u64 {
    match src {
        Source::Imm(v) => v as u64,
        Source::Reg(r) => reg_val(s, r),
    }
}

/// The address of a memory operand: base register plus offset, computed
/// in `i64` with wrapping (as a release build of the arithmetic does), as
/// an address.
pub open spec fn mem_addr(base: u64, off: i16) -> usize {
    let v = (base as i64) + off;
    let w: i64 = if v > i64::MAX {
        (v - 0x1_0000_0000_0000_0000) as i64
    } else if v < i64::MIN {
        (v + 0x1_0000_0000_0000_0000) as i64
    } else {
        v as i64
    };
    w as usize
}

pub open spec fn wrap_sub(a: usize, b: usize) -> usize {
    if a >= b {
        (a - b) as usize
    } else {
        (a - b + usize::MAX + 1) as usize
    }
}

/// Offset of an operand address into the stack buffer at `stack_addr`.
pub open spec fn stack_rel(base: u64, off: i16, stack_addr: usize) -> usize {
    wrap_sub(mem_addr(base, off), stack_addr)
}

/// The pc after a taken jump.
/// The low 32 bits of `x`, sign-extended to 64: a 32-bit comparison
/// compares these, signed or unsigned, as 64-bit values.
pub open spec fn sext32(x: u64) -> u64 {
    x as u32 as i32 as i64 as u64
}

fn sign_extend32(x: u64) -> (r: u64)
    ensures
        r == sext32(x),
{
    #[verifier::truncate] ((#[verifier::truncate] ((#[verifier::truncate] (x as u32)) as i32)) as i64 as u64)
}

pub open spec fn jump_pc(pc: usize, off: i16) -> usize {
    (pc + 1 + off) as usize
}

pub open spec fn with_reg(s: MachineState, r: BpfReg, v: u64) -> MachineState {
    MachineState { regs: s.regs.update(r.spec_index() as int, v), pc: (s.pc + 1) as usize, ..s }
}

pub open spec fn next_pc(s: MachineState) -> MachineState {
    MachineState { pc: (s.pc + 1) as usize, ..s }
}

/// Execute one instruction with the stack buffer at `stack_addr` on a host
/// of byte order `le`: the next state, and whether execution continues.
pub open spec fn spec_step(s: MachineState, insns: Seq<Insn>, stack_addr: usize, le: bool) -> (
    MachineState,
    bool,
) {
    if s.halted || s.pc >= insns.len() {
        (s, false)
    } else {
        match insns[s.pc as int] {
            Insn::Alu64 { op, dst, src } => (
                with_reg(s, dst, spec_eval_alu64(op, reg_val(s, dst), src_val(s, src))),
                true,
            ),
            Insn::Alu32 { op, dst, src } => (
                with_reg(
                    s,
                    dst,
                    spec_eval_alu32(op, reg_val(s, dst) as u32, src_val(s, src) as u32) as u64,
                ),
                true,
            ),
            Insn::LoadImm64 { dst, imm } => (with_reg(s, dst, imm), true),
            Insn::Load { width, dst, src, off } => (
                with_reg(
                    s,
                    dst,
                    spec_read_stack(s.stack, stack_rel(reg_val(s, src), off, stack_addr) as int, width),
                ),
                true,
            ),
            Insn::StoreReg { width, dst, src, off } => (
                MachineState {
                    stack: spec_write_stack(
                        s.stack,
                        stack_rel(reg_val(s, dst), off, stack_addr) as int,
                        width,
                        reg_val(s, src),
                    ),
                    ..next_pc(s)
                },
                true,
            ),
            Insn::StoreImm { width, dst, off, imm } => (
                MachineState {
                    stack: spec_write_stack(
                        s.stack,
                        stack_rel(reg_val(s, dst), off, stack_addr) as int,
                        width,
                        imm as u64,
                    ),
                    ..next_pc(s)
                },
                true,
            ),
            Insn::Ja { off } => (MachineState { pc: jump_pc(s.pc, off), ..s }, true),
            Insn::JmpCond { op, dst, src, off } => (
                if spec_eval_jmp(op, reg_val(s, dst), src_val(s, src)) {
                    MachineState { pc: jump_pc(s.pc, off), ..s }
                } else {
                    next_pc(s)
                },
                true,
            ),
            Insn::JmpCond32 { op, dst, src, off } => (
                if spec_eval_jmp(op, sext32(reg_val(s, dst)), sext32(src_val(s, src))) {
                    MachineState { pc: jump_pc(s.pc, off), ..s }
                } else {
                    next_pc(s)
                },
                true,
            ),
            // Helper calls are stubs: R0 = 0.
            Insn::Call { .. } => (with_reg(s, BpfReg::R0, 0), true),
            Insn::Exit | Insn::TailCall => (MachineState { halted: true, ..s }, false),
            // Atomics are no-ops in the interpreter.
            Insn::Atomic { .. } => (next_pc(s), true),
            Insn::Endian { to_be, width, dst } => (
                with_reg(s, dst, spec_eval_endian(to_be, width, reg_val(s, dst), le)),
                true,
            ),
        }
    }
}

/// A stack access whose buffer offset plus width overflows `usize`.
pub open spec fn access_panics(base: u64, off: i16, width: MemWidth, stack_addr: usize) -> bool {
    stack_rel(base, off, stack_addr) + width.spec_byte_len() > usize::MAX
}

/// The inputs on which one step overflows: negating the most negative
/// value, or an out-of-range address computation.
pub open spec fn step_panics(s: MachineState, insns: Seq<Insn>, stack_addr: usize) -> bool {
    &&& !s.halted
    &&& s.pc < insns.len()
    &&& match insns[s.pc as int] {
        Insn::Alu64 { op, dst, .. } => op == AluOp::Neg && reg_val(s, dst) == 0x8000_0000_0000_0000,
        Insn::Alu32 { op, dst, .. } => op == AluOp::Neg && reg_val(s, dst) as u32 == 0x8000_0000,
        Insn::Load { width, src, off, .. } => access_panics(reg_val(s, src), off, width, stack_addr),
        Insn::StoreReg { width, dst, off, .. } => access_panics(
            reg_val(s, dst),
            off,
            width,
            stack_addr,
        ),
        Insn::StoreImm { width, dst, off, .. } => access_panics(
            reg_val(s, dst),
            off,
            width,
            stack_addr,
        ),
        _ => false,
    }
}

/// A stack address an allocation can have: non-null, and its
/// one-past-the-end address is representable.
pub open spec fn valid_stack_addr(a: usize) -> bool {
    0 < a && a + STACK_SIZE <= usize::MAX
}

/// One step panics for no valid stack address.
pub open spec fn step_safe(s: MachineState, insns: Seq<Insn>) -> bool {
    forall|a: usize| valid_stack_addr(a) ==> !#[trigger] step_panics(s, insns, a)
}

/// Run the steps given by an environment trace: one (stack address, host
/// byte order) pair per step.
pub open spec fn spec_run(s: MachineState, insns: Seq<Insn>, env: Seq<(usize, bool)>) -> MachineState
    decreases env.len(),
{
    if env.len() == 0 {
        s
    } else {
        spec_step(spec_run(s, insns, env.drop_last()), insns, env.last().0, env.last().1).0
    }
}


pub open spec fn stopped(s: MachineState, insns: Seq<Insn>) -> bool {
    s.halted || s.pc >= insns.len()
}


/// The frame pointer for a stack buffer at `a`: the address just past its
/// top, where the 512-byte frame ends.
pub open spec fn frame_top(a: usize) -> u64 {
    (a + STACK_SIZE) as u64
}

/// `s` with R10 pointing at the top of the stack buffer at `a`.
pub open spec fn with_frame(s: MachineState, a: usize) -> MachineState {
    MachineState { regs: s.regs.update(BpfReg::R10.spec_index() as int, frame_top(a)), ..s }
}

/// The environment of a run on one machine: the stack buffer stays at `a`,
/// with one byte order observation per step.
pub open spec fn const_env(a: usize, les: Seq<bool>) -> Seq<(usize, bool)> {
    Seq::new(les.len(), |i: int| (a, les[i]))
}

/// A run sees one byte order: the host's, the same at every step.
pub open spec fn one_order(les: Seq<bool>) -> bool {
    forall|k: int, j: int| 0 <= k < les.len() && 0 <= j < les.len() ==> les[k] == les[j]
}

/// Converting to little endian keeps the low bits on a little-endian host
/// and swaps the bytes, as converting to big endian does, on a big-endian
/// one.
pub proof fn lemma_endian_by_host(width: EndianWidth, val: u64, le: bool)
    ensures
        spec_eval_endian(false, width, val, true) == match width {
            EndianWidth::Bits16 => val % 0x1_0000,
            EndianWidth::Bits32 => val % 0x1_0000_0000,
            EndianWidth::Bits64 => val,
        },
        spec_eval_endian(false, width, val, false) == spec_eval_endian(true, width, val, le),
{
    assert((val as u16) as u64 == val % 0x1_0000 && (val as u32) as u64 == val % 0x1_0000_0000)
        by (bit_vector);
}

/// The state after the steps of `les` of a run of `insns` from `s`, with
/// the stack buffer at `a` and R10 set to its top first, as `run` does.
pub open spec fn run_from(s: MachineState, insns: Seq<Insn>, a: usize, les: Seq<bool>) -> MachineState {
    spec_run(with_frame(s, a), insns, const_env(a, les))
}

/// No step of a run of fewer than `n` steps from `s`, with the stack buffer
/// at `a` and R10 at its top, panics.
pub open spec fn run_safe_at(s: MachineState, insns: Seq<Insn>, a: usize, n: nat) -> bool {
    forall|les: Seq<bool>|
        les.len() < n ==> !#[trigger] step_panics(run_from(s, insns, a, les), insns, a)
}

pub open spec fn initial_state() -> MachineState {
    MachineState {
        regs: Seq::new(NUM_REGS as nat, |i: int| 0u64),
        stack: Seq::new(STACK_SIZE as nat, |i: int| 0u8),
        pc: 0,
        halted: false,
    }
}

// ---------------------------------------------------------------------------
// Machine-dependent observations
// ---------------------------------------------------------------------------

/// Address of the interpreter's stack buffer, from `<[u8]>::as_ptr`. The
/// allocator chooses it; Rust guarantees that a reference is non-null and
/// that an object and its one-past-the-end address never wrap around the
/// address space, which is all this states.
#[verifier::external_body]
fn stack_address(stack: &[u8; STACK_SIZE]) -> (r: usize)
    ensures
        valid_stack_addr(r),
{
    stack.as_ptr() as usize
}

/// `u16::to_le`: the identity on a little-endian host, a byte swap on a
/// big-endian one. Which of the two applies depends on the machine, so only
/// the disjunction is stated.
#[verifier::external_body]
fn u16_to_le(x: u16) -> (r: u16)
    ensures
        r == x || r == spec_bswap16(x),
{
    x.to_le()
}

/// `u32::to_le`: the identity on a little-endian host, a byte swap on a
/// big-endian one; only the disjunction is stated.
#[verifier::external_body]
fn u32_to_le(x: u32) -> (r: u32)
    ensures
        r == x || r == spec_bswap32(x),
{
    x.to_le()
}

/// `u64::to_le`: the identity on a little-endian host, a byte swap on a
/// big-endian one; only the disjunction is stated.
#[verifier::external_body]
fn u64_to_le(x: u64) -> (r: u64)
    ensures
        r == x || r == spec_bswap64(x),
{
    x.to_le()
}

// ---------------------------------------------------------------------------
// Executable semantics
// ---------------------------------------------------------------------------

fn eval_alu64(op: &AluOp, dst: u64, src: u64) -> (r: u64)
    requires
        !(*op == AluOp::Neg && dst == 0x8000_0000_0000_0000),
    ensures
        r == spec_eval_alu64(*op, dst, src),
{
    let sh = src & 63;
    assert(sh < 64) by (bit_vector)
        requires
            sh == src & 63,
    ;
    match op {
        AluOp::Add => dst.wrapping_add(src),
        AluOp::Sub => dst.wrapping_sub(src),
        AluOp::Mul => dst.wrapping_mul(src),
        AluOp::Div => if src == 0 {
            0
        } else {
            dst / src
        },
        AluOp::Mod => if src == 0 {
            dst
        } else {
            dst % src
        },
        AluOp::Or => dst | src,
        AluOp::And => dst & src,
        AluOp::Xor => dst ^ src,
        AluOp::Lsh => dst << sh,
        AluOp::Rsh => dst >> sh,
        AluOp::Arsh => #[verifier::truncate] ((#[verifier::truncate] (dst as i64) >> sh) as u64),
        AluOp::Mov => src,
        AluOp::Neg => {
            let d = #[verifier::truncate] (dst as i64);
            assert(d != i64::MIN) by (bit_vector)
                requires
                    dst != 0x8000_0000_0000_0000u64,
                    d == dst as i64,
            ;
            let r = #[verifier::truncate] ((-d) as u64);
            assert(r as int == (0 - dst) % 0x1_0000_0000_0000_0000) by (bit_vector)
                requires
                    d == dst as i64,
                    d != i64::MIN,
                    r == (-d) as u64,
            ;
            r
        },
    }
}

fn eval_alu32(op: &AluOp, dst: u32, src: u32) -> (r: u32)
    requires
        !(*op == AluOp::Neg && dst == 0x8000_0000),
    ensures
        r == spec_eval_alu32(*op, dst, src),
{
    let sh = src & 31;
    assert(sh < 32) by (bit_vector)
        requires
            sh == src & 31,
    ;
    match op {
        AluOp::Add => dst.wrapping_add(src),
        AluOp::Sub => dst.wrapping_sub(src),
        AluOp::Mul => dst.wrapping_mul(src),
        AluOp::Div => if src == 0 {
            0
        } else {
            dst / src
        },
        AluOp::Mod => if src == 0 {
            dst
        } else {
            dst % src
        },
        AluOp::Or => dst | src,
        AluOp::And => dst & src,
        AluOp::Xor => dst ^ src,
        AluOp::Lsh => dst << sh,
        AluOp::Rsh => dst >> sh,
        AluOp::Arsh => #[verifier::truncate] ((#[verifier::truncate] (dst as i32) >> sh) as u32),
        AluOp::Mov => src,
        AluOp::Neg => {
            let d = #[verifier::truncate] (dst as i32);
            assert(d != i32::MIN) by (bit_vector)
                requires
                    dst != 0x8000_0000u32,
                    d == dst as i32,
            ;
            let r = #[verifier::truncate] ((-d) as u32);
            assert(r as int == (0 - dst) % 0x1_0000_0000) by (bit_vector)
                requires
                    d == dst as i32,
                    d != i32::MIN,
                    r == (-d) as u32,
            ;
            r
        },
    }
}

fn eval_jmp(op: &JmpOp, a: u64, b: u64) -> (r: bool)
    ensures
        r == spec_eval_jmp(*op, a, b),
{
    match op {
        JmpOp::Jeq => a == b,
        JmpOp::Jne => a != b,
        JmpOp::Jgt => a > b,
        JmpOp::Jge => a >= b,
        JmpOp::Jlt => a < b,
        JmpOp::Jle => a <= b,
        JmpOp::Jsgt => (a as i64) > (b as i64),
        JmpOp::Jsge => (a as i64) >= (b as i64),
        JmpOp::Jslt => (a as i64) < (b as i64),
        JmpOp::Jsle => (a as i64) <= (b as i64),
        JmpOp::Jset => (a & b) != 0,
        JmpOp::Ja => true,
    }
}

fn swap16(x: u16) -> (r: u16)
    ensures
        r == spec_bswap16(x),
{
    ((x & 0xff) << 8) | (x >> 8)
}

fn swap32(x: u32) -> (r: u32)
    ensures
        r == spec_bswap32(x),
{
    ((x & 0xff) << 24) | ((x & 0xff00) << 8) | ((x >> 8) & 0xff00) | (x >> 24)
}

fn swap64(x: u64) -> (r: u64)
    ensures
        r == spec_bswap64(x),
{
    ((x & 0xff) << 56) | ((x & 0xff00) << 40) | ((x & 0xff0000) << 24) | ((x & 0xff000000) << 8)
        | ((x >> 8) & 0xff000000) | ((x >> 24) & 0xff0000) | ((x >> 40) & 0xff00) | (x >> 56)
}

/// The host's byte order, read off `to_le`: little endian exactly when the
/// conversion to little endian leaves a value as it is, at each width.
fn host_little_endian() -> (r: bool) {
    u16_to_le(1) == 1 && u32_to_le(1) == 1 && u64_to_le(1) == 1
}

/// Byte-swap semantics on a host of byte order `le`: to big endian swaps,
/// to little endian swaps on a big-endian host only.
fn eval_endian(to_be: bool, width: &EndianWidth, val: u64, le: bool) -> (r: u64)
    ensures
        r == spec_eval_endian(to_be, *width, val, le),
{
    let swap = to_be || !le;
    match width {
        EndianWidth::Bits16 => {
            let x = #[verifier::truncate] (val as u16);
            if swap {
                swap16(x) as u64
            } else {
                x as u64
            }
        },
        EndianWidth::Bits32 => {
            let x = #[verifier::truncate] (val as u32);
            if swap {
                swap32(x) as u64
            } else {
                x as u64
            }
        },
        EndianWidth::Bits64 => {
            if swap {
                swap64(val)
            } else {
                val
            }
        },
    }
}

fn read_stack(stack: &[u8; STACK_SIZE], offset: usize, width: MemWidth) -> (r: u64)
    requires
        offset + width.spec_byte_len() <= usize::MAX,
    ensures
        r == spec_read_stack(stack@, offset as int, width),
{
    if offset + width.byte_len() as usize > STACK_SIZE {
        return 0;
    }
    let o = offset;
    match width {
        MemWidth::B => stack[o] as u64,
        MemWidth::H => {
            let b0 = stack[o];
            let b1 = stack[o + 1];
            let v = (b0 as u64) | ((b1 as u64) << 8);
            assert(v as int == b0 + 0x100 * b1) by (bit_vector)
                requires
                    v == (b0 as u64) | ((b1 as u64) << 8),
            ;
            v
        },
        MemWidth::W => {
            let b0 = stack[o];
            let b1 = stack[o + 1];
            let b2 = stack[o + 2];
            let b3 = stack[o + 3];
            let v = (b0 as u64) | ((b1 as u64) << 8) | ((b2 as u64) << 16) | ((b3 as u64) << 24);
            assert(v as int == b0 + 0x100 * b1 + 0x10000 * b2 + 0x1000000 * b3) by (bit_vector)
                requires
                    v == (b0 as u64) | ((b1 as u64) << 8) | ((b2 as u64) << 16) | ((b3 as u64)
                        << 24),
            ;
            v
        },
        MemWidth::DW => {
            let b0 = stack[o];
            let b1 = stack[o + 1];
            let b2 = stack[o + 2];
            let b3 = stack[o + 3];
            let b4 = stack[o + 4];
            let b5 = stack[o + 5];
            let b6 = stack[o + 6];
            let b7 = stack[o + 7];
            let v = (b0 as u64) | ((b1 as u64) << 8) | ((b2 as u64) << 16) | ((b3 as u64) << 24)
                | ((b4 as u64) << 32) | ((b5 as u64) << 40) | ((b6 as u64) << 48) | ((b7 as u64)
                << 56);
            assert(v as int == b0 + 0x100 * b1 + 0x10000 * b2 + 0x1000000 * b3 + 0x1_0000_0000
                * b4 + 0x100_0000_0000 * b5 + 0x1_0000_0000_0000 * b6 + 0x100_0000_0000_0000 * b7)
                by (bit_vector)
                requires
                    v == (b0 as u64) | ((b1 as u64) << 8) | ((b2 as u64) << 16) | ((b3 as u64)
                        << 24) | ((b4 as u64) << 32) | ((b5 as u64) << 40) | ((b6 as u64) << 48)
                        | ((b7 as u64) << 56),
            ;
            v
        },
    }
}

fn write_stack(stack: &mut [u8; STACK_SIZE], offset: usize, width: MemWidth, val: u64)
    requires
        offset + width.spec_byte_len() <= usize::MAX,
    ensures
        final(stack)@ == spec_write_stack(old(stack)@, offset as int, width, val),
{
    if offset + width.byte_len() as usize > STACK_SIZE {
        return;
    }
    let n = width.byte_len() as usize;
    for i in 0..n
        invariant
            n == width.spec_byte_len(),
            offset + n <= STACK_SIZE,
            stack@.len() == STACK_SIZE,
            forall|j: int|
                0 <= j < STACK_SIZE ==> stack@[j] == if offset <= j < offset + i {
                    byte_of(val, j - offset)
                } else {
                    old(stack)@[j]
                },
    {
        let sh = (8 * i) as u64;
        let b = ((val >> sh) & 0xff) as u8;
        assert(b == byte_of(val, i as int));
        let ghost prev = stack@;
        stack[offset + i] = b;
        assert(stack@ =~= prev.update(offset + i, b));
    }
    assert(stack@ =~= spec_write_stack(old(stack)@, offset as int, width, val));
}

proof fn lemma_stop(s: MachineState, insns: Seq<Insn>, a: usize, le: bool)
    ensures
        !spec_step(s, insns, a, le).1 ==> stopped(spec_step(s, insns, a, le).0, insns),
{
}

/// The low `width` bytes of `v`, as a number.
pub open spec fn low_bytes(v: u64, width: MemWidth) -> u64 {
    match width {
        MemWidth::B => v % 0x100,
        MemWidth::H => v % 0x1_0000,
        MemWidth::W => v % 0x1_0000_0000,
        MemWidth::DW => v,
    }
}

/// A load from the stack gives back what a store of the same width at the
/// same offset wrote: its low `width` bytes.
pub proof fn lemma_stack_read_write(stack: Seq<u8>, o: int, width: MemWidth, val: u64)
    requires
        stack.len() == STACK_SIZE,
        0 <= o,
        o + width.spec_byte_len() <= STACK_SIZE,
    ensures
        spec_read_stack(spec_write_stack(stack, o, width, val), o, width) == low_bytes(val, width),
{
    let b0 = (val >> 0u64) & 0xff;
    let b1 = (val >> 8u64) & 0xff;
    let b2 = (val >> 16u64) & 0xff;
    let b3 = (val >> 24u64) & 0xff;
    let b4 = (val >> 32u64) & 0xff;
    let b5 = (val >> 40u64) & 0xff;
    let b6 = (val >> 48u64) & 0xff;
    let b7 = (val >> 56u64) & 0xff;
    assert({
        &&& b0 < 256 && b1 < 256 && b2 < 256 && b3 < 256
        &&& b4 < 256 && b5 < 256 && b6 < 256 && b7 < 256
        &&& b0 == val % 0x100
        &&& b0 + 0x100 * b1 == val % 0x1_0000
        &&& b0 + 0x100 * b1 + 0x1_0000 * b2 + 0x100_0000 * b3 == val % 0x1_0000_0000
        &&& b0 + 0x100 * b1 + 0x1_0000 * b2 + 0x100_0000 * b3 + 0x1_0000_0000 * b4
            + 0x100_0000_0000 * b5 + 0x1_0000_0000_0000 * b6 + 0x100_0000_0000_0000 * b7 == val
    }) by (bit_vector)
        requires
            b0 == (val >> 0u64) & 0xff,
            b1 == (val >> 8u64) & 0xff,
            b2 == (val >> 16u64) & 0xff,
            b3 == (val >> 24u64) & 0xff,
            b4 == (val >> 32u64) & 0xff,
            b5 == (val >> 40u64) & 0xff,
            b6 == (val >> 48u64) & 0xff,
            b7 == (val >> 56u64) & 0xff,
    ;
    let t = spec_write_stack(stack, o, width, val);
    let w = width.spec_byte_len() as int;
    assert(t.len() == STACK_SIZE);
    assert(byte_of(val, 0) as int == b0);
    assert(t[o] == byte_of(val, 0));
    if w >= 2 {
        assert(byte_of(val, 1) as int == b1);
        assert(t[o + 1] == byte_of(val, 1));
    }
    if w >= 4 {
        assert(byte_of(val, 2) as int == b2);
        assert(byte_of(val, 3) as int == b3);
        assert(t[o + 2] == byte_of(val, 2));
        assert(t[o + 3] == byte_of(val, 3));
    }
    if w >= 8 {
        assert(byte_of(val, 4) as int == b4);
        assert(byte_of(val, 5) as int == b5);
        assert(byte_of(val, 6) as int == b6);
        assert(byte_of(val, 7) as int == b7);
        assert(t[o + 4] == byte_of(val, 4));
        assert(t[o + 5] == byte_of(val, 5));
        assert(t[o + 6] == byte_of(val, 6));
        assert(t[o + 7] == byte_of(val, 7));
    }
}

/// With R10 at the top of a stack buffer that lies below `i64::MAX`, an
/// access at `R10 + off` for an offset inside the frame lands at byte
/// `512 + off` of the buffer.
pub proof fn lemma_frame_offset(a: usize, off: i16)
    requires
        valid_stack_addr(a),
        a + STACK_SIZE <= i64::MAX,
        -512 <= off < 0,
    ensures
        stack_rel(frame_top(a), off, a) == 512 + off,
{
    let base = frame_top(a);
    assert(base == a + 512);
    assert(base as i64 == a + 512);
    assert(mem_addr(base, off) == a + 512 + off);
}

/// Through the frame pointer: with R10 at the top of a stack buffer that
/// lies below `i64::MAX`, a load of `width` bytes at `R10 + off` inside
/// the frame gives back what a store of that width there wrote, its low
/// `width` bytes.
pub proof fn lemma_frame_store_load(stack: Seq<u8>, a: usize, off: i16, width: MemWidth, val: u64)
    requires
        valid_stack_addr(a),
        a + STACK_SIZE <= i64::MAX,
        stack.len() == STACK_SIZE,
        -512 <= off,
        off + width.spec_byte_len() <= 0,
    ensures
        ({
            let o = stack_rel(frame_top(a), off, a) as int;
            spec_read_stack(spec_write_stack(stack, o, width, val), o, width) == low_bytes(val, width)
        }),
{
    lemma_frame_offset(a, off);
    lemma_stack_read_write(stack, 512 + off, width, val);
}

impl InterpreterState {
    pub fn new() -> (r: Self)
        ensures
            r@ == initial_state(),
    {
        let r = Self { regs: [0u64; NUM_REGS], stack: [0u8; STACK_SIZE], pc: 0, halted: false };
        assert(r@.regs =~= initial_state().regs);
        assert(r@.stack =~= initial_state().stack);
        r
    }

    fn resolve_source(&self, src: &Source) -> (r: u64)
        ensures
            r == src_val(self@, *src),
    {
        match src {
            Source::Imm(v) => *v as u64,
            Source::Reg(r) => self.regs[r.index()],
        }
    }

    /// Offset into the stack buffer of the operand `base + off`.
    fn stack_offset(&self, base: BpfReg, off: i16, width: MemWidth, sa: usize) -> (r: usize)
        requires
            valid_stack_addr(sa),
            !access_panics(reg_val(self@, base), off, width, sa),
        ensures
            r == stack_rel(reg_val(self@, base), off, sa),
            r + width.spec_byte_len() <= usize::MAX,
    {
        let reg = self.regs[base.index()];
        let addr = #[verifier::truncate] ((#[verifier::truncate] (reg as i64)).wrapping_add(
            off as i64,
        ) as usize);
        let stack_base = sa + STACK_SIZE;
        let rel = addr.wrapping_sub(stack_base.wrapping_sub(STACK_SIZE));
        rel
    }

    /// Execute one instruction. Returns true if the program should continue.
    pub fn step(&mut self, insns: &[Insn]) -> (r: bool)
        requires
            insns@.len() <= isize::MAX / 2,
            step_safe(old(self)@, insns@),
        ensures
            exists|a: usize, le: bool|
                valid_stack_addr(a) && (final(self)@, r) == spec_step(old(self)@, insns@, a, le),
    {
        let sa = stack_address(&self.stack);
        let le = host_little_endian();
        assert(!step_panics(self@, insns@, sa));
        self.step_at(insns, sa, le)
    }

    /// One step with the stack buffer at `sa`.
    #[verifier::spinoff_prover]
    #[verifier::rlimit(50)]
    fn step_at(&mut self, insns: &[Insn], sa: usize, le: bool) -> (r: bool)
        requires
            insns@.len() <= isize::MAX / 2,
            valid_stack_addr(sa),
            !step_panics(old(self)@, insns@, sa),
        ensures
            (final(self)@, r) == spec_step(old(self)@, insns@, sa, le),
    {
        let ghost s0 = self@;
        if self.halted || self.pc >= insns.len() {
            assert((self@, false) == spec_step(s0, insns@, sa, le));
            return false;
        }
        let ghost wa: usize = sa;
        let ghost wle: bool = le;
        let insn = &insns[self.pc];
        match insn {
            Insn::Alu64 { op, dst, src } => {
                let s = self.resolve_source(src);
                let d = self.regs[dst.index()];
                self.regs[dst.index()] = eval_alu64(op, d, s);
                self.pc += 1;
            },
            Insn::Alu32 { op, dst, src } => {
                let s = #[verifier::truncate] (self.resolve_source(src) as u32);
                let d = #[verifier::truncate] (self.regs[dst.index()] as u32);
                self.regs[dst.index()] = eval_alu32(op, d, s) as u64;
                self.pc += 1;
            },
            Insn::LoadImm64 { dst, imm } => {
                self.regs[dst.index()] = *imm;
                self.pc += 1;
            },
            Insn::Load { width, dst, src, off } => {
                let rel = self.stack_offset(*src, *off, *width, sa);
                let val = read_stack(&self.stack, rel, *width);
                self.regs[dst.index()] = val;
                self.pc += 1;
            },
            Insn::StoreReg { width, dst, src, off } => {
                let rel = self.stack_offset(*dst, *off, *width, sa);
                let val = self.regs[src.index()];
                write_stack(&mut self.stack, rel, *width, val);
                self.pc += 1;
            },
            Insn::StoreImm { width, dst, off, imm } => {
                let rel = self.stack_offset(*dst, *off, *width, sa);
                write_stack(&mut self.stack, rel, *width, *imm as u64);
                self.pc += 1;
            },
            Insn::Ja { off } => {
                self.pc = #[verifier::truncate] ((self.pc as isize + 1 + *off as isize) as usize);
            },
            Insn::JmpCond { op, dst, src, off } => {
                let a = self.regs[dst.index()];
                let b = self.resolve_source(src);
                if eval_jmp(op, a, b) {
                    self.pc = #[verifier::truncate] ((self.pc as isize + 1 + *off as isize) as usize);
                } else {
                    self.pc += 1;
                }
            },
            Insn::JmpCond32 { op, dst, src, off } => {
                let a = sign_extend32(self.regs[dst.index()]);
                let b = sign_extend32(self.resolve_source(src));
                if eval_jmp(op, a, b) {
                    self.pc = #[verifier::truncate] ((self.pc as isize + 1 + *off as isize) as usize);
                } else {
                    self.pc += 1;
                }
            },
            Insn::Call { .. } => {
                // Helper calls are stubs that set R0 = 0.
                self.regs[BpfReg::R0.index()] = 0;
                self.pc += 1;
            },
            Insn::Exit => {
                self.halted = true;
                assert((self@, false) == spec_step(s0, insns@, wa, wle));
                return false;
            },
            Insn::TailCall => {
                self.halted = true;
                assert((self@, false) == spec_step(s0, insns@, wa, wle));
                return false;
            },
            Insn::Atomic { .. } => {
                // Atomics are no-ops in the interpreter.
                self.pc += 1;
            },
            Insn::Endian { to_be, width, dst } => {
                let val = self.regs[dst.index()];
                let v = eval_endian(*to_be, width, val, le);
                self.regs[dst.index()] = v;
                self.pc += 1;
            },
        }
        proof {
            let t = spec_step(s0, insns@, wa, wle).0;
            assert(self@.regs =~= t.regs);
            assert(self@.stack =~= t.stack);
        }
        true
    }

    /// Run until exit or until `max_steps` steps have been taken, and
    /// return R0. R10 is set first to the frame pointer, the top of the
    /// stack buffer, so that R10-relative accesses use the buffer.
    pub fn run(&mut self, insns: &[Insn], max_steps: usize) -> (r: u64)
        requires
            insns@.len() <= isize::MAX / 2,
            forall|a: usize|
                valid_stack_addr(a) ==> #[trigger] run_safe_at(
                    old(self)@,
                    insns@,
                    a,
                    max_steps as nat,
                ),
        ensures
            exists|a: usize, les: Seq<bool>|
                valid_stack_addr(a) && les.len() <= max_steps && final(self)@ == run_from(
                    old(self)@,
                    insns@,
                    a,
                    les,
                ) && (les.len() == max_steps || stopped(final(self)@, insns@)) && one_order(les),
            r == final(self)@.regs[0],
    {
        let ghost s0 = self@;
        let sa = stack_address(&self.stack);
        let le = host_little_endian();
        self.regs[10] = (sa + STACK_SIZE) as u64;
        proof {
            assert(self@.regs =~= with_frame(s0, sa).regs);
            assert(run_safe_at(s0, insns@, sa, max_steps as nat));
        }
        let ghost mut les: Seq<bool> = Seq::empty();
        assert(run_from(s0, insns@, sa, les) == with_frame(s0, sa)) by {
            assert(const_env(sa, les) =~= Seq::<(usize, bool)>::empty());
        }
        let mut i: usize = 0;
        while i < max_steps
            invariant_except_break
                i <= max_steps,
                les.len() == i,
                valid_stack_addr(sa),
                self@ == run_from(s0, insns@, sa, les),
                insns@.len() <= isize::MAX / 2,
                run_safe_at(s0, insns@, sa, max_steps as nat),
                forall|k: int| 0 <= k < les.len() ==> #[trigger] les[k] == le,
            ensures
                forall|k: int| 0 <= k < les.len() ==> #[trigger] les[k] == le,
                les.len() <= max_steps,
                valid_stack_addr(sa),
                self@ == run_from(s0, insns@, sa, les),
                les.len() == max_steps || stopped(self@, insns@),
            decreases max_steps - i,
        {
            let ghost before = self@;
            assert(!step_panics(run_from(s0, insns@, sa, les), insns@, sa));
            let cont = self.step_at(insns, sa, le);
            proof {
                let les2 = les.push(le);
                assert(const_env(sa, les2).drop_last() =~= const_env(sa, les));
                assert(const_env(sa, les2).last() == (sa, le));
                lemma_stop(before, insns@, sa, le);
                les = les2;
            }
            if !cont {
                break;
            }
            i += 1;
        }
        proof {
            assert(one_order(les)) by {
                assert forall|k: int, j: int| 0 <= k < les.len() && 0 <= j < les.len() implies les[k]
                    == les[j] by {
                    assert(les[k] == le && les[j] == le);
                }
            }
        }
        self.regs[0]
    }
}

impl Default for InterpreterState {
    fn default() -> (r: Self)
        ensures
            r@ == initial_state(),
    {
        Self::new()
    }
}

} // verus!
