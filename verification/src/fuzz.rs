//! Differential fuzzing of the JIT against the reference interpreter.
//!
//! `generate_program` builds random programs from templates: they set R0
//! and R1 first, branch only forward (so they terminate) and end with EXIT;
//! they always decode, pass the verifier (`lemma_generated_verified`), and
//! no step of them can fault the interpreter.
//! `fuzz_compile` interprets and compiles one such program, `judge`
//! compares the answer of the compiled code with the interpreter's, and
//! `fuzz_one` is an iteration for hosts that cannot run the code.
//! `Rng` is a xorshift64 generator, deterministic for a given seed.
use vstd::prelude::*;

use crate::decode::{decode_program, spec_decode_at, spec_decode_from, spec_decode_program, DecodeError};
use crate::engine::{
    compile, compiled, lemma_verified_programs_compile, sure_to_compile, JitError, JitOutput, Target,
};
use crate::interpreter::{
    initial_state, run_from, run_safe_at, spec_run, step_panics, stopped,
    valid_stack_addr, InterpreterState, MachineState,
};
use crate::verify::{
    back_edge, branch_oob, entry_mask, falls_through, has_closer_pred, init_certificate, is_succ, mask_le,
    reach_witness, spec_check_insn, verified_safe,
};
use crate::isa::{
    AluOp, BpfReg, Insn, JmpOp, Source, MAX_INSNS, NUM_REGS, RawInsn, BPF_ADD, BPF_ALU, BPF_ALU64, BPF_AND, BPF_DIV, BPF_EXIT, BPF_JEQ, BPF_JGE, BPF_JGT,
    BPF_JLE, BPF_JLT, BPF_JMP, BPF_JNE, BPF_K, BPF_LSH, BPF_MOV, BPF_MUL, BPF_OR, BPF_RSH,
    BPF_SUB, BPF_X, BPF_XOR,
};

verus! {

/// One xorshift64 step.
pub open spec fn xorshift(x: u64) -> u64 {
    let a = x ^ (x << 13u64);
    let b = a ^ (a >> 7u64);
    b ^ (b << 17u64)
}

/// For `lo > hi`: `lo` plus the drawn value modulo the span read as
/// unsigned, reinterpreted as `i64`, stays within `i64`.
pub open spec fn range_fits(lo: i64, hi: i64, x: u64) -> bool {
    i64::MIN <= lo + ((x % ((hi - lo) as u64)) as i64) <= i64::MAX
}

/// Pseudo-random number generator (xorshift64).
pub struct Rng {
    state: u64,
}

impl View for Rng {
    type V = u64;

    closed spec fn view(&self) -> u64 {
        self.state
    }
}

impl Rng {
    /// A generator seeded with `seed` (a zero seed becomes 1).
    pub fn new(seed: u64) -> (r: Self)
        ensures
            r@ == if seed == 0 {
                1
            } else {
                seed
            },
    {
        Rng {
            state: if seed == 0 {
                1
            } else {
                seed
            },
        }
    }

    /// Advance the state by one xorshift step and return it.
    pub fn next_u64(&mut self) -> (r: u64)
        ensures
            r == xorshift(old(self)@),
            final(self)@ == r,
    {
        let mut x = self.state;
        x ^= x << 13;
        x ^= x >> 7;
        x ^= x << 17;
        self.state = x;
        x
    }

    /// The low 32 bits of the next value.
    pub fn next_u32(&mut self) -> (r: u32)
        ensures
            r == xorshift(old(self)@) as u32,
            final(self)@ == xorshift(old(self)@),
    {
        #[verifier::truncate]
        (self.next_u64() as u32)
    }

    /// A value in `[lo, hi)`; `lo` itself, without drawing, when the range
    /// is empty. For `lo > hi` the span `hi - lo` is read as unsigned, as
    /// the arithmetic does; the inputs on which the sum overflows `i64` are
    /// left out.
    pub fn range(&mut self, lo: i64, hi: i64) -> (r: i64)
        requires
            i64::MIN <= hi - lo <= i64::MAX,
            lo <= hi || range_fits(lo, hi, xorshift(old(self)@)),
        ensures
            final(self)@ == if lo == hi {
                old(self)@
            } else {
                xorshift(old(self)@)
            },
            r == if lo == hi {
                lo as int
            } else if lo < hi {
                lo + (xorshift(old(self)@) as int) % ((hi - lo) as int)
            } else {
                lo + ((xorshift(old(self)@) % ((hi - lo) as u64)) as i64)
            },
            lo <= hi ==> lo <= r,
            lo < hi ==> r < hi,
    {
        let d: i64 = hi - lo;
        let span = d as u64;
        assert(span == 0 <==> d == 0) by (bit_vector)
            requires
                span == d as u64,
        ;
        if span == 0 {
            return lo;
        }
        lo + (self.next_u64() % span) as i64
    }

    /// An element of `items` chosen by the next value.
    pub fn pick<T: Copy>(&mut self, items: &[T]) -> (r: T)
        requires
            items@.len() > 0,
        ensures
            final(self)@ == xorshift(old(self)@),
            r == items@[(xorshift(old(self)@) as usize) as int % items@.len() as int],
    {
        let x = self.next_u64();
        items[(#[verifier::truncate] (x as usize)) % items.len()]
    }
}

/// A nonzero state stays nonzero: the generator never falls into the
/// all-zero fixed point.
pub proof fn lemma_xorshift_nonzero(x: u64)
    requires
        x != 0,
    ensures
        xorshift(x) != 0,
{
    assert({
        let a = x ^ (x << 13u64);
        let b = a ^ (a >> 7u64);
        b ^ (b << 17u64) != 0
    }) by (bit_vector)
        requires
            x != 0,
    ;
}

fn make_raw(opcode: u8, dst: u8, src: u8, off: i16, imm: i32) -> (r: RawInsn)
    ensures
        r == (RawInsn { opcode, regs: (src << 4u8) | dst, off, imm }),
{
    RawInsn { opcode, regs: (src << 4) | dst, off, imm }
}

/// The instruction class: the low three bits of the opcode.
pub open spec fn class_of(opcode: u8) -> u8 {
    opcode & 0x07
}

/// The instruction at `pc` is an ALU operation, or a jump that goes
/// forward and lands inside the program.
pub open spec fn forward_only(p: Seq<RawInsn>, pc: int) -> bool {
    if class_of(p[pc].opcode) == BPF_JMP {
        1 <= p[pc].off && pc + 1 + p[pc].off < p.len()
    } else {
        class_of(p[pc].opcode) == BPF_ALU64 || class_of(p[pc].opcode) == BPF_ALU
    }
}

/// The EXIT instruction.
pub open spec fn exit_insn() -> RawInsn {
    RawInsn { opcode: BPF_JMP | BPF_EXIT, regs: 0, off: 0, imm: 0 }
}

/// The shape of every generated program: R0 and R1 set by MOV64 first,
/// ALU operations and forward jumps, EXIT last.
pub open spec fn generated_shape(p: Seq<RawInsn>) -> bool {
    &&& p.len() >= 3
    &&& p[0].opcode == BPF_ALU64 | BPF_MOV | BPF_K && p[0].regs == 0
    &&& p[1].opcode == BPF_ALU64 | BPF_MOV | BPF_K && p[1].regs == 1
    &&& p[p.len() - 1] == exit_insn()
    &&& forall|pc: int| 0 <= pc < p.len() - 1 ==> #[trigger] forward_only(p, pc)
}

/// The fields the decoder reads back from an instruction built from a
/// class, an operation, a source mode and two register numbers.
proof fn lemma_raw_fields(cls: u8, op: u8, mode: u8, dst: u8, src: u8)
    requires
        cls < 8,
        op % 16 == 0,
        mode == 0 || mode == 8,
        dst < 16,
        src < 16,
    ensures
        (cls | op | mode) & 0x07 == cls,
        (cls | op | mode) & 0xf0 == op,
        (cls | op | mode) & BPF_X == mode,
        ((src << 4u8) | dst) & 0x0f == dst,
        (((src << 4u8) | dst) >> 4) & 0x0f == src,
        mode == 0 ==> cls | op == cls | op | mode,
{
    assert({
        &&& mode == 0 ==> cls | op == cls | op | mode
        &&& (cls | op | mode) & 0x07 == cls
        &&& (cls | op | mode) & 0xf0 == op
        &&& (cls | op | mode) & 0x08 == mode
        &&& ((src << 4u8) | dst) & 0x0f == dst
        &&& (((src << 4u8) | dst) >> 4) & 0x0f == src
    }) by (bit_vector)
        requires
            cls < 8,
            op % 16 == 0,
            mode == 0 || mode == 8,
            dst < 16,
            src < 16,
    ;
}

/// An ALU operation with an immediate operand that the generator emits
/// (as opcode bits).
pub open spec fn drawn_alu_imm_bits(h: u8) -> bool {
    h == BPF_ADD || h == BPF_SUB || h == BPF_MUL || h == BPF_OR || h == BPF_AND || h == BPF_XOR
        || h == BPF_LSH || h == BPF_RSH || h == BPF_MOV
}

/// An ALU operation on two registers, or a 32-bit one, that the generator
/// emits (as opcode bits).
pub open spec fn drawn_alu_bits(h: u8) -> bool {
    h == BPF_ADD || h == BPF_SUB || h == BPF_OR || h == BPF_AND || h == BPF_XOR
}

/// A conditional jump the generator emits (as opcode bits).
pub open spec fn drawn_jmp_bits(h: u8) -> bool {
    h == BPF_JEQ || h == BPF_JNE || h == BPF_JGT || h == BPF_JGE || h == BPF_JLT || h == BPF_JLE
}

/// The immediates the generator draws for a 64-bit ALU operation: a
/// multiplier in 1..9, a shift in 0..15, a moved value in 0..999, and
/// otherwise a value in -100..99.
pub open spec fn alu_imm_range(is_mul: bool, is_shift: bool, is_mov: bool, imm: int) -> bool {
    if is_mul {
        1 <= imm < 10
    } else if is_shift {
        0 <= imm < 16
    } else if is_mov {
        0 <= imm < 1000
    } else {
        -100 <= imm < 100
    }
}

/// A raw instruction of one of the generator's templates, by the fields
/// the decoder reads: 64-bit ALU with an immediate on R0-R9, 64-bit ALU
/// between R0-R4, 32-bit ALU with an immediate in -50..49 on R0-R4, or a
/// conditional jump 1..4 instructions forward comparing R0-R4 with an
/// immediate in 0..999.
pub open spec fn raw_template(r: RawInsn) -> bool {
    let cls = r.spec_insn_class();
    let h = r.opcode & 0xf0;
    let x = r.opcode & BPF_X;
    let d = r.spec_dst_reg();
    let s = r.spec_src_reg();
    ||| cls == BPF_ALU64 && x == 0 && drawn_alu_imm_bits(h) && d <= 9 && alu_imm_range(
        h == BPF_MUL,
        h == BPF_LSH || h == BPF_RSH,
        h == BPF_MOV,
        r.imm as int,
    )
    ||| cls == BPF_ALU64 && x == BPF_X && drawn_alu_bits(h) && d < 5 && s < 5
    ||| cls == BPF_ALU && x == 0 && drawn_alu_bits(h) && d < 5 && -50 <= r.imm < 50
    ||| cls == BPF_JMP && x == 0 && drawn_jmp_bits(h) && d < 5 && 1 <= r.off < 5 && 0 <= r.imm
        < 1000
}

/// A 64-bit ALU operation with an immediate that the generator emits.
pub open spec fn drawn_alu_imm(op: AluOp) -> bool {
    op == AluOp::Add || op == AluOp::Sub || op == AluOp::Mul || op == AluOp::Or || op == AluOp::And
        || op == AluOp::Xor || op == AluOp::Lsh || op == AluOp::Rsh || op == AluOp::Mov
}

/// A register-register or 32-bit ALU operation that the generator emits.
pub open spec fn drawn_alu(op: AluOp) -> bool {
    op == AluOp::Add || op == AluOp::Sub || op == AluOp::Or || op == AluOp::And || op == AluOp::Xor
}

/// A conditional jump that the generator emits.
pub open spec fn drawn_jmp(op: JmpOp) -> bool {
    op == JmpOp::Jeq || op == JmpOp::Jne || op == JmpOp::Jgt || op == JmpOp::Jge || op
        == JmpOp::Jlt || op == JmpOp::Jle
}

/// A decoded instruction of one of the generator's templates, with the
/// ranges of its immediates.
pub open spec fn template_insn(i: Insn) -> bool {
    match i {
        Insn::Alu64 { op, dst, src } => match src {
            Source::Imm(v) => drawn_alu_imm(op) && dst.spec_raw() <= 9 && alu_imm_range(
                op == AluOp::Mul,
                op == AluOp::Lsh || op == AluOp::Rsh,
                op == AluOp::Mov,
                v as int,
            ),
            Source::Reg(s) => drawn_alu(op) && dst.spec_raw() < 5 && s.spec_raw() < 5,
        },
        Insn::Alu32 { op, dst, src } => match src {
            Source::Imm(v) => drawn_alu(op) && dst.spec_raw() < 5 && -50 <= v < 50,
            Source::Reg(_) => false,
        },
        Insn::JmpCond { op, dst, src, off } => match src {
            Source::Imm(v) => drawn_jmp(op) && dst.spec_raw() < 5 && 1 <= off < 5 && 0 <= v < 1000,
            Source::Reg(_) => false,
        },
        _ => false,
    }
}

/// Instruction `pc` of a generated program: a template instruction, and a
/// jump goes forward and lands inside the program.
pub open spec fn generated_at(insns: Seq<Insn>, pc: int) -> bool {
    &&& template_insn(insns[pc])
    &&& insns[pc] matches Insn::JmpCond { off, .. } ==> 1 <= off && pc + 1 + off < insns.len()
}

/// A generated program as the decoder reads it: R0 and R1 set by MOV64
/// first, template instructions with forward jumps, and EXIT last.
pub open spec fn generated_program(insns: Seq<Insn>) -> bool {
    &&& insns.len() >= 3
    &&& (insns[0] matches Insn::Alu64 { op: AluOp::Mov, dst: BpfReg::R0, src: Source::Imm(_) })
    &&& (insns[1] matches Insn::Alu64 { op: AluOp::Mov, dst: BpfReg::R1, src: Source::Imm(_) })
    &&& insns.last() == Insn::Exit
    &&& forall|pc: int| 0 <= pc < insns.len() - 1 ==> #[trigger] generated_at(insns, pc)
}

/// A template slot decodes, on its own, to a template instruction.
proof fn lemma_template_decodes(raw: Seq<RawInsn>, pc: int)
    requires
        0 <= pc < raw.len(),
        raw_template(raw[pc]),
    ensures
        spec_decode_at(raw, pc) matches Ok((i, w)) && w == 1 && template_insn(i) && (i matches Insn::JmpCond { off, .. } ==> off == raw[pc].off && class_of(raw[pc].opcode) == BPF_JMP),
        raw[pc].spec_dst_reg() < 5 || raw[pc].opcode == BPF_ALU64 | BPF_MOV | BPF_K ==> low_or_mov(
            spec_decode_at(raw, pc)->Ok_0.0,
        ),
{
    lemma_raw_fields(BPF_ALU64, BPF_MOV, BPF_K, 0, 0);
}

/// The EXIT slot decodes to EXIT.
proof fn lemma_exit_decodes(raw: Seq<RawInsn>, pc: int)
    requires
        0 <= pc < raw.len(),
        raw[pc] == exit_insn(),
    ensures
        spec_decode_at(raw, pc) == Ok::<(Insn, int), crate::decode::DecodeError>((Insn::Exit, 1)),
{
    lemma_raw_fields(BPF_JMP, BPF_EXIT, BPF_K, 0, 0);
}

/// Slots `k..` of a generated program decode one instruction per slot.
proof fn lemma_decode_suffix(p: Seq<RawInsn>, k: int)
    requires
        0 <= k <= p.len(),
        p.len() > 0,
        p.last() == exit_insn(),
        forall|pc: int| 0 <= pc < p.len() - 1 ==> #[trigger] raw_template(p[pc]),
    ensures
        spec_decode_from(p, k) matches Ok(rest) && rest.len() == p.len() - k && forall|j: int|
            0 <= j < rest.len() ==> rest[j] == (#[trigger] spec_decode_at(p, k + j))->Ok_0.0,
    decreases p.len() - k,
{
    if k < p.len() {
        if k < p.len() - 1 {
            lemma_template_decodes(p, k);
        } else {
            lemma_exit_decodes(p, k);
        }
        lemma_decode_suffix(p, k + 1);
        let rest = spec_decode_from(p, k + 1)->Ok_0;
        let head = spec_decode_at(p, k)->Ok_0.0;
        assert(spec_decode_from(p, k) == Ok::<Seq<Insn>, crate::decode::DecodeError>(
            seq![head] + rest,
        ));
        assert forall|j: int| 0 <= j < rest.len() + 1 implies (seq![head] + rest)[j] == (
        #[trigger] spec_decode_at(p, k + j))->Ok_0.0 by {
            if j > 0 {
                assert(rest[j - 1] == spec_decode_at(p, k + 1 + (j - 1))->Ok_0.0);
                assert(k + 1 + (j - 1) == k + j);
            }
        }
    } else {
        assert(spec_decode_from(p, k) == Ok::<Seq<Insn>, crate::decode::DecodeError>(Seq::empty()));
    }
}

/// `r` is a MOV64 of an immediate into register `d`, by the fields the
/// decoder reads.
pub open spec fn mov_to(r: RawInsn, d: u8) -> bool {
    &&& r.spec_insn_class() == BPF_ALU64
    &&& r.opcode & 0xf0 == BPF_MOV
    &&& r.opcode & BPF_X == 0
    &&& r.spec_dst_reg() == d
}

/// An instruction that is not a 64-bit ALU operation with an immediate,
/// or one that writes one of R0-R4, or a MOV.
pub open spec fn low_or_mov(i: Insn) -> bool {
    match i {
        Insn::Alu64 { op, dst, src: Source::Imm(_) } => dst.spec_raw() < 5 || op == AluOp::Mov,
        _ => true,
    }
}

/// A generated program, decoded, with what its registers need: MOV64s into
/// R2, R3 and R4 after those into R0 and R1, and every other instruction
/// before EXIT writes one of R0-R4 or is a MOV.
pub open spec fn generated_valid(insns: Seq<Insn>) -> bool {
    &&& generated_program(insns)
    &&& insns.len() >= 6
    &&& (insns[2] matches Insn::Alu64 { op: AluOp::Mov, dst: BpfReg::R2, src: Source::Imm(_) })
    &&& (insns[3] matches Insn::Alu64 { op: AluOp::Mov, dst: BpfReg::R3, src: Source::Imm(_) })
    &&& (insns[4] matches Insn::Alu64 { op: AluOp::Mov, dst: BpfReg::R4, src: Source::Imm(_) })
    &&& forall|pc: int| 0 <= pc < insns.len() - 1 ==> #[trigger] low_or_mov(insns[pc])
}

/// A program of the generator's shape decodes to a generated program.
proof fn lemma_generated_decodes(p: Seq<RawInsn>)
    requires
        generated_shape(p),
        forall|pc: int| 0 <= pc < p.len() - 1 ==> #[trigger] raw_template(p[pc]),
        mov_to(p[0], 0),
        mov_to(p[1], 1),
        raw_regs_ok(p),
        p.len() <= MAX_INSNS,
    ensures
        spec_decode_program(p) matches Ok(insns) && insns.len() == p.len() && generated_program(
            insns,
        ) && generated_valid(insns),
{
    lemma_decode_suffix(p, 0);
    let insns = spec_decode_from(p, 0)->Ok_0;
    assert(spec_decode_program(p) == Ok::<Seq<Insn>, crate::decode::DecodeError>(insns));
    assert forall|pc: int| 0 <= pc < insns.len() - 1 implies #[trigger] generated_at(insns, pc) by {
        lemma_template_decodes(p, pc);
        assert(insns[pc] == spec_decode_at(p, 0 + pc)->Ok_0.0);
        assert(forward_only(p, pc));
    }
    lemma_template_decodes(p, 0);
    lemma_template_decodes(p, 1);
    assert(insns[0] == spec_decode_at(p, 0int + 0int)->Ok_0.0);
    assert(insns[1] == spec_decode_at(p, 0int + 1int)->Ok_0.0);
    lemma_exit_decodes(p, p.len() - 1);
    assert(insns[insns.len() - 1] == spec_decode_at(p, 0 + (p.len() - 1))->Ok_0.0);
    assert forall|pc: int| 0 <= pc < insns.len() - 1 implies #[trigger] low_or_mov(insns[pc]) by {
        lemma_template_decodes(p, pc);
        assert(insns[pc] == spec_decode_at(p, 0 + pc)->Ok_0.0);
        assert(p[pc].spec_dst_reg() < 5 || p[pc].opcode == BPF_ALU64 | BPF_MOV | BPF_K);
    }
    lemma_template_decodes(p, 2);
    lemma_template_decodes(p, 3);
    lemma_template_decodes(p, 4);
    assert(insns[2] == spec_decode_at(p, 0int + 2int)->Ok_0.0);
    assert(insns[3] == spec_decode_at(p, 0int + 3int)->Ok_0.0);
    assert(insns[4] == spec_decode_at(p, 0int + 4int)->Ok_0.0);
}

/// The registers of a generated program, by the fields the decoder reads:
/// MOV64s into R2, R3 and R4 right after those into R0 and R1, and every
/// other instruction before EXIT writes one of R0-R4 or is a MOV64 of an
/// immediate.
pub open spec fn raw_regs_ok(p: Seq<RawInsn>) -> bool {
    &&& p.len() >= 6
    &&& mov_to(p[2], 2) && mov_to(p[3], 3) && mov_to(p[4], 4)
    &&& forall|pc: int|
        0 <= pc < p.len() - 1 ==> (#[trigger] p[pc]).spec_dst_reg() < 5 || p[pc].opcode
            == BPF_ALU64 | BPF_MOV | BPF_K
}

/// The registers set before instruction `pc` of a generated program: R1
/// and R10 at entry, then R0 .. R4 as the first MOV64s write them.
spec fn gen_mask(pc: int) -> Seq<bool> {
    Seq::new(NUM_REGS as nat, |r: int| r == 1 || r == 10 || (r < pc && r < 5))
}

/// Generated programs are verifier-valid: every program the generator
/// draws, decoded, is one that `verify_program` accepts.
pub proof fn lemma_generated_verified(insns: Seq<Insn>)
    requires
        generated_valid(insns),
    ensures
        verified_safe(insns),
{
    let n = insns.len() as int;
    let st = Seq::new(n as nat, |pc: int| gen_mask(pc));
    assert forall|pc: int| 0 <= pc < n implies (#[trigger] st[pc]).len() == NUM_REGS
        && spec_check_insn(insns[pc], pc as usize, st[pc]) is Ok by {
        if pc < n - 1 {
            assert(generated_at(insns, pc));
            assert(low_or_mov(insns[pc]));
        }
    }
    assert forall|pc: int, q: int|
        0 <= pc < n && 0 <= q < n && #[trigger] is_succ(insns, pc, q) implies mask_le(
        st[q],
        spec_check_insn(insns[pc], pc as usize, st[pc])->Ok_0,
    ) by {
        let out = spec_check_insn(insns[pc], pc as usize, st[pc])->Ok_0;
        if pc < n - 1 {
            assert(generated_at(insns, pc));
            assert(low_or_mov(insns[pc]));
        }
        if pc < 5 {
            assert(q == pc + 1);
            assert(out =~= gen_mask(pc + 1));
        } else {
            assert(q > pc);
            assert(st[q] =~= st[pc]);
            assert forall|r: int| 0 <= r < NUM_REGS implies #[trigger] st[q][r] ==> out[r] by {}
        }
    }
    assert(st[0] =~= entry_mask());
    assert(init_certificate(insns, st));
    let rank = Seq::new(n as nat, |pc: int| pc as nat);
    assert forall|pc: int| 0 < pc < n implies #[trigger] has_closer_pred(insns, rank, pc) by {
        assert(generated_at(insns, pc - 1));
        assert(rank[pc - 1] < rank[pc] && is_succ(insns, pc - 1, pc));
    }
    assert(reach_witness(insns, rank));
    assert forall|pc: int| 0 <= pc < n implies !#[trigger] branch_oob(insns, pc) by {
        if pc < n - 1 {
            assert(generated_at(insns, pc));
        }
    }
    assert forall|pc: int| 0 <= pc < n implies !#[trigger] back_edge(insns, pc) by {
        if pc < n - 1 {
            assert(generated_at(insns, pc));
        }
    }
    assert(insns[n - 1] is Exit);
    assert(!falls_through(insns[n - 1]));
}

/// The instruction `RawInsn` for the given fields.
pub open spec fn raw_of(opcode: u8, dst: u8, src: u8, off: i16, imm: i32) -> RawInsn {
    RawInsn { opcode, regs: (src << 4u8) | dst, off, imm }
}

/// `Rng::range(lo, hi)` from state `x`: the value and the next state.
pub open spec fn draw_range(x: u64, lo: i64, hi: i64) -> (i64, u64) {
    if lo == hi {
        (lo, x)
    } else {
        ((lo + (xorshift(x) as int) % ((hi - lo) as int)) as i64, xorshift(x))
    }
}

/// `Rng::pick(items)` from state `x`: the item and the next state.
pub open spec fn draw_pick(x: u64, items: Seq<u8>) -> (u8, u64) {
    (items[(xorshift(x) as usize) as int % items.len() as int], xorshift(x))
}

/// The initializing MOV64 of register `r`, if it is drawn, and the next
/// state. R2-R4 are always initialized, so that every template operand
/// is; R5-R9 with chance one in three.
pub open spec fn spec_draw_init(x: u64, r: u8) -> (Option<RawInsn>, u64) {
    let x1 = xorshift(x);
    if r <= 4 || x1 % 3 == 0 {
        let (imm, x2) = draw_range(x1, 1, 50);
        (Some(raw_of(BPF_ALU64 | BPF_MOV | BPF_K, r, 0, 0, imm as i32)), x2)
    } else {
        (None, x1)
    }
}

/// The initializing MOVs drawn for R2 .. R(k+1), and the next state.
pub open spec fn spec_inits(x: u64, k: nat) -> (Seq<RawInsn>, u64)
    decreases k,
{
    if k == 0 {
        (Seq::empty(), x)
    } else {
        let (p, y) = spec_inits(x, (k - 1) as nat);
        let (o, z) = spec_draw_init(y, (k + 1) as u8);
        (
            match o {
                Some(i) => p.push(i),
                None => p,
            },
            z,
        )
    }
}

/// The template instruction drawn from state `x` with `space_left` slots
/// left for the body, and the next state.
pub open spec fn spec_draw_insn(x: u64, space_left: int) -> (RawInsn, u64) {
    let x1 = xorshift(x);
    let kind = x1 % 10;
    if kind <= 3 {
        let (op, x2) = draw_pick(
            x1,
            seq![BPF_ADD, BPF_SUB, BPF_MUL, BPF_OR, BPF_AND, BPF_XOR, BPF_LSH, BPF_RSH],
        );
        let (d, x3) = draw_range(x2, 0, 5);
        let (imm, x4) = if op == BPF_MUL {
            draw_range(x3, 1, 10)
        } else if op == BPF_LSH || op == BPF_RSH {
            draw_range(x3, 0, 16)
        } else if op == BPF_DIV {
            draw_range(x3, 1, 100)
        } else {
            draw_range(x3, -100i64, 100)
        };
        (raw_of(BPF_ALU64 | op | BPF_K, d as u8, 0, 0, imm as i32), x4)
    } else if kind <= 5 {
        let (op, x2) = draw_pick(x1, seq![BPF_ADD, BPF_SUB, BPF_OR, BPF_AND, BPF_XOR]);
        let (d, x3) = draw_range(x2, 0, 5);
        let (s, x4) = draw_range(x3, 0, 5);
        (raw_of(BPF_ALU64 | op | BPF_X, d as u8, s as u8, 0, 0), x4)
    } else if kind <= 7 {
        let (op, x2) = draw_pick(x1, seq![BPF_ADD, BPF_SUB, BPF_OR, BPF_AND, BPF_XOR]);
        let (d, x3) = draw_range(x2, 0, 5);
        let (imm, x4) = draw_range(x3, -50i64, 50);
        (raw_of(BPF_ALU | op | BPF_K, d as u8, 0, 0, imm as i32), x4)
    } else if kind == 8 {
        let (d, x2) = draw_range(x1, 0, 5);
        let (imm, x3) = draw_range(x2, 0, 1000);
        (raw_of(BPF_ALU64 | BPF_MOV | BPF_K, d as u8, 0, 0, imm as i32), x3)
    } else if space_left > 2 {
        let hi: i64 = if space_left - 1 < 5 {
            (space_left - 1) as i64
        } else {
            5
        };
        let (off, x2) = draw_range(x1, 1, hi);
        let (op, x3) = draw_pick(x2, seq![BPF_JEQ, BPF_JNE, BPF_JGT, BPF_JGE, BPF_JLT, BPF_JLE]);
        let (d, x4) = draw_range(x3, 0, 5);
        let (imm, x5) = draw_range(x4, 0, 1000);
        (raw_of(BPF_JMP | op | BPF_K, d as u8, 0, off as i16, imm as i32), x5)
    } else {
        let (imm, x2) = draw_range(x1, 0, 100);
        (raw_of(BPF_ALU64 | BPF_MOV | BPF_K, 0, 0, 0, imm as i32), x2)
    }
}

/// The first `n` body instructions drawn from state `x` for a body of
/// `remaining` slots, and the next state.
pub open spec fn spec_body(x: u64, remaining: int, n: nat) -> (Seq<RawInsn>, u64)
    decreases n,
{
    if n == 0 {
        (Seq::empty(), x)
    } else {
        let (p, y) = spec_body(x, remaining, (n - 1) as nat);
        let (i, z) = spec_draw_insn(y, remaining - (n - 1));
        (p.push(i), z)
    }
}

/// `a - b`, or 0 when `b > a`.
pub open spec fn sat_sub(a: int, b: int) -> int {
    if a > b {
        a - b
    } else {
        0
    }
}

/// The program `generate_program` draws from generator state `x`, and the
/// state it leaves: the length target `n`, MOV64s of R0 and R1, the
/// initializing MOVs, `n - 1` minus the prefix body instructions, and EXIT.
pub open spec fn spec_generate(x: u64, max_insns: usize) -> (Seq<RawInsn>, u64) {
    let x1 = xorshift(x);
    let m = sat_sub(max_insns as int, 2);
    let n = 2 + (x1 as usize) as int % (if m > 1 {
        m
    } else {
        1
    });
    let (imm0, x2) = draw_range(x1, 0, 1000);
    let (imm1, x3) = draw_range(x2, 1, 100);
    let (inits, x4) = spec_inits(x3, 8);
    let prefix = seq![
        raw_of(BPF_ALU64 | BPF_MOV | BPF_K, 0, 0, 0, imm0 as i32),
        raw_of(BPF_ALU64 | BPF_MOV | BPF_K, 1, 0, 0, imm1 as i32),
    ] + inits;
    let remaining = sat_sub(sat_sub(n, prefix.len() as int), 1);
    let (body, x5) = spec_body(x4, remaining, remaining as nat);
    (prefix + body + seq![raw_of(BPF_JMP | BPF_EXIT, 0, 0, 0, 0)], x5)
}

/// Draw the initializing MOV of register `r`, if any.
fn draw_init(rng: &mut Rng, r: u8) -> (res: Option<RawInsn>)
    requires
        2 <= r <= 9,
    ensures
        (res, final(rng)@) == spec_draw_init(old(rng)@, r),
        res matches Some(i) ==> raw_template(i) && class_of(i.opcode) == BPF_ALU64,
        res matches Some(i) ==> mov_to(i, r) && i.opcode == BPF_ALU64 | BPF_MOV | BPF_K,
        r <= 4 ==> res is Some,
{
    let d = rng.next_u64();
    if r <= 4 || d % 3 == 0 {
        let imm = rng.range(1, 50);
        proof {
            lemma_raw_fields(BPF_ALU64, BPF_MOV, BPF_K, r, 0);
        }
        Some(make_raw(BPF_ALU64 | BPF_MOV | BPF_K, r, 0, 0, imm as i32))
    } else {
        None
    }
}

/// Draw one body instruction with `space_left` slots left.
fn draw_insn(rng: &mut Rng, space_left: usize) -> (insn: RawInsn)
    requires
        space_left >= 1,
    ensures
        (insn, final(rng)@) == spec_draw_insn(old(rng)@, space_left as int),
        raw_template(insn),
        class_of(insn.opcode) == BPF_JMP || class_of(insn.opcode) == BPF_ALU64 || class_of(
            insn.opcode,
        ) == BPF_ALU,
        class_of(insn.opcode) == BPF_JMP ==> 1 <= insn.off && insn.off + 2 <= space_left,
        insn.spec_dst_reg() < 5,
{
    let kind = rng.next_u64() % 10;
    if kind <= 3 {
        // ALU64 reg-imm
        let alu_ops: [u8; 8] = [BPF_ADD, BPF_SUB, BPF_MUL, BPF_OR, BPF_AND, BPF_XOR, BPF_LSH, BPF_RSH];
        assert(alu_ops@ =~= seq![BPF_ADD, BPF_SUB, BPF_MUL, BPF_OR, BPF_AND, BPF_XOR, BPF_LSH, BPF_RSH]);
        let op = rng.pick(&alu_ops);
        let dst = rng.range(0, 5) as u8;  // only modify R0-R4
        let imm = if op == BPF_MUL {
            rng.range(1, 10) as i32
        } else if op == BPF_LSH || op == BPF_RSH {
            rng.range(0, 16) as i32
        } else if op == BPF_DIV {
            rng.range(1, 100) as i32  // avoid division by zero
        } else {
            rng.range(-100, 100) as i32
        };
        proof {
            lemma_raw_fields(BPF_ALU64, op, BPF_K, dst, 0);
        }
        make_raw(BPF_ALU64 | op | BPF_K, dst, 0, 0, imm)
    } else if kind <= 5 {
        // ALU64 reg-reg
        let alu_ops: [u8; 5] = [BPF_ADD, BPF_SUB, BPF_OR, BPF_AND, BPF_XOR];
        assert(alu_ops@ =~= seq![BPF_ADD, BPF_SUB, BPF_OR, BPF_AND, BPF_XOR]);
        let op = rng.pick(&alu_ops);
        let dst = rng.range(0, 5) as u8;
        let src = rng.range(0, 5) as u8;
        proof {
            lemma_raw_fields(BPF_ALU64, op, BPF_X, dst, src);
        }
        make_raw(BPF_ALU64 | op | BPF_X, dst, src, 0, 0)
    } else if kind <= 7 {
        // ALU32 reg-imm
        let alu_ops: [u8; 5] = [BPF_ADD, BPF_SUB, BPF_OR, BPF_AND, BPF_XOR];
        assert(alu_ops@ =~= seq![BPF_ADD, BPF_SUB, BPF_OR, BPF_AND, BPF_XOR]);
        let op = rng.pick(&alu_ops);
        let dst = rng.range(0, 5) as u8;
        let imm = rng.range(-50, 50) as i32;
        proof {
            lemma_raw_fields(BPF_ALU, op, BPF_K, dst, 0);
        }
        make_raw(BPF_ALU | op | BPF_K, dst, 0, 0, imm)
    } else if kind == 8 {
        // MOV64 imm
        let dst = rng.range(0, 5) as u8;
        let imm = rng.range(0, 1000) as i32;
        proof {
            lemma_raw_fields(BPF_ALU64, BPF_MOV, BPF_K, dst, 0);
        }
        make_raw(BPF_ALU64 | BPF_MOV | BPF_K, dst, 0, 0, imm)
    } else if space_left > 2 {
        // Conditional branch, forward only
        let off = rng.range(1, (space_left - 1).min(5) as i64) as i16;
        let jmp_ops: [u8; 6] = [BPF_JEQ, BPF_JNE, BPF_JGT, BPF_JGE, BPF_JLT, BPF_JLE];
        assert(jmp_ops@ =~= seq![BPF_JEQ, BPF_JNE, BPF_JGT, BPF_JGE, BPF_JLT, BPF_JLE]);
        let op = rng.pick(&jmp_ops);
        let dst = rng.range(0, 5) as u8;
        let imm = rng.range(0, 1000) as i32;
        proof {
            lemma_raw_fields(BPF_JMP, op, BPF_K, dst, 0);
        }
        make_raw(BPF_JMP | op | BPF_K, dst, 0, off, imm)
    } else {
        // Not enough room for a branch: a MOV instead
        let imm = rng.range(0, 100) as i32;
        proof {
            lemma_raw_fields(BPF_ALU64, BPF_MOV, BPF_K, 0, 0);
        }
        make_raw(BPF_ALU64 | BPF_MOV | BPF_K, 0, 0, 0, imm)
    }
}

/// Generate a random program of at most `max(max_insns, 11)` instructions.
///
/// The program always sets R0-R4 first (R5-R9 by chance), contains only
/// forward branches (no loops, so it terminates), and ends with EXIT.
/// Every other instruction follows one of the templates of
/// `raw_template`. Every program it draws (of at most `MAX_INSNS`
/// instructions) decodes to one that the verifier accepts. Exactly which
/// program is drawn, and the generator state left behind, is
/// `spec_generate` of the state.
pub fn generate_program(rng: &mut Rng, max_insns: usize) -> (r: Vec<RawInsn>)
    ensures
        (r@, final(rng)@) == spec_generate(old(rng)@, max_insns),
        generated_shape(r@),
        forall|pc: int| 0 <= pc < r@.len() - 1 ==> #[trigger] raw_template(r@[pc]),
        raw_regs_ok(r@),
        r@.len() <= MAX_INSNS ==> (spec_decode_program(r@) matches Ok(insns) && insns.len()
            == r@.len() && generated_program(insns) && verified_safe(insns)),
        r@.len() <= if max_insns > 11 {
            max_insns as int
        } else {
            11
        },
{
    let ghost x0 = rng@;
    let mut insns: Vec<RawInsn> = Vec::new();
    let n = 2 + (#[verifier::truncate] (rng.next_u64() as usize) % max_insns.saturating_sub(2).max(
        1,
    ));
    let ghost x1 = rng@;
    // Always start by initializing R0 and R1 (so there are valid operands).
    proof {
        lemma_raw_fields(BPF_ALU64, BPF_MOV, BPF_K, 0, 0);
        lemma_raw_fields(BPF_ALU64, BPF_MOV, BPF_K, 1, 0);
    }
    assert((0u8 << 4u8) | 0u8 == 0 && (0u8 << 4u8) | 1u8 == 1) by (bit_vector);
    let imm0 = rng.range(0, 1000);
    insns.push(make_raw(BPF_ALU64 | BPF_MOV | BPF_K, 0, 0, 0, imm0 as i32));
    let imm1 = rng.range(1, 100);
    insns.push(make_raw(BPF_ALU64 | BPF_MOV | BPF_K, 1, 0, 0, imm1 as i32));
    assert(mov_to(insns@[0], 0) && mov_to(insns@[1], 1));
    let ghost x3 = rng@;
    let ghost head = insns@;
    // Initialize R2-R4, and more registers at random.
    let init_regs = [2u8, 3, 4, 5, 6, 7, 8, 9];
    let mut k: usize = 0;
    while k < 8
        invariant
            k <= 8,
            2 <= insns@.len() <= 2 + k,
            init_regs@ == seq![2u8, 3, 4, 5, 6, 7, 8, 9],
            insns@[0].opcode == BPF_ALU64 | BPF_MOV | BPF_K && insns@[0].regs == 0,
            insns@[1].opcode == BPF_ALU64 | BPF_MOV | BPF_K && insns@[1].regs == 1,
            mov_to(insns@[0], 0) && mov_to(insns@[1], 1),
            forall|pc: int|
                0 <= pc < insns@.len() ==> class_of(#[trigger] insns@[pc].opcode) == BPF_ALU64
                    && raw_template(insns@[pc]),
            head.len() == 2,
            (insns@, rng@) == (head + spec_inits(x3, k as nat).0, spec_inits(x3, k as nat).1),
            forall|pc: int|
                2 <= pc < insns@.len() ==> (#[trigger] insns@[pc]).opcode == BPF_ALU64 | BPF_MOV
                    | BPF_K,
            k <= 3 ==> insns@.len() == 2 + k,
            k >= 1 ==> mov_to(insns@[2], 2),
            k >= 2 ==> mov_to(insns@[3], 3),
            k >= 3 ==> mov_to(insns@[4], 4) && insns@.len() >= 5,
        decreases 8 - k,
    {
        let r = init_regs[k];
        let ghost before = insns@;
        match draw_init(rng, r) {
            Some(i) => {
                insns.push(i);
            },
            None => {},
        }
        proof {
            assert(r == (k + 2) as u8);
            let (p, y) = spec_inits(x3, k as nat);
            assert(insns@ =~= head + spec_inits(x3, (k + 1) as nat).0);
        }
        k = k + 1;
    }
    // Random ALU and branch instructions.
    let remaining = n.saturating_sub(insns.len()).saturating_sub(1);
    let base = insns.len();
    let ghost x4 = rng@;
    let ghost prefix = insns@;
    let mut i: usize = 0;
    while i < remaining
        invariant
            5 <= base <= 10,
            insns@.len() == base + i,
            forall|pc: int|
                2 <= pc < base ==> (#[trigger] insns@[pc]).opcode == BPF_ALU64 | BPF_MOV | BPF_K,
            forall|pc: int| base <= pc < insns@.len() ==> (#[trigger] insns@[pc]).spec_dst_reg() < 5,
            mov_to(insns@[2], 2) && mov_to(insns@[3], 3) && mov_to(insns@[4], 4),
            i <= remaining,
            prefix.len() == base,
            insns@[0].opcode == BPF_ALU64 | BPF_MOV | BPF_K && insns@[0].regs == 0,
            insns@[1].opcode == BPF_ALU64 | BPF_MOV | BPF_K && insns@[1].regs == 1,
            mov_to(insns@[0], 0) && mov_to(insns@[1], 1),
            forall|pc: int|
                0 <= pc < insns@.len() ==> {
                    let c = class_of(#[trigger] insns@[pc].opcode);
                    &&& c == BPF_JMP || c == BPF_ALU64 || c == BPF_ALU
                    &&& c == BPF_JMP ==> 1 <= insns@[pc].off && pc + 1 + insns@[pc].off < base
                        + remaining + 1
                    &&& raw_template(insns@[pc])
                },
            (insns@, rng@) == (
                prefix + spec_body(x4, remaining as int, i as nat).0,
                spec_body(x4, remaining as int, i as nat).1,
            ),
        decreases remaining - i,
    {
        let insn = draw_insn(rng, remaining - i);
        let ghost before = insns@;
        insns.push(insn);
        assert(insns@[insns@.len() - 1] == insn);
        proof {
            assert(insns@ =~= prefix + spec_body(x4, remaining as int, (i + 1) as nat).0);
        }
        i = i + 1;
    }
    // Always end with EXIT.
    insns.push(make_raw(BPF_JMP | BPF_EXIT, 0, 0, 0, 0));
    assert forall|pc: int| 0 <= pc < insns@.len() - 1 implies #[trigger] forward_only(
        insns@,
        pc,
    ) by {
        let c = class_of(insns@[pc].opcode);
        assert(c == BPF_JMP || c == BPF_ALU64 || c == BPF_ALU);
    }
    assert forall|pc: int| 0 <= pc < insns@.len() - 1 implies #[trigger] raw_template(insns@[pc]) by {
        assert(raw_template(insns@[pc]));
    }
    assert forall|pc: int| 0 <= pc < insns@.len() - 1 implies (#[trigger] insns@[pc]).spec_dst_reg()
        < 5 || insns@[pc].opcode == BPF_ALU64 | BPF_MOV | BPF_K by {
        if pc < 2 {
            assert(mov_to(insns@[pc], pc as u8));
        }
    }
    assert(raw_regs_ok(insns@));
    proof {
        if insns@.len() <= MAX_INSNS {
            lemma_generated_decodes(insns@);
            lemma_generated_verified(spec_decode_program(insns@)->Ok_0);
        }
        assert(insns@ =~= spec_generate(x0, max_insns).0);
    }
    insns
}

/// Result of one fuzz iteration.
#[derive(Debug)]
pub enum FuzzResult {
    /// JIT and interpreter agree.
    Pass { interpreter_result: u64 },
    /// JIT compilation failed (expected for some programs).
    CompileError(String),
    /// JIT and interpreter disagree: a bug.
    Mismatch { interpreter_result: u64, jit_result: u64, program: Vec<RawInsn> },
}

/// A generated program that compiled, with the interpreter's answer and
/// the machine code to run against it.
pub struct FuzzCase {
    pub program: Vec<RawInsn>,
    pub interpreter_result: u64,
    pub code: Vec<u8>,
}

/// Steps the interpreter may take on one fuzz program.
pub const FUZZ_STEPS: usize = 10_000;

/// `v` is R0 after `run` of `insns` on a fresh interpreter for at most
/// `max_steps` steps, stopping early at EXIT or when the program counter
/// leaves the program.
pub open spec fn ran_to(insns: Seq<Insn>, max_steps: nat, v: u64) -> bool {
    exists|a: usize, les: Seq<bool>|
        valid_stack_addr(a) && les.len() <= max_steps && ({
            let s = #[trigger] run_from(initial_state(), insns, a, les);
            (les.len() == max_steps || stopped(s, insns)) && v == s.regs[0]
        })
}

/// No step of a generated program can panic: it has no memory access and
/// no negation.
pub proof fn lemma_generated_run_safe(insns: Seq<Insn>, s: MachineState, a: usize, n: nat)
    requires
        generated_program(insns),
    ensures
        run_safe_at(s, insns, a, n),
{
    assert forall|les: Seq<bool>| les.len() < n implies !#[trigger] step_panics(
        run_from(s, insns, a, les),
        insns,
        a,
    ) by {
        let t = run_from(s, insns, a, les);
        if !t.halted && t.pc < insns.len() - 1 {
            assert(generated_at(insns, t.pc as int));
        }
    }
}

/// Along a run of a generated program, each step moves forward: after
/// `env.len()` steps the machine has halted, left the program, or reached
/// an instruction at least that far in.
proof fn lemma_generated_progress(s0: MachineState, insns: Seq<Insn>, env: Seq<(usize, bool)>)
    requires
        generated_program(insns),
        insns.len() <= usize::MAX,
        s0.pc == 0,
    ensures
        ({
            let s = spec_run(s0, insns, env);
            s.halted || s.pc >= insns.len() || s.pc >= env.len()
        }),
    decreases env.len(),
{
    if env.len() > 0 {
        let prev = env.drop_last();
        lemma_generated_progress(s0, insns, prev);
        let s = spec_run(s0, insns, prev);
        if !s.halted && s.pc < insns.len() && s.pc < insns.len() - 1 {
            assert(generated_at(insns, s.pc as int));
        }
    }
}

/// Generated programs terminate: from any state at the entry and whatever
/// the environment, the interpreter has stopped, at EXIT or past the end,
/// once it has taken as many steps as the program has instructions.
pub proof fn lemma_generated_terminates(s0: MachineState, insns: Seq<Insn>, env: Seq<(usize, bool)>)
    requires
        generated_program(insns),
        insns.len() <= usize::MAX,
        s0.pc == 0,
        env.len() >= insns.len(),
    ensures
        stopped(spec_run(s0, insns, env), insns),
{
    lemma_generated_progress(s0, insns, env);
}

/// The text of a decoding failure, as `format!` writes it.
pub uninterp spec fn decode_failure_text(e: DecodeError) -> Seq<char>;

/// The text of a compilation failure, as `format!` writes it.
pub uninterp spec fn jit_failure_text(e: JitError) -> Seq<char>;

/// `format!("decode: {:?}", e)`. Its text is std's rendering of the derived
/// `Debug` form, a function of `e` alone; nothing more is claimed of it.
#[verifier::external_body]
fn decode_failure_message(e: DecodeError) -> (r: String)
    ensures
        r@ == decode_failure_text(e),
{
    format!("decode: {:?}", e)
}

/// `format!("jit: {:?}", e)`. Its text is std's rendering of the derived
/// `Debug` form, a function of `e` alone; nothing more is claimed of it.
#[verifier::external_body]
fn jit_failure_message(e: JitError) -> (r: String)
    ensures
        r@ == jit_failure_text(e),
{
    format!("jit: {:?}", e)
}

/// What `fuzz_compile` yields for the drawn program `p`: when `p` does not
/// decode, `CompileError` with the decoder's error; when it decodes but does
/// not compile, `CompileError` with the compiler's error; else the case,
/// holding `p`, the interpreter's answer and the AArch64 code.
pub open spec fn case_outcome(p: Seq<RawInsn>, r: Result<FuzzCase, FuzzResult>) -> bool {
    match spec_decode_program(p) {
        Err(d) => r matches Err(FuzzResult::CompileError(s)) && s@ == decode_failure_text(d),
        Ok(insns) => match r {
            Ok(c) => {
                &&& c.program@ == p
                &&& generated_program(insns)
                &&& ran_to(insns, FUZZ_STEPS as nat, c.interpreter_result)
                &&& exists|out: JitOutput|
                    compiled(p, Target::AArch64, Ok(out)) && out.code@ == c.code@
            },
            Err(res) => exists|e: JitError|
                compiled(p, Target::AArch64, Err(e)) && (res matches FuzzResult::CompileError(s)
                    && s@ == jit_failure_text(e)),
        },
    }
}

/// Generate a program, run it on the interpreter and compile it for
/// AArch64; a program that does not decode or compile ends the iteration
/// with `CompileError`. Generated programs pass the verifier, so with
/// `max_insns` within what the AArch64 emitter is sure to compile, the
/// iteration always gets its machine code.
pub fn fuzz_compile(rng: &mut Rng, max_insns: usize) -> (r: Result<FuzzCase, FuzzResult>)
    ensures
        final(rng)@ == spec_generate(old(rng)@, max_insns).1,
        case_outcome(spec_generate(old(rng)@, max_insns).0, r),
        r matches Ok(c) ==> generated_shape(c.program@),
        max_insns <= sure_to_compile(Target::AArch64) ==> r is Ok,
{
    let program = generate_program(rng, max_insns);
    let insns = match decode_program(&program) {
        Ok(i) => i,
        Err(e) => {
            return Err(FuzzResult::CompileError(decode_failure_message(e)));
        },
    };
    proof {
        assert forall|a: usize| valid_stack_addr(a) implies #[trigger] run_safe_at(
            initial_state(),
            insns@,
            a,
            FUZZ_STEPS as nat,
        ) by {
            lemma_generated_run_safe(insns@, initial_state(), a, FUZZ_STEPS as nat);
        }
    }
    let mut interp = InterpreterState::new();
    let interp_result = interp.run(&insns, FUZZ_STEPS);
    match compile(&program, Target::AArch64) {
        Ok(out) => {
            Ok(FuzzCase { program, interpreter_result: interp_result, code: out.code })
        },
        Err(e) => {
            proof {
                if max_insns <= sure_to_compile(Target::AArch64) {
                    lemma_verified_programs_compile(program@, Target::AArch64, Err(e));
                    assert(false);
                }
            }
            Err(FuzzResult::CompileError(jit_failure_message(e)))
        },
    }
}

/// The verdict on a case: `Pass` when the machine code's answer `jit`
/// equals the interpreter's `interp`, else `Mismatch` with both and the
/// program.
pub open spec fn judged(r: FuzzResult, interp: u64, jit: u64, program: Seq<RawInsn>) -> bool {
    if jit == interp {
        r == (FuzzResult::Pass { interpreter_result: interp })
    } else {
        r matches FuzzResult::Mismatch { interpreter_result, jit_result, program: p }
            && interpreter_result == interp && jit_result == jit && p@ == program
    }
}

/// Compare the machine code's answer with the interpreter's.
pub fn judge(case: FuzzCase, jit_result: u64) -> (r: FuzzResult)
    ensures
        judged(r, case.interpreter_result, jit_result, case.program@),
{
    if jit_result != case.interpreter_result {
        FuzzResult::Mismatch {
            interpreter_result: case.interpreter_result,
            jit_result,
            program: case.program,
        }
    } else {
        FuzzResult::Pass { interpreter_result: case.interpreter_result }
    }
}

/// What an iteration without a machine-code run reports for the drawn
/// program `p`: `CompileError` with the decoder's or the compiler's error
/// when `p` does not decode or compile, else `Pass` with the interpreter's
/// answer; never `Mismatch`.
pub open spec fn portable_outcome(p: Seq<RawInsn>, r: FuzzResult) -> bool {
    match spec_decode_program(p) {
        Err(d) => r matches FuzzResult::CompileError(s) && s@ == decode_failure_text(d),
        Ok(insns) => match r {
            FuzzResult::Pass { interpreter_result } => ran_to(
                insns,
                FUZZ_STEPS as nat,
                interpreter_result,
            ) && exists|out: JitOutput| compiled(p, Target::AArch64, Ok(out)),
            FuzzResult::CompileError(s) => exists|e: JitError|
                compiled(p, Target::AArch64, Err(e)) && s@ == jit_failure_text(e),
            FuzzResult::Mismatch { .. } => false,
        },
    }
}

/// One fuzz iteration where the machine code cannot be run: generate,
/// interpret and compile, and report the interpreter's answer.
pub fn fuzz_one(rng: &mut Rng, max_insns: usize) -> (r: FuzzResult)
    ensures
        final(rng)@ == spec_generate(old(rng)@, max_insns).1,
        portable_outcome(spec_generate(old(rng)@, max_insns).0, r),
        max_insns <= sure_to_compile(Target::AArch64) ==> r is Pass,
{
    match fuzz_compile(rng, max_insns) {
        Ok(case) => FuzzResult::Pass { interpreter_result: case.interpreter_result },
        Err(res) => res,
    }
}

} // verus!
