//! The JIT pipeline: decode, verify, lower to IR, emit and finalize.
//!
//! `compile` ties the phases together: every decodable program that the
//! verifier accepts lowers to IR (`lemma_verified_lowerable`), every
//! lowered program is one the emitters take (`lemma_lowered_emittable`),
//! and the code is exactly the emitter's output for that IR (`emitted`).
//! On the interpreter's side, runs of verified programs read only
//! registers written before (`lemma_verified_runs_read_written`).
use vstd::prelude::*;

use crate::aarch64;
use crate::aarch64::{AArch64EmitError, AArch64Emitter};
use crate::decode::{decode_program, lemma_decoded_no_tail_call, spec_decode_program, DecodeError};
use crate::ir::{BasicBlockId, blocks_closed, node_target, program_stream, words_le_bytes, CodeEmitter, EmitState, IrBasicBlock, IrNode, IrProgram, PhysReg};
use crate::interpreter::{spec_run, spec_step, stopped, MachineState};
use crate::isa::{AluOp, BpfReg, Insn, RawInsn, Source, MAX_INSNS, NUM_REGS, STACK_SIZE};
use crate::regalloc::{
    aarch64_regmap, block_nodes, frame_need, ir_leader, lemma_frame_size_facts, ir_leaders, lemma_leaders_basic, lower_insn,
    lower_to_ir, lowerable, lowered_range, max_need, riscv64_regmap, spec_aarch64_map,
    spec_frame_size, spec_riscv64_map, stack_off, needs_frame, RegMap,
};
use crate::riscv;
use crate::riscv::{RiscVEmitError, RiscVEmitter};
use crate::verify::{
    count_leaders, entry_mask, init_certificate, is_leader, is_succ, mask_le,
    spec_check_insn, spec_verify, stack_bad, verified_safe, verify_outcome, verify_program,
    VerifyError,
};

verus! {

/// Target architecture.
#[derive(Debug, Clone, Copy, PartialEq, Eq, Structural)]
pub enum Target {
    AArch64,
    RiscV64,
}

/// Unified JIT compilation error.
#[derive(Debug)]
pub enum JitError {
    Decode(DecodeError),
    Verify(VerifyError),
    EmitAArch64(AArch64EmitError),
    EmitRiscV(RiscVEmitError),
    TargetNotEnabled,
}

impl From<DecodeError> for JitError {
    fn from(e: DecodeError) -> Self {
        JitError::Decode(e)
    }
}

impl vstd::std_specs::convert::FromSpecImpl<DecodeError> for JitError {
    open spec fn obeys_from_spec() -> bool {
        true
    }

    open spec fn from_spec(e: DecodeError) -> Self {
        JitError::Decode(e)
    }
}

impl From<VerifyError> for JitError {
    fn from(e: VerifyError) -> Self {
        JitError::Verify(e)
    }
}

impl vstd::std_specs::convert::FromSpecImpl<VerifyError> for JitError {
    open spec fn obeys_from_spec() -> bool {
        true
    }

    open spec fn from_spec(e: VerifyError) -> Self {
        JitError::Verify(e)
    }
}

/// Result of a successful JIT compilation.
pub struct JitOutput {
    /// The emitted machine code bytes.
    pub code: Vec<u8>,
    /// The lowered IR.
    pub ir: IrProgram,
    /// Number of basic blocks found by the verifier.
    pub num_blocks: usize,
}

// ---------------------------------------------------------------------------
// What the pipeline computes
// ---------------------------------------------------------------------------

/// `rm` is the register map of `target`.
pub open spec fn target_regmap(target: Target, rm: RegMap) -> bool {
    match target {
        Target::AArch64 => {
            &&& forall|i: int|
                0 <= i < NUM_REGS ==> rm.map@[i] == PhysReg(#[trigger] spec_aarch64_map()[i])
            &&& rm.tmp == PhysReg(9)
            &&& rm.bounds_base == PhysReg(10)
            &&& rm.bounds_len == PhysReg(11)
        },
        Target::RiscV64 => {
            &&& forall|i: int|
                0 <= i < NUM_REGS ==> rm.map@[i] == PhysReg(#[trigger] spec_riscv64_map()[i])
            &&& rm.tmp == PhysReg(23)
            &&& rm.bounds_base == PhysReg(24)
            &&& rm.bounds_len == PhysReg(25)
        },
    }
}

/// `p` is the lowering of `insns` under `rm`: one block per leader, with
/// id `k` and the nodes `block_nodes`, and the program's frame size.
pub open spec fn lowered_program(insns: Seq<Insn>, rm: RegMap, p: IrProgram) -> bool {
    &&& p.frame_size == spec_frame_size(insns)
    &&& p.blocks@.len() == ir_leaders(insns, insns.len() as int).len()
    &&& forall|k: int|
        0 <= k < p.blocks@.len() ==> (#[trigger] p.blocks@[k]).id == BasicBlockId(k as u32)
            && p.blocks@[k].nodes@ == block_nodes(insns, rm, k)
}

/// The target's emitter takes every node and label of `blocks`.
pub open spec fn emittable(target: Target, blocks: Seq<IrBasicBlock>) -> bool {
    match target {
        Target::AArch64 => AArch64Emitter::program_accepted(blocks),
        Target::RiscV64 => RiscVEmitter::program_accepted(blocks),
    }
}

/// `r` is what emitting and finalizing `blocks` on a fresh emitter for
/// `target` gives: the patched code as little-endian bytes, or the first
/// relocation that does not resolve.
pub open spec fn emitted(target: Target, blocks: Seq<IrBasicBlock>, r: Result<Vec<u8>, JitError>) -> bool {
    match target {
        Target::AArch64 => {
            let s = aarch64::emit_all(EmitState::empty(), program_stream(blocks));
            let n = s.relocs.len() as int;
            match r {
                Ok(code) => aarch64::resolves_upto(s, n) && code@ == words_le_bytes(
                    aarch64::patch_upto(s, n),
                ),
                Err(e) => exists|k: int|
                    0 <= k < n && aarch64::resolves_upto(s, k) && !aarch64::reloc_resolves(
                        s,
                        #[trigger] s.relocs[k],
                    ) && e == JitError::EmitAArch64(
                        AArch64EmitError::RelocationOutOfRange { bb: s.relocs[k].target },
                    ),
            }
        },
        Target::RiscV64 => {
            let s = riscv::emit_all(EmitState::empty(), program_stream(blocks));
            let n = s.relocs.len() as int;
            match r {
                Ok(code) => riscv::resolves_upto(s, n) && code@ == words_le_bytes(
                    riscv::patch_upto(s, n),
                ),
                Err(e) => exists|k: int|
                    0 <= k < n && riscv::resolves_upto(s, k) && !riscv::reloc_resolves(
                        s,
                        #[trigger] s.relocs[k],
                    ) && e == JitError::EmitRiscV(
                        RiscVEmitError::RelocationOutOfRange { bb: s.relocs[k].target },
                    ),
            }
        },
    }
}

/// The dry-run size (bytes) of `blocks` for `target`.
pub open spec fn dry_size(target: Target, blocks: Seq<IrBasicBlock>) -> int {
    match target {
        Target::AArch64 => 4 * (aarch64::emit_all(EmitState::empty(), program_stream(blocks)).words.len() as int),
        Target::RiscV64 => 4 * (riscv::emit_all(EmitState::empty(), program_stream(blocks)).words.len() as int),
    }
}

/// The worst-case size of `blocks` in bytes: the most words any node
/// expands to, per node, plus one per block.
pub open spec fn size_bound(target: Target, blocks: Seq<IrBasicBlock>) -> int {
    match target {
        Target::AArch64 => 4 * aarch64::size_units(blocks),
        Target::RiscV64 => 4 * riscv::size_units(blocks),
    }
}

/// What `compile` returns for `raw`: the decoder's error; the error that
/// `verify_program` gives for the decoded program (`spec_verify`); or, for a verified program, its
/// lowering under the target's register map and the emitter's result.
pub open spec fn compiled(raw: Seq<RawInsn>, target: Target, r: Result<JitOutput, JitError>) -> bool {
    match spec_decode_program(raw) {
        Err(d) => r matches Err(JitError::Decode(e)) && e == d,
        Ok(insns) => match r {
            Ok(out) => {
                &&& verified_safe(insns)
                &&& out.num_blocks == count_leaders(insns, insns.len() as int)
                &&& exists|rm: RegMap| target_regmap(target, rm) && lowered_program(insns, rm, out.ir)
                &&& emitted(target, out.ir.blocks@, Ok(out.code))
            },
            Err(JitError::Verify(e)) => spec_verify(insns) == Err::<usize, VerifyError>(e)
                && verify_outcome(insns, Err(e)),
            Err(e) => {
                &&& verified_safe(insns)
                &&& exists|p: IrProgram, rm: RegMap|
                    target_regmap(target, rm) && lowered_program(insns, rm, p) && emitted(
                        target,
                        p.blocks@,
                        Err(e),
                    )
            },
        },
    }
}

// ---------------------------------------------------------------------------
// From the verifier to the emitters
// ---------------------------------------------------------------------------

/// The number of bytes a memory instruction accesses (0 for others).
pub open spec fn access_len(insn: Insn) -> int {
    match insn {
        Insn::Load { width, .. } | Insn::StoreReg { width, .. } | Insn::StoreImm { width, .. }
        | Insn::Atomic { width, .. } => width.spec_byte_len() as int,
        _ => 0,
    }
}

/// An instruction the verifier's rule accepts touches the stack only
/// inside the frame `[-512, 0)`: all the bytes it accesses lie there.
pub proof fn lemma_check_ok_stack(insn: Insn, pc: usize, m: Seq<bool>)
    requires
        spec_check_insn(insn, pc, m) is Ok,
    ensures
        match stack_off(insn) {
            Some(o) => -512 <= o < 0 && o + access_len(insn) <= 0,
            None => true,
        },
{
    match insn {
        Insn::Load { width, src, off, .. } => assert(!stack_bad(src, off, width)),
        Insn::StoreReg { width, dst, off, .. } => assert(!stack_bad(dst, off, width)),
        Insn::StoreImm { width, dst, off, .. } => assert(!stack_bad(dst, off, width)),
        Insn::Atomic { width, dst, off, .. } => assert(!stack_bad(dst, off, width)),
        _ => {},
    }
}

/// With every stack access inside the frame, no instruction needs more
/// than 512 bytes.
proof fn lemma_max_need_le(insns: Seq<Insn>, k: int)
    requires
        0 <= k <= insns.len(),
        forall|pc: int|
            0 <= pc < insns.len() ==> match stack_off(#[trigger] insns[pc]) {
                Some(o) => -512 <= o < 0,
                None => true,
            },
    ensures
        0 <= max_need(insns, k) <= 512,
    decreases k,
{
    if k > 0 {
        lemma_max_need_le(insns, k - 1);
        let x = insns[k - 1];
        match stack_off(x) {
            Some(o) => assert(frame_need(o) <= 512),
            None => {},
        }
    }
}

/// Every decodable program the verifier accepts can be lowered, with a
/// frame of at most 512 bytes.
pub proof fn lemma_verified_lowerable(insns: Seq<Insn>)
    requires
        verified_safe(insns),
        insns.len() <= MAX_INSNS,
    ensures
        lowerable(insns),
        spec_frame_size(insns) <= 512,
{
    let st = choose|st: Seq<Seq<bool>>| init_certificate(insns, st);
    lemma_leaders_basic(insns, insns.len() as int);
    assert forall|pc: int| 0 <= pc < insns.len() implies match stack_off(#[trigger] insns[pc]) {
        Some(o) => -512 <= o < 0,
        None => true,
    } by {
        lemma_check_ok_stack(insns[pc], pc as usize, st[pc]);
    }
    assert forall|pc: int| 0 <= pc < insns.len() implies match stack_off(#[trigger] insns[pc]) {
        Some(o) => o != i16::MIN && frame_need(o) <= 65520,
        None => true,
    } by {
        lemma_check_ok_stack(insns[pc], pc as usize, st[pc]);
    }
    lemma_max_need_le(insns, insns.len() as int);
    let m = max_need(insns, insns.len() as int);
    let f = if needs_frame(insns, insns.len() as int) && m < 64 {
        64
    } else {
        m
    };
    assert(0 <= f <= 512);
    assert((f + 15) - (f + 15) % 16 <= 512);
}

/// Lowering never produces a label or a prologue from an instruction.
proof fn lemma_lowered_range_shape(insns: Seq<Insn>, rm: RegMap, fs: u16, a: int, b: int)
    ensures
        forall|j: int|
            0 <= j < lowered_range(insns, rm, fs, a, b).len() ==> !(#[trigger] lowered_range(
                insns,
                rm,
                fs,
                a,
                b,
            )[j] is Label) && !(lowered_range(insns, rm, fs, a, b)[j] is Prologue),
    decreases b - a,
{
    if a < b {
        lemma_lowered_range_shape(insns, rm, fs, a, b - 1);
        let pre = lowered_range(insns, rm, fs, a, b - 1);
        let last = lower_insn(insns, rm, fs, b - 1);
        assert(lowered_range(insns, rm, fs, a, b) == pre + last);
        assert forall|j: int| 0 <= j < last.len() implies !(#[trigger] last[j] is Label) && !(
        last[j] is Prologue) by {}
        assert forall|j: int| 0 <= j < (pre + last).len() implies !(#[trigger] (pre + last)[j] is Label)
            && !((pre + last)[j] is Prologue) by {
            if j >= pre.len() {
                assert((pre + last)[j] == last[j - pre.len()]);
            }
        }
    }
}

/// The lowering of a verified program is one both emitters take: block
/// ids fit in a `usize` and the only prologue has a small frame.
pub proof fn lemma_lowered_emittable(insns: Seq<Insn>, rm: RegMap, p: IrProgram, target: Target)
    requires
        lowered_program(insns, rm, p),
        insns.len() <= MAX_INSNS,
        spec_frame_size(insns) <= 512,
    ensures
        emittable(target, p.blocks@),
{
    let blocks = p.blocks@;
    let n = insns.len() as int;
    let fs = spec_frame_size(insns);
    lemma_leaders_basic(insns, n);
    assert forall|k: int| 0 <= k < blocks.len() implies {
        &&& (blocks[k].id.0 as int) < usize::MAX
        &&& forall|j: int|
            0 <= j < (#[trigger] blocks[k]).nodes@.len() ==> !(blocks[k].nodes@[j] is Label) && (
            blocks[k].nodes@[j] matches IrNode::Prologue { frame_size } ==> frame_size <= 512)
    } by {
        let l = ir_leaders(insns, n);
        let end = if k + 1 < l.len() {
            l[k + 1]
        } else {
            n
        };
        lemma_lowered_range_shape(insns, rm, fs, l[k], end);
        let lr = lowered_range(insns, rm, fs, l[k], end);
        let pro = if k == 0 && fs > 0 {
            seq![IrNode::Prologue { frame_size: fs }]
        } else {
            Seq::empty()
        };
        assert(blocks[k].nodes@ == pro + lr);
        assert forall|j: int| 0 <= j < blocks[k].nodes@.len() implies !(
        #[trigger] blocks[k].nodes@[j] is Label) && (blocks[k].nodes@[j] matches IrNode::Prologue {
            frame_size,
        } ==> frame_size <= 512) by {
            if j >= pro.len() {
                assert((pro + lr)[j] == lr[j - pro.len()]);
            }
        }
    }
    match target {
        Target::AArch64 => {
            assert forall|k: int| 0 <= k < blocks.len() implies {
                &&& aarch64::accepts_node(IrNode::Label { bb: (#[trigger] blocks[k]).id })
                &&& forall|j: int|
                    0 <= j < blocks[k].nodes@.len() ==> aarch64::accepts_node(
                        #[trigger] blocks[k].nodes@[j],
                    )
            } by {
                assert forall|j: int| 0 <= j < blocks[k].nodes@.len() implies aarch64::accepts_node(
                    #[trigger] blocks[k].nodes@[j],
                ) by {
                    let node = blocks[k].nodes@[j];
                    if let IrNode::Prologue { frame_size } = node {
                        assert(frame_size <= 512);
                    }
                }
            }
        },
        Target::RiscV64 => {
            assert forall|k: int| 0 <= k < blocks.len() implies {
                &&& riscv::accepts_node(IrNode::Label { bb: (#[trigger] blocks[k]).id })
                &&& forall|j: int|
                    0 <= j < blocks[k].nodes@.len() ==> riscv::accepts_node(
                        #[trigger] blocks[k].nodes@[j],
                    )
            } by {
                assert forall|j: int| 0 <= j < blocks[k].nodes@.len() implies riscv::accepts_node(
                    #[trigger] blocks[k].nodes@[j],
                ) by {
                    assert(!(blocks[k].nodes@[j] is Label));
                }
            }
        },
    }
}

// ---------------------------------------------------------------------------
// Size of the lowered program
// ---------------------------------------------------------------------------

/// Number of IR nodes over all blocks.
pub open spec fn total_nodes(blocks: Seq<IrBasicBlock>) -> int
    decreases blocks.len(),
{
    if blocks.len() == 0 {
        0
    } else {
        total_nodes(blocks.drop_last()) + blocks.last().nodes@.len()
    }
}

/// The dry-run units are one per block plus the expansion ratio per node.
proof fn lemma_size_units_total(blocks: Seq<IrBasicBlock>)
    ensures
        aarch64::size_units(blocks) == blocks.len() + 8 * total_nodes(blocks),
        riscv::size_units(blocks) == blocks.len() + 10 * total_nodes(blocks),
        total_nodes(blocks) >= 0,
    decreases blocks.len(),
{
    if blocks.len() > 0 {
        lemma_size_units_total(blocks.drop_last());
    }
}

/// An instruction lowers to at most two nodes.
proof fn lemma_lowered_range_len(insns: Seq<Insn>, rm: RegMap, fs: u16, a: int, b: int)
    requires
        a <= b,
    ensures
        lowered_range(insns, rm, fs, a, b).len() <= 2 * (b - a),
    decreases b - a,
{
    if a < b {
        lemma_lowered_range_len(insns, rm, fs, a, b - 1);
        assert(lower_insn(insns, rm, fs, b - 1).len() <= 2);
    }
}

/// Leaders are listed in increasing order.
proof fn lemma_leaders_sorted(insns: Seq<Insn>, k: int)
    ensures
        forall|i: int, j: int|
            0 <= i < j < ir_leaders(insns, k).len() ==> ir_leaders(insns, k)[i] < ir_leaders(
                insns,
                k,
            )[j],
    decreases k,
{
    if k > 0 {
        lemma_leaders_sorted(insns, k - 1);
        lemma_leaders_basic(insns, k - 1);
    }
}

/// The blocks before `j` hold at most one prologue plus two nodes per
/// instruction before block `j`'s start.
proof fn lemma_lowered_prefix_nodes(insns: Seq<Insn>, rm: RegMap, p: IrProgram, j: int)
    requires
        lowered_program(insns, rm, p),
        0 < insns.len(),
        0 <= j <= p.blocks@.len(),
    ensures
        total_nodes(p.blocks@.subrange(0, j)) <= (if j >= 1 {
            1int
        } else {
            0
        }) + 2 * (if j < p.blocks@.len() {
            ir_leaders(insns, insns.len() as int)[j]
        } else {
            insns.len() as int
        }),
    decreases j,
{
    let n = insns.len() as int;
    let l = ir_leaders(insns, n);
    let fs = spec_frame_size(insns);
    lemma_leaders_basic(insns, n);
    lemma_leaders_sorted(insns, n);
    if j > 0 {
        let k = j - 1;
        lemma_lowered_prefix_nodes(insns, rm, p, k);
        let blocks = p.blocks@;
        assert(blocks.subrange(0, j).drop_last() =~= blocks.subrange(0, k));
        assert(blocks.subrange(0, j).last() == blocks[k]);
        let end = if k + 1 < l.len() {
            l[k + 1]
        } else {
            n
        };
        assert(l[k] <= end);
        lemma_lowered_range_len(insns, rm, fs, l[k], end);
        assert(blocks[k].nodes@ == block_nodes(insns, rm, k));
    }
}

/// The lowering of a program of `n` instructions has at most `n` blocks
/// and `2n + 1` nodes, so its dry-run size fits in a `usize`.
pub proof fn lemma_lowered_size(insns: Seq<Insn>, rm: RegMap, p: IrProgram)
    requires
        lowered_program(insns, rm, p),
        0 < insns.len() <= MAX_INSNS,
    ensures
        p.blocks@.len() <= insns.len(),
        total_nodes(p.blocks@) <= 2 * insns.len() + 1,
        size_bound(Target::AArch64, p.blocks@) <= usize::MAX,
        size_bound(Target::RiscV64, p.blocks@) <= usize::MAX,
{
    lemma_leaders_basic(insns, insns.len() as int);
    lemma_lowered_prefix_nodes(insns, rm, p, p.blocks@.len() as int);
    assert(p.blocks@.subrange(0, p.blocks@.len() as int) =~= p.blocks@);
    lemma_size_units_total(p.blocks@);
}

// ---------------------------------------------------------------------------
// The pipeline
// ---------------------------------------------------------------------------

/// The register map of a target.
pub fn regmap_for_target(target: Target) -> (r: Result<RegMap, JitError>)
    ensures
        r matches Ok(rm) && target_regmap(target, rm),
{
    match target {
        Target::AArch64 => Ok(aarch64_regmap()),
        Target::RiscV64 => Ok(riscv64_regmap()),
    }
}

/// Dry run: the exact size of the code `ir` compiles to on `target`, in
/// bytes.
pub fn dry_run_size(ir: &IrProgram, target: Target) -> (r: Result<usize, JitError>)
    requires
        size_bound(target, ir.blocks@) <= usize::MAX,
        emittable(target, ir.blocks@),
    ensures
        r matches Ok(n) && n == dry_size(target, ir.blocks@),
{
    match target {
        Target::AArch64 => {
            let emitter = AArch64Emitter::new(0);
            Ok(emitter.calculate_size(ir))
        },
        Target::RiscV64 => {
            let emitter = RiscVEmitter::new(0);
            Ok(emitter.calculate_size(ir))
        },
    }
}

/// Emit and finalize `ir` for `target`.
pub fn emit_for_target(ir: &IrProgram, target: Target) -> (r: Result<Vec<u8>, JitError>)
    requires
        emittable(target, ir.blocks@),
    ensures
        emitted(target, ir.blocks@, r),
{
    emit_for_target_with_size(ir, target, 1024)
}

/// Emit and finalize `ir` for `target` into a buffer of `size` bytes.
pub fn emit_for_target_with_size(ir: &IrProgram, target: Target, size: usize) -> (r: Result<
    Vec<u8>,
    JitError,
>)
    requires
        emittable(target, ir.blocks@),
    ensures
        emitted(target, ir.blocks@, r),
{
    match target {
        Target::AArch64 => {
            let mut emitter = AArch64Emitter::new(size);
            match emitter.emit_program(ir) {
                Ok(()) => {},
                Err(e) => {
                    return Err(JitError::EmitAArch64(e));
                },
            }
            match emitter.finalize() {
                Ok(code) => Ok(code),
                Err(e) => Err(JitError::EmitAArch64(e)),
            }
        },
        Target::RiscV64 => {
            let mut emitter = RiscVEmitter::new(size);
            match emitter.emit_program(ir) {
                Ok(()) => {},
                Err(e) => {
                    return Err(JitError::EmitRiscV(e));
                },
            }
            match emitter.finalize() {
                Ok(code) => Ok(code),
                Err(e) => Err(JitError::EmitRiscV(e)),
            }
        },
    }
}

/// Compile eBPF bytecode to native code: decode, verify, lower, emit,
/// finalize.
pub fn compile(raw_insns: &[RawInsn], target: Target) -> (r: Result<JitOutput, JitError>)
    ensures
        compiled(raw_insns@, target, r),
{
    // Phase 1: decode
    let insns = match decode_program(raw_insns) {
        Ok(v) => v,
        Err(e) => {
            return Err(JitError::from(e));
        },
    };
    // Phase 2: verify
    let num_blocks = match verify_program(&insns) {
        Ok(n) => n,
        Err(e) => {
            return Err(JitError::from(e));
        },
    };
    // Phase 3: lower
    let regmap = match regmap_for_target(target) {
        Ok(rm) => rm,
        Err(e) => {
            return Err(e);
        },
    };
    proof {
        lemma_verified_lowerable(insns@);
    }
    let ir = lower_to_ir(&insns, &regmap);
    assert(lowered_program(insns@, regmap, ir));
    proof {
        lemma_lowered_emittable(insns@, regmap, ir, target);
    }
    // Phase 4: emit and finalize
    let code = match emit_for_target(&ir, target) {
        Ok(c) => c,
        Err(e) => {
            assert(target_regmap(target, regmap) && lowered_program(insns@, regmap, ir)
                && emitted(target, ir.blocks@, Err(e)));
            return Err(e);
        },
    };
    assert(target_regmap(target, regmap) && lowered_program(insns@, regmap, ir));
    Ok(JitOutput { code, ir, num_blocks })
}

/// Two-pass compilation: size the buffer with a dry run, then emit into
/// it (the firmware path, which avoids reallocation).
pub fn compile_sized(raw_insns: &[RawInsn], target: Target) -> (r: Result<JitOutput, JitError>)
    ensures
        compiled(raw_insns@, target, r),
{
    let insns = match decode_program(raw_insns) {
        Ok(v) => v,
        Err(e) => {
            return Err(JitError::from(e));
        },
    };
    let num_blocks = match verify_program(&insns) {
        Ok(n) => n,
        Err(e) => {
            return Err(JitError::from(e));
        },
    };
    let regmap = match regmap_for_target(target) {
        Ok(rm) => rm,
        Err(e) => {
            return Err(e);
        },
    };
    proof {
        lemma_verified_lowerable(insns@);
    }
    let ir = lower_to_ir(&insns, &regmap);
    assert(lowered_program(insns@, regmap, ir));
    proof {
        lemma_lowered_emittable(insns@, regmap, ir, target);
        lemma_lowered_size(insns@, regmap, ir);
    }
    // Dry run: the buffer size
    let size = match dry_run_size(&ir, target) {
        Ok(n) => n,
        Err(e) => {
            return Err(e);
        },
    };
    let code = match emit_for_target_with_size(&ir, target, size) {
        Ok(c) => c,
        Err(e) => {
            assert(target_regmap(target, regmap) && lowered_program(insns@, regmap, ir)
                && emitted(target, ir.blocks@, Err(e)));
            return Err(e);
        },
    };
    assert(target_regmap(target, regmap) && lowered_program(insns@, regmap, ir));
    Ok(JitOutput { code, ir, num_blocks })
}

/// Emitted code is whole instructions, exactly as long as the dry run says
/// (`dry_run_size` sizes the buffer of `emit_for_target` exactly), and
/// never longer than the worst-case bound.
pub proof fn lemma_code_within_dry_run(target: Target, blocks: Seq<IrBasicBlock>, code: Vec<u8>)
    requires
        emitted(target, blocks, Ok(code)),
    ensures
        code@.len() % 4 == 0,
        code@.len() == dry_size(target, blocks),
        code@.len() <= size_bound(target, blocks),
{
    let e = EmitState::empty();
    assert(e.well_formed());
    match target {
        Target::AArch64 => {
            let s = aarch64::emit_all(e, program_stream(blocks));
            aarch64::lemma_emit_all_well_formed(e, program_stream(blocks));
            aarch64::lemma_patch_upto_len(s, s.relocs.len() as int);
            aarch64::lemma_dry_run_bounds_code(blocks);
            crate::ir::lemma_words_le_bytes_len(aarch64::patch_upto(s, s.relocs.len() as int));
        },
        Target::RiscV64 => {
            let s = riscv::emit_all(e, program_stream(blocks));
            riscv::lemma_emit_all_well_formed(e, program_stream(blocks));
            riscv::lemma_patch_upto_len(s, s.relocs.len() as int);
            riscv::lemma_dry_run_bounds_code(blocks);
            crate::ir::lemma_words_le_bytes_len(riscv::patch_upto(s, s.relocs.len() as int));
        },
    }
}

// ---------------------------------------------------------------------------
// Laws of the pipeline
// ---------------------------------------------------------------------------

/// The register an instruction writes, if any.
pub open spec fn written_reg(insn: Insn) -> Option<BpfReg> {
    match insn {
        Insn::Alu64 { dst, .. } | Insn::Alu32 { dst, .. } | Insn::LoadImm64 { dst, .. }
        | Insn::Load { dst, .. } | Insn::Endian { dst, .. } => Some(dst),
        _ => None,
    }
}

/// A verified program never writes the frame pointer R10 and touches the
/// stack only inside the 512-byte frame below it: every byte of every
/// R10-relative access lies in `[R10 - 512, R10)`.
pub proof fn lemma_verified_frame_safety(insns: Seq<Insn>)
    requires
        verified_safe(insns),
    ensures
        forall|pc: int|
            0 <= pc < insns.len() ==> written_reg(#[trigger] insns[pc]) != Some(BpfReg::R10),
        forall|pc: int|
            0 <= pc < insns.len() ==> match stack_off(#[trigger] insns[pc]) {
                Some(o) => -(STACK_SIZE as int) <= o && o + access_len(insns[pc]) <= 0,
                None => true,
            },
{
    let st = choose|st: Seq<Seq<bool>>| init_certificate(insns, st);
    assert forall|pc: int| 0 <= pc < insns.len() implies written_reg(#[trigger] insns[pc]) != Some(
        BpfReg::R10,
    ) && match stack_off(insns[pc]) {
        Some(o) => -(STACK_SIZE as int) <= o && o + access_len(insns[pc]) <= 0,
        None => true,
    } by {
        assert(spec_check_insn(insns[pc], pc as usize, st[pc]) is Ok);
        lemma_check_ok_stack(insns[pc], pc as usize, st[pc]);
    }
}

/// Does `insn` read register `r`?
pub open spec fn reads_reg(insn: Insn, r: BpfReg) -> bool {
    match insn {
        Insn::Alu64 { op, dst, src } | Insn::Alu32 { op, dst, src } => src == Source::Reg(r) || (op
            != AluOp::Mov && dst == r),
        Insn::Load { src, .. } => src == r,
        Insn::StoreReg { dst, src, .. } | Insn::Atomic { dst, src, .. } => dst == r || src == r,
        Insn::StoreImm { dst, .. } | Insn::Endian { dst, .. } => dst == r,
        Insn::JmpCond { dst, src, .. } | Insn::JmpCond32 { dst, src, .. } => dst == r || src
            == Source::Reg(r),
        Insn::Exit => r == BpfReg::R0,
        _ => false,
    }
}

/// The register an instruction defines: its destination, or R0 for the
/// result of a helper call.
pub open spec fn defined_reg(insn: Insn) -> Option<BpfReg> {
    match insn {
        Insn::Call { .. } => Some(BpfReg::R0),
        _ => written_reg(insn),
    }
}

/// The registers written by the first `env.len()` steps of a run from
/// `s0` at the entry, R1 (context) and R10 (frame pointer) being set on
/// entry; entry `i` is for register number `i`.
pub open spec fn run_written(s0: MachineState, insns: Seq<Insn>, env: Seq<(usize, bool)>) -> Seq<bool>
    decreases env.len(),
{
    if env.len() == 0 {
        entry_mask()
    } else {
        let prev = env.drop_last();
        let s = spec_run(s0, insns, prev);
        let w = run_written(s0, insns, prev);
        if stopped(s, insns) {
            w
        } else {
            match defined_reg(insns[s.pc as int]) {
                Some(r) => w.update(r.spec_index() as int, true),
                None => w,
            }
        }
    }
}

/// From a running state, the interpreter moves to a successor of the
/// current instruction, unless it stops.
proof fn lemma_step_follows_cfg(insns: Seq<Insn>, s: MachineState, a: usize, le: bool)
    requires
        crate::verify::branches_in_bounds(insns),
        insns.len() <= isize::MAX / 2,
        !stopped(s, insns),
    ensures
        ({
            let t = spec_step(s, insns, a, le).0;
            !stopped(t, insns) ==> is_succ(insns, s.pc as int, t.pc as int)
        }),
{
    assert(!crate::verify::branch_oob(insns, s.pc as int));
}

/// An instruction that passes the verifier's rule in `m` reads only
/// registers of `m`, and leaves a state within `m` plus what it defines.
proof fn lemma_check_within_written(insn: Insn, pc: usize, m: Seq<bool>, w: Seq<bool>)
    requires
        spec_check_insn(insn, pc, m) is Ok,
        m.len() == NUM_REGS,
        w.len() == NUM_REGS,
        mask_le(m, w),
    ensures
        forall|r: BpfReg| #[trigger] reads_reg(insn, r) ==> w[r.spec_index() as int],
        mask_le(
            spec_check_insn(insn, pc, m)->Ok_0,
            match defined_reg(insn) {
                Some(r) => w.update(r.spec_index() as int, true),
                None => w,
            },
        ),
{
    assert forall|r: BpfReg| #[trigger] reads_reg(insn, r) implies w[r.spec_index() as int] by {
        assert(m[r.spec_index() as int]);
    }
}

/// Along a run of a certified program, the certificate's registers at the
/// current instruction have all been written.
proof fn lemma_certificate_within_written(
    s0: MachineState,
    insns: Seq<Insn>,
    st: Seq<Seq<bool>>,
    env: Seq<(usize, bool)>,
)
    requires
        s0.pc == 0,
        init_certificate(insns, st),
        crate::verify::branches_in_bounds(insns),
        insns.len() <= isize::MAX / 2,
    ensures
        run_written(s0, insns, env).len() == NUM_REGS,
        ({
            let s = spec_run(s0, insns, env);
            !stopped(s, insns) ==> mask_le(st[s.pc as int], run_written(s0, insns, env))
        }),
    decreases env.len(),
{
    if env.len() > 0 {
        let prev = env.drop_last();
        lemma_certificate_within_written(s0, insns, st, prev);
        let s = spec_run(s0, insns, prev);
        let w = run_written(s0, insns, prev);
        if !stopped(s, insns) {
            let pc = s.pc as int;
            let insn = insns[pc];
            assert(spec_check_insn(insn, pc as usize, st[pc]) is Ok);
            lemma_check_within_written(insn, pc as usize, st[pc], w);
            lemma_step_follows_cfg(insns, s, env.last().0, env.last().1);
            let t = spec_run(s0, insns, env);
            assert(t == spec_step(s, insns, env.last().0, env.last().1).0);
            if !stopped(t, insns) {
                assert(is_succ(insns, pc, t.pc as int));
                let out = spec_check_insn(insn, pc as usize, st[pc])->Ok_0;
                assert(mask_le(st[t.pc as int], out));
            }
        }
    } else {
    }
}

/// Two lowerings of one program under one target's register map have the
/// same instruction stream.
proof fn lemma_lowered_stream_unique(
    insns: Seq<Insn>,
    target: Target,
    rm1: RegMap,
    p1: IrProgram,
    rm2: RegMap,
    p2: IrProgram,
)
    requires
        target_regmap(target, rm1),
        target_regmap(target, rm2),
        lowered_program(insns, rm1, p1),
        lowered_program(insns, rm2, p2),
    ensures
        program_stream(p1.blocks@) == program_stream(p2.blocks@),
        p1.frame_size == p2.frame_size,
        p1.blocks@.len() == p2.blocks@.len(),
        forall|k: int|
            0 <= k < p1.blocks@.len() ==> (#[trigger] p1.blocks@[k]).id == p2.blocks@[k].id
                && p1.blocks@[k].nodes@ == p2.blocks@[k].nodes@,
{
    assert forall|i: int| 0 <= i < NUM_REGS implies rm1.map[i] == rm2.map[i] by {
        match target {
            Target::AArch64 => {
                assert(rm1.map@[i] == PhysReg(spec_aarch64_map()[i]));
                assert(rm2.map@[i] == PhysReg(spec_aarch64_map()[i]));
            },
            Target::RiscV64 => {
                assert(rm1.map@[i] == PhysReg(spec_riscv64_map()[i]));
                assert(rm2.map@[i] == PhysReg(spec_riscv64_map()[i]));
            },
        }
    }
    assert(rm1.map =~= rm2.map);
    assert(rm1 == rm2);
    lemma_stream_eq(p1.blocks@, p2.blocks@);
}

proof fn lemma_stream_eq(b1: Seq<IrBasicBlock>, b2: Seq<IrBasicBlock>)
    requires
        b1.len() == b2.len(),
        forall|k: int|
            0 <= k < b1.len() ==> (#[trigger] b1[k]).id == b2[k].id && b1[k].nodes@ == b2[k].nodes@,
    ensures
        program_stream(b1) == program_stream(b2),
    decreases b1.len(),
{
    if b1.len() > 0 {
        lemma_stream_eq(b1.drop_last(), b2.drop_last());
        assert(b1.last().id == b2.last().id);
        assert(b1.last().nodes@ == b2.last().nodes@);
    }
}

/// Without tail calls the verifier's leaders and the lowering's leaders
/// coincide, so they count the same blocks.
proof fn lemma_leader_counts(insns: Seq<Insn>, k: int)
    requires
        0 <= k <= insns.len(),
        forall|i: int| 0 <= i < insns.len() ==> !(#[trigger] insns[i] is TailCall),
    ensures
        ir_leaders(insns, k).len() == count_leaders(insns, k),
    decreases k,
{
    if k > 0 {
        lemma_leader_counts(insns, k - 1);
        if k - 1 > 0 {
            assert(!(insns[k - 2] is TailCall));
        }
        assert(ir_leader(insns, k - 1) == is_leader(insns, k - 1));
    }
}

/// For a program without tail calls, the block count that `compile`
/// reports (the verifier's) is the number of blocks of the IR it lowered
/// to. (A tail call ends an IR block but not a verifier block.)
pub proof fn lemma_num_blocks_is_ir_blocks(raw: Seq<RawInsn>, target: Target, out: JitOutput)
    requires
        compiled(raw, target, Ok(out)),
        spec_decode_program(raw) is Ok,
        forall|i: int|
            0 <= i < spec_decode_program(raw)->Ok_0.len() ==> !(
            #[trigger] spec_decode_program(raw)->Ok_0[i] is TailCall),
    ensures
        out.num_blocks == out.ir.blocks@.len(),
{
    let insns = spec_decode_program(raw)->Ok_0;
    let rm = choose|rm: RegMap| target_regmap(target, rm) && lowered_program(insns, rm, out.ir);
    lemma_leader_counts(insns, insns.len() as int);
}

/// The IR of a program that `compile` accepts: one block per basic block
/// the verifier counts, numbered in order; every branch and jump names one
/// of the blocks; and a frame whose size is a multiple of 16 bytes and
/// reaches down to every R10-relative offset.
pub proof fn lemma_compiled_ir(raw: Seq<RawInsn>, target: Target, out: JitOutput)
    requires
        compiled(raw, target, Ok(out)),
    ensures
        spec_decode_program(raw) is Ok,
        out.num_blocks == out.ir.blocks@.len(),
        forall|k: int|
            0 <= k < out.ir.blocks@.len() ==> (#[trigger] out.ir.blocks@[k]).id == BasicBlockId(
                k as u32,
            ),
        forall|k: int, j: int|
            0 <= k < out.ir.blocks@.len() && 0 <= j < out.ir.blocks@[k].nodes@.len() ==> match node_target(
                #[trigger] out.ir.blocks@[k].nodes@[j],
            ) {
                Some(t) => (t.0 as int) < out.ir.blocks@.len(),
                None => true,
            },
        out.ir.frame_size % 16 == 0,
        forall|pc: int|
            0 <= pc < spec_decode_program(raw)->Ok_0.len() ==> match stack_off(
                #[trigger] spec_decode_program(raw)->Ok_0[pc],
            ) {
                Some(o) => out.ir.frame_size >= -o,
                None => true,
            },
{
    let insns = spec_decode_program(raw)->Ok_0;
    let rm = choose|rm: RegMap| target_regmap(target, rm) && lowered_program(insns, rm, out.ir);
    lemma_decoded_no_tail_call(raw);
    lemma_num_blocks_is_ir_blocks(raw, target, out);
    lemma_verified_lowerable(insns);
    lemma_lowered_targets_in_range(insns, rm, out.ir);
    lemma_frame_size_facts(insns);
    lemma_verified_frame_safety(insns);
    assert forall|pc: int| 0 <= pc < insns.len() implies match stack_off(#[trigger] insns[pc]) {
        Some(o) => out.ir.frame_size >= -o,
        None => true,
    } by {
        match stack_off(insns[pc]) {
            Some(o) => {
                assert(-(STACK_SIZE as int) <= o && o + access_len(insns[pc]) <= 0);
                assert(frame_need(o) == -o);
            },
            None => {},
        }
    }
}

/// `compile` and `compile_sized` agree: two results that `compiled`
/// admits for one program and target either both succeed, with the same
/// code, block count and IR block for block, or both fail with the same
/// error.
#[verifier::spinoff_prover]
#[verifier::rlimit(40)]
pub proof fn lemma_compiled_agree(
    raw: Seq<RawInsn>,
    target: Target,
    r1: Result<JitOutput, JitError>,
    r2: Result<JitOutput, JitError>,
)
    requires
        compiled(raw, target, r1),
        compiled(raw, target, r2),
    ensures
        r1 is Ok <==> r2 is Ok,
        (r1 matches Err(JitError::Decode(_))) <==> (r2 matches Err(JitError::Decode(_))),
        (r1 matches Err(JitError::Verify(_))) <==> (r2 matches Err(JitError::Verify(_))),
        r1 matches Ok(o1) ==> (r2 matches Ok(o2) && o1.code@ == o2.code@ && o1.num_blocks
            == o2.num_blocks && o1.ir.frame_size == o2.ir.frame_size && o1.ir.blocks@.len()
            == o2.ir.blocks@.len() && forall|k: int|
            0 <= k < o1.ir.blocks@.len() ==> (#[trigger] o1.ir.blocks@[k]).id == o2.ir.blocks@[k].id
                && o1.ir.blocks@[k].nodes@ == o2.ir.blocks@[k].nodes@),
        r1 is Err ==> r1 == r2,
{
    match spec_decode_program(raw) {
        Err(_) => {},
        Ok(insns) => {
            match (r1, r2) {
                (Ok(o1), Ok(o2)) => {
                    let rm1 = choose|rm: RegMap| target_regmap(target, rm) && lowered_program(insns, rm, o1.ir);
                    let rm2 = choose|rm: RegMap| target_regmap(target, rm) && lowered_program(insns, rm, o2.ir);
                    lemma_lowered_stream_unique(insns, target, rm1, o1.ir, rm2, o2.ir);
                    assert(o1.code@ == o2.code@);
                },
                (Ok(o1), Err(e)) => {
                    lemma_ok_excludes_emit_err(insns, target, o1, e);
                },
                (Err(e), Ok(o2)) => {
                    lemma_ok_excludes_emit_err(insns, target, o2, e);
                },
                (Err(e1), Err(e2)) => {
                    if !(e1 is Verify) && !(e2 is Verify) {
                        let (p1, rm1) = choose|p: IrProgram, rm: RegMap|
                            target_regmap(target, rm) && lowered_program(insns, rm, p) && emitted(
                                target,
                                p.blocks@,
                                Err(e1),
                            );
                        let (p2, rm2) = choose|p: IrProgram, rm: RegMap|
                            target_regmap(target, rm) && lowered_program(insns, rm, p) && emitted(
                                target,
                                p.blocks@,
                                Err(e2),
                            );
                        lemma_lowered_stream_unique(insns, target, rm1, p1, rm2, p2);
                        lemma_emit_err_unique(target, p1.blocks@, p2.blocks@, e1, e2);
                    }
                },
            }
        },
    }
}

/// An emission error is determined by the instruction stream: it is the
/// first relocation out of range.
proof fn lemma_emit_err_unique(
    target: Target,
    b1: Seq<IrBasicBlock>,
    b2: Seq<IrBasicBlock>,
    e1: JitError,
    e2: JitError,
)
    requires
        program_stream(b1) == program_stream(b2),
        emitted(target, b1, Err(e1)),
        emitted(target, b2, Err(e2)),
    ensures
        e1 == e2,
{
    match target {
        Target::AArch64 => {
            let s = aarch64::emit_all(EmitState::empty(), program_stream(b1));
            let n = s.relocs.len() as int;
            let k1 = choose|k: int|
                0 <= k < n && aarch64::resolves_upto(s, k) && !aarch64::reloc_resolves(
                    s,
                    #[trigger] s.relocs[k],
                ) && e1 == JitError::EmitAArch64(
                    AArch64EmitError::RelocationOutOfRange { bb: s.relocs[k].target },
                );
            let k2 = choose|k: int|
                0 <= k < n && aarch64::resolves_upto(s, k) && !aarch64::reloc_resolves(
                    s,
                    #[trigger] s.relocs[k],
                ) && e2 == JitError::EmitAArch64(
                    AArch64EmitError::RelocationOutOfRange { bb: s.relocs[k].target },
                );
            if k1 < k2 {
                assert(aarch64::reloc_resolves(s, s.relocs[k1]));
            } else if k2 < k1 {
                assert(aarch64::reloc_resolves(s, s.relocs[k2]));
            }
        },
        Target::RiscV64 => {
            let s = riscv::emit_all(EmitState::empty(), program_stream(b1));
            let n = s.relocs.len() as int;
            let k1 = choose|k: int|
                0 <= k < n && riscv::resolves_upto(s, k) && !riscv::reloc_resolves(
                    s,
                    #[trigger] s.relocs[k],
                ) && e1 == JitError::EmitRiscV(
                    RiscVEmitError::RelocationOutOfRange { bb: s.relocs[k].target },
                );
            let k2 = choose|k: int|
                0 <= k < n && riscv::resolves_upto(s, k) && !riscv::reloc_resolves(
                    s,
                    #[trigger] s.relocs[k],
                ) && e2 == JitError::EmitRiscV(
                    RiscVEmitError::RelocationOutOfRange { bb: s.relocs[k].target },
                );
            if k1 < k2 {
                assert(riscv::reloc_resolves(s, s.relocs[k1]));
            } else if k2 < k1 {
                assert(riscv::reloc_resolves(s, s.relocs[k2]));
            }
        },
    }
}

/// A successful compilation of a program leaves no room for an emission
/// error on it: both would come from the same instruction stream.
proof fn lemma_ok_excludes_emit_err(insns: Seq<Insn>, target: Target, o: JitOutput, e: JitError)
    requires
        exists|rm: RegMap| target_regmap(target, rm) && lowered_program(insns, rm, o.ir),
        emitted(target, o.ir.blocks@, Ok(o.code)),
    ensures
        !exists|p: IrProgram, rm: RegMap|
            target_regmap(target, rm) && lowered_program(insns, rm, p) && emitted(
                target,
                p.blocks@,
                Err(e),
            ),
{
    if exists|p: IrProgram, rm: RegMap|
        target_regmap(target, rm) && lowered_program(insns, rm, p) && emitted(
            target,
            p.blocks@,
            Err(e),
        ) {
        let rm1 = choose|rm: RegMap| target_regmap(target, rm) && lowered_program(insns, rm, o.ir);
        let (p, rm2) = choose|p: IrProgram, rm: RegMap|
            target_regmap(target, rm) && lowered_program(insns, rm, p) && emitted(
                target,
                p.blocks@,
                Err(e),
            );
        lemma_lowered_stream_unique(insns, target, rm1, o.ir, rm2, p);
    }
}

/// Along a run of a verified program each step moves forward: after
/// `env.len()` steps the machine has stopped or is at least that far in.
proof fn lemma_verified_progress(s0: MachineState, insns: Seq<Insn>, env: Seq<(usize, bool)>)
    requires
        s0.pc == 0,
        verified_safe(insns),
        insns.len() <= isize::MAX / 2,
    ensures
        ({
            let s = spec_run(s0, insns, env);
            stopped(s, insns) || s.pc >= env.len()
        }),
    decreases env.len(),
{
    if env.len() > 0 {
        let prev = env.drop_last();
        lemma_verified_progress(s0, insns, prev);
        let s = spec_run(s0, insns, prev);
        if !stopped(s, insns) {
            lemma_step_follows_cfg(insns, s, env.last().0, env.last().1);
            assert(!crate::verify::back_edge(insns, s.pc as int));
        }
    }
}

/// Verified programs terminate: the verifier refuses every backward jump,
/// so from any state at the entry and whatever the environment the
/// interpreter has stopped, at EXIT, at a
/// tail call or past the end, once it has taken as many steps as the
/// program has instructions.
pub proof fn lemma_verified_terminates(s0: MachineState, insns: Seq<Insn>, env: Seq<(usize, bool)>)
    requires
        s0.pc == 0,
        verified_safe(insns),
        insns.len() <= isize::MAX / 2,
        env.len() >= insns.len(),
    ensures
        stopped(spec_run(s0, insns, env), insns),
{
    lemma_verified_progress(s0, insns, env);
}

/// Along every run of a verified program from the entry, each instruction
/// reached reads only registers that the run has already written, R1 and
/// R10 counting as written on entry: no read of an uninitialized register.
pub proof fn lemma_verified_runs_read_written(
    s0: MachineState,
    insns: Seq<Insn>,
    env: Seq<(usize, bool)>,
    r: BpfReg,
)
    requires
        s0.pc == 0,
        verified_safe(insns),
        insns.len() <= isize::MAX / 2,
    ensures
        ({
            let s = spec_run(s0, insns, env);
            !stopped(s, insns) && reads_reg(insns[s.pc as int], r) ==> run_written(s0, insns, env)[r.spec_index() as int]
        }),
{
    let st = choose|st: Seq<Seq<bool>>| init_certificate(insns, st);
    lemma_certificate_within_written(s0, insns, st, env);
    let s = spec_run(s0, insns, env);
    if !stopped(s, insns) {
        let pc = s.pc as int;
        assert(spec_check_insn(insns[pc], pc as usize, st[pc]) is Ok);
        lemma_check_within_written(insns[pc], pc as usize, st[pc], run_written(s0, insns, env));
    }
}

/// The targets of the nodes lowered from `[a, b)` are block indices.
proof fn lemma_lowered_range_targets(insns: Seq<Insn>, rm: RegMap, fs: u16, a: int, b: int)
    requires
        lowerable(insns),
        0 <= a <= b <= insns.len(),
    ensures
        forall|j: int|
            0 <= j < lowered_range(insns, rm, fs, a, b).len() ==> match node_target(
                #[trigger] lowered_range(insns, rm, fs, a, b)[j],
            ) {
                Some(t) => (t.0 as int) < ir_leaders(insns, insns.len() as int).len(),
                None => true,
            },
    decreases b - a,
{
    let n = insns.len() as int;
    let big = ir_leaders(insns, n).len();
    if a < b {
        lemma_lowered_range_targets(insns, rm, fs, a, b - 1);
        let pre = lowered_range(insns, rm, fs, a, b - 1);
        let last = lower_insn(insns, rm, fs, b - 1);
        assert(lowered_range(insns, rm, fs, a, b) == pre + last);
        let pc = b - 1;
        assert(!crate::verify::branch_oob(insns, pc));
        match crate::verify::branch_off(insns[pc]) {
            Some(off) => {
                let t = crate::verify::target_of(pc, off);
                lemma_leaders_basic(insns, t + 1);
                crate::regalloc::lemma_leaders_prefix(insns, t + 1, n);
                lemma_leaders_basic(insns, n);
                assert(0 <= crate::regalloc::block_id_at(insns, t) < big);
            },
            None => {},
        }
        assert forall|j: int| 0 <= j < (pre + last).len() implies match node_target(
            #[trigger] (pre + last)[j],
        ) {
            Some(t) => (t.0 as int) < big,
            None => true,
        } by {
            if j >= pre.len() {
                assert((pre + last)[j] == last[j - pre.len()]);
            }
        }
    }
}

/// Every branch and jump of a lowered program targets one of its blocks:
/// out-of-range jumps cannot be expressed in the IR.
pub proof fn lemma_lowered_targets_in_range(insns: Seq<Insn>, rm: RegMap, p: IrProgram)
    requires
        lowered_program(insns, rm, p),
        lowerable(insns),
    ensures
        forall|k: int, j: int|
            0 <= k < p.blocks@.len() && 0 <= j < p.blocks@[k].nodes@.len() ==> match node_target(
                #[trigger] p.blocks@[k].nodes@[j],
            ) {
                Some(t) => (t.0 as int) < p.blocks@.len(),
                None => true,
            },
{
    let n = insns.len() as int;
    let l = ir_leaders(insns, n);
    let fs = spec_frame_size(insns);
    lemma_leaders_basic(insns, n);
    lemma_leaders_sorted(insns, n);
    assert forall|k: int, j: int|
        0 <= k < p.blocks@.len() && 0 <= j < p.blocks@[k].nodes@.len() implies match node_target(
        #[trigger] p.blocks@[k].nodes@[j],
    ) {
        Some(t) => (t.0 as int) < p.blocks@.len(),
        None => true,
    } by {
        let end = if k + 1 < l.len() {
            l[k + 1]
        } else {
            n
        };
        assert(0 <= l[k] <= end <= n);
        lemma_lowered_range_targets(insns, rm, fs, l[k], end);
        let lr = lowered_range(insns, rm, fs, l[k], end);
        let pro = if k == 0 && fs > 0 {
            seq![IrNode::Prologue { frame_size: fs }]
        } else {
            Seq::empty()
        };
        assert(p.blocks@[k].nodes@ == pro + lr);
        if j >= pro.len() {
            assert((pro + lr)[j] == lr[j - pro.len()]);
        }
    }
}

/// The number of basic blocks does not depend on the target.
pub proof fn lemma_num_blocks_target_independent(
    raw: Seq<RawInsn>,
    a: JitOutput,
    b: JitOutput,
    ta: Target,
    tb: Target,
)
    requires
        compiled(raw, ta, Ok(a)),
        compiled(raw, tb, Ok(b)),
    ensures
        a.num_blocks == b.num_blocks,
{
}

/// A lowered program is closed: its blocks are numbered in order, hold no
/// labels, and branch only to its own blocks.
pub proof fn lemma_lowered_closed(insns: Seq<Insn>, rm: RegMap, p: IrProgram)
    requires
        lowered_program(insns, rm, p),
        lowerable(insns),
    ensures
        blocks_closed(p.blocks@),
{
    let n = insns.len() as int;
    let l = ir_leaders(insns, n);
    let fs = spec_frame_size(insns);
    lemma_leaders_basic(insns, n);
    lemma_leaders_sorted(insns, n);
    lemma_lowered_targets_in_range(insns, rm, p);
    assert forall|k: int, j: int|
        0 <= k < p.blocks@.len() && 0 <= j < p.blocks@[k].nodes@.len() implies !(
    #[trigger] p.blocks@[k].nodes@[j] is Label) by {
        let end = if k + 1 < l.len() {
            l[k + 1]
        } else {
            n
        };
        lemma_lowered_range_shape(insns, rm, fs, l[k], end);
        let lr = lowered_range(insns, rm, fs, l[k], end);
        let pro = if k == 0 && fs > 0 {
            seq![IrNode::Prologue { frame_size: fs }]
        } else {
            Seq::empty()
        };
        assert(p.blocks@[k].nodes@ == pro + lr);
        if j >= pro.len() {
            assert((pro + lr)[j] == lr[j - pro.len()]);
        }
    }
}

/// The largest program (in instructions) each target is sure to compile.
pub open spec fn sure_to_compile(target: Target) -> int {
    match target {
        Target::AArch64 => 15000,
        Target::RiscV64 => 48,
    }
}

/// A program the decoder and the verifier accept compiles: for a program
/// of up to `sure_to_compile(target)` instructions, emission cannot fail,
/// since every branch targets a block of the program and every
/// displacement is within the branch's reach.
pub proof fn lemma_verified_programs_compile(
    raw: Seq<RawInsn>,
    target: Target,
    r: Result<JitOutput, JitError>,
)
    requires
        compiled(raw, target, r),
        spec_decode_program(raw) is Ok,
        spec_decode_program(raw)->Ok_0.len() <= sure_to_compile(target),
    ensures
        !(r matches Err(JitError::EmitAArch64(_))),
        !(r matches Err(JitError::EmitRiscV(_))),
{
    let insns = spec_decode_program(raw)->Ok_0;
    match r {
        Err(e) => {
            if !(e is Verify) && !(e is Decode) {
                let (p, rm) = choose|p: IrProgram, rm: RegMap|
                    target_regmap(target, rm) && lowered_program(insns, rm, p) && emitted(
                        target,
                        p.blocks@,
                        Err(e),
                    );
                lemma_verified_lowerable(insns);
                lemma_lowered_closed(insns, rm, p);
                lemma_lowered_size(insns, rm, p);
                lemma_size_units_total(p.blocks@);
                match target {
                    Target::AArch64 => {
                        aarch64::lemma_closed_program_resolves(p.blocks@);
                    },
                    Target::RiscV64 => {
                        riscv::lemma_closed_program_resolves(p.blocks@);
                    },
                }
            }
        },
        Ok(_) => {},
    }
}

} // verus!
