//! eBPF static verifier.
//!
//! Constructs a CFG from decoded instructions, performs dataflow analysis
//! to track register initialization, and enforces safety invariants:
//!
//! - No reads from uninitialized registers
//! - All branches target valid instruction indices
//! - Stack accesses through R10 stay within the 512-byte frame
//! - No write to the frame pointer R10
//! - No unreachable code
//! - Programs must terminate: no backward jump (back edge), so no loop
//!
//! Without back edges one forward pass of the dataflow analysis over the
//! blocks in order is final. A program is accepted exactly when it
//! satisfies `verified_safe`, and `verify_program` returns exactly
//! `spec_verify`: the analysis over blocks agrees with `flow`, the same
//! analysis stated instruction by instruction.
use vstd::prelude::*;

use crate::isa::{AluOp, BpfReg, Insn, MemWidth, Source, NUM_REGS, STACK_SIZE};

verus! {

#[derive(Debug, Clone, Copy, PartialEq, Eq, Structural)]
pub enum VerifyError {
    BranchOutOfBounds { pc: usize, target: isize },
    UninitializedRegRead { pc: usize, reg: BpfReg },
    StackOutOfBounds { pc: usize, offset: i16 },
    WriteToR10 { pc: usize },
    NoExitInstruction,
    UnreachableCode { pc: usize },
    BackEdgeBudgetExceeded { pc: usize },
    FallthroughAfterExit { pc: usize },
    EmptyProgram,
}

// ---------------------------------------------------------------------------
// Control flow, as spec functions
// ---------------------------------------------------------------------------

/// The offset of a jump instruction, if it is one.
pub open spec fn branch_off(insn: Insn) -> Option<i16> {
    match insn {
        Insn::Ja { off } => Some(off),
        Insn::JmpCond { off, .. } => Some(off),
        Insn::JmpCond32 { off, .. } => Some(off),
        _ => None,
    }
}

/// Absolute target of a relative jump at `pc`.
pub open spec fn target_of(pc: int, off: i16) -> int {
    pc + 1 + off
}

/// Does the jump at `pc` leave the program?
pub open spec fn branch_oob(insns: Seq<Insn>, pc: int) -> bool {
    match branch_off(insns[pc]) {
        Some(off) => target_of(pc, off) < 0 || target_of(pc, off) >= insns.len(),
        None => false,
    }
}

/// The jump at `pc`, if it is one, goes backward (to itself or earlier):
/// a back edge, through which a program could loop forever.
pub open spec fn back_edge(insns: Seq<Insn>, pc: int) -> bool {
    match branch_off(insns[pc]) {
        Some(off) => off < 0,
        None => false,
    }
}

/// Every jump goes forward, so every run ends.
pub open spec fn loop_free(insns: Seq<Insn>) -> bool {
    forall|pc: int| 0 <= pc < insns.len() ==> !#[trigger] back_edge(insns, pc)
}

/// The first back edge is the jump at `pc`.
pub open spec fn first_back_edge(insns: Seq<Insn>, pc: int) -> bool {
    &&& 0 <= pc < insns.len()
    &&& back_edge(insns, pc)
    &&& forall|q: int| 0 <= q < pc ==> !#[trigger] back_edge(insns, q)
}

pub open spec fn branches_in_bounds(insns: Seq<Insn>) -> bool {
    forall|pc: int| 0 <= pc < insns.len() ==> !#[trigger] branch_oob(insns, pc)
}

/// The first out-of-bounds jump is the one at `pc`.
pub open spec fn first_oob(insns: Seq<Insn>, pc: int) -> bool {
    &&& 0 <= pc < insns.len()
    &&& branch_oob(insns, pc)
    &&& forall|q: int| 0 <= q < pc ==> !#[trigger] branch_oob(insns, q)
}

/// Instructions after which a new basic block starts.
pub open spec fn ends_block(insn: Insn) -> bool {
    match insn {
        Insn::Ja { .. } | Insn::JmpCond { .. } | Insn::JmpCond32 { .. } | Insn::Exit => true,
        _ => false,
    }
}

/// The instruction at `p` is a jump to `i`.
pub open spec fn jumps_to(insns: Seq<Insn>, p: int, i: int) -> bool {
    match branch_off(insns[p]) {
        Some(off) => target_of(p, off) == i,
        None => false,
    }
}

/// Some jump in the program targets `i`.
pub open spec fn is_jump_target(insns: Seq<Insn>, i: int) -> bool {
    exists|p: int| 0 <= p < insns.len() && #[trigger] jumps_to(insns, p, i)
}

/// Basic-block leaders: the entry, every jump target, and every
/// instruction following a jump or an exit.
pub open spec fn is_leader(insns: Seq<Insn>, i: int) -> bool {
    0 <= i < insns.len() && (i == 0 || ends_block(insns[i - 1]) || is_jump_target(insns, i))
}

/// Number of leaders among the first `k` instructions.
pub open spec fn count_leaders(insns: Seq<Insn>, k: int) -> nat
    decreases k,
{
    if k <= 0 {
        0
    } else {
        count_leaders(insns, k - 1) + if is_leader(insns, k - 1) {
            1nat
        } else {
            0nat
        }
    }
}

/// Instruction-level control flow: may control pass from `pc` to `q`?
pub open spec fn is_succ(insns: Seq<Insn>, pc: int, q: int) -> bool {
    match insns[pc] {
        Insn::Ja { off } => q == target_of(pc, off),
        Insn::JmpCond { off, .. } | Insn::JmpCond32 { off, .. } => q == target_of(pc, off) || (q
            == pc + 1 && pc + 1 < insns.len()),
        Insn::Exit => false,
        _ => q == pc + 1 && pc + 1 < insns.len(),
    }
}

/// Instructions that simply continue with the next one.
pub open spec fn falls_through(insn: Insn) -> bool {
    !ends_block(insn) && !(insn is TailCall)
}

// ---------------------------------------------------------------------------
// Register initialization, as spec functions
// ---------------------------------------------------------------------------

/// Registers known to be initialized at program entry: R1 (context) and R10
/// (frame pointer).
pub open spec fn entry_mask() -> Seq<bool> {
    Seq::new(NUM_REGS as nat, |i: int| i == 1 || i == 10)
}

pub open spec fn mask_le(a: Seq<bool>, b: Seq<bool>) -> bool {
    forall|r: int| 0 <= r < NUM_REGS ==> #[trigger] a[r] ==> b[r]
}

pub open spec fn reg_init(m: Seq<bool>, r: BpfReg) -> bool {
    m[r.spec_index() as int]
}

pub open spec fn with_init(m: Seq<bool>, r: BpfReg) -> Seq<bool> {
    m.update(r.spec_index() as int, true)
}

/// A helper call defines R0 and clobbers R1..R5.
pub open spec fn after_call(m: Seq<bool>) -> Seq<bool> {
    Seq::new(
        NUM_REGS as nat,
        |i: int|
            if i == 0 {
                true
            } else if 1 <= i <= 5 {
                false
            } else {
                m[i]
            },
    )
}

/// The eBPF calling convention, as the verifier tracks it: a helper call
/// sets R0 (its result), leaves R1-R5 (argument registers, clobbered)
/// unset, and keeps the callee-saved R6-R9 and the frame pointer R10 as
/// they were.
pub proof fn lemma_call_convention(m: Seq<bool>)
    requires
        m.len() == NUM_REGS,
    ensures
        after_call(m).len() == NUM_REGS,
        after_call(m)[0],
        forall|i: int| 1 <= i <= 5 ==> !#[trigger] after_call(m)[i],
        forall|i: int| 6 <= i < NUM_REGS ==> #[trigger] after_call(m)[i] == m[i],
{
}

pub open spec fn src_uninit(m: Seq<bool>, src: Source) -> bool {
    src matches Source::Reg(r) && !reg_init(m, r)
}

pub open spec fn src_reg_of(src: Source) -> BpfReg {
    match src {
        Source::Reg(r) => r,
        Source::Imm(_) => BpfReg::R0,
    }
}

/// An R10-relative access of `width` bytes at `off` that does not lie
/// inside the frame `[-512, 0)`: its first byte below -512 or its last
/// byte at or above R10.
pub open spec fn stack_bad(base: BpfReg, off: i16, width: MemWidth) -> bool {
    base == BpfReg::R10 && (off + width.spec_byte_len() > 0 || off < -(STACK_SIZE as int))
}

pub open spec fn uninit(pc: usize, reg: BpfReg) -> VerifyError {
    VerifyError::UninitializedRegRead { pc, reg }
}

pub open spec fn check_alu(op: AluOp, dst: BpfReg, src: Source, pc: usize, m: Seq<bool>) -> Result<
    Seq<bool>,
    VerifyError,
> {
    if dst == BpfReg::R10 {
        Err(VerifyError::WriteToR10 { pc })
    } else if src_uninit(m, src) {
        Err(uninit(pc, src_reg_of(src)))
    } else if op != AluOp::Mov && !reg_init(m, dst) {
        Err(uninit(pc, dst))
    } else {
        Ok(with_init(m, dst))
    }
}

/// The per-instruction rule of the dataflow analysis: the first violation
/// the instruction commits in initialization state `m`, or the state after it.
pub open spec fn spec_check_insn(insn: Insn, pc: usize, m: Seq<bool>) -> Result<
    Seq<bool>,
    VerifyError,
> {
    match insn {
        Insn::Alu64 { op, dst, src } => check_alu(op, dst, src, pc, m),
        Insn::Alu32 { op, dst, src } => check_alu(op, dst, src, pc, m),
        Insn::Load { width, dst, src, off } => if dst == BpfReg::R10 {
            Err(VerifyError::WriteToR10 { pc })
        } else if !reg_init(m, src) {
            Err(uninit(pc, src))
        } else if stack_bad(src, off, width) {
            Err(VerifyError::StackOutOfBounds { pc, offset: off })
        } else {
            Ok(with_init(m, dst))
        },
        Insn::StoreReg { width, dst, src, off } => if !reg_init(m, dst) {
            Err(uninit(pc, dst))
        } else if !reg_init(m, src) {
            Err(uninit(pc, src))
        } else if stack_bad(dst, off, width) {
            Err(VerifyError::StackOutOfBounds { pc, offset: off })
        } else {
            Ok(m)
        },
        Insn::StoreImm { width, dst, off, .. } => if !reg_init(m, dst) {
            Err(uninit(pc, dst))
        } else if stack_bad(dst, off, width) {
            Err(VerifyError::StackOutOfBounds { pc, offset: off })
        } else {
            Ok(m)
        },
        Insn::LoadImm64 { dst, .. } => if dst == BpfReg::R10 {
            Err(VerifyError::WriteToR10 { pc })
        } else {
            Ok(with_init(m, dst))
        },
        Insn::JmpCond { dst, src, .. } | Insn::JmpCond32 { dst, src, .. } => if !reg_init(m, dst) {
            Err(uninit(pc, dst))
        } else if src_uninit(m, src) {
            Err(uninit(pc, src_reg_of(src)))
        } else {
            Ok(m)
        },
        Insn::Ja { .. } => Ok(m),
        Insn::Call { .. } => Ok(after_call(m)),
        Insn::TailCall => Ok(m),
        Insn::Exit => if !reg_init(m, BpfReg::R0) {
            Err(uninit(pc, BpfReg::R0))
        } else {
            Ok(m)
        },
        Insn::Atomic { width, dst, src, off, .. } => if !reg_init(m, dst) {
            Err(uninit(pc, dst))
        } else if !reg_init(m, src) {
            Err(uninit(pc, src))
        } else if stack_bad(dst, off, width) {
            Err(VerifyError::StackOutOfBounds { pc, offset: off })
        } else {
            Ok(m)
        },
        Insn::Endian { dst, .. } => if dst == BpfReg::R10 {
            Err(VerifyError::WriteToR10 { pc })
        } else if !reg_init(m, dst) {
            Err(uninit(pc, dst))
        } else {
            Ok(with_init(m, dst))
        },
    }
}

/// Run the per-instruction rule over `[from, to)`.
pub open spec fn sim(insns: Seq<Insn>, from: int, to: int, m: Seq<bool>) -> Result<
    Seq<bool>,
    VerifyError,
>
    decreases to - from,
{
    if from >= to {
        Ok(m)
    } else {
        match spec_check_insn(insns[from], from as usize, m) {
            Ok(m2) => sim(insns, from + 1, to, m2),
            Err(e) => Err(e),
        }
    }
}

/// An initialization certificate: one register state per instruction such
/// that the entry state is within {R1, R10}, every instruction passes the
/// rule in its state, and every successor's state is within the state the
/// instruction leaves behind. Along any run from the entry, the registers
/// of `st[pc]` have then been written whenever `pc` is reached (see
/// `lemma_verified_runs_read_written` in the engine).
pub open spec fn init_certificate(insns: Seq<Insn>, st: Seq<Seq<bool>>) -> bool {
    &&& st.len() == insns.len()
    &&& insns.len() > 0
    &&& mask_le(st[0], entry_mask())
    &&& forall|pc: int|
        0 <= pc < insns.len() ==> (#[trigger] st[pc]).len() == NUM_REGS && spec_check_insn(
            insns[pc],
            pc as usize,
            st[pc],
        ) is Ok
    &&& forall|pc: int, q: int|
        0 <= pc < insns.len() && 0 <= q < insns.len() && #[trigger] is_succ(insns, pc, q)
            ==> mask_le(st[q], spec_check_insn(insns[pc], pc as usize, st[pc])->Ok_0)
}

/// Instruction `pc` is entered from an instruction of smaller rank.
pub open spec fn has_closer_pred(insns: Seq<Insn>, rank: Seq<nat>, pc: int) -> bool {
    exists|q: int| 0 <= q < insns.len() && #[trigger] rank[q] < rank[pc] && is_succ(insns, q, pc)
}

/// A reachability witness: every instruction but the entry is entered from
/// one of strictly smaller rank, so it is reached from the entry.
pub open spec fn reach_witness(insns: Seq<Insn>, rank: Seq<nat>) -> bool {
    &&& rank.len() == insns.len()
    &&& forall|pc: int| 0 < pc < insns.len() ==> #[trigger] has_closer_pred(insns, rank, pc)
}

/// `path` follows control flow from the entry: it starts at instruction 0
/// and each step goes to a successor of the one before.
pub open spec fn entry_path(insns: Seq<Insn>, path: Seq<int>) -> bool {
    &&& path.len() > 0
    &&& path[0] == 0
    &&& forall|i: int| 0 <= i < path.len() ==> 0 <= #[trigger] path[i] < insns.len()
    &&& forall|i: int| 0 <= i < path.len() - 1 ==> is_succ(insns, #[trigger] path[i], path[i + 1])
}

/// Instruction `q` is reached from the entry along some path of control
/// flow.
pub open spec fn reachable(insns: Seq<Insn>, q: int) -> bool {
    exists|path: Seq<int>| entry_path(insns, path) && path.last() == q
}

/// `[0, k)` is a non-empty straight-line stretch at the entry: no
/// instruction after the first in it is a leader.
pub open spec fn straight_from_entry(insns: Seq<Insn>, k: int) -> bool {
    &&& 0 < k <= insns.len()
    &&& forall|j: int| 0 < j < k ==> !#[trigger] is_leader(insns, j)
}

/// What every program accepted by `verify_program` satisfies.
pub open spec fn verified_safe(insns: Seq<Insn>) -> bool {
    &&& insns.len() > 0
    &&& branches_in_bounds(insns)
    &&& loop_free(insns)
    &&& exists|pc: int| 0 <= pc < insns.len() && insns[pc] is Exit
    &&& !falls_through(insns[insns.len() - 1])
    &&& exists|st: Seq<Seq<bool>>| init_certificate(insns, st)
    &&& exists|rank: Seq<nat>| reach_witness(insns, rank)
}

proof fn lemma_witness_path(insns: Seq<Insn>, rank: Seq<nat>, pc: int) -> (path: Seq<int>)
    requires
        reach_witness(insns, rank),
        0 <= pc < insns.len(),
    ensures
        entry_path(insns, path),
        path.last() == pc,
    decreases rank[pc],
{
    if pc == 0 {
        seq![0int]
    } else {
        assert(has_closer_pred(insns, rank, pc));
        let q = choose|q: int|
            0 <= q < insns.len() && #[trigger] rank[q] < rank[pc] && is_succ(insns, q, pc);
        let pq = lemma_witness_path(insns, rank, q);
        let path = pq.push(pc);
        assert forall|i: int| 0 <= i < path.len() - 1 implies is_succ(
            insns,
            #[trigger] path[i],
            path[i + 1],
        ) by {
            if i < pq.len() - 1 {
                assert(path[i] == pq[i] && path[i + 1] == pq[i + 1]);
            } else {
                assert(path[i] == q && path[i + 1] == pc);
            }
        }
        assert forall|i: int| 0 <= i < path.len() implies 0 <= #[trigger] path[i] < insns.len() by {
            if i < pq.len() {
                assert(path[i] == pq[i]);
            }
        }
        path
    }
}

/// A reachability witness reaches every instruction.
proof fn lemma_rank_reachable(insns: Seq<Insn>, rank: Seq<nat>)
    requires
        reach_witness(insns, rank),
    ensures
        forall|q: int| 0 <= q < insns.len() ==> #[trigger] reachable(insns, q),
{
    assert forall|q: int| 0 <= q < insns.len() implies #[trigger] reachable(insns, q) by {
        let path = lemma_witness_path(insns, rank, q);
    }
}

/// Every instruction of a verified program is reached from the entry along
/// some path of control flow: the verifier leaves no unreachable code.
pub proof fn lemma_verified_reachable(insns: Seq<Insn>, pc: int)
    requires
        verified_safe(insns),
        0 <= pc < insns.len(),
    ensures
        exists|path: Seq<int>| entry_path(insns, path) && path.last() == pc,
{
    let rank = choose|rank: Seq<nat>| reach_witness(insns, rank);
    let path = lemma_witness_path(insns, rank, pc);
    assert(entry_path(insns, path) && path.last() == pc);
}

// ---------------------------------------------------------------------------
// The forward analysis, as spec functions
// ---------------------------------------------------------------------------

/// Every register set: the identity of `meet`.
pub open spec fn all_set() -> Seq<bool> {
    Seq::new(NUM_REGS as nat, |i: int| true)
}

/// The registers set in both states.
pub open spec fn meet(a: Seq<bool>, b: Seq<bool>) -> Seq<bool> {
    Seq::new(NUM_REGS as nat, |i: int| a[i] && b[i])
}

/// The state instruction `q` leaves when entered in state `m[q]`.
pub open spec fn flow_out(insns: Seq<Insn>, m: Seq<Seq<bool>>, q: int) -> Seq<bool> {
    spec_check_insn(insns[q], q as usize, m[q])->Ok_0
}

/// A reached instruction among the first `j` passes control to `pc`.
pub open spec fn has_pred(insns: Seq<Insn>, r: Seq<bool>, pc: int, j: int) -> bool {
    exists|q: int| 0 <= q < j && r[q] && #[trigger] is_succ(insns, q, pc)
}

/// The meet of the states that the reached instructions among the first
/// `j` leave for `pc`.
pub open spec fn pred_meet(insns: Seq<Insn>, r: Seq<bool>, m: Seq<Seq<bool>>, pc: int, j: int) -> Seq<
    bool,
>
    decreases j,
{
    if j <= 0 {
        all_set()
    } else if r[j - 1] && is_succ(insns, j - 1, pc) {
        meet(pred_meet(insns, r, m, pc, j - 1), flow_out(insns, m, j - 1))
    } else {
        pred_meet(insns, r, m, pc, j - 1)
    }
}

/// The forward analysis of the first `k` instructions, in order: for each
/// whether it is reached (the entry, or a successor of a reached one) and
/// the state it is entered in (the entry state, or the meet of what its
/// reached predecessors leave); or the first violation of the
/// per-instruction rule at a reached instruction.
pub open spec fn flow(insns: Seq<Insn>, k: int) -> Result<(Seq<bool>, Seq<Seq<bool>>), VerifyError>
    decreases k,
{
    if k <= 0 {
        Ok((Seq::empty(), Seq::empty()))
    } else {
        match flow(insns, k - 1) {
            Err(e) => Err(e),
            Ok((r, m)) => {
                let pc = k - 1;
                let reached = pc == 0 || has_pred(insns, r, pc, pc);
                let mi = if pc == 0 {
                    entry_mask()
                } else {
                    pred_meet(insns, r, m, pc, pc)
                };
                if reached && spec_check_insn(insns[pc], pc as usize, mi) is Err {
                    Err(spec_check_insn(insns[pc], pc as usize, mi)->Err_0)
                } else {
                    Ok((r.push(reached), m.push(mi)))
                }
            },
        }
    }
}

/// The first instruction that no path from the entry reaches is `q`.
pub open spec fn first_unreachable(insns: Seq<Insn>, q: int) -> bool {
    &&& 0 <= q < insns.len()
    &&& !reachable(insns, q)
    &&& forall|j: int| 0 <= j < q ==> #[trigger] reachable(insns, j)
}

/// What `verify_program` returns, check by check in its order: an empty
/// program; the first jump out of the program; the first backward jump;
/// the first violation of the forward analysis; the first unreachable
/// instruction; running off the end; no EXIT; else the number of basic
/// blocks.
pub open spec fn spec_verify(insns: Seq<Insn>) -> Result<usize, VerifyError> {
    let n = insns.len() as int;
    if n == 0 {
        Err(VerifyError::EmptyProgram)
    } else if !branches_in_bounds(insns) {
        let pc = choose|pc: int| first_oob(insns, pc);
        Err(
            VerifyError::BranchOutOfBounds {
                pc: pc as usize,
                target: target_of(pc, branch_off(insns[pc])->0) as isize,
            },
        )
    } else if !loop_free(insns) {
        Err(VerifyError::BackEdgeBudgetExceeded { pc: (choose|pc: int| first_back_edge(insns, pc)) as usize })
    } else {
        match flow(insns, n) {
            Err(e) => Err(e),
            Ok(_) => if exists|q: int| 0 <= q < n && !reachable(insns, q) {
                Err(VerifyError::UnreachableCode { pc: (choose|q: int| first_unreachable(insns, q)) as usize })
            } else if falls_through(insns[n - 1]) {
                Err(VerifyError::FallthroughAfterExit { pc: (n - 1) as usize })
            } else if !(exists|pc: int| 0 <= pc < n && insns[pc] is Exit) {
                Err(VerifyError::NoExitInstruction)
            } else {
                Ok(count_leaders(insns, n) as usize)
            },
        }
    }
}

/// Once the analysis fails, it fails the same way on longer prefixes.
proof fn lemma_flow_err(insns: Seq<Insn>, k: int, k2: int)
    requires
        0 <= k <= k2,
        flow(insns, k) is Err,
    ensures
        flow(insns, k2) == flow(insns, k),
    decreases k2 - k,
{
    if k < k2 {
        lemma_flow_err(insns, k, k2 - 1);
    }
}

/// `pred_meet` and `has_pred` read the first `j` entries only.
proof fn lemma_pm_ext(
    insns: Seq<Insn>,
    r1: Seq<bool>,
    m1: Seq<Seq<bool>>,
    r2: Seq<bool>,
    m2: Seq<Seq<bool>>,
    pc: int,
    j: int,
)
    requires
        forall|q: int| 0 <= q < j ==> r1[q] == r2[q] && m1[q] == m2[q],
    ensures
        pred_meet(insns, r1, m1, pc, j) == pred_meet(insns, r2, m2, pc, j),
        has_pred(insns, r1, pc, j) == has_pred(insns, r2, pc, j),
    decreases j,
{
    if j > 0 {
        lemma_pm_ext(insns, r1, m1, r2, m2, pc, j - 1);
    }
    if has_pred(insns, r1, pc, j) {
        let q = choose|q: int| 0 <= q < j && r1[q] && #[trigger] is_succ(insns, q, pc);
        assert(r2[q]);
    }
    if has_pred(insns, r2, pc, j) {
        let q = choose|q: int| 0 <= q < j && r2[q] && #[trigger] is_succ(insns, q, pc);
        assert(r1[q]);
    }
}

/// Entries in `[j1, j2)` that are not reached predecessors of `pc` change
/// nothing.
proof fn lemma_pm_skip(insns: Seq<Insn>, r: Seq<bool>, m: Seq<Seq<bool>>, pc: int, j1: int, j2: int)
    requires
        0 <= j1 <= j2,
        forall|q: int| j1 <= q < j2 ==> !(r[q] && #[trigger] is_succ(insns, q, pc)),
    ensures
        pred_meet(insns, r, m, pc, j2) == pred_meet(insns, r, m, pc, j1),
        has_pred(insns, r, pc, j2) == has_pred(insns, r, pc, j1),
    decreases j2 - j1,
{
    if j1 < j2 {
        lemma_pm_skip(insns, r, m, pc, j1, j2 - 1);
        assert(!(r[j2 - 1] && is_succ(insns, j2 - 1, pc)));
    }
    if has_pred(insns, r, pc, j2) {
        let q = choose|q: int| 0 <= q < j2 && r[q] && #[trigger] is_succ(insns, q, pc);
        assert(q < j1);
    }
}

/// One more entry: `has_pred` and `pred_meet` take it in.
proof fn lemma_pm_last(insns: Seq<Insn>, r: Seq<bool>, m: Seq<Seq<bool>>, pc: int, j: int)
    requires
        0 < j,
    ensures
        has_pred(insns, r, pc, j) == (has_pred(insns, r, pc, j - 1) || (r[j - 1] && is_succ(
            insns,
            j - 1,
            pc,
        ))),
{
    if has_pred(insns, r, pc, j) {
        let q = choose|q: int| 0 <= q < j && r[q] && #[trigger] is_succ(insns, q, pc);
    }
    if r[j - 1] && is_succ(insns, j - 1, pc) {
        assert(0 <= j - 1 < j && r[j - 1] && is_succ(insns, j - 1, pc));
    }
}

/// With no reached predecessor, the meet is `all_set`.
proof fn lemma_pm_none(insns: Seq<Insn>, r: Seq<bool>, m: Seq<Seq<bool>>, pc: int, j: int)
    requires
        0 <= j,
        !has_pred(insns, r, pc, j),
    ensures
        pred_meet(insns, r, m, pc, j) == all_set(),
{
    assert forall|q: int| 0 <= q < j implies !(r[q] && #[trigger] is_succ(insns, q, pc)) by {}
    lemma_pm_skip(insns, r, m, pc, 0, j);
}

/// Every error names an instruction that exhibits it; a register or
/// stack error names one that a path from the entry reaches, and
/// `UnreachableCode` one that no path reaches.
pub open spec fn error_witnessed(insns: Seq<Insn>, e: VerifyError) -> bool {
    match e {
        VerifyError::BranchOutOfBounds { pc, target } => first_oob(insns, pc as int)
            && jumps_to(insns, pc as int, target as int),
        VerifyError::UninitializedRegRead { pc, reg } => pc < insns.len() && reachable(
            insns,
            pc as int,
        ) && exists|m: Seq<bool>|
            spec_check_insn(insns[pc as int], pc, m) == Err::<Seq<bool>, VerifyError>(e),
        VerifyError::StackOutOfBounds { pc, offset } => pc < insns.len() && reachable(
            insns,
            pc as int,
        ) && exists|m: Seq<bool>|
            spec_check_insn(insns[pc as int], pc, m) == Err::<Seq<bool>, VerifyError>(e),
        VerifyError::WriteToR10 { pc } => pc < insns.len() && reachable(insns, pc as int) && exists|
            m: Seq<bool>,
        |
            spec_check_insn(insns[pc as int], pc, m) == Err::<Seq<bool>, VerifyError>(e),
        VerifyError::NoExitInstruction => forall|pc: int|
            0 <= pc < insns.len() ==> !(#[trigger] insns[pc] is Exit),
        VerifyError::UnreachableCode { pc } => is_leader(insns, pc as int) && !reachable(
            insns,
            pc as int,
        ),
        VerifyError::BackEdgeBudgetExceeded { pc } => first_back_edge(insns, pc as int),
        VerifyError::FallthroughAfterExit { pc } => pc + 1 == insns.len() && falls_through(
            insns[pc as int],
        ),
        VerifyError::EmptyProgram => insns.len() == 0,
    }
}

// ---------------------------------------------------------------------------
// Register file
// ---------------------------------------------------------------------------

/// Register initialization state for dataflow analysis.
#[derive(Debug, Clone, Copy, PartialEq, Eq, Structural)]
enum RegState {
    Uninit,
    Init,
}

/// Per-basic-block register state vector.
#[derive(Debug, Clone, Copy)]
struct RegFile {
    regs: [RegState; NUM_REGS],
}

impl View for RegFile {
    type V = Seq<bool>;

    closed spec fn view(&self) -> Seq<bool> {
        self.regs@.map_values(|s: RegState| s == RegState::Init)
    }
}

impl RegFile {
    fn new_entry() -> (r: Self)
        ensures
            r@ == entry_mask(),
    {
        let mut regs = [RegState::Uninit; NUM_REGS];
        regs[1] = RegState::Init;
        regs[10] = RegState::Init;
        let r = Self { regs };
        assert(r@ =~= entry_mask());
        r
    }

    fn new_uninit() -> (r: Self)
        ensures
            r@ == Seq::new(NUM_REGS as nat, |i: int| false),
    {
        let r = Self { regs: [RegState::Uninit; NUM_REGS] };
        assert(r@ =~= Seq::new(NUM_REGS as nat, |i: int| false));
        r
    }

    fn is_init(&self, r: BpfReg) -> (b: bool)
        ensures
            b == reg_init(self@, r),
    {
        self.regs[r.index()] == RegState::Init
    }

    fn mark_init(&mut self, r: BpfReg)
        ensures
            final(self)@ == with_init(old(self)@, r),
    {
        self.regs[r.index()] = RegState::Init;
        assert(self@ =~= with_init(old(self)@, r));
    }

    fn clobber_for_call(&mut self)
        ensures
            final(self)@ == after_call(old(self)@),
    {
        self.regs[0] = RegState::Init;
        let mut i: usize = 1;
        while i <= 5
            invariant
                1 <= i <= 6,
                self@.len() == NUM_REGS,
                self@[0],
                forall|j: int| 1 <= j < i ==> !self@[j],
                forall|j: int| i <= j < NUM_REGS && j != 0 ==> self@[j] == old(self)@[j],
            decreases 6 - i,
        {
            let ghost prev = self@;
            self.regs[i] = RegState::Uninit;
            assert(self@ =~= prev.update(i as int, false));
            i += 1;
        }
        assert(self@ =~= after_call(old(self)@));
    }

    /// Merge: for each register, the result is Init only if Init in both.
    fn merge(&self, other: &Self) -> (r: Self)
        ensures
            r@ == Seq::new(NUM_REGS as nat, |i: int| self@[i] && other@[i]),
    {
        let mut regs = [RegState::Uninit; NUM_REGS];
        for i in 0..NUM_REGS
            invariant
                forall|j: int|
                    0 <= j < NUM_REGS ==> (regs@[j] == RegState::Init) == (j < i && self@[j]
                        && other@[j]),
        {
            if self.regs[i] == RegState::Init && other.regs[i] == RegState::Init {
                regs[i] = RegState::Init;
            }
        }
        let r = Self { regs };
        assert(r@ =~= Seq::new(NUM_REGS as nat, |i: int| self@[i] && other@[i]));
        r
    }

    fn equals(&self, other: &Self) -> (b: bool)
        ensures
            b == (self@ == other@),
    {
        let mut i: usize = 0;
        while i < NUM_REGS
            invariant
                0 <= i <= NUM_REGS,
                self@.len() == NUM_REGS,
                other@.len() == NUM_REGS,
                forall|j: int| 0 <= j < i ==> self@[j] == other@[j],
            decreases NUM_REGS - i,
        {
            if (self.regs[i] == RegState::Init) != (other.regs[i] == RegState::Init) {
                assert(self@[i as int] != other@[i as int]);
                return false;
            }
            i += 1;
        }
        assert(self@ =~= other@);
        true
    }
}

// ---------------------------------------------------------------------------
// Per-instruction checks
// ---------------------------------------------------------------------------

fn check_write_dst(pc: usize, dst: BpfReg) -> (r: Result<(), VerifyError>)
    ensures
        r == if dst == BpfReg::R10 {
            Err(VerifyError::WriteToR10 { pc })
        } else {
            Ok(())
        },
{
    if dst == BpfReg::R10 {
        return Err(VerifyError::WriteToR10 { pc });
    }
    Ok(())
}

fn check_reg_read(pc: usize, reg: BpfReg, state: &RegFile) -> (r: Result<(), VerifyError>)
    ensures
        r == if !reg_init(state@, reg) {
            Err(uninit(pc, reg))
        } else {
            Ok(())
        },
{
    if !state.is_init(reg) {
        return Err(VerifyError::UninitializedRegRead { pc, reg });
    }
    Ok(())
}

fn check_source_read(pc: usize, src: &Source, state: &RegFile) -> (r: Result<(), VerifyError>)
    ensures
        r == if src_uninit(state@, *src) {
            Err(uninit(pc, src_reg_of(*src)))
        } else {
            Ok(())
        },
{
    if let Source::Reg(r) = src {
        check_reg_read(pc, *r, state)?;
    }
    Ok(())
}

fn check_stack_if_fp(pc: usize, base: BpfReg, off: i16, width: MemWidth) -> (r: Result<(), VerifyError>)
    ensures
        r == if stack_bad(base, off, width) {
            Err(VerifyError::StackOutOfBounds { pc, offset: off })
        } else {
            Ok(())
        },
{
    if base == BpfReg::R10 {
        if off as i32 + width.byte_len() as i32 > 0 || off < -(STACK_SIZE as i16) {
            return Err(VerifyError::StackOutOfBounds { pc, offset: off });
        }
    }
    Ok(())
}

/// Check the register reads and writes of one instruction, updating `state`.
fn check_and_update_regs(insns: &[Insn], pc: usize, state: &mut RegFile) -> (r: Result<
    (),
    VerifyError,
>)
    requires
        pc < insns@.len(),
        old(state)@.len() == NUM_REGS,
    ensures
        match spec_check_insn(insns@[pc as int], pc, old(state)@) {
            Ok(m) => r is Ok && final(state)@ == m,
            Err(e) => r == Err::<(), VerifyError>(e),
        },
        final(state)@.len() == NUM_REGS,
{
    let insn = &insns[pc];
    match insn {
        Insn::Alu64 { op, dst, src } | Insn::Alu32 { op, dst, src } => {
            check_write_dst(pc, *dst)?;
            check_source_read(pc, src, state)?;
            if *op != AluOp::Mov {
                check_reg_read(pc, *dst, state)?;
            }
            state.mark_init(*dst);
        },
        Insn::Load { width, dst, src, off } => {
            check_write_dst(pc, *dst)?;
            check_reg_read(pc, *src, state)?;
            check_stack_if_fp(pc, *src, *off, *width)?;
            state.mark_init(*dst);
        },
        Insn::StoreReg { width, dst, src, off } => {
            check_reg_read(pc, *dst, state)?;
            check_reg_read(pc, *src, state)?;
            check_stack_if_fp(pc, *dst, *off, *width)?;
        },
        Insn::StoreImm { width, dst, off, .. } => {
            check_reg_read(pc, *dst, state)?;
            check_stack_if_fp(pc, *dst, *off, *width)?;
        },
        Insn::LoadImm64 { dst, .. } => {
            check_write_dst(pc, *dst)?;
            state.mark_init(*dst);
        },
        Insn::JmpCond { dst, src, .. } | Insn::JmpCond32 { dst, src, .. } => {
            check_reg_read(pc, *dst, state)?;
            check_source_read(pc, src, state)?;
        },
        Insn::Ja { .. } => {},
        Insn::Call { .. } => {
            // R0 receives the helper's return value; R1-R5 are clobbered.
            state.clobber_for_call();
        },
        Insn::TailCall => {},
        Insn::Exit => {
            check_reg_read(pc, BpfReg::R0, state)?;
        },
        Insn::Atomic { width, dst, src, off, .. } => {
            check_reg_read(pc, *dst, state)?;
            check_reg_read(pc, *src, state)?;
            check_stack_if_fp(pc, *dst, *off, *width)?;
        },
        Insn::Endian { dst, .. } => {
            check_write_dst(pc, *dst)?;
            check_reg_read(pc, *dst, state)?;
            state.mark_init(*dst);
        },
    }
    Ok(())
}

// ---------------------------------------------------------------------------
// Basic blocks
// ---------------------------------------------------------------------------

/// Block start indices: strictly increasing, beginning with the entry.
pub open spec fn sorted_starts(s: Seq<usize>, n: int) -> bool {
    &&& s.len() > 0
    &&& s[0] == 0
    &&& forall|i: int, j: int| 0 <= i < j < s.len() ==> s[i] < s[j]
    &&& forall|i: int| 0 <= i < s.len() ==> s[i] < n
}

/// The starts are exactly the leaders.
pub open spec fn starts_are_leaders(insns: Seq<Insn>, s: Seq<usize>) -> bool {
    &&& forall|i: int| 0 <= i < s.len() ==> is_leader(insns, #[trigger] s[i] as int)
    &&& forall|i: int| #[trigger] is_leader(insns, i) ==> s.contains(i as usize)
}

pub open spec fn block_end(s: Seq<usize>, n: int, b: int) -> int {
    if b + 1 < s.len() {
        s[b + 1] as int
    } else {
        n
    }
}

pub open spec fn in_block(s: Seq<usize>, n: int, b: int, pc: int) -> bool {
    0 <= b < s.len() && s[b] <= pc && pc < block_end(s, n, b)
}

/// The block holding instruction `pc`.
pub open spec fn block_of(s: Seq<usize>, n: int, pc: int) -> int {
    choose|b: int| in_block(s, n, b, pc)
}

proof fn lemma_block_search(s: Seq<usize>, n: int, pc: int, b: int)
    requires
        sorted_starts(s, n),
        0 <= pc < n,
        0 <= b < s.len(),
        forall|j: int| b < j < s.len() ==> s[j] > pc,
    ensures
        exists|k: int| in_block(s, n, k, pc),
    decreases b,
{
    if s[b] <= pc {
        assert(in_block(s, n, b, pc));
    } else {
        lemma_block_search(s, n, pc, b - 1);
    }
}

/// Every instruction lies in exactly one block.
proof fn lemma_block_of(s: Seq<usize>, n: int, pc: int)
    requires
        sorted_starts(s, n),
        0 <= pc < n,
    ensures
        in_block(s, n, block_of(s, n, pc), pc),
        forall|b: int| #[trigger] in_block(s, n, b, pc) ==> b == block_of(s, n, pc),
{
    lemma_block_search(s, n, pc, s.len() - 1);
    let k = block_of(s, n, pc);
    assert forall|b: int| #[trigger] in_block(s, n, b, pc) implies b == k by {
        if b < k {
            assert(s[b + 1] <= s[k]);
        } else if b > k {
            assert(s[k + 1] <= s[b]);
        }
    }
}

/// A block start lies in its own block.
proof fn lemma_start_block(s: Seq<usize>, n: int, j: int)
    requires
        sorted_starts(s, n),
        0 <= j < s.len(),
    ensures
        block_of(s, n, s[j] as int) == j,
{
    lemma_block_of(s, n, s[j] as int);
    assert(in_block(s, n, j, s[j] as int));
}

/// A jump target starts the block that holds it.
proof fn lemma_target_block(insns: Seq<Insn>, s: Seq<usize>, p: int, t: int)
    requires
        sorted_starts(s, insns.len() as int),
        starts_are_leaders(insns, s),
        0 <= p < insns.len(),
        0 <= t < insns.len() <= usize::MAX,
        jumps_to(insns, p, t),
    ensures
        s[block_of(s, insns.len() as int, t)] == t,
{
    assert(is_jump_target(insns, t));
    assert(is_leader(insns, t));
    assert(s.contains(t as usize));
    let j = choose|j: int| 0 <= j < s.len() && s[j] == t as usize;
    lemma_start_block(s, insns.len() as int, j);
    assert(s[j] as int == t);
}

/// A basic block in the control-flow graph.
struct BasicBlock {
    start: usize,
    /// exclusive
    end: usize,
    /// indices of successor blocks
    successors: Vec<usize>,
}

pub open spec fn last_pc_succ_empty(insns: Seq<Insn>, last: int, end: int) -> bool {
    insns[last] is Exit || (end == insns.len() && !ends_block(insns[last]))
}

/// The CFG built from the block starts `s`.
spec fn cfg_wf(insns: Seq<Insn>, s: Seq<usize>, bbs: Seq<BasicBlock>) -> bool {
    let n = insns.len() as int;
    &&& sorted_starts(s, n)
    &&& starts_are_leaders(insns, s)
    &&& bbs.len() == s.len()
    &&& forall|b: int|
        0 <= b < bbs.len() ==> {
            &&& (#[trigger] bbs[b]).start == s[b]
            &&& bbs[b].end == block_end(s, n, b)
            &&& forall|k: int|
                0 <= k < bbs[b].successors@.len() ==> bbs[b].successors@[k] < bbs.len()
                    && is_succ(insns, bbs[b].end - 1, s[bbs[b].successors@[k] as int] as int)
            &&& forall|q: int|
                0 <= q < n && is_succ(insns, bbs[b].end - 1, q) ==> bbs[b].successors@.contains(
                    block_of(s, n, q) as usize,
                )
            &&& (bbs[b].successors@.len() == 0 <==> last_pc_succ_empty(
                insns,
                bbs[b].end - 1,
                bbs[b].end as int,
            ))
        }
}

/// Resolve a relative branch offset to an absolute instruction index.
fn resolve_branch(pc: usize, off: i16, prog_len: usize) -> (r: Result<usize, VerifyError>)
    requires
        pc < prog_len,
        prog_len <= isize::MAX / 2,
    ensures
        0 <= target_of(pc as int, off) < prog_len ==> r == Ok::<usize, VerifyError>(
            target_of(pc as int, off) as usize,
        ),
        !(0 <= target_of(pc as int, off) < prog_len) ==> r == Err::<usize, VerifyError>(
            VerifyError::BranchOutOfBounds { pc, target: target_of(pc as int, off) as isize },
        ),
{
    let target = (pc as isize) + 1 + (off as isize);
    if target < 0 || target >= prog_len as isize {
        return Err(VerifyError::BranchOutOfBounds { pc, target });
    }
    Ok(target as usize)
}

/// Leaders among `[0, n)` marked so far, after scanning jumps before `k`.
spec fn marked(insns: Seq<Insn>, i: int, k: int) -> bool {
    i == 0 || (0 < i <= k && ends_block(insns[i - 1])) || exists|p: int|
        0 <= p < k && #[trigger] jumps_to(insns, p, i)
}

/// Reject loops: the first jump that does not go forward.
fn check_back_edges(insns: &[Insn]) -> (r: Result<(), VerifyError>)
    ensures
        r is Ok <==> loop_free(insns@),
        r matches Err(e) ==> error_witnessed(insns@, e) && e is BackEdgeBudgetExceeded,
{
    let n = insns.len();
    for pc in 0..n
        invariant
            n == insns@.len(),
            forall|q: int| 0 <= q < pc ==> !#[trigger] back_edge(insns@, q),
    {
        let off = match &insns[pc] {
            Insn::Ja { off } => *off,
            Insn::JmpCond { off, .. } => *off,
            Insn::JmpCond32 { off, .. } => *off,
            _ => 0,
        };
        if off < 0 {
            assert(back_edge(insns@, pc as int));
            return Err(VerifyError::BackEdgeBudgetExceeded { pc });
        }
    }
    Ok(())
}

/// Identify basic-block start indices.
fn find_bb_starts(insns: &[Insn]) -> (res: Result<Vec<usize>, VerifyError>)
    requires
        0 < insns@.len() <= isize::MAX / 2,
    ensures
        res is Ok <==> branches_in_bounds(insns@),
        res matches Ok(s) ==> sorted_starts(s@, insns@.len() as int) && starts_are_leaders(
            insns@,
            s@,
        ) && s@.len() == count_leaders(insns@, insns@.len() as int),
        res matches Err(e) ==> error_witnessed(insns@, e) && e is BranchOutOfBounds,
{
    let n = insns.len();
    let mut is_start: Vec<bool> = Vec::new();
    for i in 0..n
        invariant
            is_start@.len() == i,
            forall|j: int| 0 <= j < i ==> is_start@[j] == (j == 0),
    {
        is_start.push(i == 0);
    }
    for pc in 0..n
        invariant
            n == insns@.len(),
            n <= isize::MAX / 2,
            is_start@.len() == n,
            forall|q: int| 0 <= q < pc ==> !#[trigger] branch_oob(insns@, q),
            forall|i: int| 0 <= i < n ==> is_start@[i] == marked(insns@, i, pc as int),
    {
        let insn = &insns[pc];
        let ghost prev = is_start@;
        match insn {
            Insn::Ja { off } | Insn::JmpCond { off, .. } | Insn::JmpCond32 { off, .. } => {
                let target = match resolve_branch(pc, *off, n) {
                    Ok(t) => t,
                    Err(e) => {
                        assert(first_oob(insns@, pc as int));
                        assert(jumps_to(insns@, pc as int, target_of(pc as int, *off)));
                        return Err(e);
                    },
                };
                is_start.set(target, true);
                if pc + 1 < n {
                    is_start.set(pc + 1, true);
                }
            },
            Insn::Exit => {
                if pc + 1 < n {
                    is_start.set(pc + 1, true);
                }
            },
            _ => {},
        }
        assert forall|i: int| 0 <= i < n implies is_start@[i] == marked(
            insns@,
            i,
            pc + 1,
        ) by {
            if marked(insns@, i, pc as int) {
                if exists|p: int| 0 <= p < pc && #[trigger] jumps_to(insns@, p, i) {
                    let p = choose|p: int| 0 <= p < pc && #[trigger] jumps_to(insns@, p, i);
                    assert(0 <= p < pc + 1 && jumps_to(insns@, p, i));
                }
            }
            if jumps_to(insns@, pc as int, i) {
                assert(0 <= pc < pc + 1 && jumps_to(insns@, pc as int, i));
            }
            if marked(insns@, i, pc + 1) && !marked(insns@, i, pc as int) {
                if exists|p: int| 0 <= p < pc + 1 && #[trigger] jumps_to(insns@, p, i) {
                    let p = choose|p: int| 0 <= p < pc + 1 && #[trigger] jumps_to(insns@, p, i);
                    assert(p == pc);
                }
            }
        }
    }
    assert forall|i: int| 0 <= i < n implies is_start@[i] == is_leader(insns@, i) by {
        if marked(insns@, i, n as int) {
            if exists|p: int| 0 <= p < n && #[trigger] jumps_to(insns@, p, i) {
                let p = choose|p: int| 0 <= p < n && #[trigger] jumps_to(insns@, p, i);
                assert(is_jump_target(insns@, i));
            }
        }
        if is_jump_target(insns@, i) {
            let p = choose|p: int| 0 <= p < n && #[trigger] jumps_to(insns@, p, i);
            assert(marked(insns@, i, n as int));
        }
    }
    let mut starts: Vec<usize> = Vec::new();
    for i in 0..n
        invariant
            n == insns@.len(),
            is_start@.len() == n,
            forall|j: int| 0 <= j < n ==> is_start@[j] == is_leader(insns@, j),
            forall|a: int, b: int| 0 <= a < b < starts@.len() ==> starts@[a] < starts@[b],
            forall|a: int| 0 <= a < starts@.len() ==> starts@[a] < i,
            forall|a: int|
                0 <= a < starts@.len() ==> is_leader(insns@, #[trigger] starts@[a] as int),
            forall|j: int| 0 <= j < i && is_leader(insns@, j) ==> starts@.contains(j as usize),
            i > 0 ==> starts@.len() > 0 && starts@[0] == 0,
            starts@.len() == count_leaders(insns@, i as int),
    {
        let ghost prev = starts@;
        if is_start[i] {
            starts.push(i);
            assert(starts@[starts@.len() - 1] == i);
        }
        assert forall|j: int| 0 <= j < i + 1 && is_leader(insns@, j) implies starts@.contains(
            j as usize,
        ) by {
            if j == i {
                assert(starts@[starts@.len() - 1] == i);
            } else {
                assert(prev.contains(j as usize));
                let k = choose|k: int| 0 <= k < prev.len() && prev[k] == j as usize;
                assert(starts@[k] == j as usize);
            }
        }
    }
    Ok(starts)
}

/// Build the CFG from basic-block starts.
fn build_cfg(insns: &[Insn], bb_starts: &[usize]) -> (res: Result<Vec<BasicBlock>, VerifyError>)
    requires
        0 < insns@.len() <= isize::MAX / 2,
        branches_in_bounds(insns@),
        sorted_starts(bb_starts@, insns@.len() as int),
        starts_are_leaders(insns@, bb_starts@),
    ensures
        res matches Ok(bbs) && cfg_wf(insns@, bb_starts@, bbs@),
{
    let n = insns.len();
    let num_bbs = bb_starts.len();
    let ghost s = bb_starts@;
    let mut bbs: Vec<BasicBlock> = Vec::with_capacity(num_bbs);
    // Map instruction index to block index for successor resolution.
    let mut insn_to_bb: Vec<usize> = Vec::new();
    for i in 0..n
        invariant
            insn_to_bb@.len() == i,
    {
        insn_to_bb.push(0);
    }
    for bb_idx in 0..num_bbs
        invariant
            n == insns@.len(),
            num_bbs == s.len(),
            s == bb_starts@,
            sorted_starts(s, n as int),
            insn_to_bb@.len() == n,
            forall|pc: int|
                0 <= pc < (if bb_idx < num_bbs { s[bb_idx as int] as int } else { n as int })
                    ==> insn_to_bb@[pc] == block_of(s, n as int, pc),
    {
        let start = bb_starts[bb_idx];
        let end = if bb_idx + 1 < num_bbs {
            bb_starts[bb_idx + 1]
        } else {
            n
        };
        assert(start < end) by {
            if bb_idx + 1 < num_bbs {
                assert(s[bb_idx as int] < s[bb_idx + 1]);
            }
        }
        for i in start..end
            invariant
                n == insns@.len(),
                num_bbs == s.len(),
                sorted_starts(s, n as int),
                bb_idx < num_bbs,
                start == s[bb_idx as int],
                end == block_end(s, n as int, bb_idx as int),
                start <= i,
                end <= n,
                insn_to_bb@.len() == n,
                forall|pc: int|
                    0 <= pc < i ==> insn_to_bb@[pc] == block_of(s, n as int, pc),
        {
            proof {
                lemma_block_of(s, n as int, i as int);
                assert(in_block(s, n as int, bb_idx as int, i as int));
            }
            insn_to_bb.set(i, bb_idx);
        }
    }
    for bb_idx in 0..num_bbs
        invariant
            n == insns@.len(),
            0 < n <= isize::MAX / 2,
            branches_in_bounds(insns@),
            num_bbs == s.len(),
            s == bb_starts@,
            sorted_starts(s, n as int),
            starts_are_leaders(insns@, s),
            insn_to_bb@.len() == n,
            forall|pc: int| 0 <= pc < n ==> insn_to_bb@[pc] == block_of(s, n as int, pc),
            bbs@.len() == bb_idx,
            forall|b: int|
                0 <= b < bb_idx ==> {
                    &&& (#[trigger] bbs@[b]).start == s[b]
                    &&& bbs@[b].end == block_end(s, n as int, b)
                    &&& forall|k: int|
                        0 <= k < bbs@[b].successors@.len() ==> bbs@[b].successors@[k] < num_bbs
                            && is_succ(insns@, bbs@[b].end - 1, s[bbs@[b].successors@[k] as int] as int)
                    &&& forall|q: int|
                        0 <= q < n && is_succ(insns@, bbs@[b].end - 1, q)
                            ==> bbs@[b].successors@.contains(block_of(s, n as int, q) as usize)
                    &&& (bbs@[b].successors@.len() == 0 <==> last_pc_succ_empty(
                        insns@,
                        bbs@[b].end - 1,
                        bbs@[b].end as int,
                    ))
                },
    {
        let start = bb_starts[bb_idx];
        let end = if bb_idx + 1 < num_bbs {
            bb_starts[bb_idx + 1]
        } else {
            n
        };
        assert(start < end) by {
            if bb_idx + 1 < num_bbs {
                assert(s[bb_idx as int] < s[bb_idx + 1]);
            }
        }
        let last_pc = end - 1;
        let mut successors: Vec<usize> = Vec::new();
        proof {
            if end < n {
                lemma_block_of(s, n as int, end as int);
                lemma_start_block(s, n as int, bb_idx + 1);
            }
        }
        match &insns[last_pc] {
            Insn::Ja { off } => {
                assert(!branch_oob(insns@, last_pc as int));
                let target = resolve_branch(last_pc, *off, n)?;
                proof {
                    lemma_block_of(s, n as int, target as int);
                    lemma_target_block(insns@, s, last_pc as int, target as int);
                }
                successors.push(insn_to_bb[target]);
            },
            Insn::JmpCond { off, .. } | Insn::JmpCond32 { off, .. } => {
                if end < n {
                    successors.push(insn_to_bb[end]);
                }
                assert(!branch_oob(insns@, last_pc as int));
                let target = resolve_branch(last_pc, *off, n)?;
                proof {
                    lemma_block_of(s, n as int, target as int);
                    lemma_target_block(insns@, s, last_pc as int, target as int);
                }
                successors.push(insn_to_bb[target]);
            },
            Insn::Exit => {},
            _ => {
                if end < n {
                    successors.push(insn_to_bb[end]);
                }
            },
        }
        assert forall|k: int| 0 <= k < successors@.len() implies successors@[k] < num_bbs
            && is_succ(insns@, last_pc as int, s[successors@[k] as int] as int) by {}
        assert forall|q: int|
            0 <= q < n && is_succ(insns@, last_pc as int, q) implies successors@.contains(
            block_of(s, n as int, q) as usize,
        ) by {
            assert(successors@[successors@.len() - 1] == insn_to_bb@[q] || successors@[0]
                == insn_to_bb@[q]);
        }
        bbs.push(BasicBlock { start, end, successors });
        assert(bbs@[bb_idx as int].start == s[bb_idx as int]);
    }
    Ok(bbs)
}

// ---------------------------------------------------------------------------
// Dataflow analysis
// ---------------------------------------------------------------------------

/// Structural facts about the blocks that the analysis relies on.
/// Control may pass from `pc` to the next instruction.
spec fn flows_on(insns: Seq<Insn>, pc: int) -> bool {
    is_succ(insns, pc, pc + 1)
}

spec fn blocks_wf(insns: Seq<Insn>, bbs: Seq<BasicBlock>) -> bool {
    &&& bbs.len() > 0
    &&& bbs[0].start == 0
    &&& forall|b1: int, b2: int|
        0 <= b1 < b2 < bbs.len() ==> (#[trigger] bbs[b1]).start < (#[trigger] bbs[b2]).start
    &&& forall|b: int|
        0 <= b < bbs.len() ==> {
            &&& (#[trigger] bbs[b]).start < bbs[b].end <= insns.len()
            &&& is_leader(insns, bbs[b].start as int)
            &&& forall|k: int|
                0 <= k < bbs[b].successors@.len() ==> bbs[b].successors@[k] < bbs.len()
                    && is_succ(insns, bbs[b].end - 1, bbs[bbs[b].successors@[k] as int].start as int)
            &&& forall|pc: int| bbs[b].start <= pc < bbs[b].end - 1 ==> #[trigger] flows_on(insns, pc)
        }
}

/// The blocks tile the program, only their first instructions are
/// leaders, and a block lists every block its last instruction passes
/// control to.
#[verifier::opaque]
spec fn blocks_tile(insns: Seq<Insn>, bbs: Seq<BasicBlock>) -> bool {
    &&& bbs.len() <= usize::MAX
    &&& bbs[bbs.len() - 1].end == insns.len()
    &&& forall|b: int| 0 <= b < bbs.len() - 1 ==> (#[trigger] bbs[b]).end == bbs[b + 1].start
    &&& forall|b: int|
        0 <= b < bbs.len() ==> {
            &&& forall|pc: int|
                (#[trigger] bbs[b]).start < pc < bbs[b].end ==> !#[trigger] is_leader(insns, pc)
            &&& forall|c: int|
                0 <= c < bbs.len() && #[trigger] is_succ(insns, bbs[b].end - 1, bbs[c].start as int)
                    ==> bbs[b].successors@.contains(c as usize)
        }
}

/// Where the analysis stands before block `b`: the block's first
/// instruction, or the program's end.
spec fn pos(bbs: Seq<BasicBlock>, n: int, b: int) -> int {
    if b < bbs.len() {
        bbs[b].start as int
    } else {
        n
    }
}

/// The blocks from `from` on, other than the entry block, are reached and
/// entered as the analysis of the first `p` instructions says.
#[verifier::opaque]
spec fn pending_ok(
    insns: Seq<Insn>,
    bbs: Seq<BasicBlock>,
    mi: Seq<Seq<bool>>,
    reach: Seq<bool>,
    fr: Seq<bool>,
    fm: Seq<Seq<bool>>,
    from: int,
    p: int,
) -> bool {
    forall|c: int|
        from <= c < bbs.len() && 0 < c ==> {
            &&& #[trigger] reach[c] == has_pred(insns, fr, bbs[c].start as int, p)
            &&& reach[c] ==> mi[c] == pred_meet(insns, fr, fm, bbs[c].start as int, p)
        }
}

/// What `pending_ok` says of one block.
proof fn lemma_pending_at(
    insns: Seq<Insn>,
    bbs: Seq<BasicBlock>,
    mi: Seq<Seq<bool>>,
    reach: Seq<bool>,
    fr: Seq<bool>,
    fm: Seq<Seq<bool>>,
    from: int,
    p: int,
    c: int,
)
    requires
        pending_ok(insns, bbs, mi, reach, fr, fm, from, p),
        from <= c < bbs.len(),
        0 < c,
    ensures
        reach[c] == has_pred(insns, fr, bbs[c].start as int, p),
        reach[c] ==> mi[c] == pred_meet(insns, fr, fm, bbs[c].start as int, p),
{
    reveal(pending_ok);
}

/// The blocks tile the program: a block ends where the next starts, and
/// the last at the program's end.
proof fn lemma_tile_next(insns: Seq<Insn>, bbs: Seq<BasicBlock>, b: int)
    requires
        blocks_tile(insns, bbs),
        0 <= b < bbs.len(),
    ensures
        b + 1 < bbs.len() ==> bbs[b].end == bbs[b + 1].start,
        b + 1 == bbs.len() ==> bbs[b].end == insns.len(),
{
    reveal(blocks_tile);
}

/// Block `c` is among the first `k` successors of block `b`.
spec fn seen(bbs: Seq<BasicBlock>, b: int, k: int, c: int) -> bool {
    exists|j: int| 0 <= j < k && #[trigger] bbs[b].successors@[j] == c as usize
}

/// While the successors of block `b` are updated: the first `k` of them
/// have taken in `out`.
#[verifier::opaque]
spec fn pending_mid(
    insns: Seq<Insn>,
    bbs: Seq<BasicBlock>,
    mi: Seq<Seq<bool>>,
    reach: Seq<bool>,
    fr: Seq<bool>,
    fm: Seq<Seq<bool>>,
    b: int,
    p: int,
    k: int,
    out: Seq<bool>,
) -> bool {
    forall|c: int|
        b < c < bbs.len() ==> {
            let pm = pred_meet(insns, fr, fm, bbs[c].start as int, p);
            &&& #[trigger] reach[c] == (has_pred(insns, fr, bbs[c].start as int, p) || seen(
                bbs,
                b,
                k,
                c,
            ))
            &&& reach[c] ==> mi[c] == if seen(bbs, b, k, c) {
                meet(pm, out)
            } else {
                pm
            }
        }
}

/// Inside a block, control passes from an instruction other than the last
/// only to the next one.
proof fn lemma_in_block_succ(insns: Seq<Insn>, bbs: Seq<BasicBlock>, b: int, q: int, x: int)
    requires
        blocks_wf(insns, bbs),
        blocks_tile(insns, bbs),
        0 <= b < bbs.len(),
        bbs[b].start <= q < bbs[b].end - 1,
        is_succ(insns, q, x),
    ensures
        x == q + 1,
{
    reveal(blocks_tile);
    assert(flows_on(insns, q));
    assert(!is_leader(insns, q + 1));
    assert(!ends_block(insns[q]));
}

/// An instruction that is no leader is entered only from the one before.
proof fn lemma_nonleader_pred(insns: Seq<Insn>, pc: int, q: int)
    requires
        0 < pc < insns.len(),
        !is_leader(insns, pc),
        0 <= q < insns.len(),
        is_succ(insns, q, pc),
    ensures
        q == pc - 1,
{
    if q != pc - 1 {
        assert(jumps_to(insns, q, pc));
        assert(is_jump_target(insns, pc));
    }
}

/// An unreached block: the analysis marks its instructions unreached.
proof fn lemma_flow_skip_block(
    insns: Seq<Insn>,
    bbs: Seq<BasicBlock>,
    b: int,
    pc: int,
    fr: Seq<bool>,
    fm: Seq<Seq<bool>>,
) -> (res: (Seq<bool>, Seq<Seq<bool>>))
    requires
        blocks_wf(insns, bbs),
        blocks_tile(insns, bbs),
        0 <= b < bbs.len(),
        bbs[b].start <= pc <= bbs[b].end,
        flow(insns, pc) == Ok::<(Seq<bool>, Seq<Seq<bool>>), VerifyError>((fr, fm)),
        fr.len() == pc,
        fm.len() == pc,
        pc == bbs[b].start ==> pc != 0 && !has_pred(insns, fr, pc, pc),
        pc > bbs[b].start ==> !fr[pc - 1],
    ensures
        flow(insns, bbs[b].end as int) == Ok::<(Seq<bool>, Seq<Seq<bool>>), VerifyError>(res),
        res.0.len() == bbs[b].end,
        res.1.len() == bbs[b].end,
        forall|q: int| 0 <= q < pc ==> res.0[q] == fr[q] && res.1[q] == fm[q],
        !res.0[bbs[b].end - 1],
    decreases bbs[b].end - pc,
{
    reveal(blocks_tile);
    if pc == bbs[b].end {
        (fr, fm)
    } else {
        let reached = pc == 0 || has_pred(insns, fr, pc, pc);
        if pc > bbs[b].start {
            assert(!is_leader(insns, pc));
            assert forall|q: int| 0 <= q < pc implies !(fr[q] && #[trigger] is_succ(insns, q, pc)) by {
                if is_succ(insns, q, pc) {
                    lemma_nonleader_pred(insns, pc, q);
                }
            }
            lemma_pm_skip(insns, fr, fm, pc, 0, pc);
        }
        assert(!reached);
        let mi = if pc == 0 {
            entry_mask()
        } else {
            pred_meet(insns, fr, fm, pc, pc)
        };
        let fr2 = fr.push(false);
        let fm2 = fm.push(mi);
        assert(flow(insns, pc + 1) == Ok::<(Seq<bool>, Seq<Seq<bool>>), VerifyError>((fr2, fm2)));
        let res = lemma_flow_skip_block(insns, bbs, b, pc + 1, fr2, fm2);
        assert forall|q: int| 0 <= q < pc implies res.0[q] == fr[q] && res.1[q] == fm[q] by {
            assert(res.0[q] == fr2[q] && res.1[q] == fm2[q]);
        }
        res
    }
}

/// One instruction of a reached block: the analysis enters it in `state`,
/// the state the block's simulation has reached.
proof fn lemma_flow_in_block(
    insns: Seq<Insn>,
    bbs: Seq<BasicBlock>,
    b: int,
    pc: int,
    fr: Seq<bool>,
    fm: Seq<Seq<bool>>,
    state: Seq<bool>,
)
    requires
        blocks_wf(insns, bbs),
        blocks_tile(insns, bbs),
        0 <= b < bbs.len(),
        bbs[b].start <= pc < bbs[b].end,
        flow(insns, pc) == Ok::<(Seq<bool>, Seq<Seq<bool>>), VerifyError>((fr, fm)),
        fr.len() == pc,
        fm.len() == pc,
        state.len() == NUM_REGS,
        pc == bbs[b].start ==> (b == 0 ==> pc == 0 && state == entry_mask()) && (b > 0 ==> has_pred(
            insns,
            fr,
            pc,
            pc,
        ) && pred_meet(insns, fr, fm, pc, pc) == state),
        pc > bbs[b].start ==> fr[pc - 1] && flow_out(insns, fm, pc - 1) == state,
    ensures
        flow(insns, pc + 1) == match spec_check_insn(insns[pc], pc as usize, state) {
            Err(e) => Err::<(Seq<bool>, Seq<Seq<bool>>), VerifyError>(e),
            Ok(_) => Ok((fr.push(true), fm.push(state))),
        },
{
    reveal(blocks_tile);
    if pc > bbs[b].start {
        assert(!is_leader(insns, pc));
        assert forall|q: int| 0 <= q < pc - 1 implies !(fr[q] && #[trigger] is_succ(insns, q, pc)) by {
            if is_succ(insns, q, pc) {
                lemma_nonleader_pred(insns, pc, q);
            }
        }
        lemma_pm_skip(insns, fr, fm, pc, 0, pc - 1);
        lemma_pm_last(insns, fr, fm, pc, pc);
        assert(flows_on(insns, pc - 1));
        let o = flow_out(insns, fm, pc - 1);
        assert(pred_meet(insns, fr, fm, pc, pc) == meet(all_set(), o));
        assert(meet(all_set(), o) =~= o);
    } else if b > 0 {
        assert(bbs[0].start < bbs[b].start);
    }
}

/// Before the successors of block `b` are updated.
proof fn lemma_mid_start(
    insns: Seq<Insn>,
    bbs: Seq<BasicBlock>,
    mi: Seq<Seq<bool>>,
    reach: Seq<bool>,
    fr: Seq<bool>,
    fm: Seq<Seq<bool>>,
    b: int,
    p: int,
    out: Seq<bool>,
)
    requires
        0 <= b,
        pending_ok(insns, bbs, mi, reach, fr, fm, b, p),
    ensures
        pending_mid(insns, bbs, mi, reach, fr, fm, b, p, 0, out),
{
    reveal(pending_ok);
    reveal(pending_mid);
    assert forall|c: int| b < c < bbs.len() implies !#[trigger] seen(bbs, b, 0, c) by {}
    assert forall|c: int| b < c < bbs.len() implies {
        let pm = pred_meet(insns, fr, fm, bbs[c].start as int, p);
        &&& #[trigger] reach[c] == (has_pred(insns, fr, bbs[c].start as int, p) || seen(
            bbs,
            b,
            0,
            c,
        ))
        &&& reach[c] ==> mi[c] == if seen(bbs, b, 0, c) {
            meet(pm, out)
        } else {
            pm
        }
    } by {
        assert(!seen(bbs, b, 0, c));
    }
}

/// One successor `c` of block `b` takes in `out`: set when it was not
/// reached, met otherwise.
proof fn lemma_mid_step(
    insns: Seq<Insn>,
    bbs: Seq<BasicBlock>,
    mi: Seq<Seq<bool>>,
    reach: Seq<bool>,
    mi2: Seq<Seq<bool>>,
    reach2: Seq<bool>,
    fr: Seq<bool>,
    fm: Seq<Seq<bool>>,
    b: int,
    p: int,
    k: int,
    out: Seq<bool>,
)
    requires
        0 <= b < bbs.len(),
        0 <= p,
        bbs.len() <= usize::MAX,
        0 <= k < bbs[b].successors@.len(),
        b < bbs[b].successors@[k] < bbs.len(),
        out.len() == NUM_REGS,
        pending_mid(insns, bbs, mi, reach, fr, fm, b, p, k, out),
        reach.len() == bbs.len(),
        mi.len() == bbs.len(),
        ({
            let c = bbs[b].successors@[k] as int;
            &&& reach2 == reach.update(c, true)
            &&& mi2.len() == mi.len()
            &&& reach[c] ==> mi2[c] == meet(mi[c], out)
            &&& !reach[c] ==> mi2[c] == out
            &&& forall|d: int| 0 <= d < mi.len() && d != c ==> mi2[d] == mi[d]
        }),
    ensures
        pending_mid(insns, bbs, mi2, reach2, fr, fm, b, p, k + 1, out),
{
    reveal(pending_mid);
    let c = bbs[b].successors@[k] as int;
    assert forall|d: int| b < d < bbs.len() implies {
        let pm = pred_meet(insns, fr, fm, bbs[d].start as int, p);
        &&& #[trigger] reach2[d] == (has_pred(insns, fr, bbs[d].start as int, p) || seen(
            bbs,
            b,
            k + 1,
            d,
        ))
        &&& reach2[d] ==> mi2[d] == if seen(bbs, b, k + 1, d) {
            meet(pm, out)
        } else {
            pm
        }
    } by {
        let pm = pred_meet(insns, fr, fm, bbs[d].start as int, p);
        assert(reach[d] == (has_pred(insns, fr, bbs[d].start as int, p) || seen(bbs, b, k, d)));
        if d == c {
            assert(bbs[b].successors@[k] == d as usize);
            assert(seen(bbs, b, k + 1, d));
            if reach[d] {
                if seen(bbs, b, k, d) {
                    assert(mi2[d] =~= meet(pm, out));
                } else {
                    assert(mi2[d] =~= meet(pm, out));
                }
            } else {
                lemma_pm_none(insns, fr, fm, bbs[d].start as int, p);
                assert(meet(all_set(), out) =~= out);
            }
        } else {
            if seen(bbs, b, k + 1, d) {
                let j = choose|j: int| 0 <= j < k + 1 && #[trigger] bbs[b].successors@[j] == d as usize;
                assert(j != k);
                assert(seen(bbs, b, k, d));
            }
            if seen(bbs, b, k, d) {
                let j = choose|j: int| 0 <= j < k && #[trigger] bbs[b].successors@[j] == d as usize;
                assert(seen(bbs, b, k + 1, d));
            }
        }
    }
}

/// All successors of a reached block `b` have taken in its state: a block
/// after `b` is among them exactly when the block's last instruction
/// passes control to it.
proof fn lemma_mid_end(insns: Seq<Insn>, bbs: Seq<BasicBlock>, b: int)
    requires
        blocks_wf(insns, bbs),
        blocks_tile(insns, bbs),
        0 <= b < bbs.len(),
    ensures
        forall|c: int|
            b < c < bbs.len() ==> #[trigger] seen(bbs, b, bbs[b].successors@.len() as int, c)
                == is_succ(insns, bbs[b].end - 1, bbs[c].start as int),
{
    reveal(blocks_tile);
    assert forall|c: int| b < c < bbs.len() implies #[trigger] seen(
        bbs,
        b,
        bbs[b].successors@.len() as int,
        c,
    ) == is_succ(insns, bbs[b].end - 1, bbs[c].start as int) by {
        let ns = bbs[b].successors@.len() as int;
        if seen(bbs, b, ns, c) {
            let j = choose|j: int| 0 <= j < ns && #[trigger] bbs[b].successors@[j] == c as usize;
            assert(bbs[b].successors@[j] < bbs.len());
        }
        if is_succ(insns, bbs[b].end - 1, bbs[c].start as int) {
            assert(bbs[b].successors@.contains(c as usize));
            let j = choose|j: int| 0 <= j < ns && bbs[b].successors@[j] == c as usize;
            assert(bbs[b].successors@[j] == c as usize);
        }
    }
}

/// After block `b`: from what its successors took in to where the analysis
/// stands at the block's end.
proof fn lemma_block_done(
    insns: Seq<Insn>,
    bbs: Seq<BasicBlock>,
    mi: Seq<Seq<bool>>,
    reach: Seq<bool>,
    fr0: Seq<bool>,
    fm0: Seq<Seq<bool>>,
    fr: Seq<bool>,
    fm: Seq<Seq<bool>>,
    b: int,
    k: int,
    out: Seq<bool>,
)
    requires
        blocks_wf(insns, bbs),
        blocks_tile(insns, bbs),
        loop_free(insns),
        0 <= b < bbs.len(),
        fr.len() == bbs[b].end,
        fm.len() == bbs[b].end,
        fr0.len() == bbs[b].start,
        forall|q: int| 0 <= q < bbs[b].start ==> fr[q] == fr0[q] && fm[q] == fm0[q],
        fr[bbs[b].end - 1] ==> flow_out(insns, fm, bbs[b].end - 1) == out,
        pending_mid(insns, bbs, mi, reach, fr0, fm0, b, bbs[b].start as int, k, out),
        forall|c: int|
            b < c < bbs.len() ==> #[trigger] seen(bbs, b, k, c) == (fr[bbs[b].end - 1] && is_succ(
                insns,
                bbs[b].end - 1,
                bbs[c].start as int,
            )),
    ensures
        pending_ok(insns, bbs, mi, reach, fr, fm, b + 1, bbs[b].end as int),
{
    reveal(blocks_tile);
    reveal(pending_ok);
    reveal(pending_mid);
    let st = bbs[b].start as int;
    let e = bbs[b].end as int;
    assert forall|c: int| b + 1 <= c < bbs.len() && 0 < c implies {
        &&& #[trigger] reach[c] == has_pred(insns, fr, bbs[c].start as int, e)
        &&& reach[c] ==> mi[c] == pred_meet(insns, fr, fm, bbs[c].start as int, e)
    } by {
        let x = bbs[c].start as int;
        assert(bbs[b].start < bbs[c].start);
        assert(is_leader(insns, x));
        assert forall|q: int| st <= q < e - 1 implies !(fr[q] && #[trigger] is_succ(insns, q, x)) by {
            if is_succ(insns, q, x) {
                lemma_in_block_succ(insns, bbs, b, q, x);
                assert(!is_leader(insns, q + 1));
            }
        }
        lemma_pm_skip(insns, fr, fm, x, st, e - 1);
        lemma_pm_ext(insns, fr, fm, fr0, fm0, x, st);
        lemma_pm_last(insns, fr, fm, x, e);
        assert(seen(bbs, b, k, c) == (fr[e - 1] && is_succ(insns, e - 1, x)));
        if reach[c] {
            let pm = pred_meet(insns, fr0, fm0, x, st);
            if fr[e - 1] && is_succ(insns, e - 1, x) {
                assert(pred_meet(insns, fr, fm, x, e) == meet(
                    pred_meet(insns, fr, fm, x, e - 1),
                    flow_out(insns, fm, e - 1),
                ));
            } else {
                assert(pred_meet(insns, fr, fm, x, e) == pred_meet(insns, fr, fm, x, e - 1));
            }
        }
    }
}

/// Block `b` is entered from a reached block of smaller distance.
spec fn entered_from_closer(bbs: Seq<BasicBlock>, reach: Seq<bool>, dist: Seq<nat>, b: int) -> bool {
    exists|p: int, k: int|
        0 <= p < bbs.len() && reach[p] && dist[p] < dist[b] && 0 <= k
            < bbs[p].successors@.len() && #[trigger] bbs[p].successors@[k] == b
}

/// Every reached block but the entry is entered from a reached block of
/// smaller distance, so following those edges backwards ends at the entry.
spec fn reach_ranked(bbs: Seq<BasicBlock>, reach: Seq<bool>, dist: Seq<nat>) -> bool {
    &&& dist.len() == bbs.len()
    &&& forall|b: int|
        0 < b < bbs.len() && #[trigger] reach[b] ==> entered_from_closer(bbs, reach, dist, b)
}

spec fn masks(ins: Seq<RegFile>) -> Seq<Seq<bool>> {
    ins.map_values(|r: RegFile| r@)
}

/// Block `b` passes in its in-state, and its out-state covers the in-state
/// of each successor, which is marked reachable.
spec fn block_ok(insns: Seq<Insn>, bbs: Seq<BasicBlock>, m: Seq<Seq<bool>>, reach: Seq<bool>, b: int) -> bool {
    let out = sim(insns, bbs[b].start as int, bbs[b].end as int, m[b]);
    &&& out is Ok
    &&& forall|k: int|
        0 <= k < bbs[b].successors@.len() ==> {
            let c = #[trigger] bbs[b].successors@[k] as int;
            reach[c] && mask_le(m[c], out->Ok_0)
        }
}

proof fn lemma_sim_split(insns: Seq<Insn>, a: int, k: int, b: int, m: Seq<bool>)
    requires
        a <= k <= b,
    ensures
        sim(insns, a, b, m) == match sim(insns, a, k, m) {
            Ok(x) => sim(insns, k, b, x),
            Err(e) => Err(e),
        },
    decreases k - a,
{
    if a < k {
        match spec_check_insn(insns[a], a as usize, m) {
            Ok(m2) => lemma_sim_split(insns, a + 1, k, b, m2),
            Err(e) => {},
        }
    }
}

proof fn lemma_check_len(insn: Insn, pc: usize, m: Seq<bool>)
    requires
        m.len() == NUM_REGS,
    ensures
        spec_check_insn(insn, pc, m) matches Ok(x) ==> x.len() == NUM_REGS,
{
}

proof fn lemma_sim_len(insns: Seq<Insn>, a: int, b: int, m: Seq<bool>)
    requires
        m.len() == NUM_REGS,
    ensures
        sim(insns, a, b, m) matches Ok(x) ==> x.len() == NUM_REGS,
    decreases b - a,
{
    if a < b {
        lemma_check_len(insns[a], a as usize, m);
        match spec_check_insn(insns[a], a as usize, m) {
            Ok(m2) => lemma_sim_len(insns, a + 1, b, m2),
            Err(e) => {},
        }
    }
}

/// In a loop-free program control only moves forward.
proof fn lemma_succ_forward(insns: Seq<Insn>, pc: int, q: int)
    requires
        loop_free(insns),
        0 <= pc < insns.len(),
        is_succ(insns, pc, q),
    ensures
        q > pc,
{
    assert(!back_edge(insns, pc));
}

/// In a loop-free program a block's successors come after it.
proof fn lemma_succ_block_after(insns: Seq<Insn>, bbs: Seq<BasicBlock>, b: int, k: int)
    requires
        blocks_wf(insns, bbs),
        loop_free(insns),
        0 <= b < bbs.len(),
        0 <= k < bbs[b].successors@.len(),
    ensures
        bbs[b].successors@[k] > b,
{
    let c = bbs[b].successors@[k] as int;
    assert(bbs[b].start < bbs[b].end <= insns.len());
    lemma_succ_forward(insns, bbs[b].end - 1, bbs[c].start as int);
    if c < b {
        assert(bbs[c].start < bbs[b].start);
    }
}

/// The rule is monotone: more initialized registers pass whatever fewer
/// pass, and leave at least as many initialized.
proof fn lemma_check_mono(insn: Insn, pc: usize, a: Seq<bool>, b: Seq<bool>)
    requires
        spec_check_insn(insn, pc, a) is Ok,
        mask_le(a, b),
        a.len() == NUM_REGS,
        b.len() == NUM_REGS,
    ensures
        spec_check_insn(insn, pc, b) is Ok,
        mask_le(spec_check_insn(insn, pc, a)->Ok_0, spec_check_insn(insn, pc, b)->Ok_0),
{
}

/// Running the rule over a straight-line stretch `[a, y)` from a state that
/// covers the certificate's passes, and ends covering what the certificate
/// leaves after `y - 1`.
proof fn lemma_cert_sim(insns: Seq<Insn>, st: Seq<Seq<bool>>, a: int, y: int, m: Seq<bool>)
    requires
        init_certificate(insns, st),
        0 <= a < y <= insns.len(),
        forall|pc: int| a <= pc < y - 1 ==> #[trigger] flows_on(insns, pc),
        mask_le(st[a], m),
        m.len() == NUM_REGS,
    ensures
        sim(insns, a, y, m) is Ok,
        mask_le(
            spec_check_insn(insns[y - 1], (y - 1) as usize, st[y - 1])->Ok_0,
            sim(insns, a, y, m)->Ok_0,
        ),
    decreases y - a,
{
    assert(spec_check_insn(insns[a], a as usize, st[a]) is Ok);
    lemma_check_mono(insns[a], a as usize, st[a], m);
    let m2 = spec_check_insn(insns[a], a as usize, m)->Ok_0;
    lemma_check_len(insns[a], a as usize, m);
    if a + 1 < y {
        assert(flows_on(insns, a));
        assert(mask_le(st[a + 1], spec_check_insn(insns[a], a as usize, st[a])->Ok_0));
        lemma_cert_sim(insns, st, a + 1, y, m2);
    }
}

/// Dataflow analysis of a loop-free program: one pass over the blocks in
/// order, propagating register initialization states forward. Every edge
/// goes forward, so a block's state is final when it is reached in the pass.
#[verifier::spinoff_prover]
#[verifier::rlimit(100)]
fn dataflow_analysis(insns: &[Insn], bbs: &Vec<BasicBlock>) -> (res: Result<
    (Vec<RegFile>, Vec<bool>),
    VerifyError,
>)
    requires
        blocks_wf(insns@, bbs@),
        blocks_tile(insns@, bbs@),
        loop_free(insns@),
    ensures
        res is Ok ==> flow(insns@, insns@.len() as int) is Ok,
        res matches Err(e) ==> flow(insns@, insns@.len() as int) == Err::<
            (Seq<bool>, Seq<Seq<bool>>),
            VerifyError,
        >(e),
        res matches Ok((ins, reach)) ==> {
            &&& ins@.len() == bbs@.len()
            &&& reach@.len() == bbs@.len()
            &&& reach@[0]
            &&& mask_le(ins@[0]@, entry_mask())
            &&& forall|b: int| 0 <= b < bbs@.len() ==> (#[trigger] ins@[b])@.len() == NUM_REGS
            &&& forall|b: int|
                0 <= b < bbs@.len() && #[trigger] reach@[b] ==> block_ok(
                    insns@,
                    bbs@,
                    masks(ins@),
                    reach@,
                    b,
                )
            &&& exists|dist: Seq<nat>| reach_ranked(bbs@, reach@, dist)
        },
        res matches Err(e) ==> error_witnessed(insns@, e),
        (exists|st: Seq<Seq<bool>>| init_certificate(insns@, st)) ==> res is Ok,
        sim(insns@, 0, bbs@[0].end as int, entry_mask()) matches Err(e) ==> res == Err::<
            (Vec<RegFile>, Vec<bool>),
            VerifyError,
        >(e),
{
    let nb = bbs.len();
    let mut ins: Vec<RegFile> = Vec::new();
    let mut reach: Vec<bool> = Vec::new();
    for b in 0..nb
        invariant
            ins@.len() == b,
            reach@.len() == b,
            b > 0 ==> reach@[0] && ins@[0]@ == entry_mask(),
            forall|j: int| 0 <= j < b ==> (#[trigger] ins@[j])@.len() == NUM_REGS,
            forall|j: int| 0 <= j < b ==> #[trigger] reach@[j] == (j == 0),
    {
        if b == 0 {
            ins.push(RegFile::new_entry());
        } else {
            ins.push(RegFile::new_uninit());
        }
        reach.push(b == 0);
    }
    let ghost mut dist: Seq<nat> = Seq::new(nb as nat, |b: int| 0nat);
    let ghost has_cert = exists|st: Seq<Seq<bool>>| init_certificate(insns@, st);
    let ghost cst = choose|st: Seq<Seq<bool>>| init_certificate(insns@, st);
    proof {
        assert(mask_le(ins@[0]@, entry_mask()));
        assert forall|b: int| 0 < b < nb && #[trigger] reach@[b] implies entered_from_closer(
            bbs@,
            reach@,
            dist,
            b,
        ) by {
            assert(reach@[b] == (b == 0));
        }
        if has_cert {
            assert forall|b: int| 0 <= b < nb && #[trigger] reach@[b] implies mask_le(
                cst[bbs@[b].start as int],
                ins@[b]@,
            ) by {
                assert(reach@[b] == (b == 0));
            }
        }
    }
    let ghost mut fr: Seq<bool> = Seq::empty();
    let ghost mut fm: Seq<Seq<bool>> = Seq::empty();
    let ghost n = insns@.len() as int;
    proof {
        assert(pending_ok(insns@, bbs@, masks(ins@), reach@, fr, fm, 0, 0)) by {
            reveal(pending_ok);
            assert forall|c: int| 0 <= c < nb && 0 < c implies {
                &&& #[trigger] reach@[c] == has_pred(insns@, fr, bbs@[c].start as int, 0)
                &&& reach@[c] ==> masks(ins@)[c] == pred_meet(insns@, fr, fm, bbs@[c].start as int, 0)
            } by {
                assert(reach@[c] == (c == 0));
            }
        }
        assert(pos(bbs@, n, 0) == 0);
    }
    for bb_idx in 0..nb
        invariant
            blocks_wf(insns@, bbs@),
            blocks_tile(insns@, bbs@),
            loop_free(insns@),
            n == insns@.len(),
            flow(insns@, pos(bbs@, n, bb_idx as int)) == Ok::<
                (Seq<bool>, Seq<Seq<bool>>),
                VerifyError,
            >((fr, fm)),
            fr.len() == pos(bbs@, n, bb_idx as int),
            fm.len() == pos(bbs@, n, bb_idx as int),
            pending_ok(insns@, bbs@, masks(ins@), reach@, fr, fm, bb_idx as int, pos(bbs@, n, bb_idx as int)),
            nb == bbs@.len(),
            ins@.len() == nb,
            reach@.len() == nb,
            reach@[0],
            ins@[0]@ == entry_mask(),
            forall|j: int| 0 <= j < nb ==> (#[trigger] ins@[j])@.len() == NUM_REGS,
            reach_ranked(bbs@, reach@, dist),
            forall|b: int|
                0 <= b < bb_idx && #[trigger] reach@[b] ==> block_ok(
                    insns@,
                    bbs@,
                    masks(ins@),
                    reach@,
                    b,
                ),
            has_cert == exists|st: Seq<Seq<bool>>| init_certificate(insns@, st),
            has_cert ==> init_certificate(insns@, cst),
            has_cert ==> forall|b: int|
                0 <= b < nb && #[trigger] reach@[b] ==> mask_le(
                    cst[bbs@[b].start as int],
                    ins@[b]@,
                ),
    {
        let ghost fr0 = fr;
        let ghost fm0 = fm;
        if reach[bb_idx] {
            let ghost in_mask = ins@[bb_idx as int]@;
            let mut state = ins[bb_idx];
            let start = bbs[bb_idx].start;
            let end = bbs[bb_idx].end;
            proof {
                if bb_idx > 0 {
                    assert(masks(ins@)[bb_idx as int] == ins@[bb_idx as int]@);
                    lemma_pending_at(
                        insns@,
                        bbs@,
                        masks(ins@),
                        reach@,
                        fr,
                        fm,
                        bb_idx as int,
                        start as int,
                        bb_idx as int,
                    );
                }
            }
            assert(bbs@[bb_idx as int].start < bbs@[bb_idx as int].end <= insns@.len());
            proof {
                if has_cert {
                    lemma_cert_sim(insns@, cst, start as int, end as int, in_mask);
                }
                if bb_idx > 0 {
                    assert(block_ok(insns@, bbs@, masks(ins@), reach@, 0));
                    assert(masks(ins@)[0] == ins@[0]@);
                }
            }
            // Simulate the instructions of this block.
            for pc in start..end
                invariant
                    end <= insns@.len(),
                    start <= pc,
                    blocks_wf(insns@, bbs@),
                    nb == bbs@.len(),
                    reach@.len() == nb,
                    bb_idx < nb,
                    reach@[bb_idx as int],
                    reach_ranked(bbs@, reach@, dist),
                    start == bbs@[bb_idx as int].start,
                    end == bbs@[bb_idx as int].end,
                    state@.len() == NUM_REGS,
                    sim(insns@, start as int, pc as int, in_mask) == Ok::<
                        Seq<bool>,
                        VerifyError,
                    >(state@),
                    has_cert ==> sim(insns@, start as int, end as int, in_mask) is Ok,
                    has_cert == exists|st: Seq<Seq<bool>>| init_certificate(insns@, st),
                    bb_idx > 0 ==> sim(insns@, 0, bbs@[0].end as int, entry_mask()) is Ok,
                    bb_idx == 0 ==> start == 0 && in_mask == entry_mask() && end == bbs@[0].end,
                    blocks_tile(insns@, bbs@),
                    n == insns@.len(),
                    flow(insns@, pc as int) == Ok::<(Seq<bool>, Seq<Seq<bool>>), VerifyError>(
                        (fr, fm),
                    ),
                    fr.len() == pc,
                    fm.len() == pc,
                    forall|q: int| 0 <= q < start ==> fr[q] == fr0[q] && fm[q] == fm0[q],
                    fr0.len() == start,
                    fm0.len() == start,
                    pending_ok(insns@, bbs@, masks(ins@), reach@, fr0, fm0, bb_idx as int, start as int),
                    pc == start ==> (bb_idx == 0 ==> pc == 0 && state@ == entry_mask()) && (bb_idx
                        > 0 ==> has_pred(insns@, fr, pc as int, pc as int) && pred_meet(
                        insns@,
                        fr,
                        fm,
                        pc as int,
                        pc as int,
                    ) == state@),
                    pc > start ==> fr[pc - 1] && flow_out(insns@, fm, pc - 1) == state@,
            {
                proof {
                    lemma_sim_split(insns@, start as int, pc as int, pc + 1, in_mask);
                }
                let ghost before = state@;
                proof {
                    lemma_flow_in_block(insns@, bbs@, bb_idx as int, pc as int, fr, fm, before);
                }
                match check_and_update_regs(insns, pc, &mut state) {
                    Ok(()) => {
                        proof {
                            reveal_with_fuel(sim, 2);
                            let fr2 = fr.push(true);
                            let fm2 = fm.push(before);
                            assert(fm2[pc as int] == before);
                            assert(flow_out(insns@, fm2, pc as int) == state@);
                            assert forall|q: int| 0 <= q < start implies fr2[q] == fr0[q] && fm2[q]
                                == fm0[q] by {
                                assert(fr2[q] == fr[q] && fm2[q] == fm[q]);
                            }
                            fr = fr2;
                            fm = fm2;
                        }
                    },
                    Err(e) => {
                        assert(spec_check_insn(insns@[pc as int], pc, before) == Err::<
                            Seq<bool>,
                            VerifyError,
                        >(e));
                        proof {
                            lemma_sim_split(insns@, start as int, pc as int, end as int, in_mask);
                            lemma_sim_split(insns@, pc as int, pc + 1, end as int, before);
                            reveal_with_fuel(sim, 2);
                            let path = lemma_block_path(
                                insns@,
                                bbs@,
                                reach@,
                                dist,
                                bb_idx as int,
                                pc as int,
                            );
                            assert(reachable(insns@, pc as int));
                            lemma_flow_err(insns@, pc + 1, n);
                        }
                        return Err(e);
                    },
                }
            }
            let ghost cert_out = spec_check_insn(
                insns@[end - 1],
                (end - 1) as usize,
                cst[end - 1],
            )->Ok_0;
            // Propagate to successors.
            let nsucc = bbs[bb_idx].successors.len();
            proof {
                lemma_mid_start(
                    insns@,
                    bbs@,
                    masks(ins@),
                    reach@,
                    fr0,
                    fm0,
                    bb_idx as int,
                    start as int,
                    state@,
                );
            }
            for k in 0..nsucc
                invariant
                    blocks_wf(insns@, bbs@),
                    blocks_tile(insns@, bbs@),
                    loop_free(insns@),
                    n == insns@.len(),
                    flow(insns@, end as int) == Ok::<(Seq<bool>, Seq<Seq<bool>>), VerifyError>(
                        (fr, fm),
                    ),
                    fr.len() == end,
                    fm.len() == end,
                    fr0.len() == start,
                    forall|q: int| 0 <= q < start ==> fr[q] == fr0[q] && fm[q] == fm0[q],
                    fr[end - 1],
                    flow_out(insns@, fm, end - 1) == state@,
                    pending_mid(
                        insns@,
                        bbs@,
                        masks(ins@),
                        reach@,
                        fr0,
                        fm0,
                        bb_idx as int,
                        start as int,
                        k as int,
                        state@,
                    ),
                    nb == bbs@.len(),
                    bb_idx < nb,
                    nsucc == bbs@[bb_idx as int].successors@.len(),
                    end == bbs@[bb_idx as int].end,
                    ins@.len() == nb,
                    reach@.len() == nb,
                    reach@[0],
                    reach@[bb_idx as int],
                    ins@[bb_idx as int]@ == in_mask,
                    sim(insns@, start as int, end as int, in_mask) == Ok::<Seq<bool>, VerifyError>(
                        state@,
                    ),
                    start == bbs@[bb_idx as int].start,
                    ins@[0]@ == entry_mask(),
                    state@.len() == NUM_REGS,
                    forall|j: int| 0 <= j < nb ==> (#[trigger] ins@[j])@.len() == NUM_REGS,
                    reach_ranked(bbs@, reach@, dist),
                    forall|b: int|
                        0 <= b < bb_idx && #[trigger] reach@[b] ==> block_ok(
                            insns@,
                            bbs@,
                            masks(ins@),
                            reach@,
                            b,
                        ),
                    has_cert == exists|st: Seq<Seq<bool>>| init_certificate(insns@, st),
                    has_cert ==> init_certificate(insns@, cst),
                    has_cert ==> mask_le(cert_out, state@),
                    cert_out == spec_check_insn(
                        insns@[end - 1],
                        (end - 1) as usize,
                        cst[end - 1],
                    )->Ok_0,
                    has_cert ==> forall|b: int|
                        0 <= b < nb && #[trigger] reach@[b] ==> mask_le(
                            cst[bbs@[b].start as int],
                            ins@[b]@,
                        ),
                    forall|j: int|
                        0 <= j < k ==> {
                            let c = #[trigger] bbs@[bb_idx as int].successors@[j] as int;
                            reach@[c] && mask_le(ins@[c]@, state@)
                        },
            {
                let succ_idx = bbs[bb_idx].successors[k];
                proof {
                    lemma_succ_block_after(insns@, bbs@, bb_idx as int, k as int);
                    if has_cert {
                        let c = succ_idx as int;
                        assert(is_succ(insns@, end - 1, bbs@[c].start as int));
                        assert(bbs@[bb_idx as int].start < bbs@[bb_idx as int].end);
                        assert(bbs@[c].start < bbs@[c].end <= insns@.len());
                        assert(mask_le(cst[bbs@[c].start as int], cert_out));
                    }
                }
                let ghost prev_ins = ins@;
                let ghost prev_reach = reach@;
                let ghost prev_dist = dist;
                let ghost prev_mi = masks(ins@);
                if !reach[succ_idx] {
                    proof {
                        dist = dist.update(succ_idx as int, dist[bb_idx as int] + 1);
                    }
                    reach.set(succ_idx, true);
                    ins.set(succ_idx, state);
                    assert forall|b: int| 0 < b < nb && #[trigger] reach@[b] implies entered_from_closer(
                        bbs@,
                        reach@,
                        dist,
                        b,
                    ) by {
                        if b == succ_idx as int {
                            assert(bbs@[bb_idx as int].successors@[k as int] == b);
                        } else {
                            assert(prev_reach[b]);
                            assert(entered_from_closer(bbs@, prev_reach, prev_dist, b));
                            let (p, kk) = choose|p: int, kk: int|
                                0 <= p < nb && prev_reach[p] && prev_dist[p] < prev_dist[b] && 0
                                    <= kk < bbs@[p].successors@.len()
                                    && #[trigger] bbs@[p].successors@[kk] == b;
                            assert(p != succ_idx as int);
                            assert(bbs@[p].successors@[kk] == b);
                        }
                    }
                } else {
                    let merged = ins[succ_idx].merge(&state);
                    ins.set(succ_idx, merged);
                }
                proof {
                    let c = succ_idx as int;
                    assert(reach@ == prev_reach.update(c, true));
                    assert forall|d: int| 0 <= d < nb && d != c implies masks(ins@)[d] == prev_mi[d] by {
                        assert(ins@[d] == prev_ins[d]);
                    }
                    assert(masks(ins@)[c] == ins@[c]@ && prev_mi[c] == prev_ins[c]@);
                    if prev_reach[c] {
                        assert(masks(ins@)[c] =~= meet(prev_mi[c], state@));
                    }
                    lemma_mid_step(
                        insns@,
                        bbs@,
                        prev_mi,
                        prev_reach,
                        masks(ins@),
                        reach@,
                        fr0,
                        fm0,
                        bb_idx as int,
                        start as int,
                        k as int,
                        state@,
                    );
                    assert(mask_le(ins@[c]@, prev_ins[c]@) || !prev_reach[c]);
                    assert forall|b: int|
                        0 <= b < bb_idx && #[trigger] reach@[b] implies block_ok(
                        insns@,
                        bbs@,
                        masks(ins@),
                        reach@,
                        b,
                    ) by {
                        assert(prev_reach[b]);
                        assert(block_ok(insns@, bbs@, masks(prev_ins), prev_reach, b));
                        assert(masks(ins@)[b] == ins@[b]@);
                        assert(masks(prev_ins)[b] == prev_ins[b]@);
                        assert(ins@[b] == prev_ins[b]);
                        let out = sim(insns@, bbs@[b].start as int, bbs@[b].end as int, ins@[b]@);
                        assert forall|kk: int| 0 <= kk < bbs@[b].successors@.len() implies {
                            let c2 = #[trigger] bbs@[b].successors@[kk] as int;
                            reach@[c2] && mask_le(masks(ins@)[c2], out->Ok_0)
                        } by {
                            let c2 = bbs@[b].successors@[kk] as int;
                            assert(prev_reach[c2] && mask_le(masks(prev_ins)[c2], out->Ok_0));
                            assert(masks(ins@)[c2] == ins@[c2]@);
                            assert(masks(prev_ins)[c2] == prev_ins[c2]@);
                        }
                    }
                    assert forall|j: int| 0 <= j < k + 1 implies {
                        let c2 = #[trigger] bbs@[bb_idx as int].successors@[j] as int;
                        reach@[c2] && mask_le(ins@[c2]@, state@)
                    } by {
                        let c2 = bbs@[bb_idx as int].successors@[j] as int;
                        if c2 != c {
                            assert(ins@[c2] == prev_ins[c2]);
                        }
                    }
                    if has_cert {
                        assert forall|b: int|
                            0 <= b < nb && #[trigger] reach@[b] implies mask_le(
                            cst[bbs@[b].start as int],
                            ins@[b]@,
                        ) by {
                            if b != c {
                                assert(ins@[b] == prev_ins[b]);
                            }
                        }
                    }
                }
            }
            proof {
                assert(masks(ins@)[bb_idx as int] == in_mask);
                assert forall|kk: int|
                    0 <= kk < bbs@[bb_idx as int].successors@.len() implies {
                    let c = #[trigger] bbs@[bb_idx as int].successors@[kk] as int;
                    reach@[c] && mask_le(masks(ins@)[c], state@)
                } by {
                    let c = bbs@[bb_idx as int].successors@[kk] as int;
                    assert(masks(ins@)[c] == ins@[c]@);
                }
                assert(block_ok(insns@, bbs@, masks(ins@), reach@, bb_idx as int));
                lemma_mid_end(insns@, bbs@, bb_idx as int);
                lemma_block_done(
                    insns@,
                    bbs@,
                    masks(ins@),
                    reach@,
                    fr0,
                    fm0,
                    fr,
                    fm,
                    bb_idx as int,
                    nsucc as int,
                    state@,
                );
            }
        } else {
            proof {
                let st = bbs@[bb_idx as int].start as int;
                assert(bbs@[0].start < bbs@[bb_idx as int].start) by {
                    assert(bb_idx > 0);
                }
                lemma_pending_at(insns@, bbs@, masks(ins@), reach@, fr, fm, bb_idx as int, st, bb_idx as int);
                let res = lemma_flow_skip_block(insns@, bbs@, bb_idx as int, st, fr, fm);
                lemma_mid_start(insns@, bbs@, masks(ins@), reach@, fr0, fm0, bb_idx as int, st, all_set());
                assert forall|c: int| bb_idx < c < nb implies #[trigger] seen(bbs@, bb_idx as int, 0, c)
                    == (res.0[bbs@[bb_idx as int].end - 1] && is_succ(
                    insns@,
                    bbs@[bb_idx as int].end - 1,
                    bbs@[c].start as int,
                )) by {}
                lemma_block_done(
                    insns@,
                    bbs@,
                    masks(ins@),
                    reach@,
                    fr0,
                    fm0,
                    res.0,
                    res.1,
                    bb_idx as int,
                    0,
                    all_set(),
                );
                fr = res.0;
                fm = res.1;
            }
        }
        proof {
            let e = bbs@[bb_idx as int].end as int;
            lemma_tile_next(insns@, bbs@, bb_idx as int);
            assert(pos(bbs@, n, bb_idx + 1) == e);
        }
    }
    assert(reach_ranked(bbs@, reach@, dist));
    assert(forall|b: int|
        0 <= b < nb && #[trigger] reach@[b] ==> block_ok(insns@, bbs@, masks(ins@), reach@, b));
    Ok((ins, reach))
}

// ---------------------------------------------------------------------------
// Exit reachability and the entry point
// ---------------------------------------------------------------------------

spec fn exit_check_err(insns: Seq<Insn>, bbs: Seq<BasicBlock>, reach: Seq<bool>, e: VerifyError) -> bool {
    match e {
        VerifyError::UnreachableCode { pc } => exists|b: int|
            0 <= b < bbs.len() && #[trigger] bbs[b].start == pc && !reach[b] && forall|c: int|
                0 <= c < b ==> #[trigger] reach[c],
        VerifyError::FallthroughAfterExit { pc } => exists|b: int|
            0 <= b < bbs.len() && #[trigger] bbs[b].end == pc + 1 && bbs[b].successors@.len() == 0
                && !(insns[pc as int] is Exit) && !(insns[pc as int] is TailCall) && forall|c: int|
                0 <= c <= b ==> #[trigger] reach[c],
        VerifyError::NoExitInstruction => {
            &&& forall|b: int| 0 <= b < bbs.len() ==> !(insns[(#[trigger] bbs[b]).end - 1] is Exit)
            &&& forall|b: int| 0 <= b < bbs.len() ==> #[trigger] reach[b]
            &&& forall|b: int|
                0 <= b < bbs.len() && (#[trigger] bbs[b]).successors@.len() == 0 ==> insns[bbs[b].end
                    - 1] is TailCall
        },
        _ => false,
    }
}

fn check_exit_reachability(insns: &[Insn], bbs: &Vec<BasicBlock>, reach: &Vec<bool>) -> (res: Result<
    (),
    VerifyError,
>)
    requires
        blocks_wf(insns@, bbs@),
        reach@.len() == bbs@.len(),
    ensures
        res is Ok ==> {
            &&& forall|b: int| 0 <= b < bbs@.len() ==> #[trigger] reach@[b]
            &&& exists|b: int| 0 <= b < bbs@.len() && insns@[(#[trigger] bbs@[b]).end - 1] is Exit
            &&& forall|b: int|
                0 <= b < bbs@.len() && (#[trigger] bbs@[b]).successors@.len() == 0 ==> (
                insns@[bbs@[b].end - 1] is Exit || insns@[bbs@[b].end - 1] is TailCall)
        },
        res matches Err(e) ==> exit_check_err(insns@, bbs@, reach@, e),
{
    let mut has_exit = false;
    let nb = bbs.len();
    for i in 0..nb
        invariant
            blocks_wf(insns@, bbs@),
            nb == bbs@.len(),
            reach@.len() == nb,
            forall|b: int| 0 <= b < i ==> #[trigger] reach@[b],
            has_exit <==> exists|b: int|
                0 <= b < i && insns@[(#[trigger] bbs@[b]).end - 1] is Exit,
            forall|b: int|
                0 <= b < i && (#[trigger] bbs@[b]).successors@.len() == 0 ==> (insns@[bbs@[b].end
                    - 1] is Exit || insns@[bbs@[b].end - 1] is TailCall),
    {
        let bb = &bbs[i];
        assert(bbs@[i as int].start < bbs@[i as int].end <= insns@.len());
        if !reach[i] {
            assert(bbs@[i as int].start == bb.start);
            return Err(VerifyError::UnreachableCode { pc: bb.start });
        }
        let last_insn = &insns[bb.end - 1];
        if matches!(last_insn, Insn::Exit) {
            has_exit = true;
        }
        if bb.successors.len() == 0 && !matches!(last_insn, Insn::Exit | Insn::TailCall) {
            assert(bbs@[i as int].end == (bb.end - 1) + 1);
            return Err(VerifyError::FallthroughAfterExit { pc: bb.end - 1 });
        }
    }
    if !has_exit {
        return Err(VerifyError::NoExitInstruction);
    }
    Ok(())
}

/// The analysis result, over all instructions, yields a certificate.
proof fn lemma_certificate(
    insns: Seq<Insn>,
    s: Seq<usize>,
    bbs: Seq<BasicBlock>,
    m: Seq<Seq<bool>>,
    reach: Seq<bool>,
)
    requires
        cfg_wf(insns, s, bbs),
        s.len() <= usize::MAX,
        m.len() == bbs.len(),
        reach.len() == bbs.len(),
        mask_le(m[0], entry_mask()),
        forall|b: int| 0 <= b < bbs.len() ==> (#[trigger] m[b]).len() == NUM_REGS,
        forall|b: int| 0 <= b < bbs.len() ==> #[trigger] reach[b],
        forall|b: int|
            0 <= b < bbs.len() && #[trigger] reach[b] ==> block_ok(insns, bbs, m, reach, b),
    ensures
        exists|st: Seq<Seq<bool>>| init_certificate(insns, st),
{
    let n = insns.len() as int;
    let st = Seq::new(
        n as nat,
        |pc: int|
            sim(
                insns,
                s[block_of(s, n, pc)] as int,
                pc,
                m[block_of(s, n, pc)],
            )->Ok_0,
    );
    assert forall|pc: int| #![trigger st[pc]] 0 <= pc < n implies {
        let b = block_of(s, n, pc);
        &&& sim(insns, s[b] as int, pc, m[b]) is Ok
        &&& st[pc].len() == NUM_REGS
        &&& spec_check_insn(insns[pc], pc as usize, st[pc]) is Ok
        &&& sim(insns, s[b] as int, pc + 1, m[b]) == Ok::<Seq<bool>, VerifyError>(
            spec_check_insn(insns[pc], pc as usize, st[pc])->Ok_0,
        )
    } by {
        lemma_block_of(s, n, pc);
        let b = block_of(s, n, pc);
        assert(reach[b]);
        assert(block_ok(insns, bbs, m, reach, b));
        let e = bbs[b].end as int;
        lemma_sim_split(insns, s[b] as int, pc, e, m[b]);
        lemma_sim_split(insns, s[b] as int, pc, pc + 1, m[b]);
        lemma_sim_len(insns, s[b] as int, pc, m[b]);
        reveal_with_fuel(sim, 2);
        match sim(insns, s[b] as int, pc, m[b]) {
            Ok(x) => {
                lemma_sim_split(insns, pc, pc + 1, e, x);
            },
            Err(_) => {},
        }
    }
    // Entry: the first block starts at 0 with its in-state.
    lemma_start_block(s, n, 0);
    assert(st[0] == m[0]);
    assert forall|pc: int, q: int|
        0 <= pc < n && 0 <= q < n && #[trigger] is_succ(insns, pc, q) implies mask_le(
        st[q],
        spec_check_insn(insns[pc], pc as usize, st[pc])->Ok_0,
    ) by {
        lemma_block_of(s, n, pc);
        let b = block_of(s, n, pc);
        let e = bbs[b].end as int;
        let out = spec_check_insn(insns[pc], pc as usize, st[pc])->Ok_0;
        if pc + 1 < e {
            // Within a block: pc + 1 is no leader, so control only falls through.
            lemma_block_of(s, n, pc + 1);
            assert(in_block(s, n, b, pc + 1));
            if ends_block(insns[pc]) {
                assert(is_leader(insns, pc + 1));
                assert(s.contains((pc + 1) as usize));
                let j = choose|j: int| 0 <= j < s.len() && s[j] == (pc + 1) as usize;
                lemma_start_block(s, n, j);
                assert(false);
            }
            assert(q == pc + 1);
            assert(st[q] == out);
        } else {
            // Last instruction of the block: q starts a successor block.
            assert(pc == e - 1);
            lemma_block_of(s, n, q);
            assert(bbs[b].successors@.contains(block_of(s, n, q) as usize));
            let c = block_of(s, n, q);
            let k = choose|k: int|
                0 <= k < bbs[b].successors@.len() && bbs[b].successors@[k] == c as usize;
            assert(bbs[b].successors@[k] == c as usize);
            assert(reach[b]);
            assert(block_ok(insns, bbs, m, reach, b));
            lemma_sim_split(insns, s[b] as int, pc + 1, e, m[b]);
            assert(sim(insns, s[b] as int, e, m[b]) == Ok::<Seq<bool>, VerifyError>(out));
            assert(bbs[b].successors@[k] as int == c);
            assert(mask_le(m[c], out));
            // q is a leader.
            match insns[pc] {
                Insn::Ja { off } => {
                    assert(jumps_to(insns, pc, q));
                },
                Insn::JmpCond { off, .. } => {
                    if q == target_of(pc, off) {
                        assert(jumps_to(insns, pc, q));
                    }
                },
                Insn::JmpCond32 { off, .. } => {
                    if q == target_of(pc, off) {
                        assert(jumps_to(insns, pc, q));
                    }
                },
                _ => {
                    assert(q == e);
                    assert(s[b + 1] == q);
                },
            }
            assert(is_leader(insns, q));
            assert(s.contains(q as usize));
            let j = choose|j: int| 0 <= j < s.len() && s[j] == q as usize;
            lemma_start_block(s, n, j);
            assert(c == j);
            assert(st[q] == m[c]);
        }
    }
    assert(init_certificate(insns, st));
}

proof fn lemma_rank_step(a: nat, b: nat, w: nat, x: int)
    by (nonlinear_arith)
    requires
        a < b,
        0 <= x < w,
    ensures
        a * w + x < b * w,
{
}

/// With every block reached, the block distances give each instruction a
/// predecessor of smaller rank.
proof fn lemma_reach_witness(
    insns: Seq<Insn>,
    s: Seq<usize>,
    bbs: Seq<BasicBlock>,
    reach: Seq<bool>,
    dist: Seq<nat>,
)
    requires
        cfg_wf(insns, s, bbs),
        blocks_wf(insns, bbs),
        insns.len() <= usize::MAX,
        reach.len() == bbs.len(),
        forall|b: int| 0 <= b < bbs.len() ==> #[trigger] reach[b],
        reach_ranked(bbs, reach, dist),
    ensures
        exists|d: Seq<nat>| reach_witness(insns, d),
{
    let n = insns.len() as int;
    let w = (n + 1) as nat;
    let d = Seq::new(
        n as nat,
        |pc: int| (dist[block_of(s, n, pc)] * w + (pc - s[block_of(s, n, pc)])) as nat,
    );
    assert forall|pc: int| 0 < pc < insns.len() implies #[trigger] has_closer_pred(insns, d, pc) by {
        lemma_block_of(s, n, pc);
        let b = block_of(s, n, pc);
        if s[b] == pc {
            assert(b != 0);
            assert(reach[b]);
            assert(entered_from_closer(bbs, reach, dist, b));
            let (p, k) = choose|p: int, k: int|
                0 <= p < bbs.len() && reach[p] && dist[p] < dist[b] && 0 <= k
                    < bbs[p].successors@.len() && #[trigger] bbs[p].successors@[k] == b;
            assert(bbs[p].successors@[k] == b);
            assert(bbs[b].start == s[b]);
            assert(bbs[p].start == s[p]);
            let q = bbs[p].end - 1;
            assert(is_succ(insns, q, pc));
            if p + 1 < s.len() {
                assert(s[p] < s[p + 1]);
            }
            assert(in_block(s, n, p, q));
            lemma_block_of(s, n, q);
            assert(block_of(s, n, q) == p);
            lemma_rank_step(dist[p], dist[b], w, q - s[p]);
            assert(d[q] < d[pc]);
        } else {
            let q = pc - 1;
            if is_leader(insns, pc) {
                assert(s.contains(pc as usize));
                let j = choose|j: int| 0 <= j < s.len() && s[j] == pc as usize;
                lemma_start_block(s, n, j);
                assert(s[j] as int == pc);
                assert(false);
            }
            assert(!ends_block(insns[pc - 1]));
            assert(in_block(s, n, b, q));
            lemma_block_of(s, n, q);
            assert(block_of(s, n, q) == b);
            assert(is_succ(insns, q, pc));
            assert(d[q] < d[pc]);
        }
    }
    assert(reach_witness(insns, d));
}

/// With every reached block passing and reaching its successors, an
/// instruction on an entry path lies in a reached block.
proof fn lemma_all_reached(
    insns: Seq<Insn>,
    s: Seq<usize>,
    bbs: Seq<BasicBlock>,
    m: Seq<Seq<bool>>,
    reach: Seq<bool>,
    rank: Seq<nat>,
    pc: int,
)
    requires
        cfg_wf(insns, s, bbs),
        insns.len() <= usize::MAX,
        s.len() <= usize::MAX,
        reach.len() == bbs.len(),
        reach[0],
        forall|b: int| 0 <= b < bbs.len() && #[trigger] reach[b] ==> block_ok(insns, bbs, m, reach, b),
        reach_witness(insns, rank),
        0 <= pc < insns.len(),
    ensures
        reach[block_of(s, insns.len() as int, pc)],
    decreases rank[pc],
{
    let n = insns.len() as int;
    lemma_block_of(s, n, pc);
    let b = block_of(s, n, pc);
    if pc == 0 {
        lemma_start_block(s, n, 0);
    } else {
        assert(has_closer_pred(insns, rank, pc));
        let q = choose|q: int| 0 <= q < insns.len() && #[trigger] rank[q] < rank[pc] && is_succ(insns, q, pc);
        lemma_all_reached(insns, s, bbs, m, reach, rank, q);
        lemma_block_of(s, n, q);
        let bq = block_of(s, n, q);
        if bq != b {
            assert(bbs[bq].start == s[bq] && bbs[bq].end == block_end(s, n, bq));
            if q + 1 < bbs[bq].end {
                assert(in_block(s, n, bq, q + 1));
                if ends_block(insns[q]) {
                    assert(is_leader(insns, q + 1));
                    assert(s.contains((q + 1) as usize));
                    let j = choose|j: int| 0 <= j < s.len() && s[j] == (q + 1) as usize;
                    lemma_start_block(s, n, j);
                    lemma_block_of(s, n, q + 1);
                    assert(false);
                }
                assert(pc == q + 1);
                lemma_block_of(s, n, q + 1);
                assert(false);
            }
            assert(q == bbs[bq].end - 1);
            assert(0 <= b < s.len());
            assert(bbs[bq].successors@.contains(b as usize));
            let k = choose|k: int| 0 <= k < bbs[bq].successors@.len() && bbs[bq].successors@[k] == b as usize;
            assert(block_ok(insns, bbs, m, reach, bq));
            assert(bbs[bq].successors@[k] as int == b);
        }
    }
}

/// Every instruction of a reached block is reached from the entry.
#[verifier::spinoff_prover]
#[verifier::rlimit(30)]
proof fn lemma_block_path(
    insns: Seq<Insn>,
    bbs: Seq<BasicBlock>,
    reach: Seq<bool>,
    dist: Seq<nat>,
    c: int,
    pc: int,
) -> (path: Seq<int>)
    requires
        blocks_wf(insns, bbs),
        reach.len() == bbs.len(),
        reach_ranked(bbs, reach, dist),
        0 <= c < bbs.len(),
        reach[c],
        bbs[c].start <= pc < bbs[c].end,
    ensures
        entry_path(insns, path),
        path.last() == pc,
    decreases dist[c], pc - bbs[c].start,
{
    if pc > bbs[c].start {
        let p0 = lemma_block_path(insns, bbs, reach, dist, c, pc - 1);
        assert(flows_on(insns, pc - 1));
        let path = p0.push(pc);
        assert forall|i: int| 0 <= i < path.len() - 1 implies is_succ(
            insns,
            #[trigger] path[i],
            path[i + 1],
        ) by {
            if i < p0.len() - 1 {
                assert(path[i] == p0[i] && path[i + 1] == p0[i + 1]);
            }
        }
        assert forall|i: int| 0 <= i < path.len() implies 0 <= #[trigger] path[i] < insns.len() by {
            if i < p0.len() {
                assert(path[i] == p0[i]);
            }
        }
        path
    } else if c == 0 {
        seq![0int]
    } else {
        assert(entered_from_closer(bbs, reach, dist, c));
        let (p, k) = choose|p: int, k: int|
            0 <= p < bbs.len() && reach[p] && dist[p] < dist[c] && 0 <= k
                < bbs[p].successors@.len() && #[trigger] bbs[p].successors@[k] == c;
        let p0 = lemma_block_path(insns, bbs, reach, dist, p, bbs[p].end - 1);
        assert(is_succ(insns, bbs[p].end - 1, bbs[bbs[p].successors@[k] as int].start as int));
        let path = p0.push(pc);
        assert forall|i: int| 0 <= i < path.len() - 1 implies is_succ(
            insns,
            #[trigger] path[i],
            path[i + 1],
        ) by {
            if i < p0.len() - 1 {
                assert(path[i] == p0[i] && path[i + 1] == p0[i + 1]);
            }
        }
        assert forall|i: int| 0 <= i < path.len() implies 0 <= #[trigger] path[i] < insns.len() by {
            if i < p0.len() {
                assert(path[i] == p0[i]);
            }
        }
        path
    }
}

/// Every instruction on a path from the entry lies in a reached block.
proof fn lemma_path_reached(
    insns: Seq<Insn>,
    s: Seq<usize>,
    bbs: Seq<BasicBlock>,
    m: Seq<Seq<bool>>,
    reach: Seq<bool>,
    path: Seq<int>,
    i: int,
)
    requires
        cfg_wf(insns, s, bbs),
        insns.len() <= usize::MAX,
        s.len() <= usize::MAX,
        reach.len() == bbs.len(),
        reach[0],
        forall|b: int| 0 <= b < bbs.len() && #[trigger] reach[b] ==> block_ok(insns, bbs, m, reach, b),
        entry_path(insns, path),
        0 <= i < path.len(),
    ensures
        reach[block_of(s, insns.len() as int, path[i])],
    decreases i,
{
    let n = insns.len() as int;
    let pc = path[i];
    lemma_block_of(s, n, pc);
    let b = block_of(s, n, pc);
    if i == 0 {
        lemma_start_block(s, n, 0);
    } else {
        let q = path[i - 1];
        assert(is_succ(insns, path[i - 1], path[(i - 1) + 1]));
        lemma_path_reached(insns, s, bbs, m, reach, path, i - 1);
        lemma_block_of(s, n, q);
        let bq = block_of(s, n, q);
        if bq != b {
            assert(bbs[bq].start == s[bq] && bbs[bq].end == block_end(s, n, bq));
            if q + 1 < bbs[bq].end {
                assert(in_block(s, n, bq, q + 1));
                if ends_block(insns[q]) {
                    assert(is_leader(insns, q + 1));
                    assert(s.contains((q + 1) as usize));
                    let j = choose|j: int| 0 <= j < s.len() && s[j] == (q + 1) as usize;
                    lemma_start_block(s, n, j);
                    lemma_block_of(s, n, q + 1);
                    assert(false);
                }
                assert(pc == q + 1);
                lemma_block_of(s, n, q + 1);
                assert(false);
            }
            assert(q == bbs[bq].end - 1);
            assert(0 <= b < s.len());
            assert(bbs[bq].successors@.contains(b as usize));
            let k = choose|k: int| 0 <= k < bbs[bq].successors@.len() && bbs[bq].successors@[k] == b as usize;
            assert(block_ok(insns, bbs, m, reach, bq));
            assert(bbs[bq].successors@[k] as int == b);
        }
    }
}

/// The blocks built from the leaders have the structure the analysis
/// relies on.
proof fn lemma_cfg_blocks_wf(insns: Seq<Insn>, s: Seq<usize>, bbs: Seq<BasicBlock>)
    requires
        cfg_wf(insns, s, bbs),
        insns.len() > 0,
        insns.len() <= usize::MAX,
        s.len() <= usize::MAX,
    ensures
        blocks_wf(insns, bbs),
        blocks_tile(insns, bbs),
{
    reveal(blocks_tile);
    let n = insns.len() as int;
    assert(bbs[0].start == s[0]);
    assert forall|b1: int, b2: int|
        0 <= b1 < b2 < bbs.len() implies (#[trigger] bbs[b1]).start < (
        #[trigger] bbs[b2]).start by {
        assert(bbs[b1].start == s[b1] && bbs[b2].start == s[b2]);
    }
    assert forall|b: int| 0 <= b < bbs.len() implies {
        &&& (#[trigger] bbs[b]).start < bbs[b].end <= insns.len()
        &&& is_leader(insns, bbs[b].start as int)
        &&& forall|k: int|
            0 <= k < bbs[b].successors@.len() ==> bbs[b].successors@[k] < bbs.len()
                && is_succ(insns, bbs[b].end - 1, bbs[bbs[b].successors@[k] as int].start as int)
        &&& forall|pc: int| bbs[b].start <= pc < bbs[b].end - 1 ==> #[trigger] flows_on(insns, pc)
        &&& forall|pc: int| bbs[b].start < pc < bbs[b].end ==> !#[trigger] is_leader(insns, pc)
        &&& forall|c: int|
            0 <= c < bbs.len() && #[trigger] is_succ(insns, bbs[b].end - 1, bbs[c].start as int)
                ==> bbs[b].successors@.contains(c as usize)
    } by {
        assert(bbs[b].start == s[b]);
        assert forall|pc: int| bbs[b].start < pc < bbs[b].end implies !#[trigger] is_leader(
            insns,
            pc,
        ) by {
            assert(in_block(s, n, b, pc));
            if is_leader(insns, pc) {
                assert(s.contains(pc as usize));
                let j = choose|j: int| 0 <= j < s.len() && s[j] == pc as usize;
                lemma_start_block(s, n, j);
                lemma_block_of(s, n, pc);
                assert(false);
            }
        }
        assert forall|c: int|
            0 <= c < bbs.len() && #[trigger] is_succ(insns, bbs[b].end - 1, bbs[c].start as int)
                implies bbs[b].successors@.contains(c as usize) by {
            assert(bbs[c].start == s[c]);
            lemma_start_block(s, n, c);
        }
        if b + 1 < s.len() {
            assert(s[b] < s[b + 1]);
        }
        assert forall|pc: int| bbs[b].start <= pc < bbs[b].end - 1 implies #[trigger] flows_on(
            insns,
            pc,
        ) by {
            assert(in_block(s, n, b, pc + 1));
            if is_leader(insns, pc + 1) {
                assert(s.contains((pc + 1) as usize));
                let j = choose|j: int| 0 <= j < s.len() && s[j] == (pc + 1) as usize;
                lemma_start_block(s, n, j);
                lemma_block_of(s, n, pc + 1);
                assert(false);
            }
            assert(!ends_block(insns[pc]));
        }
        assert forall|k: int| 0 <= k < bbs[b].successors@.len() implies bbs[b].successors@[k]
            < bbs.len() && is_succ(
            insns,
            bbs[b].end - 1,
            bbs[bbs[b].successors@[k] as int].start as int,
        ) by {
            let c = bbs[b].successors@[k] as int;
            assert(bbs[c].start == s[c]);
        }
    }
    let lastb = bbs.len() - 1;
    assert(bbs[lastb].end == block_end(s, n, lastb));
    assert forall|b: int| 0 <= b < bbs.len() - 1 implies (#[trigger] bbs[b]).end
        == bbs[b + 1].start by {
        assert(bbs[b].end == block_end(s, n, b));
        assert(bbs[b + 1].start == s[b + 1]);
    }
}

/// The checks before the exit phase pass: the program is not empty, its
/// jumps stay inside it and go forward, and its registers are written
/// before they are read (an initialization certificate exists).
pub open spec fn flow_checks_pass(insns: Seq<Insn>) -> bool {
    &&& insns.len() > 0
    &&& branches_in_bounds(insns)
    &&& loop_free(insns)
    &&& exists|st: Seq<Seq<bool>>| init_certificate(insns, st)
}

/// What `verify_program` returns for `insns`: `EmptyProgram` exactly for
/// the empty program; `BranchOutOfBounds` whenever a jump leaves the
/// program (at the first such jump), else `BackEdgeBudgetExceeded` at the
/// first backward jump; success exactly for the programs that satisfy
/// `verified_safe`, with the number of basic blocks; otherwise an error
/// that an instruction exhibits. Where a straight-line stretch at the
/// entry already fails the per-instruction rule, the error is that
/// stretch's first violation. Where the registers check out, the error is
/// `UnreachableCode` at the first instruction no path reaches, else
/// `FallthroughAfterExit` when the last instruction runs off the end, else
/// `NoExitInstruction` when there is no EXIT.
pub open spec fn verify_outcome(insns: Seq<Insn>, res: Result<usize, VerifyError>) -> bool {
    &&& insns.len() == 0 <==> res == Err::<usize, VerifyError>(VerifyError::EmptyProgram)
    &&& (insns.len() > 0 && !branches_in_bounds(insns) ==> res matches Err(
        VerifyError::BranchOutOfBounds { .. },
    ))
    &&& res is Ok <==> verified_safe(insns)
    &&& (res matches Ok(n) ==> n == count_leaders(insns, insns.len() as int))
    &&& (res matches Err(e) ==> error_witnessed(insns, e))
    &&& (insns.len() > 0 && branches_in_bounds(insns) && !loop_free(insns) ==> res matches Err(
        VerifyError::BackEdgeBudgetExceeded { .. },
    ))
    &&& (flow_checks_pass(insns) && !(exists|rank: Seq<nat>| reach_witness(insns, rank))
        ==> (res matches Err(VerifyError::UnreachableCode { pc }) && forall|q: int|
        0 <= q < pc ==> #[trigger] reachable(insns, q)))
    &&& (flow_checks_pass(insns) && (exists|rank: Seq<nat>| reach_witness(insns, rank))
        && falls_through(insns.last()) ==> res == Err::<usize, VerifyError>(
        VerifyError::FallthroughAfterExit { pc: (insns.len() - 1) as usize },
    ))
    &&& (flow_checks_pass(insns) && (exists|rank: Seq<nat>| reach_witness(insns, rank))
        && !falls_through(insns.last()) && (forall|pc: int|
        0 <= pc < insns.len() ==> !(#[trigger] insns[pc] is Exit)) ==> res == Err::<
        usize,
        VerifyError,
    >(VerifyError::NoExitInstruction))
    &&& forall|k: int|
        branches_in_bounds(insns) && loop_free(insns) && straight_from_entry(insns, k)
            && #[trigger] sim(insns, 0, k, entry_mask()) is Err ==> res == Err::<
            usize,
            VerifyError,
        >(sim(insns, 0, k, entry_mask())->Err_0)
}

/// Verify a decoded eBPF program.
///
/// Programs must terminate: every jump must go forward, so a loop is
/// refused (`BackEdgeBudgetExceeded` at its jump). The program is accepted
/// exactly when it satisfies `verified_safe`. On success, returns the
/// number of basic blocks (useful for downstream JIT buffer sizing). The
/// result, error or count, is exactly `spec_verify`: the checks in order,
/// each failing at its first violation, the register check at the first
/// one the forward analysis (`flow`) meets.
/// A slice of `Insn` never holds more than `isize::MAX / 2` elements, which
/// keeps branch-target arithmetic within `isize`.
#[verifier::spinoff_prover]
#[verifier::rlimit(60)]
pub fn verify_program(insns: &[Insn]) -> (res: Result<usize, VerifyError>)
    requires
        insns@.len() <= isize::MAX / 2,
    ensures
        verify_outcome(insns@, res),
        res == spec_verify(insns@),
{
    if insns.len() == 0 {
        return Err(VerifyError::EmptyProgram);
    }
    // Phase 1: basic blocks and CFG
    let bb_starts = match find_bb_starts(insns) {
        Ok(s) => s,
        Err(e) => {
            proof {
                let pc = e->BranchOutOfBounds_pc as int;
                let p2 = choose|p: int| first_oob(insns@, p);
                assert(first_oob(insns@, pc));
                if p2 < pc {
                    assert(!branch_oob(insns@, p2));
                } else if pc < p2 {
                    assert(!branch_oob(insns@, pc));
                }
            }
            return Err(e);
        },
    };
    // Loops: every jump must go forward.
    match check_back_edges(insns) {
        Ok(()) => {},
        Err(e) => {
            proof {
                let pc = e->BackEdgeBudgetExceeded_pc as int;
                let p2 = choose|p: int| first_back_edge(insns@, p);
                assert(first_back_edge(insns@, pc));
                if p2 < pc {
                    assert(!back_edge(insns@, p2));
                } else if pc < p2 {
                    assert(!back_edge(insns@, pc));
                }
            }
            return Err(e);
        },
    }
    let bbs = build_cfg(insns, bb_starts.as_slice())?;
    let ghost s = bb_starts@;
    let n = insns.len();
    let num_starts = bb_starts.len();
    proof {
        assert(s.len() == num_starts);
        lemma_cfg_blocks_wf(insns@, s, bbs@);
    }
    proof {
        assert(bbs@[0].end == block_end(s, n as int, 0));
        assert forall|k: int|
            straight_from_entry(insns@, k) && #[trigger] sim(insns@, 0, k, entry_mask())
                is Err implies sim(insns@, 0, bbs@[0].end as int, entry_mask()) == sim(
            insns@,
            0,
            k,
            entry_mask(),
        ) by {
            if s.len() > 1 {
                assert(is_leader(insns@, s[1] as int));
                assert(s[0] < s[1]);
                if k > s[1] {
                    assert(!is_leader(insns@, s[1] as int));
                }
            }
            lemma_sim_split(insns@, 0, k, bbs@[0].end as int, entry_mask());
        }
    }
    // Phase 2: dataflow analysis
    let (ins, reach) = match dataflow_analysis(insns, &bbs) {
        Ok(r) => r,
        Err(e) => {
            return Err(e);
        },
    };
    // Phase 3: every block reachable, an exit exists, nothing falls off
    match check_exit_reachability(insns, &bbs, &reach) {
        Ok(()) => {},
        Err(e) => {
            proof {
                match e {
                    VerifyError::UnreachableCode { pc } => {
                        let b = choose|b: int|
                            0 <= b < bbs@.len() && #[trigger] bbs@[b].start == pc && !reach@[b]
                                && forall|c: int| 0 <= c < b ==> #[trigger] reach@[c];
                        assert(s[b] == pc);
                        let dist = choose|dist: Seq<nat>| reach_ranked(bbs@, reach@, dist);
                        assert forall|q: int| 0 <= q < pc implies #[trigger] reachable(insns@, q) by {
                            lemma_block_of(s, n as int, q);
                            let c = block_of(s, n as int, q);
                            if c >= b {
                                if c > b {
                                    assert(s[b] < s[c]);
                                }
                                assert(false);
                            }
                            assert(bbs@[c].start == s[c] && bbs@[c].end == block_end(s, n as int, c));
                            let path = lemma_block_path(insns@, bbs@, reach@, dist, c, q);
                        }
                        if exists|path: Seq<int>| entry_path(insns@, path) && path.last() == pc {
                            let path = choose|path: Seq<int>|
                                entry_path(insns@, path) && path.last() == pc;
                            lemma_path_reached(
                                insns@,
                                s,
                                bbs@,
                                masks(ins@),
                                reach@,
                                path,
                                path.len() - 1,
                            );
                            lemma_start_block(s, n as int, b);
                            assert(false);
                        }
                        if exists|rank: Seq<nat>| reach_witness(insns@, rank) {
                            let rank = choose|rank: Seq<nat>| reach_witness(insns@, rank);
                            assert(bbs@[b].start < bbs@[b].end <= insns@.len());
                            lemma_all_reached(insns@, s, bbs@, masks(ins@), reach@, rank, pc as int);
                            lemma_start_block(s, n as int, b);
                            assert(false);
                        }
                        assert(!reachable(insns@, pc as int));
                        assert(first_unreachable(insns@, pc as int));
                        let q2 = choose|q: int| first_unreachable(insns@, q);
                        if q2 < pc {
                            assert(reachable(insns@, q2));
                        } else if pc < q2 {
                            assert(reachable(insns@, pc as int));
                        }
                    },
                    VerifyError::FallthroughAfterExit { pc } => {
                        let b = choose|b: int|
                            0 <= b < bbs@.len() && #[trigger] bbs@[b].end == pc + 1
                                && bbs@[b].successors@.len() == 0 && !(insns@[pc as int] is Exit)
                                && !(insns@[pc as int] is TailCall);
                        assert(last_pc_succ_empty(insns@, pc as int, bbs@[b].end as int));
                        let last = (s.len() - 1) as int;
                        assert(bbs@[b].end == n);
                        if b < last {
                            assert(s[b] < s[b + 1]);
                            assert(bbs@[b].end == s[b + 1]);
                        }
                        assert(b == last);
                        assert(pc == n - 1);
                        assert(falls_through(insns@[pc as int]));
                        assert forall|c: int| 0 <= c < bbs@.len() implies #[trigger] reach@[c] by {
                            assert(c <= b);
                        }
                        let dist = choose|dist: Seq<nat>| reach_ranked(bbs@, reach@, dist);
                        lemma_reach_witness(insns@, s, bbs@, reach@, dist);
                        let rank = choose|rank: Seq<nat>| reach_witness(insns@, rank);
                        lemma_rank_reachable(insns@, rank);
                    },
                    VerifyError::NoExitInstruction => {
                        assert forall|pc: int| 0 <= pc < n implies !(#[trigger] insns@[pc] is Exit) by {
                            lemma_block_of(s, n as int, pc);
                            let b = block_of(s, n as int, pc);
                            if insns@[pc] is Exit && pc + 1 < bbs@[b].end {
                                assert(is_leader(insns@, pc + 1));
                                assert(s.contains((pc + 1) as usize));
                                let j = choose|j: int| 0 <= j < s.len() && s[j] == (pc + 1) as usize;
                                lemma_block_of(s, n as int, pc + 1);
                                assert(in_block(s, n as int, b, pc + 1));
                                lemma_start_block(s, n as int, j);
                            }
                            assert(!(insns@[bbs@[b].end - 1] is Exit));
                        }
                        let dist = choose|dist: Seq<nat>| reach_ranked(bbs@, reach@, dist);
                        lemma_reach_witness(insns@, s, bbs@, reach@, dist);
                        let rank = choose|rank: Seq<nat>| reach_witness(insns@, rank);
                        lemma_rank_reachable(insns@, rank);
                        let last = (s.len() - 1) as int;
                        assert(bbs@[last].end == n);
                        if falls_through(insns@[n - 1]) {
                            assert(last_pc_succ_empty(insns@, n - 1, n as int));
                            assert(bbs@[last].successors@.len() == 0);
                        }
                    },
                    _ => {},
                }
            }
            return Err(e);
        },
    }
    proof {
        let m = masks(ins@);
        assert forall|b: int| 0 <= b < bbs@.len() implies (#[trigger] m[b]).len() == NUM_REGS by {
            assert(m[b] == ins@[b]@);
        }
        assert(m[0] == ins@[0]@);
        lemma_certificate(insns@, s, bbs@, m, reach@);
        let dist = choose|dist: Seq<nat>| reach_ranked(bbs@, reach@, dist);
        lemma_reach_witness(insns@, s, bbs@, reach@, dist);
        let rank = choose|rank: Seq<nat>| reach_witness(insns@, rank);
        lemma_rank_reachable(insns@, rank);
        let b = choose|b: int| 0 <= b < bbs@.len() && insns@[(#[trigger] bbs@[b]).end - 1] is Exit;
        assert(insns@[bbs@[b].end - 1] is Exit);
        let last = (s.len() - 1) as int;
        assert(bbs@[last].end == n);
        if falls_through(insns@[n - 1]) {
            assert(last_pc_succ_empty(insns@, n - 1, n as int));
            assert(bbs@[last].successors@.len() == 0);
        }
    }
    Ok(ins.len())
}

} // verus!
