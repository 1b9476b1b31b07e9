//! Register allocation and lowering of verified eBPF programs to the IR.
//!
//! eBPF registers R0-R10 are mapped to target physical registers by a fixed
//! table (`RegMap`); every target used here has enough registers, so no
//! spills are needed. Lowering is a single pass over the instructions.
use vstd::prelude::*;

use crate::ir::{BasicBlockId, BranchCond, IrBasicBlock, IrNode, IrProgram, Operand, PhysReg};
use crate::isa::{BpfReg, Insn, Source, NUM_REGS};
use crate::verify::{branches_in_bounds, is_jump_target, jumps_to, target_of};

verus! {

/// Target-specific register mapping table.
#[derive(Debug, Clone, Copy)]
pub struct RegMap {
    /// Physical register of each eBPF register R0-R10.
    pub map: [PhysReg; NUM_REGS],
    /// Temporary register for the JIT (not mapped to any eBPF register).
    pub tmp: PhysReg,
    /// Base pointer for program data bounds checks.
    pub bounds_base: PhysReg,
    /// Length register for bounds checks.
    pub bounds_len: PhysReg,
}

impl RegMap {
    pub open spec fn spec_phys(&self, bpf: BpfReg) -> PhysReg {
        self.map@[bpf.spec_index() as int]
    }

    pub open spec fn spec_translate_source(&self, src: Source) -> Operand {
        match src {
            Source::Imm(v) => Operand::Imm(v),
            Source::Reg(r) => Operand::Reg(self.spec_phys(r)),
        }
    }

    /// Look up the physical register for an eBPF register.
    #[verifier::when_used_as_spec(spec_phys)]
    pub fn phys(&self, bpf: BpfReg) -> (r: PhysReg)
        ensures
            r == self.spec_phys(bpf),
    {
        self.map[bpf.index()]
    }

    /// Translate a source operand.
    pub fn translate_source(&self, src: &Source) -> (r: Operand)
        ensures
            r == self.spec_translate_source(*src),
    {
        match src {
            Source::Imm(v) => Operand::Imm(*v),
            Source::Reg(r) => Operand::Reg(self.phys(*r)),
        }
    }

    /// Distinct eBPF registers get distinct physical registers, and the
    /// scratch and bounds registers are none of them.
    pub open spec fn well_formed(&self) -> bool {
        &&& forall|i: int, j: int|
            0 <= i < NUM_REGS && 0 <= j < NUM_REGS && i != j ==> self.map@[i] != self.map@[j]
        &&& forall|i: int|
            0 <= i < NUM_REGS ==> self.map@[i] != self.tmp && self.map@[i] != self.bounds_base
                && self.map@[i] != self.bounds_len
        &&& self.tmp != self.bounds_base && self.tmp != self.bounds_len && self.bounds_base
            != self.bounds_len
    }
}

pub open spec fn spec_aarch64_map() -> Seq<u8> {
    seq![7u8, 0, 1, 2, 3, 4, 19, 20, 21, 22, 25]
}

pub open spec fn spec_riscv64_map() -> Seq<u8> {
    seq![10u8, 11, 12, 13, 14, 15, 18, 19, 20, 21, 22]
}

/// AArch64 register mapping.
///
/// | eBPF | AArch64 | Role                  |
/// |------|---------|-----------------------|
/// | R0   | X7      | Return value          |
/// | R1   | X0      | Arg 1 (matches ABI)   |
/// | R2   | X1      | Arg 2                 |
/// | R3   | X2      | Arg 3                 |
/// | R4   | X3      | Arg 4                 |
/// | R5   | X4      | Arg 5                 |
/// | R6   | X19     | Callee-saved          |
/// | R7   | X20     | Callee-saved          |
/// | R8   | X21     | Callee-saved          |
/// | R9   | X22     | Callee-saved          |
/// | R10  | X25     | Frame pointer         |
///
/// Scratch X9, bounds base X10, bounds length X11.
pub fn aarch64_regmap() -> (r: RegMap)
    ensures
        forall|i: int| 0 <= i < NUM_REGS ==> r.map@[i] == PhysReg(#[trigger] spec_aarch64_map()[i]),
        r.tmp == PhysReg(9),
        r.bounds_base == PhysReg(10),
        r.bounds_len == PhysReg(11),
        r.well_formed(),
{
    let r = RegMap {
        map: [
            PhysReg(7),
            PhysReg(0),
            PhysReg(1),
            PhysReg(2),
            PhysReg(3),
            PhysReg(4),
            PhysReg(19),
            PhysReg(20),
            PhysReg(21),
            PhysReg(22),
            PhysReg(25),
        ],
        tmp: PhysReg(9),
        bounds_base: PhysReg(10),
        bounds_len: PhysReg(11),
    };
    assert(r.map@ =~= spec_aarch64_map().map_values(|v: u8| PhysReg(v)));
    r
}

/// RISC-V RV64 register mapping.
///
/// | eBPF | RISC-V | ABI name | Role          |
/// |------|--------|----------|---------------|
/// | R0   | x10    | a0       | Return value  |
/// | R1   | x11    | a1       | Arg 1         |
/// | R2   | x12    | a2       | Arg 2         |
/// | R3   | x13    | a3       | Arg 3         |
/// | R4   | x14    | a4       | Arg 4         |
/// | R5   | x15    | a5       | Arg 5         |
/// | R6   | x18    | s2       | Callee-saved  |
/// | R7   | x19    | s3       | Callee-saved  |
/// | R8   | x20    | s4       | Callee-saved  |
/// | R9   | x21    | s5       | Callee-saved  |
/// | R10  | x22    | s6       | Frame pointer |
///
/// Scratch s7 (x23), bounds base s8 (x24), bounds length s9 (x25).
pub fn riscv64_regmap() -> (r: RegMap)
    ensures
        forall|i: int| 0 <= i < NUM_REGS ==> r.map@[i] == PhysReg(#[trigger] spec_riscv64_map()[i]),
        r.tmp == PhysReg(23),
        r.bounds_base == PhysReg(24),
        r.bounds_len == PhysReg(25),
        r.well_formed(),
{
    let r = RegMap {
        map: [
            PhysReg(10),
            PhysReg(11),
            PhysReg(12),
            PhysReg(13),
            PhysReg(14),
            PhysReg(15),
            PhysReg(18),
            PhysReg(19),
            PhysReg(20),
            PhysReg(21),
            PhysReg(22),
        ],
        tmp: PhysReg(23),
        bounds_base: PhysReg(24),
        bounds_len: PhysReg(25),
    };
    assert(r.map@ =~= spec_riscv64_map().map_values(|v: u8| PhysReg(v)));
    r
}

// ---------------------------------------------------------------------------
// Lowering, as spec functions
// ---------------------------------------------------------------------------

/// Instructions after which the lowered program starts a new block.
pub open spec fn ir_ends_block(insn: Insn) -> bool {
    match insn {
        Insn::Ja { .. } | Insn::JmpCond { .. } | Insn::JmpCond32 { .. } | Insn::Exit
        | Insn::TailCall => true,
        _ => false,
    }
}

/// Leaders of the lowered program: the entry, every jump target, and the
/// instruction after a jump, an exit or a tail call.
pub open spec fn ir_leader(insns: Seq<Insn>, i: int) -> bool {
    0 <= i < insns.len() && (i == 0 || ir_ends_block(insns[i - 1]) || is_jump_target(insns, i))
}

/// The leaders among the first `k` instructions, in order.
pub open spec fn ir_leaders(insns: Seq<Insn>, k: int) -> Seq<int>
    decreases k,
{
    if k <= 0 {
        Seq::empty()
    } else if ir_leader(insns, k - 1) {
        ir_leaders(insns, k - 1).push(k - 1)
    } else {
        ir_leaders(insns, k - 1)
    }
}

/// Index of the block holding instruction `pc`.
pub open spec fn block_id_at(insns: Seq<Insn>, pc: int) -> int {
    ir_leaders(insns, pc + 1).len() - 1
}

/// The R10-relative offset of a stack access.
pub open spec fn stack_off(insn: Insn) -> Option<i16> {
    match insn {
        Insn::Load { src, off, .. } => if src == BpfReg::R10 {
            Some(off)
        } else {
            None
        },
        Insn::StoreReg { dst, off, .. } => if dst == BpfReg::R10 {
            Some(off)
        } else {
            None
        },
        Insn::StoreImm { dst, off, .. } => if dst == BpfReg::R10 {
            Some(off)
        } else {
            None
        },
        Insn::Atomic { dst, off, .. } => if dst == BpfReg::R10 {
            Some(off)
        } else {
            None
        },
        _ => None,
    }
}

/// Frame bytes an access at `off` asks for: `-off` taken as a `u16`.
pub open spec fn frame_need(off: i16) -> int {
    if off <= 0 {
        -off
    } else {
        0x10000 - off
    }
}

/// Writes to a callee-saved register (R6-R9) or calls a helper.
pub open spec fn uses_frame(insn: Insn) -> bool {
    match insn {
        Insn::Alu64 { dst, .. } | Insn::Alu32 { dst, .. } | Insn::LoadImm64 { dst, .. }
        | Insn::Load { dst, .. } | Insn::Endian { dst, .. } => 6 <= dst.spec_raw() <= 9,
        Insn::Call { .. } | Insn::TailCall => true,
        _ => false,
    }
}

/// Largest frame need among the first `k` instructions (0 if none).
pub open spec fn max_need(insns: Seq<Insn>, k: int) -> int
    decreases k,
{
    if k <= 0 {
        0
    } else {
        let m = max_need(insns, k - 1);
        match stack_off(insns[k - 1]) {
            Some(o) => if frame_need(o) > m {
                frame_need(o)
            } else {
                m
            },
            None => m,
        }
    }
}

/// Does any of the first `k` instructions need a stack frame?
pub open spec fn needs_frame(insns: Seq<Insn>, k: int) -> bool
    decreases k,
{
    if k <= 0 {
        false
    } else {
        needs_frame(insns, k - 1) || stack_off(insns[k - 1]) is Some || uses_frame(insns[k - 1])
    }
}

/// The frame size: the largest stack need, at least 64 bytes (callee-saved
/// registers, FP and LR) when any frame is needed, rounded up to 16.
pub open spec fn spec_frame_size(insns: Seq<Insn>) -> u16 {
    let m = max_need(insns, insns.len() as int);
    let f = if needs_frame(insns, insns.len() as int) && m < 64 {
        64
    } else {
        m
    };
    ((f + 15) - (f + 15) % 16) as u16
}

/// Programs `lower_to_ir` accepts without panicking: non-empty, with at
/// most `u32::MAX` blocks (block ids are `u32`), every jump inside the
/// program, and every frame need small enough to round up within a `u16`.
pub open spec fn lowerable(insns: Seq<Insn>) -> bool {
    &&& 0 < insns.len()
    &&& ir_leaders(insns, insns.len() as int).len() <= u32::MAX
    &&& insns.len() <= isize::MAX / 2
    &&& branches_in_bounds(insns)
    &&& forall|pc: int|
        0 <= pc < insns.len() ==> match stack_off(#[trigger] insns[pc]) {
            Some(o) => o != i16::MIN && frame_need(o) <= 65520,
            None => true,
        }
}

/// The block a jump at `pc` with offset `off` goes to.
pub open spec fn target_block(insns: Seq<Insn>, pc: int, off: i16) -> BasicBlockId {
    BasicBlockId(block_id_at(insns, target_of(pc, off)) as u32)
}

/// The IR nodes of one instruction.
pub open spec fn lower_insn(insns: Seq<Insn>, rm: RegMap, fs: u16, pc: int) -> Seq<IrNode> {
    match insns[pc] {
        Insn::Alu64 { op, dst, src } => seq![
            IrNode::Alu64 { op, dst: rm.spec_phys(dst), src: rm.spec_translate_source(src) },
        ],
        Insn::Alu32 { op, dst, src } => seq![
            IrNode::Alu32 { op, dst: rm.spec_phys(dst), src: rm.spec_translate_source(src) },
        ],
        Insn::Load { width, dst, src, off } => seq![
            IrNode::Load { width, dst: rm.spec_phys(dst), base: rm.spec_phys(src), off },
        ],
        Insn::StoreReg { width, dst, src, off } => seq![
            IrNode::Store { width, base: rm.spec_phys(dst), src: rm.spec_phys(src), off },
        ],
        Insn::StoreImm { width, dst, off, imm } => seq![
            IrNode::StoreImm { width, base: rm.spec_phys(dst), off, imm },
        ],
        Insn::LoadImm64 { dst, imm } => seq![IrNode::LoadImm64 { dst: rm.spec_phys(dst), imm }],
        Insn::JmpCond { op, dst, src, off } => seq![
            IrNode::Branch {
                cond: BranchCond {
                    op,
                    lhs: rm.spec_phys(dst),
                    rhs: rm.spec_translate_source(src),
                    is_32bit: false,
                },
                target: target_block(insns, pc, off),
            },
        ],
        Insn::JmpCond32 { op, dst, src, off } => seq![
            IrNode::Branch {
                cond: BranchCond {
                    op,
                    lhs: rm.spec_phys(dst),
                    rhs: rm.spec_translate_source(src),
                    is_32bit: true,
                },
                target: target_block(insns, pc, off),
            },
        ],
        Insn::Ja { off } => seq![IrNode::Jump { target: target_block(insns, pc, off) }],
        Insn::Call { func_id } => seq![IrNode::Call { func_id }],
        Insn::TailCall => seq![IrNode::Call { func_id: 0 }, IrNode::Ret],
        Insn::Exit => if fs > 0 {
            seq![IrNode::Epilogue { frame_size: fs }, IrNode::Ret]
        } else {
            seq![IrNode::Ret]
        },
        Insn::Atomic { width, op, dst, src, off } => seq![
            IrNode::Atomic { width, op, base: rm.spec_phys(dst), src: rm.spec_phys(src), off },
        ],
        Insn::Endian { to_be, width, dst } => seq![
            IrNode::Endian { to_be, width, dst: rm.spec_phys(dst) },
        ],
    }
}

/// The IR nodes of the instructions in `[a, b)`, in order.
pub open spec fn lowered_range(insns: Seq<Insn>, rm: RegMap, fs: u16, a: int, b: int) -> Seq<
    IrNode,
>
    decreases b - a,
{
    if b <= a {
        Seq::empty()
    } else {
        lowered_range(insns, rm, fs, a, b - 1) + lower_insn(insns, rm, fs, b - 1)
    }
}

/// The nodes of block `k`: its instructions lowered, after the prologue in
/// the entry block when the program has a frame.
pub open spec fn block_nodes(insns: Seq<Insn>, rm: RegMap, k: int) -> Seq<IrNode> {
    let l = ir_leaders(insns, insns.len() as int);
    let fs = spec_frame_size(insns);
    let end = if k + 1 < l.len() {
        l[k + 1]
    } else {
        insns.len() as int
    };
    let pro = if k == 0 && fs > 0 {
        seq![IrNode::Prologue { frame_size: fs }]
    } else {
        Seq::empty()
    };
    pro + lowered_range(insns, rm, fs, l[k], end)
}

// ---------------------------------------------------------------------------
// Lowering
// ---------------------------------------------------------------------------

pub proof fn lemma_leaders_basic(insns: Seq<Insn>, k: int)
    ensures
        ir_leaders(insns, k).len() <= if k < 0 {
            0
        } else {
            k
        },
        forall|i: int|
            0 <= i < ir_leaders(insns, k).len() ==> 0 <= #[trigger] ir_leaders(insns, k)[i] < k
                && ir_leader(insns, ir_leaders(insns, k)[i]),
        k > 0 && insns.len() > 0 ==> ir_leaders(insns, k).len() > 0 && ir_leaders(insns, k)[0]
            == 0,
    decreases k,
{
    if k > 0 {
        lemma_leaders_basic(insns, k - 1);
        if k == 1 && insns.len() > 0 {
            assert(ir_leader(insns, 0));
        }
    }
}

/// The leaders of a prefix are a prefix of the leaders.
pub proof fn lemma_leaders_prefix(insns: Seq<Insn>, a: int, b: int)
    requires
        0 <= a <= b,
    ensures
        ir_leaders(insns, a).len() <= ir_leaders(insns, b).len(),
        forall|i: int|
            0 <= i < ir_leaders(insns, a).len() ==> #[trigger] ir_leaders(insns, a)[i]
                == ir_leaders(insns, b)[i],
    decreases b - a,
{
    if a < b {
        lemma_leaders_prefix(insns, a, b - 1);
    }
}

pub proof fn lemma_lowered_range_step(insns: Seq<Insn>, rm: RegMap, fs: u16, a: int, b: int)
    requires
        a <= b,
    ensures
        lowered_range(insns, rm, fs, a, b + 1) == lowered_range(insns, rm, fs, a, b) + lower_insn(
            insns,
            rm,
            fs,
            b,
        ),
{
}

/// `-off` as a `u16` is the frame need of `off`.
proof fn lemma_neg_as_u16(o: i16)
    requires
        o != i16::MIN,
    ensures
        (-o) as i16 as u16 as int == frame_need(o),
{
    let x = (-o) as i16;
    assert((x < 0 ==> x as u16 as int == x + 65536) && (x >= 0 ==> x as u16 as int == x))
        by (bit_vector);
}

proof fn lemma_round16(x: u16)
    requires
        x <= 65520,
    ensures
        ((x + 15) as u16 & !15u16) as int == (x + 15) - (x + 15) % 16,
        ((x + 15) as u16 & !15u16) as int % 16 == 0,
        ((x + 15) as u16 & !15u16) as int >= x,
{
    let y = (x + 15) as u16;
    assert((y & !15u16) as int == y - y % 16) by (bit_vector);
}

/// Marked leaders after scanning the instructions before `k`.
spec fn ir_marked(insns: Seq<Insn>, i: int, k: int) -> bool {
    i == 0 || (0 < i <= k && ir_ends_block(insns[i - 1])) || exists|p: int|
        0 <= p < k && #[trigger] jumps_to(insns, p, i)
}

/// Lower a verified eBPF program to IR using a fixed register mapping.
///
/// Single pass over the instruction stream. Block `k` holds the
/// instructions from the `k`-th leader up to the next one; a frame is set
/// up when the program touches the stack through R10, writes a callee-saved
/// register or calls a helper.
#[verifier::spinoff_prover]
#[verifier::rlimit(50)]
pub fn lower_to_ir(insns: &[Insn], regmap: &RegMap) -> (r: IrProgram)
    requires
        lowerable(insns@),
    ensures
        r.frame_size == spec_frame_size(insns@),
        r.blocks@.len() == ir_leaders(insns@, insns@.len() as int).len(),
        forall|k: int|
            0 <= k < r.blocks@.len() ==> (#[trigger] r.blocks@[k]).id == BasicBlockId(k as u32)
                && r.blocks@[k].nodes@ == block_nodes(insns@, *regmap, k),
        r.frame_size % 16 == 0,
        forall|pc: int|
            0 <= pc < insns@.len() ==> match stack_off(#[trigger] insns@[pc]) {
                Some(o) => r.frame_size >= frame_need(o),
                None => true,
            },
        needs_frame(insns@, insns@.len() as int) ==> r.frame_size >= 64,
{
    let n = insns.len();
    let ghost s = insns@;
    // Find basic block boundaries (leader instructions).
    let mut is_leader: Vec<bool> = Vec::new();
    for i in 0..n
        invariant
            is_leader@.len() == i,
            forall|j: int| 0 <= j < i ==> is_leader@[j] == (j == 0),
    {
        is_leader.push(i == 0);
    }
    for pc in 0..n
        invariant
            n == s.len(),
            s == insns@,
            lowerable(s),
            is_leader@.len() == n,
            forall|i: int| 0 <= i < n ==> is_leader@[i] == ir_marked(s, i, pc as int),
    {
        let ghost prev = is_leader@;
        match &insns[pc] {
            Insn::Ja { off } | Insn::JmpCond { off, .. } | Insn::JmpCond32 { off, .. } => {
                assert(!crate::verify::branch_oob(s, pc as int));
                let target = (pc as isize + 1 + *off as isize) as usize;
                if target < n {
                    is_leader.set(target, true);
                }
                if pc + 1 < n {
                    is_leader.set(pc + 1, true);
                }
            },
            Insn::Exit | Insn::TailCall => {
                if pc + 1 < n {
                    is_leader.set(pc + 1, true);
                }
            },
            _ => {},
        }
        assert forall|i: int| 0 <= i < n implies is_leader@[i] == ir_marked(s, i, pc + 1) by {
            if ir_marked(s, i, pc as int) {
                if exists|p: int| 0 <= p < pc && #[trigger] jumps_to(s, p, i) {
                    let p = choose|p: int| 0 <= p < pc && #[trigger] jumps_to(s, p, i);
                    assert(0 <= p < pc + 1 && jumps_to(s, p, i));
                }
            }
            if jumps_to(s, pc as int, i) {
                assert(0 <= pc < pc + 1 && jumps_to(s, pc as int, i));
            }
            if ir_marked(s, i, pc + 1) && !ir_marked(s, i, pc as int) {
                if exists|p: int| 0 <= p < pc + 1 && #[trigger] jumps_to(s, p, i) {
                    let p = choose|p: int| 0 <= p < pc + 1 && #[trigger] jumps_to(s, p, i);
                    assert(p == pc);
                }
            }
        }
    }
    assert forall|i: int| 0 <= i < n implies is_leader@[i] == ir_leader(s, i) by {
        if ir_marked(s, i, n as int) {
            if exists|p: int| 0 <= p < n && #[trigger] jumps_to(s, p, i) {
                let p = choose|p: int| 0 <= p < n && #[trigger] jumps_to(s, p, i);
                assert(is_jump_target(s, i));
            }
        }
        if is_jump_target(s, i) {
            let p = choose|p: int| 0 <= p < n && #[trigger] jumps_to(s, p, i);
            assert(ir_marked(s, i, n as int));
        }
    }
    // Map each instruction to the id of its block.
    let mut pc_to_bb: Vec<BasicBlockId> = Vec::new();
    let mut next_bb: u32 = 0;
    for pc in 0..n
        invariant
            n == s.len(),
            lowerable(s),
            is_leader@.len() == n,
            forall|i: int| 0 <= i < n ==> is_leader@[i] == ir_leader(s, i),
            next_bb as int == ir_leaders(s, pc as int).len(),
            pc_to_bb@.len() == pc,
            forall|i: int|
                0 <= i < pc ==> (#[trigger] pc_to_bb@[i]).0 as int == block_id_at(s, i),
    {
        proof {
            lemma_leaders_basic(s, pc as int);
            lemma_leaders_basic(s, pc + 1);
            lemma_leaders_prefix(s, pc + 1, n as int);
        }
        if is_leader[pc] {
            pc_to_bb.push(BasicBlockId(next_bb));
            next_bb += 1;
        } else {
            let prev = pc_to_bb[pc - 1];
            pc_to_bb.push(prev);
        }
    }
    // Frame: the deepest stack access, and whether a frame is needed at all.
    let mut frame_size: u16 = 0;
    let mut needs: bool = false;
    for pc in 0..n
        invariant
            n == s.len(),
            s == insns@,
            lowerable(s),
            frame_size as int == max_need(s, pc as int),
            0 <= max_need(s, pc as int) <= 65520,
            needs == needs_frame(s, pc as int),
    {
        let insn = &insns[pc];
        let off: Option<i16> = match insn {
            Insn::Load { src, off, .. } => if *src == BpfReg::R10 {
                Some(*off)
            } else {
                None
            },
            Insn::StoreReg { dst, off, .. } => if *dst == BpfReg::R10 {
                Some(*off)
            } else {
                None
            },
            Insn::StoreImm { dst, off, .. } => if *dst == BpfReg::R10 {
                Some(*off)
            } else {
                None
            },
            Insn::Atomic { dst, off, .. } => if *dst == BpfReg::R10 {
                Some(*off)
            } else {
                None
            },
            _ => None,
        };
        assert(off == stack_off(s[pc as int]));
        if let Some(o) = off {
            proof {
                lemma_neg_as_u16(o);
            }
            let needed = #[verifier::truncate] ((-o) as u16);
            if needed > frame_size {
                frame_size = needed;
            }
            needs = true;
        }
        match insn {
            Insn::Alu64 { dst, .. }
            | Insn::Alu32 { dst, .. }
            | Insn::LoadImm64 { dst, .. }
            | Insn::Load { dst, .. }
            | Insn::Endian { dst, .. } => {
                let r = dst.raw();
                if 6 <= r && r <= 9 {
                    needs = true;
                }
            },
            Insn::Call { .. } | Insn::TailCall => {
                needs = true;
            },
            _ => {},
        }
    }
    // At least 64 bytes for callee-saved registers, FP and LR.
    if needs && frame_size < 64 {
        frame_size = 64;
    }
    proof {
        lemma_round16(frame_size);
    }
    // Align the frame size to 16 bytes.
    frame_size = (frame_size + 15) & !15;
    assert(frame_size == spec_frame_size(s));
    proof {
        assert forall|pc: int| 0 <= pc < n implies match stack_off(#[trigger] s[pc]) {
            Some(o) => frame_size >= frame_need(o),
            None => true,
        } by {
            lemma_max_need_bound(s, pc + 1, pc);
            lemma_max_need_mono(s, pc + 1, n as int);
        }
    }
    // Lower each instruction.
    let ghost l = ir_leaders(s, n as int);
    let ghost fs = frame_size;
    let mut blocks: Vec<IrBasicBlock> = Vec::new();
    let mut current_nodes: Vec<IrNode> = Vec::new();
    let mut bb_id: u32 = 0;
    proof {
        lemma_leaders_basic(s, n as int);
        lemma_leaders_basic(s, 1);
        lemma_leaders_prefix(s, 1, n as int);
    }
    for pc in 0..n
        invariant
            n == s.len(),
            s == insns@,
            lowerable(s),
            l == ir_leaders(s, n as int),
            fs == frame_size,
            fs == spec_frame_size(s),
            l.len() > 0 && l[0] == 0,
            is_leader@.len() == n,
            forall|i: int| 0 <= i < n ==> is_leader@[i] == ir_leader(s, i),
            pc_to_bb@.len() == n,
            forall|i: int| 0 <= i < n ==> (#[trigger] pc_to_bb@[i]).0 as int == block_id_at(s, i),
            pc > 0 ==> bb_id as int == ir_leaders(s, pc as int).len() - 1,
            pc == 0 ==> bb_id == 0 && current_nodes@.len() == 0,
            bb_id as int <= l.len() - 1,
            blocks@.len() == bb_id,
            forall|k: int|
                0 <= k < bb_id ==> (#[trigger] blocks@[k]).id == BasicBlockId(k as u32)
                    && blocks@[k].nodes@ == block_nodes(s, *regmap, k),
            pc > 0 ==> current_nodes@ == (if bb_id == 0 && fs > 0 {
                seq![IrNode::Prologue { frame_size: fs }]
            } else {
                Seq::empty()
            }) + lowered_range(s, *regmap, fs, l[bb_id as int], pc as int),
    {
        proof {
            lemma_leaders_basic(s, pc as int);
            lemma_leaders_basic(s, pc + 1);
            lemma_leaders_prefix(s, pc + 1, n as int);
            lemma_leaders_prefix(s, pc as int, n as int);
        }
        if is_leader[pc] && (current_nodes.len() > 0 || pc == 0) {
            if current_nodes.len() > 0 {
                assert(pc > 0);
                assert(ir_leaders(s, pc + 1) == ir_leaders(s, pc as int).push(pc as int));
                assert(ir_leaders(s, pc + 1)[bb_id + 1] == pc);
                assert(l[bb_id + 1] == pc);
                let nodes = current_nodes;
                current_nodes = Vec::new();
                blocks.push(IrBasicBlock { id: BasicBlockId(bb_id), nodes });
                bb_id += 1;
            }
            if pc == 0 && frame_size > 0 {
                current_nodes.push(IrNode::Prologue { frame_size });
            }
            assert(bb_id as int == ir_leaders(s, pc + 1).len() - 1);
        } else {
            proof {
                if pc > 0 && !is_leader@[pc as int] {
                    assert(ir_leaders(s, pc + 1) == ir_leaders(s, pc as int));
                }
                if pc > 0 && is_leader@[pc as int] {
                    // The current block already holds the nodes of `l[bb_id]`.
                    let start = l[bb_id as int];
                    assert(ir_leaders(s, pc as int)[bb_id as int] == start);
                    assert(start < pc);
                    lemma_lowered_range_step(s, *regmap, fs, start, pc - 1);
                    assert(lower_insn(s, *regmap, fs, pc - 1).len() > 0);
                    assert(current_nodes@.len() > 0);
                }
            }
            assert(bb_id as int == ir_leaders(s, pc + 1).len() - 1);
        }
        assert(current_nodes@ == (if bb_id == 0 && fs > 0 {
            seq![IrNode::Prologue { frame_size: fs }]
        } else {
            Seq::empty()
        }) + lowered_range(s, *regmap, fs, l[bb_id as int], pc as int));
        let ghost before = current_nodes@;
        lower_one(insns, pc, regmap, &pc_to_bb, frame_size, &mut current_nodes);
        proof {
            assert(bb_id as int == ir_leaders(s, pc + 1).len() - 1);
            assert(ir_leaders(s, pc + 1)[bb_id as int] == l[bb_id as int]);
            assert(ir_leaders(s, pc + 1)[bb_id as int] < pc + 1);
            lemma_lowered_range_step(s, *regmap, fs, l[bb_id as int], pc as int);
        }
    }
    // Flush the last block.
    proof {
        lemma_leaders_prefix(s, n as int, n as int);
    }
    if current_nodes.len() > 0 {
        blocks.push(IrBasicBlock { id: BasicBlockId(bb_id), nodes: current_nodes });
    }
    IrProgram { blocks, frame_size }
}

/// Append the IR nodes of instruction `pc` to `nodes`.
fn lower_one(
    insns: &[Insn],
    pc: usize,
    regmap: &RegMap,
    pc_to_bb: &Vec<BasicBlockId>,
    frame_size: u16,
    nodes: &mut Vec<IrNode>,
)
    requires
        lowerable(insns@),
        pc < insns@.len(),
        pc_to_bb@.len() == insns@.len(),
        forall|i: int|
            0 <= i < insns@.len() ==> (#[trigger] pc_to_bb@[i]).0 as int == block_id_at(insns@, i),
    ensures
        final(nodes)@ == old(nodes)@ + lower_insn(insns@, *regmap, frame_size, pc as int),
{
    let ghost s = insns@;
    proof {
        lemma_leaders_basic(s, pc + 1);
    }
    match &insns[pc] {
        Insn::Alu64 { op, dst, src } => {
            nodes.push(
                IrNode::Alu64 {
                    op: *op,
                    dst: regmap.phys(*dst),
                    src: regmap.translate_source(src),
                },
            );
        },
        Insn::Alu32 { op, dst, src } => {
            nodes.push(
                IrNode::Alu32 {
                    op: *op,
                    dst: regmap.phys(*dst),
                    src: regmap.translate_source(src),
                },
            );
        },
        Insn::Load { width, dst, src, off } => {
            nodes.push(
                IrNode::Load {
                    width: *width,
                    dst: regmap.phys(*dst),
                    base: regmap.phys(*src),
                    off: *off,
                },
            );
        },
        Insn::StoreReg { width, dst, src, off } => {
            nodes.push(
                IrNode::Store {
                    width: *width,
                    base: regmap.phys(*dst),
                    src: regmap.phys(*src),
                    off: *off,
                },
            );
        },
        Insn::StoreImm { width, dst, off, imm } => {
            nodes.push(
                IrNode::StoreImm { width: *width, base: regmap.phys(*dst), off: *off, imm: *imm },
            );
        },
        Insn::LoadImm64 { dst, imm } => {
            nodes.push(IrNode::LoadImm64 { dst: regmap.phys(*dst), imm: *imm });
        },
        Insn::JmpCond { op, dst, src, off } => {
            assert(!crate::verify::branch_oob(s, pc as int));
            let target_pc = (pc as isize + 1 + *off as isize) as usize;
            nodes.push(
                IrNode::Branch {
                    cond: BranchCond {
                        op: *op,
                        lhs: regmap.phys(*dst),
                        rhs: regmap.translate_source(src),
                        is_32bit: false,
                    },
                    target: pc_to_bb[target_pc],
                },
            );
        },
        Insn::JmpCond32 { op, dst, src, off } => {
            assert(!crate::verify::branch_oob(s, pc as int));
            let target_pc = (pc as isize + 1 + *off as isize) as usize;
            nodes.push(
                IrNode::Branch {
                    cond: BranchCond {
                        op: *op,
                        lhs: regmap.phys(*dst),
                        rhs: regmap.translate_source(src),
                        is_32bit: true,
                    },
                    target: pc_to_bb[target_pc],
                },
            );
        },
        Insn::Ja { off } => {
            assert(!crate::verify::branch_oob(s, pc as int));
            let target_pc = (pc as isize + 1 + *off as isize) as usize;
            nodes.push(IrNode::Jump { target: pc_to_bb[target_pc] });
        },
        Insn::Call { func_id } => {
            nodes.push(IrNode::Call { func_id: *func_id });
        },
        Insn::TailCall => {
            // Tail calls are lowered as a call to the helper dispatch.
            nodes.push(IrNode::Call { func_id: 0 });
            nodes.push(IrNode::Ret);
        },
        Insn::Exit => {
            if frame_size > 0 {
                nodes.push(IrNode::Epilogue { frame_size });
            }
            nodes.push(IrNode::Ret);
        },
        Insn::Atomic { width, op, dst, src, off } => {
            nodes.push(
                IrNode::Atomic {
                    width: *width,
                    op: *op,
                    base: regmap.phys(*dst),
                    src: regmap.phys(*src),
                    off: *off,
                },
            );
        },
        Insn::Endian { to_be, width, dst } => {
            nodes.push(
                IrNode::Endian { to_be: *to_be, width: *width, dst: regmap.phys(*dst) },
            );
        },
    }
    proof {
        assert(nodes@ =~= old(nodes)@ + lower_insn(s, *regmap, frame_size, pc as int));
    }
}

proof fn lemma_max_need_bound(insns: Seq<Insn>, k: int, pc: int)
    requires
        0 <= pc < k <= insns.len(),
    ensures
        match stack_off(insns[pc]) {
            Some(o) => max_need(insns, k) >= frame_need(o),
            None => true,
        },
    decreases k,
{
    if pc < k - 1 {
        lemma_max_need_bound(insns, k - 1, pc);
    }
}

proof fn lemma_max_need_mono(insns: Seq<Insn>, a: int, b: int)
    requires
        0 <= a <= b,
    ensures
        max_need(insns, a) <= max_need(insns, b),
    decreases b - a,
{
    if a < b {
        lemma_max_need_mono(insns, a, b - 1);
    }
}

/// With every frame need within the cap, the largest is too.
proof fn lemma_max_need_cap(insns: Seq<Insn>, k: int)
    requires
        lowerable(insns),
        0 <= k <= insns.len(),
    ensures
        0 <= max_need(insns, k) <= 65520,
    decreases k,
{
    if k > 0 {
        lemma_max_need_cap(insns, k - 1);
        assert(0 <= k - 1 < insns.len());
    }
}

/// The frame of a program `lower_to_ir` accepts is a multiple of 16 bytes
/// and covers the frame need of every stack access.
pub proof fn lemma_frame_size_facts(insns: Seq<Insn>)
    requires
        lowerable(insns),
    ensures
        spec_frame_size(insns) % 16 == 0,
        forall|pc: int|
            0 <= pc < insns.len() ==> match stack_off(#[trigger] insns[pc]) {
                Some(o) => spec_frame_size(insns) >= frame_need(o),
                None => true,
            },
{
    let n = insns.len() as int;
    let m = max_need(insns, n);
    lemma_max_need_cap(insns, n);
    let f = if needs_frame(insns, n) && m < 64 {
        64
    } else {
        m
    };
    let a = f + 15;
    assert(0 <= a % 16 < 16 && (a - a % 16) % 16 == 0) by (nonlinear_arith)
        requires
            a >= 0,
    ;
    assert(spec_frame_size(insns) as int == a - a % 16);
    assert forall|pc: int| 0 <= pc < n implies match stack_off(#[trigger] insns[pc]) {
        Some(o) => spec_frame_size(insns) >= frame_need(o),
        None => true,
    } by {
        lemma_max_need_bound(insns, n, pc);
    }
}

} // verus!
