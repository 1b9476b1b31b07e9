//! Typed intermediate representation between the verified eBPF program and
//! the target-specific code emitters.
//!
//! The IR operates on physical registers. Branch targets are
//! `BasicBlockId`s, indices into the program's block array, so the backend
//! never does raw offset arithmetic.
use vstd::prelude::*;

use crate::isa::{AluOp, AtomicOp, EndianWidth, JmpOp, MemWidth};

verus! {

/// Basic-block identifier: an index into the program's block array.
#[derive(Debug, Clone, Copy, PartialEq, Eq, Hash, Structural)]
pub struct BasicBlockId(pub u32);

/// Physical register on the target ISA.
#[derive(Debug, Clone, Copy, PartialEq, Eq, Hash, Structural)]
pub struct PhysReg(pub u8);

/// Stack slot for spilled registers, relative to the JIT frame pointer.
#[derive(Debug, Clone, Copy, PartialEq, Eq, Structural)]
pub struct SpillSlot {
    pub offset: i16,
}

/// Source operand in the lowered IR.
#[derive(Debug, Clone, Copy, PartialEq, Eq, Structural)]
pub enum Operand {
    Reg(PhysReg),
    Imm(i64),
}

/// Branch condition for conditional jumps.
#[derive(Debug, Clone, Copy, PartialEq, Eq, Structural)]
pub struct BranchCond {
    pub op: JmpOp,
    pub lhs: PhysReg,
    pub rhs: Operand,
    pub is_32bit: bool,
}

/// A single lowered IR instruction, ready for target-specific emission.
#[derive(Debug, Clone, Copy, PartialEq, Eq, Structural)]
pub enum IrNode {
    /// dst = dst OP src (64-bit)
    Alu64 { op: AluOp, dst: PhysReg, src: Operand },
    /// dst = (u32)(dst OP src), zero-extended
    Alu32 { op: AluOp, dst: PhysReg, src: Operand },
    /// dst = *(width*)(base + off)
    Load { width: MemWidth, dst: PhysReg, base: PhysReg, off: i16 },
    /// *(width*)(base + off) = src
    Store { width: MemWidth, base: PhysReg, src: PhysReg, off: i16 },
    /// *(width*)(base + off) = imm
    StoreImm { width: MemWidth, base: PhysReg, off: i16, imm: i32 },
    /// dst = imm64
    LoadImm64 { dst: PhysReg, imm: u64 },
    /// Conditional branch to a block.
    Branch { cond: BranchCond, target: BasicBlockId },
    /// Unconditional jump to a block.
    Jump { target: BasicBlockId },
    /// Call helper function by ID.
    Call { func_id: u32 },
    /// Return from the JIT'd program.
    Ret,
    /// Spill a register to the stack.
    Spill { reg: PhysReg, slot: SpillSlot },
    /// Reload a register from the stack.
    Fill { reg: PhysReg, slot: SpillSlot },
    /// Atomic memory operation.
    Atomic { width: MemWidth, op: AtomicOp, base: PhysReg, src: PhysReg, off: i16 },
    /// Byte-swap endianness.
    Endian { to_be: bool, width: EndianWidth, dst: PhysReg },
    /// Marks the start of a basic block (pseudo-instruction).
    Label { bb: BasicBlockId },
    /// Set up the JIT stack frame.
    Prologue { frame_size: u16 },
    /// Tear down the JIT stack frame (before Ret).
    Epilogue { frame_size: u16 },
}

/// A basic block in the lowered IR.
#[derive(Debug, Clone)]
pub struct IrBasicBlock {
    pub id: BasicBlockId,
    pub nodes: Vec<IrNode>,
}

/// A complete lowered program, ready for code emission.
#[derive(Debug, Clone)]
pub struct IrProgram {
    pub blocks: Vec<IrBasicBlock>,
    pub frame_size: u16,
}

/// The block a branch or jump node goes to.
pub open spec fn node_target(node: IrNode) -> Option<BasicBlockId> {
    match node {
        IrNode::Branch { target, .. } => Some(target),
        IrNode::Jump { target } => Some(target),
        _ => None,
    }
}

/// Blocks numbered in order, no label among their nodes, and every branch
/// target one of the blocks: the shape lowering produces.
pub open spec fn blocks_closed(blocks: Seq<IrBasicBlock>) -> bool {
    &&& forall|k: int| 0 <= k < blocks.len() ==> (#[trigger] blocks[k]).id == BasicBlockId(k as u32)
    &&& forall|k: int, j: int|
        0 <= k < blocks.len() && 0 <= j < blocks[k].nodes@.len() ==> !(
        #[trigger] blocks[k].nodes@[j] is Label) && match node_target(blocks[k].nodes@[j]) {
            Some(t) => (t.0 as int) < blocks.len(),
            None => true,
        }
}

/// The nodes an emitter sees for a program: each block's label, then its
/// nodes, block after block.
pub open spec fn program_stream(blocks: Seq<IrBasicBlock>) -> Seq<IrNode>
    decreases blocks.len(),
{
    if blocks.len() == 0 {
        Seq::empty()
    } else {
        program_stream(blocks.drop_last()) + seq![IrNode::Label { bb: blocks.last().id }]
            + blocks.last().nodes@
    }
}

/// A branch word waiting for its target block's position.
#[derive(Debug, Clone, Copy, PartialEq, Eq, Structural)]
pub struct Relocation {
    /// Index of the branch instruction word in the emitted code.
    pub offset: usize,
    /// Target basic block.
    pub target: BasicBlockId,
    /// Conditional branch (short range) or unconditional jump (long range).
    pub is_conditional: bool,
}

/// A label table long enough to hold index `idx`: unchanged when it
/// already is, else extended with empty entries up to `idx`.
pub open spec fn grow_labels(labels: Seq<Option<usize>>, idx: int) -> Seq<Option<usize>> {
    if labels.len() <= idx {
        labels + Seq::new((idx + 1 - labels.len()) as nat, |i: int| None)
    } else {
        labels
    }
}

/// What an emitter holds: the instruction words so far, the word index
/// each labelled block starts at, and the pending branch relocations.
pub struct EmitState {
    pub words: Seq<u32>,
    pub labels: Seq<Option<usize>>,
    pub relocs: Seq<Relocation>,
}

impl EmitState {
    pub open spec fn empty() -> EmitState {
        EmitState { words: Seq::empty(), labels: Seq::empty(), relocs: Seq::empty() }
    }

    /// Append `ws`; when `reloc` is `Some((k, target, cond))`, the `k`-th of
    /// the new words is a branch to `target` to be patched later.
    pub open spec fn emit(self, ws: Seq<u32>, reloc: Option<(int, BasicBlockId, bool)>) -> EmitState {
        EmitState {
            words: self.words + ws,
            labels: self.labels,
            relocs: match reloc {
                Some((k, t, c)) => self.relocs.push(
                    Relocation { offset: (self.words.len() + k) as usize, target: t, is_conditional: c },
                ),
                None => self.relocs,
            },
        }
    }

    /// Record that block `bb` starts at the current word, growing the
    /// label table with empty entries when it is too short.
    pub open spec fn label(self, bb: BasicBlockId) -> EmitState {
        EmitState {
            words: self.words,
            labels: grow_labels(self.labels, bb.0 as int).update(
                bb.0 as int,
                Some(self.words.len() as usize),
            ),
            relocs: self.relocs,
        }
    }

    /// Where block `bb` starts, if it has been labelled.
    pub open spec fn label_of(self, bb: BasicBlockId) -> Option<usize> {
        if (bb.0 as int) < self.labels.len() {
            self.labels[bb.0 as int]
        } else {
            None
        }
    }

    /// Every relocation points at an emitted word and every label at a
    /// position inside (or at the end of) the code.
    pub open spec fn well_formed(self) -> bool {
        &&& forall|i: int| 0 <= i < self.relocs.len() ==> (#[trigger] self.relocs[i]).offset < self.words.len()
        &&& forall|i: int|
            0 <= i < self.labels.len() ==> match #[trigger] self.labels[i] {
                Some(o) => o <= self.words.len(),
                None => true,
            }
    }
}

/// The four bytes of `w`, least significant first.
pub open spec fn le_bytes(w: u32) -> Seq<u8> {
    seq![(w & 0xFF) as u8, ((w >> 8) & 0xFF) as u8, ((w >> 16) & 0xFF) as u8, ((w >> 24) & 0xFF) as u8]
}

/// The little-endian byte image of a sequence of instruction words.
pub open spec fn words_le_bytes(ws: Seq<u32>) -> Seq<u8>
    decreases ws.len(),
{
    if ws.len() == 0 {
        Seq::empty()
    } else {
        words_le_bytes(ws.drop_last()) + le_bytes(ws.last())
    }
}

pub proof fn lemma_words_le_bytes_len(ws: Seq<u32>)
    ensures
        words_le_bytes(ws).len() == 4 * ws.len(),
    decreases ws.len(),
{
    if ws.len() > 0 {
        lemma_words_le_bytes_len(ws.drop_last());
    }
}

/// Serialise instruction words as little-endian bytes.
pub fn words_to_bytes(ws: &Vec<u32>) -> (r: Vec<u8>)
    ensures
        r@ == words_le_bytes(ws@),
{
    let mut out: Vec<u8> = Vec::new();
    let mut i: usize = 0;
    while i < ws.len()
        invariant
            i <= ws@.len(),
            out@ == words_le_bytes(ws@.subrange(0, i as int)),
        decreases ws@.len() - i,
    {
        let w = ws[i];
        out.push((w & 0xFF) as u8);
        out.push(((w >> 8) & 0xFF) as u8);
        out.push(((w >> 16) & 0xFF) as u8);
        out.push(((w >> 24) & 0xFF) as u8);
        proof {
            let s = ws@.subrange(0, i + 1);
            assert(s.drop_last() =~= ws@.subrange(0, i as int));
            assert(s.last() == w);
        }
        i = i + 1;
    }
    assert(ws@.subrange(0, ws@.len() as int) =~= ws@);
    out
}

/// A target-specific machine code emitter.
///
/// The emitter appends the code of one IR node at a time to an internal
/// buffer, remembering where each block starts and which branch words
/// still need their displacement; `finalize` patches the branches and
/// returns the code bytes.
pub trait CodeEmitter: Sized {
    type Error;

    /// The emitter's internal invariant.
    spec fn well_formed(&self) -> bool;

    /// Nodes the emitter can take without exceeding a machine limit.
    spec fn accepts(node: IrNode) -> bool;

    /// Programs all of whose nodes and block labels the emitter accepts.
    spec fn program_accepted(blocks: Seq<IrBasicBlock>) -> bool;

    /// Programs whose size estimate fits in a `usize`.
    spec fn size_fits(blocks: Seq<IrBasicBlock>) -> bool;

    fn emit_node(&mut self, node: &IrNode) -> (r: Result<(), Self::Error>)
        requires
            old(self).well_formed(),
            Self::accepts(*node),
        ensures
            final(self).well_formed(),
    ;

    /// Emit each block's label, then its nodes, block after block.
    fn emit_program(&mut self, program: &IrProgram) -> (r: Result<(), Self::Error>)
        requires
            old(self).well_formed(),
            Self::program_accepted(program.blocks@),
        ensures
            final(self).well_formed(),
    ;

    /// Resolve the relocations and return the code bytes.
    fn finalize(&mut self) -> (r: Result<Vec<u8>, Self::Error>)
        requires
            old(self).well_formed(),
        ensures
            final(self).well_formed(),
    ;

    /// Dry run: the exact code size of `program`, in bytes, before the
    /// code buffer is sized (emitting into a scratch emitter).
    fn calculate_size(&self, program: &IrProgram) -> (r: usize)
        requires
            Self::size_fits(program.blocks@),
            Self::program_accepted(program.blocks@),
    ;
}

} // verus!
