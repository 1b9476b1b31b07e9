//! eBPF Instruction Set Architecture definitions.
//!
//! All opcodes, register identifiers, and instruction formats are defined
//! here as strongly-typed enums so that invalid encodings are unrepresentable.
use vstd::prelude::*;

verus! {

/// Maximum number of eBPF instructions per program (kernel default: 1M).
pub const MAX_INSNS: usize = 1_000_000;

/// eBPF stack size in bytes.
pub const STACK_SIZE: usize = 512;

/// Number of eBPF registers (R0..R10).
pub const NUM_REGS: usize = 11;

// Instruction classes (3-bit field, bits [2:0] of opcode)
pub const BPF_LD: u8 = 0x00;
pub const BPF_LDX: u8 = 0x01;
pub const BPF_ST: u8 = 0x02;
pub const BPF_STX: u8 = 0x03;
pub const BPF_ALU: u8 = 0x04;
pub const BPF_JMP: u8 = 0x05;
pub const BPF_JMP32: u8 = 0x06;
pub const BPF_ALU64: u8 = 0x07;

// ALU operation codes (4-bit field, bits [7:4] of opcode)
pub const BPF_ADD: u8 = 0x00;
pub const BPF_SUB: u8 = 0x10;
pub const BPF_MUL: u8 = 0x20;
pub const BPF_DIV: u8 = 0x30;
pub const BPF_OR: u8 = 0x40;
pub const BPF_AND: u8 = 0x50;
pub const BPF_LSH: u8 = 0x60;
pub const BPF_RSH: u8 = 0x70;
pub const BPF_NEG: u8 = 0x80;
pub const BPF_MOD: u8 = 0x90;
pub const BPF_XOR: u8 = 0xa0;
pub const BPF_MOV: u8 = 0xb0;
pub const BPF_ARSH: u8 = 0xc0;
pub const BPF_END: u8 = 0xd0;

// Jump operation codes (4-bit field, bits [7:4] of opcode)
pub const BPF_JA: u8 = 0x00;
pub const BPF_JEQ: u8 = 0x10;
pub const BPF_JGT: u8 = 0x20;
pub const BPF_JGE: u8 = 0x30;
pub const BPF_JSET: u8 = 0x40;
pub const BPF_JNE: u8 = 0x50;
pub const BPF_JSGT: u8 = 0x60;
pub const BPF_JSGE: u8 = 0x70;
pub const BPF_CALL: u8 = 0x80;
pub const BPF_EXIT: u8 = 0x90;
pub const BPF_JLT: u8 = 0xa0;
pub const BPF_JLE: u8 = 0xb0;
pub const BPF_JSLT: u8 = 0xc0;
pub const BPF_JSLE: u8 = 0xd0;

// Source modifier (1-bit, bit [3] of opcode)
pub const BPF_K: u8 = 0x00;
pub const BPF_X: u8 = 0x08;

// Memory access size (2-bit field, bits [4:3] of opcode for LD/ST)
pub const BPF_W: u8 = 0x00;
pub const BPF_H: u8 = 0x08;
pub const BPF_B: u8 = 0x10;
pub const BPF_DW: u8 = 0x18;

// Memory access mode (3-bit field, bits [7:5] of opcode for LD/ST)
pub const BPF_IMM: u8 = 0x00;
pub const BPF_ABS: u8 = 0x20;
pub const BPF_IND: u8 = 0x40;
pub const BPF_MEM: u8 = 0x60;
pub const BPF_ATOMIC: u8 = 0xc0;

// Atomic operations (encoded in the imm field when BPF_ATOMIC)
pub const BPF_ATOMIC_ADD: u32 = 0x00;
pub const BPF_ATOMIC_OR: u32 = 0x40;
pub const BPF_ATOMIC_AND: u32 = 0x50;
pub const BPF_ATOMIC_XOR: u32 = 0xa0;
pub const BPF_ATOMIC_XCHG: u32 = 0xe0 | 0x01;
pub const BPF_ATOMIC_CMPXCHG: u32 = 0xf0 | 0x01;
pub const BPF_ATOMIC_FETCH: u32 = 0x01;

// Endianness for BPF_END
pub const BPF_TO_LE: u8 = 0x00;
pub const BPF_TO_BE: u8 = 0x08;

/// Bounded eBPF register identifier: R0..R10.
///
/// Out-of-range register references are unrepresentable: the type has
/// exactly eleven values. R10 is the read-only frame pointer.
#[derive(Debug, Clone, Copy, PartialEq, Eq, Hash, Structural)]
pub enum BpfReg {
    R0,
    R1,
    R2,
    R3,
    R4,
    R5,
    R6,
    R7,
    R8,
    R9,
    R10,
}

/// The register whose number is `raw` (meaningful for `raw <= 10`).
pub open spec fn reg_of(raw: int) -> BpfReg {
    if raw == 0 {
        BpfReg::R0
    } else if raw == 1 {
        BpfReg::R1
    } else if raw == 2 {
        BpfReg::R2
    } else if raw == 3 {
        BpfReg::R3
    } else if raw == 4 {
        BpfReg::R4
    } else if raw == 5 {
        BpfReg::R5
    } else if raw == 6 {
        BpfReg::R6
    } else if raw == 7 {
        BpfReg::R7
    } else if raw == 8 {
        BpfReg::R8
    } else if raw == 9 {
        BpfReg::R9
    } else {
        BpfReg::R10
    }
}

impl BpfReg {
    /// The register number, 0..=10.
    pub open spec fn spec_raw(self) -> u8 {
        match self {
            BpfReg::R0 => 0,
            BpfReg::R1 => 1,
            BpfReg::R2 => 2,
            BpfReg::R3 => 3,
            BpfReg::R4 => 4,
            BpfReg::R5 => 5,
            BpfReg::R6 => 6,
            BpfReg::R7 => 7,
            BpfReg::R8 => 8,
            BpfReg::R9 => 9,
            BpfReg::R10 => 10,
        }
    }

    pub open spec fn spec_index(self) -> usize {
        self.spec_raw() as usize
    }

    /// Construct from a raw 4-bit register field; `None` if `raw > 10`.
    pub fn from_raw(raw: u8) -> (r: Option<Self>)
        ensures
            raw <= 10 ==> r == Some(reg_of(raw as int)),
            raw > 10 ==> r is None,
            r matches Some(x) ==> x.spec_raw() == raw,
    {
        if raw <= 10 {
            let r = match raw {
                0 => BpfReg::R0,
                1 => BpfReg::R1,
                2 => BpfReg::R2,
                3 => BpfReg::R3,
                4 => BpfReg::R4,
                5 => BpfReg::R5,
                6 => BpfReg::R6,
                7 => BpfReg::R7,
                8 => BpfReg::R8,
                9 => BpfReg::R9,
                _ => BpfReg::R10,
            };
            Some(r)
        } else {
            None
        }
    }

    #[verifier::when_used_as_spec(spec_raw)]
    pub fn raw(self) -> (r: u8)
        ensures
            r == self.spec_raw(),
            r <= 10,
    {
        match self {
            BpfReg::R0 => 0,
            BpfReg::R1 => 1,
            BpfReg::R2 => 2,
            BpfReg::R3 => 3,
            BpfReg::R4 => 4,
            BpfReg::R5 => 5,
            BpfReg::R6 => 6,
            BpfReg::R7 => 7,
            BpfReg::R8 => 8,
            BpfReg::R9 => 9,
            BpfReg::R10 => 10,
        }
    }

    /// Index into a register file of `NUM_REGS` entries.
    #[verifier::when_used_as_spec(spec_index)]
    pub fn index(self) -> (r: usize)
        ensures
            r == self.spec_index(),
            r < NUM_REGS,
    {
        self.raw() as usize
    }
}

/// A register number names one register and no other: `reg_of` inverts `raw`.
pub proof fn lemma_reg_raw_roundtrip(r: BpfReg)
    ensures
        reg_of(r.spec_raw() as int) == r,
        r.spec_raw() <= 10,
{
}

/// Two registers with the same number are the same register.
pub proof fn lemma_reg_raw_injective(a: BpfReg, b: BpfReg)
    ensures
        a.spec_raw() == b.spec_raw() <==> a == b,
{
}

/// Memory access width.
#[derive(Debug, Clone, Copy, PartialEq, Eq, Structural)]
pub enum MemWidth {
    B,
    H,
    W,
    DW,
}

/// The width selected by the size bits `code & 0x18` of an opcode.
pub open spec fn width_of_code(code: u8) -> MemWidth {
    let s = code & 0x18;
    if s == BPF_B {
        MemWidth::B
    } else if s == BPF_H {
        MemWidth::H
    } else if s == BPF_W {
        MemWidth::W
    } else {
        MemWidth::DW
    }
}

impl MemWidth {
    /// Every value of the two size bits names a width, so this never
    /// returns `None`.
    pub fn from_size_code(code: u8) -> (r: Option<Self>)
        ensures
            r == Some(width_of_code(code)),
    {
        let s = code & 0x18;
        assert(s == 0 || s == 8 || s == 0x10 || s == 0x18) by (bit_vector)
            requires
                s == code & 0x18,
        ;
        if s == BPF_B {
            Some(MemWidth::B)
        } else if s == BPF_H {
            Some(MemWidth::H)
        } else if s == BPF_W {
            Some(MemWidth::W)
        } else if s == BPF_DW {
            Some(MemWidth::DW)
        } else {
            None
        }
    }

    pub open spec fn spec_byte_len(self) -> u8 {
        match self {
            MemWidth::B => 1,
            MemWidth::H => 2,
            MemWidth::W => 4,
            MemWidth::DW => 8,
        }
    }

    #[verifier::when_used_as_spec(spec_byte_len)]
    pub fn byte_len(self) -> (r: u8)
        ensures
            r == self.spec_byte_len(),
    {
        match self {
            MemWidth::B => 1,
            MemWidth::H => 2,
            MemWidth::W => 4,
            MemWidth::DW => 8,
        }
    }
}

/// Source operand: either an immediate constant or a register.
#[derive(Debug, Clone, Copy, PartialEq, Eq, Structural)]
pub enum Source {
    Imm(i64),
    Reg(BpfReg),
}

/// ALU operation kind.
#[derive(Debug, Clone, Copy, PartialEq, Eq, Structural)]
pub enum AluOp {
    Add,
    Sub,
    Mul,
    Div,
    Or,
    And,
    Lsh,
    Rsh,
    Neg,
    Mod,
    Xor,
    Mov,
    Arsh,
}

/// The ALU operation named by the high nibble `bits & 0xf0`.
pub open spec fn alu_op_of(bits: u8) -> Option<AluOp> {
    let h = bits & 0xf0;
    if h == BPF_ADD {
        Some(AluOp::Add)
    } else if h == BPF_SUB {
        Some(AluOp::Sub)
    } else if h == BPF_MUL {
        Some(AluOp::Mul)
    } else if h == BPF_DIV {
        Some(AluOp::Div)
    } else if h == BPF_OR {
        Some(AluOp::Or)
    } else if h == BPF_AND {
        Some(AluOp::And)
    } else if h == BPF_LSH {
        Some(AluOp::Lsh)
    } else if h == BPF_RSH {
        Some(AluOp::Rsh)
    } else if h == BPF_NEG {
        Some(AluOp::Neg)
    } else if h == BPF_MOD {
        Some(AluOp::Mod)
    } else if h == BPF_XOR {
        Some(AluOp::Xor)
    } else if h == BPF_MOV {
        Some(AluOp::Mov)
    } else if h == BPF_ARSH {
        Some(AluOp::Arsh)
    } else {
        None
    }
}

impl AluOp {
    pub fn from_opcode_bits(bits: u8) -> (r: Option<Self>)
        ensures
            r == alu_op_of(bits),
    {
        let h = bits & 0xf0;
        if h == BPF_ADD {
            Some(AluOp::Add)
        } else if h == BPF_SUB {
            Some(AluOp::Sub)
        } else if h == BPF_MUL {
            Some(AluOp::Mul)
        } else if h == BPF_DIV {
            Some(AluOp::Div)
        } else if h == BPF_OR {
            Some(AluOp::Or)
        } else if h == BPF_AND {
            Some(AluOp::And)
        } else if h == BPF_LSH {
            Some(AluOp::Lsh)
        } else if h == BPF_RSH {
            Some(AluOp::Rsh)
        } else if h == BPF_NEG {
            Some(AluOp::Neg)
        } else if h == BPF_MOD {
            Some(AluOp::Mod)
        } else if h == BPF_XOR {
            Some(AluOp::Xor)
        } else if h == BPF_MOV {
            Some(AluOp::Mov)
        } else if h == BPF_ARSH {
            Some(AluOp::Arsh)
        } else {
            None
        }
    }
}

/// Branch condition kind.
#[derive(Debug, Clone, Copy, PartialEq, Eq, Structural)]
pub enum JmpOp {
    Ja,
    Jeq,
    Jgt,
    Jge,
    Jset,
    Jne,
    Jsgt,
    Jsge,
    Jlt,
    Jle,
    Jslt,
    Jsle,
}

/// The jump operation named by the high nibble `bits & 0xf0`
/// (CALL and EXIT, and the two unused nibbles, name none).
pub open spec fn jmp_op_of(bits: u8) -> Option<JmpOp> {
    let h = bits & 0xf0;
    if h == BPF_JA {
        Some(JmpOp::Ja)
    } else if h == BPF_JEQ {
        Some(JmpOp::Jeq)
    } else if h == BPF_JGT {
        Some(JmpOp::Jgt)
    } else if h == BPF_JGE {
        Some(JmpOp::Jge)
    } else if h == BPF_JSET {
        Some(JmpOp::Jset)
    } else if h == BPF_JNE {
        Some(JmpOp::Jne)
    } else if h == BPF_JSGT {
        Some(JmpOp::Jsgt)
    } else if h == BPF_JSGE {
        Some(JmpOp::Jsge)
    } else if h == BPF_JLT {
        Some(JmpOp::Jlt)
    } else if h == BPF_JLE {
        Some(JmpOp::Jle)
    } else if h == BPF_JSLT {
        Some(JmpOp::Jslt)
    } else if h == BPF_JSLE {
        Some(JmpOp::Jsle)
    } else {
        None
    }
}

impl JmpOp {
    pub fn from_opcode_bits(bits: u8) -> (r: Option<Self>)
        ensures
            r == jmp_op_of(bits),
    {
        let h = bits & 0xf0;
        if h == BPF_JA {
            Some(JmpOp::Ja)
        } else if h == BPF_JEQ {
            Some(JmpOp::Jeq)
        } else if h == BPF_JGT {
            Some(JmpOp::Jgt)
        } else if h == BPF_JGE {
            Some(JmpOp::Jge)
        } else if h == BPF_JSET {
            Some(JmpOp::Jset)
        } else if h == BPF_JNE {
            Some(JmpOp::Jne)
        } else if h == BPF_JSGT {
            Some(JmpOp::Jsgt)
        } else if h == BPF_JSGE {
            Some(JmpOp::Jsge)
        } else if h == BPF_JLT {
            Some(JmpOp::Jlt)
        } else if h == BPF_JLE {
            Some(JmpOp::Jle)
        } else if h == BPF_JSLT {
            Some(JmpOp::Jslt)
        } else if h == BPF_JSLE {
            Some(JmpOp::Jsle)
        } else {
            None
        }
    }
}

/// Atomic memory operation kind.
#[derive(Debug, Clone, Copy, PartialEq, Eq, Structural)]
pub enum AtomicOp {
    Add,
    Or,
    And,
    Xor,
    Xchg,
    CmpXchg,
    FetchAdd,
    FetchOr,
    FetchAnd,
    FetchXor,
}

/// Endianness conversion width.
#[derive(Debug, Clone, Copy, PartialEq, Eq, Structural)]
pub enum EndianWidth {
    Bits16,
    Bits32,
    Bits64,
}

/// A single decoded eBPF instruction in typed form.
///
/// Every variant carries exactly the operands required by the eBPF spec.
#[derive(Debug, Clone, Copy, PartialEq, Eq, Structural)]
pub enum Insn {
    /// 64-bit ALU: dst = dst OP src
    Alu64 { op: AluOp, dst: BpfReg, src: Source },
    /// 32-bit ALU: dst = (u32)(dst OP src)
    Alu32 { op: AluOp, dst: BpfReg, src: Source },
    /// Load from memory: dst = *(width*)(src + off)
    Load { width: MemWidth, dst: BpfReg, src: BpfReg, off: i16 },
    /// Store register to memory: *(width*)(dst + off) = src
    StoreReg { width: MemWidth, dst: BpfReg, src: BpfReg, off: i16 },
    /// Store immediate to memory: *(width*)(dst + off) = imm
    StoreImm { width: MemWidth, dst: BpfReg, off: i16, imm: i32 },
    /// Load 64-bit immediate (wide instruction, consumes 2 slots).
    LoadImm64 { dst: BpfReg, imm: u64 },
    /// Conditional jump: if (dst OP src) goto pc + off
    JmpCond { op: JmpOp, dst: BpfReg, src: Source, off: i16 },
    /// Conditional jump on the low 32 bits of both operands.
    JmpCond32 { op: JmpOp, dst: BpfReg, src: Source, off: i16 },
    /// Unconditional jump: goto pc + off
    Ja { off: i16 },
    /// Call helper function by ID.
    Call { func_id: u32 },
    /// Tail call (program-to-program).
    TailCall,
    /// Exit program, return value in R0.
    Exit,
    /// Atomic memory operation.
    Atomic { width: MemWidth, op: AtomicOp, dst: BpfReg, src: BpfReg, off: i16 },
    /// Byte-swap endianness.
    Endian { to_be: bool, width: EndianWidth, dst: BpfReg },
}

/// Raw 64-bit eBPF instruction encoding (wire format).
#[derive(Debug, Clone, Copy, PartialEq, Eq, Structural)]
pub struct RawInsn {
    pub opcode: u8,
    /// dst_reg in the low nibble, src_reg in the high nibble
    pub regs: u8,
    pub off: i16,
    pub imm: i32,
}

impl RawInsn {
    pub open spec fn spec_dst_reg(&self) -> u8 {
        self.regs & 0x0f
    }

    pub open spec fn spec_src_reg(&self) -> u8 {
        (self.regs >> 4) & 0x0f
    }

    pub open spec fn spec_insn_class(&self) -> u8 {
        self.opcode & 0x07
    }

    #[verifier::when_used_as_spec(spec_dst_reg)]
    pub fn dst_reg(&self) -> (r: u8)
        ensures
            r == self.spec_dst_reg(),
            r < 16,
    {
        let v = self.regs;
        assert(v & 0x0f < 16) by (bit_vector);
        v & 0x0f
    }

    #[verifier::when_used_as_spec(spec_src_reg)]
    pub fn src_reg(&self) -> (r: u8)
        ensures
            r == self.spec_src_reg(),
            r < 16,
    {
        let v = self.regs;
        assert((v >> 4) & 0x0f < 16) by (bit_vector);
        (v >> 4) & 0x0f
    }

    #[verifier::when_used_as_spec(spec_insn_class)]
    pub fn insn_class(&self) -> (r: u8)
        ensures
            r == self.spec_insn_class(),
            r < 8,
    {
        let v = self.opcode;
        assert(v & 0x07 < 8) by (bit_vector);
        v & 0x07
    }

    /// Deserialize from a little-endian 8-byte array.
    pub fn from_le_bytes(bytes: &[u8; 8]) -> (r: Self)
        ensures
            r.opcode == bytes[0],
            r.regs == bytes[1],
            r.off as u16 as int == bytes[2] + 256 * bytes[3],
            r.imm as u32 as int == bytes[4] + 256 * bytes[5] + 65536 * bytes[6] + 16777216
                * bytes[7],
    {
        let b2 = bytes[2];
        let b3 = bytes[3];
        let b4 = bytes[4];
        let b5 = bytes[5];
        let b6 = bytes[6];
        let b7 = bytes[7];
        let off16: u16 = (b2 as u16) | ((b3 as u16) << 8);
        let imm32: u32 = (b4 as u32) | ((b5 as u32) << 8) | ((b6 as u32) << 16) | ((b7 as u32)
            << 24);
        let off = off16 as i16;
        let imm = imm32 as i32;
        assert(off16 as int == b2 + 256 * b3 && imm32 as int == b4 + 256 * b5 + 65536 * b6
            + 16777216 * b7 && off as u16 == off16 && imm as u32 == imm32) by (bit_vector)
            requires
                off16 == (b2 as u16) | ((b3 as u16) << 8),
                imm32 == (b4 as u32) | ((b5 as u32) << 8) | ((b6 as u32) << 16) | ((b7 as u32)
                    << 24),
                off == off16 as i16,
                imm == imm32 as i32,
        ;
        RawInsn { opcode: bytes[0], regs: bytes[1], off, imm }
    }
}

} // verus!
