//! Rudimentary AArch64 disassembler: recognizes the instruction patterns
//! the emitter produces and extracts their operands.
//!
//! `disassemble_aarch64` tries the patterns in a fixed order and returns
//! the first match (`pattern_of`); turning the result into text is left to
//! the caller. For the words the encoders build, the operands come back
//! (`lemma_disasm_add_x_reg` and its neighbours).
use vstd::prelude::*;

use crate::aarch64::encode::{add_x_reg, b_cond, b_imm, dmb_ish, movz_x, ret};

verus! {

/// The mnemonic suffix of a B.cond condition field, `??` for a condition
/// the emitter does not use.
pub open spec fn cond_mnemonic(cond: u32) -> Seq<char> {
    if cond == 0 {
        "EQ"@
    } else if cond == 1 {
        "NE"@
    } else if cond == 2 {
        "HS"@
    } else if cond == 3 {
        "LO"@
    } else if cond == 8 {
        "HI"@
    } else if cond == 9 {
        "LS"@
    } else if cond == 0xA {
        "GE"@
    } else if cond == 0xB {
        "LT"@
    } else if cond == 0xC {
        "GT"@
    } else if cond == 0xD {
        "LE"@
    } else {
        "??"@
    }
}

/// Condition mnemonic of a B.cond condition field.
pub fn cond_name(cond: u32) -> (r: &'static str)
    ensures
        r@ == cond_mnemonic(cond),
{
    match cond {
        0 => "EQ",
        1 => "NE",
        2 => "HS",
        3 => "LO",
        8 => "HI",
        9 => "LS",
        0xA => "GE",
        0xB => "LT",
        0xC => "GT",
        0xD => "LE",
        _ => "??",
    }
}

/// A recognized AArch64 instruction with its operands.
#[derive(Debug, Clone, Copy, PartialEq, Eq, Structural)]
pub enum A64Disasm {
    Ret,
    DmbIsh,
    /// MOV Xd, Xm
    MovReg { rd: u8, rm: u8 },
    /// MOVZ Xd with the shifted immediate's value
    Movz { rd: u8, val: u64 },
    /// MOVK Xd, #imm16, LSL #shift
    Movk { rd: u8, imm16: u32, shift: u32 },
    /// MOVZ Wd, #imm16
    MovzW { rd: u8, imm16: u32 },
    AddReg { rd: u8, rn: u8, rm: u8 },
    SubReg { rd: u8, rn: u8, rm: u8 },
    AddImm { rd: u8, rn: u8, imm12: u32 },
    SubImm { rd: u8, rn: u8, imm12: u32 },
    Mul { rd: u8, rn: u8, rm: u8 },
    Udiv { rd: u8, rn: u8, rm: u8 },
    Msub { rd: u8, rn: u8, rm: u8, ra: u8 },
    Orr { rd: u8, rn: u8, rm: u8 },
    And { rd: u8, rn: u8, rm: u8 },
    Eor { rd: u8, rn: u8, rm: u8 },
    Lslv { rd: u8, rn: u8, rm: u8 },
    Lsrv { rd: u8, rn: u8, rm: u8 },
    Asrv { rd: u8, rn: u8, rm: u8 },
    Cmp { rn: u8, rm: u8 },
    /// B.cond with its condition field and byte offset
    BCond { cond: u32, byte_offset: i32 },
    /// B with its byte offset
    B { byte_offset: i32 },
    Blr { rn: u8 },
    StpPre { rt1: u8, rt2: u32, rn: u8 },
    StpOffset { rt1: u8, rt2: u32, rn: u8, off: i16 },
    LdpOffset { rt1: u8, rt2: u32, rn: u8, off: i16 },
    LdpPost { rt1: u8, rt2: u32, rn: u8 },
    /// LDR Xt, [Xn, #uoff]
    LdrX { rt: u8, rn: u8, uoff: u32 },
    /// STR Xt, [Xn, #uoff]
    StrX { rt: u8, rn: u8, uoff: u32 },
    LslImm { rd: u8, rn: u8, shift: u32 },
    /// Not one of the recognized patterns
    Unknown(u32),
}

pub open spec fn fd(insn: u32) -> u8 {
    (insn & 0x1F) as u8
}

pub open spec fn fn_(insn: u32) -> u8 {
    ((insn >> 5u32) & 0x1F) as u8
}

pub open spec fn fm(insn: u32) -> u8 {
    ((insn >> 16u32) & 0x1F) as u8
}

/// Sign-extended 19-bit B.cond displacement, in bytes.
pub open spec fn bcond_bytes(insn: u32) -> i32 {
    let imm19 = ((insn >> 5u32) & 0x7FFFF) as i32;
    (((imm19 << 13i32) >> 13i32) * 4) as i32
}

/// Sign-extended 26-bit B displacement, in bytes.
pub open spec fn b_bytes(insn: u32) -> i32 {
    let imm26 = (insn & 0x03FFFFFF) as i32;
    (((imm26 << 6i32) >> 6i32) * 4) as i32
}

/// The 7-bit pair offset field scaled by 8 (the field read as unsigned).
pub open spec fn pair_off(insn: u32) -> i16 {
    (((((insn >> 15u32) & 0x7F) as i8) as i16) * 8) as i16
}

/// The first pattern `insn` matches, with its operands.
pub open spec fn pattern_of(insn: u32) -> A64Disasm {
    let (rd, rn, rm) = (fd(insn), fn_(insn), fm(insn));
    if insn == 0xD65F03C0 {
        A64Disasm::Ret
    } else if insn == 0xD5033BBF {
        A64Disasm::DmbIsh
    } else if insn & 0xFFE0FFE0 == 0xAA0003E0 {
        A64Disasm::MovReg { rd, rm }
    } else if insn & 0xFF800000 == 0xD2800000 {
        A64Disasm::Movz {
            rd,
            val: (((insn >> 5u32) & 0xFFFF) as u64) << ((((insn >> 21u32) & 3) * 16) as u32),
        }
    } else if insn & 0xFF800000 == 0xF2800000 {
        A64Disasm::Movk { rd, imm16: (insn >> 5u32) & 0xFFFF, shift: (((insn >> 21u32) & 3) * 16) as u32 }
    } else if insn & 0xFF800000 == 0x52800000 {
        A64Disasm::MovzW { rd, imm16: (insn >> 5u32) & 0xFFFF }
    } else if insn & 0xFFE00000 == 0x8B000000 {
        A64Disasm::AddReg { rd, rn, rm }
    } else if insn & 0xFFE00000 == 0xCB000000 {
        A64Disasm::SubReg { rd, rn, rm }
    } else if insn & 0xFFC00000 == 0x91000000 {
        A64Disasm::AddImm { rd, rn, imm12: (insn >> 10u32) & 0xFFF }
    } else if insn & 0xFFC00000 == 0xD1000000 {
        A64Disasm::SubImm { rd, rn, imm12: (insn >> 10u32) & 0xFFF }
    } else if insn & 0xFFE08000 == 0x9B007C00 {
        A64Disasm::Mul { rd, rn, rm }
    } else if insn & 0xFFE0FC00 == 0x9AC00800 {
        A64Disasm::Udiv { rd, rn, rm }
    } else if insn & 0xFFE08000 == 0x9B008000 {
        A64Disasm::Msub { rd, rn, rm, ra: ((insn >> 10u32) & 0x1F) as u8 }
    } else if insn & 0xFFE00000 == 0xAA000000 {
        A64Disasm::Orr { rd, rn, rm }
    } else if insn & 0xFFE00000 == 0x8A000000 {
        A64Disasm::And { rd, rn, rm }
    } else if insn & 0xFFE00000 == 0xCA000000 {
        A64Disasm::Eor { rd, rn, rm }
    } else if insn & 0xFFE0FC00 == 0x9AC02000 {
        A64Disasm::Lslv { rd, rn, rm }
    } else if insn & 0xFFE0FC00 == 0x9AC02400 {
        A64Disasm::Lsrv { rd, rn, rm }
    } else if insn & 0xFFE0FC00 == 0x9AC02800 {
        A64Disasm::Asrv { rd, rn, rm }
    } else if insn & 0xFFE00000 == 0xEB000000 && rd == 31 {
        A64Disasm::Cmp { rn, rm }
    } else if insn & 0xFF000010 == 0x54000000 {
        A64Disasm::BCond { cond: insn & 0xF, byte_offset: bcond_bytes(insn) }
    } else if insn & 0xFC000000 == 0x14000000 {
        A64Disasm::B { byte_offset: b_bytes(insn) }
    } else if insn & 0xFFFFFC1F == 0xD63F0000 {
        A64Disasm::Blr { rn }
    } else if insn & 0xFFC00000 == 0xA9800000 {
        A64Disasm::StpPre { rt1: rd, rt2: (insn >> 10u32) & 0x1F, rn }
    } else if insn & 0xFFC00000 == 0xA9000000 {
        A64Disasm::StpOffset { rt1: rd, rt2: (insn >> 10u32) & 0x1F, rn, off: pair_off(insn) }
    } else if insn & 0xFFC00000 == 0xA9400000 {
        A64Disasm::LdpOffset { rt1: rd, rt2: (insn >> 10u32) & 0x1F, rn, off: pair_off(insn) }
    } else if insn & 0xFFC00000 == 0xA8C00000 {
        A64Disasm::LdpPost { rt1: rd, rt2: (insn >> 10u32) & 0x1F, rn }
    } else if insn & 0xFFC00000 == 0xF9400000 {
        A64Disasm::LdrX { rt: rd, rn, uoff: (((insn >> 10u32) & 0xFFF) * 8) as u32 }
    } else if insn & 0xFFC00000 == 0xF9000000 {
        A64Disasm::StrX { rt: rd, rn, uoff: (((insn >> 10u32) & 0xFFF) * 8) as u32 }
    } else if insn & 0xFFC00000 == 0xD3400000 {
        // Every UBFM of this form is shown as LSL.
        A64Disasm::LslImm { rd, rn, shift: ((64 - ((insn >> 16u32) & 0x3F)) as u32) & 63 }
    } else {
        A64Disasm::Unknown(insn)
    }
}

/// Ranges of the fields the disassembler extracts.
proof fn lemma_field_bounds(insn: u32)
    ensures
        (insn >> 21u32) & 3 <= 3,
        (insn >> 10u32) & 0xFFF <= 0xFFF,
        (insn >> 16u32) & 0x3F <= 0x3F,
        -0x40000 <= (((insn >> 5u32) & 0x7FFFF) as i32) << 13i32 >> 13i32 < 0x40000,
        -0x2000000 <= ((insn & 0x03FFFFFF) as i32) << 6i32 >> 6i32 < 0x2000000,
{
    assert({
        &&& (insn >> 21u32) & 3 <= 3
        &&& (insn >> 10u32) & 0xFFF <= 0xFFF
        &&& (insn >> 16u32) & 0x3F <= 0x3F
        &&& -0x40000 <= (((insn >> 5u32) & 0x7FFFF) as i32) << 13i32 >> 13i32 < 0x40000
        &&& -0x2000000 <= ((insn & 0x03FFFFFF) as i32) << 6i32 >> 6i32 < 0x2000000
    }) by (bit_vector);
}

/// Recognize an AArch64 instruction word: the first matching pattern, or
/// `Unknown`.
pub fn disassemble_aarch64(insn: u32) -> (r: A64Disasm)
    ensures
        r == pattern_of(insn),
{
    let rd = (insn & 0x1F) as u8;
    let rn = ((insn >> 5) & 0x1F) as u8;
    let rm = ((insn >> 16) & 0x1F) as u8;
    proof {
        lemma_field_bounds(insn);
    }
    if insn == 0xD65F03C0 {
        return A64Disasm::Ret;
    }
    if insn == 0xD5033BBF {
        return A64Disasm::DmbIsh;
    }
    // MOV Xd, Xm (ORR Xd, XZR, Xm)
    if insn & 0xFFE0FFE0 == 0xAA0003E0 {
        return A64Disasm::MovReg { rd, rm };
    }
    // MOVZ Xd, #imm16, LSL #(hw*16)
    if insn & 0xFF800000 == 0xD2800000 {
        let hw = (insn >> 21) & 3;
        let imm16 = ((insn >> 5) & 0xFFFF) as u64;
        let val = imm16 << (hw * 16);
        return A64Disasm::Movz { rd, val };
    }
    // MOVK Xd, #imm16, LSL #(hw*16)
    if insn & 0xFF800000 == 0xF2800000 {
        let hw = (insn >> 21) & 3;
        let imm16 = (insn >> 5) & 0xFFFF;
        return A64Disasm::Movk { rd, imm16, shift: hw * 16 };
    }
    // MOVZ Wd
    if insn & 0xFF800000 == 0x52800000 {
        return A64Disasm::MovzW { rd, imm16: (insn >> 5) & 0xFFFF };
    }
    if insn & 0xFFE00000 == 0x8B000000 {
        return A64Disasm::AddReg { rd, rn, rm };
    }
    if insn & 0xFFE00000 == 0xCB000000 {
        return A64Disasm::SubReg { rd, rn, rm };
    }
    if insn & 0xFFC00000 == 0x91000000 {
        return A64Disasm::AddImm { rd, rn, imm12: (insn >> 10) & 0xFFF };
    }
    if insn & 0xFFC00000 == 0xD1000000 {
        return A64Disasm::SubImm { rd, rn, imm12: (insn >> 10) & 0xFFF };
    }
    // MUL Xd, Xn, Xm (MADD with XZR)
    if insn & 0xFFE08000 == 0x9B007C00 {
        return A64Disasm::Mul { rd, rn, rm };
    }
    if insn & 0xFFE0FC00 == 0x9AC00800 {
        return A64Disasm::Udiv { rd, rn, rm };
    }
    if insn & 0xFFE08000 == 0x9B008000 {
        let ra = ((insn >> 10) & 0x1F) as u8;
        return A64Disasm::Msub { rd, rn, rm, ra };
    }
    if insn & 0xFFE00000 == 0xAA000000 {
        return A64Disasm::Orr { rd, rn, rm };
    }
    if insn & 0xFFE00000 == 0x8A000000 {
        return A64Disasm::And { rd, rn, rm };
    }
    if insn & 0xFFE00000 == 0xCA000000 {
        return A64Disasm::Eor { rd, rn, rm };
    }
    if insn & 0xFFE0FC00 == 0x9AC02000 {
        return A64Disasm::Lslv { rd, rn, rm };
    }
    if insn & 0xFFE0FC00 == 0x9AC02400 {
        return A64Disasm::Lsrv { rd, rn, rm };
    }
    if insn & 0xFFE0FC00 == 0x9AC02800 {
        return A64Disasm::Asrv { rd, rn, rm };
    }
    // CMP Xn, Xm (SUBS XZR, Xn, Xm)
    if insn & 0xFFE00000 == 0xEB000000 && rd == 31 {
        return A64Disasm::Cmp { rn, rm };
    }
    // B.cond
    if insn & 0xFF000010 == 0x54000000 {
        let cond = insn & 0xF;
        let imm19 = ((insn >> 5) & 0x7FFFF) as i32;
        let offset = (imm19 << 13) >> 13;  // sign extend
        return A64Disasm::BCond { cond, byte_offset: offset * 4 };
    }
    // B (unconditional)
    if insn & 0xFC000000 == 0x14000000 {
        let imm26 = (insn & 0x03FFFFFF) as i32;
        let offset = (imm26 << 6) >> 6;  // sign extend
        return A64Disasm::B { byte_offset: offset * 4 };
    }
    if insn & 0xFFFFFC1F == 0xD63F0000 {
        return A64Disasm::Blr { rn };
    }
    // STP (pre-index, offset)
    if insn & 0xFFC00000 == 0xA9800000 {
        return A64Disasm::StpPre { rt1: rd, rt2: (insn >> 10) & 0x1F, rn };
    }
    if insn & 0xFFC00000 == 0xA9000000 {
        let rt2 = (insn >> 10) & 0x1F;
        let imm7 = #[verifier::truncate] (((insn >> 15) & 0x7F) as i8);
        let off = (imm7 as i16) * 8;
        return A64Disasm::StpOffset { rt1: rd, rt2, rn, off };
    }
    // LDP (offset, post-index)
    if insn & 0xFFC00000 == 0xA9400000 {
        let rt2 = (insn >> 10) & 0x1F;
        let imm7 = #[verifier::truncate] (((insn >> 15) & 0x7F) as i8);
        let off = (imm7 as i16) * 8;
        return A64Disasm::LdpOffset { rt1: rd, rt2, rn, off };
    }
    if insn & 0xFFC00000 == 0xA8C00000 {
        return A64Disasm::LdpPost { rt1: rd, rt2: (insn >> 10) & 0x1F, rn };
    }
    // LDR / STR Xt, [Xn, #off] (64-bit unsigned offset)
    if insn & 0xFFC00000 == 0xF9400000 {
        return A64Disasm::LdrX { rt: rd, rn, uoff: ((insn >> 10) & 0xFFF) * 8 };
    }
    if insn & 0xFFC00000 == 0xF9000000 {
        return A64Disasm::StrX { rt: rd, rn, uoff: ((insn >> 10) & 0xFFF) * 8 };
    }
    // Shift immediate (UBFM patterns): shown as LSL.
    if insn & 0xFFC00000 == 0xD3400000 {
        let immr = (insn >> 16) & 0x3F;
        return A64Disasm::LslImm { rd, rn, shift: (64 - immr) & 63 };
    }
    A64Disasm::Unknown(insn)
}

// ---------------------------------------------------------------------------
// Disassembly reads back what the encoders build
// ---------------------------------------------------------------------------

pub proof fn lemma_disasm_fixed()
    ensures
        pattern_of(ret()) == A64Disasm::Ret,
        pattern_of(dmb_ish()) == A64Disasm::DmbIsh,
{
}

/// ADD Xd, Xn, Xm reads back with its registers.
pub proof fn lemma_disasm_add_x_reg(rd: u8, rn: u8, rm: u8)
    requires
        rd < 32,
        rn < 32,
        rm < 32,
    ensures
        pattern_of(add_x_reg(rd, rn, rm)) == (A64Disasm::AddReg { rd, rn, rm }),
{
    let (d, n, m) = (rd as u32, rn as u32, rm as u32);
    let w = add_x_reg(rd, rn, rm);
    assert({
        &&& w != 0xD65F03C0 && w != 0xD5033BBF
        &&& w & 0xFFE0FFE0 != 0xAA0003E0
        &&& w & 0xFF800000 != 0xD2800000 && w & 0xFF800000 != 0xF2800000
        &&& w & 0xFF800000 != 0x52800000
        &&& w & 0xFFE00000 == 0x8B000000
        &&& w & 0x1F == d && (w >> 5u32) & 0x1F == n && (w >> 16u32) & 0x1F == m
    }) by (bit_vector)
        requires
            w == 0x8B000000 | (m << 16u32) | (n << 5u32) | d,
            d < 32,
            n < 32,
            m < 32,
    ;
}

/// MOVZ Xd, #imm16, LSL #(hw*16) reads back as the value it loads.
pub proof fn lemma_disasm_movz_x(rd: u8, imm16: u16, hw: u8)
    requires
        rd < 32,
        hw < 4,
    ensures
        pattern_of(movz_x(rd, imm16, hw)) == (A64Disasm::Movz {
            rd,
            val: (imm16 as u64) << (16 * hw as u32),
        }),
{
    let (d, i, h) = (rd as u32, imm16 as u32, hw as u32);
    let w = movz_x(rd, imm16, hw);
    assert({
        &&& w != 0xD65F03C0 && w != 0xD5033BBF
        &&& w & 0xFFE0FFE0 != 0xAA0003E0
        &&& w & 0xFF800000 == 0xD2800000
        &&& w & 0x1F == d
        &&& (w >> 5u32) & 0xFFFF == i
        &&& (w >> 21u32) & 3 == h
    }) by (bit_vector)
        requires
            w == 0xD2800000 | ((h & 3) << 21u32) | (i << 5u32) | d,
            d < 32,
            i < 0x10000,
            h < 4,
    ;
}

/// A conditional branch reads back with its condition and its
/// displacement in bytes.
pub proof fn lemma_disasm_b_cond(cond: u8, imm19: i32)
    requires
        cond < 16,
        -0x40000 <= imm19 < 0x40000,
    ensures
        pattern_of(b_cond(cond, imm19)) == (A64Disasm::BCond {
            cond: cond as u32,
            byte_offset: (imm19 * 4) as i32,
        }),
{
    let c = cond as u32;
    let w = b_cond(cond, imm19);
    assert({
        &&& w != 0xD65F03C0 && w != 0xD5033BBF
        &&& w & 0xFFE0FFE0 != 0xAA0003E0
        &&& w & 0xFF800000 != 0xD2800000 && w & 0xFF800000 != 0xF2800000
        &&& w & 0xFF800000 != 0x52800000
        &&& w & 0xFFE00000 != 0x8B000000 && w & 0xFFE00000 != 0xCB000000
        &&& w & 0xFFC00000 != 0x91000000 && w & 0xFFC00000 != 0xD1000000
        &&& w & 0xFFE08000 != 0x9B007C00 && w & 0xFFE0FC00 != 0x9AC00800
        &&& w & 0xFFE08000 != 0x9B008000 && w & 0xFFE00000 != 0xAA000000
        &&& w & 0xFFE00000 != 0x8A000000 && w & 0xFFE00000 != 0xCA000000
        &&& w & 0xFFE0FC00 != 0x9AC02000 && w & 0xFFE0FC00 != 0x9AC02400
        &&& w & 0xFFE0FC00 != 0x9AC02800 && w & 0xFFE00000 != 0xEB000000
        &&& w & 0xFF000010 == 0x54000000
        &&& w & 0xF == c
        &&& ((((w >> 5u32) & 0x7FFFF) as i32) << 13i32) >> 13i32 == imm19
    }) by (bit_vector)
        requires
            w == 0x54000000 | (((imm19 as u32) & 0x7FFFF) << 5u32) | c,
            c < 16,
            -0x40000 <= imm19 < 0x40000,
    ;
}

/// An unconditional branch reads back with its displacement in bytes.
pub proof fn lemma_disasm_b_imm(imm26: i32)
    requires
        -0x2000000 <= imm26 < 0x2000000,
    ensures
        pattern_of(b_imm(imm26)) == (A64Disasm::B { byte_offset: (imm26 * 4) as i32 }),
{
    let w = b_imm(imm26);
    assert({
        &&& w != 0xD65F03C0 && w != 0xD5033BBF
        &&& w & 0xFFE0FFE0 != 0xAA0003E0
        &&& w & 0xFF800000 != 0xD2800000 && w & 0xFF800000 != 0xF2800000
        &&& w & 0xFF800000 != 0x52800000
        &&& w & 0xFFE00000 != 0x8B000000 && w & 0xFFE00000 != 0xCB000000
        &&& w & 0xFFC00000 != 0x91000000 && w & 0xFFC00000 != 0xD1000000
        &&& w & 0xFFE08000 != 0x9B007C00 && w & 0xFFE0FC00 != 0x9AC00800
        &&& w & 0xFFE08000 != 0x9B008000 && w & 0xFFE00000 != 0xAA000000
        &&& w & 0xFFE00000 != 0x8A000000 && w & 0xFFE00000 != 0xCA000000
        &&& w & 0xFFE0FC00 != 0x9AC02000 && w & 0xFFE0FC00 != 0x9AC02400
        &&& w & 0xFFE0FC00 != 0x9AC02800 && w & 0xFFE00000 != 0xEB000000
        &&& w & 0xFF000010 != 0x54000000
        &&& w & 0xFC000000 == 0x14000000
        &&& (((w & 0x03FFFFFF) as i32) << 6i32) >> 6i32 == imm26
    }) by (bit_vector)
        requires
            w == 0x14000000 | ((imm26 as u32) & 0x03FFFFFF),
            -0x2000000 <= imm26 < 0x2000000,
    ;
}

} // verus!
