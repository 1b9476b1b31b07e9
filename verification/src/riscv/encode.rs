//! RISC-V RV64 instruction encoding primitives.
//!
//! Each function returns one 32-bit RISC-V instruction word. Register
//! arguments are raw register numbers (0-31, where 0 = x0/zero).
//!
//! Encoding formats (RISC-V Unprivileged ISA):
//! - R-type: funct7[6:0] | rs2[4:0] | rs1[4:0] | funct3[2:0] | rd[4:0] | opcode[6:0]
//! - I-type: imm[11:0] | rs1[4:0] | funct3[2:0] | rd[4:0] | opcode[6:0]
//! - S-type: imm[11:5] | rs2[4:0] | rs1[4:0] | funct3[2:0] | imm[4:0] | opcode[6:0]
//! - B-type: imm[12|10:5] | rs2[4:0] | rs1[4:0] | funct3[2:0] | imm[4:1|11] | opcode[6:0]
//! - U-type: imm[31:12] | rd[4:0] | opcode[6:0]
//! - J-type: imm[20|10:1|11|19:12] | rd[4:0] | opcode[6:0]
//!
//! The formats are stated by the `*_enc` spec functions; the branch and
//! jump immediates decode back to the offsets they encode
//! (`lemma_b_type_roundtrip`, `lemma_j_type_roundtrip`).
use vstd::prelude::*;

verus! {

/// Sign-extend the low 12 bits of `val`.
#[verifier::allow_in_spec]
pub fn sign_extend_12(val: i32) -> i32
    returns
        ((val & 0xFFF) << 20i32) >> 20i32,
{
    ((val & 0xFFF) << 20i32) >> 20i32
}

// ---------------------------------------------------------------------------
// Formats
// ---------------------------------------------------------------------------

pub open spec fn r_enc(funct7: u32, rs2: u8, rs1: u8, funct3: u32, rd: u8, opcode: u32) -> u32 {
    (funct7 << 25u32) | ((rs2 as u32) << 20u32) | ((rs1 as u32) << 15u32) | (funct3 << 12u32) | ((
    rd as u32) << 7u32) | opcode
}

pub open spec fn i_enc(imm: i32, rs1: u8, funct3: u32, rd: u8, opcode: u32) -> u32 {
    (((imm & 0xFFF) as u32) << 20u32) | ((rs1 as u32) << 15u32) | (funct3 << 12u32) | ((rd as u32)
        << 7u32) | opcode
}

pub open spec fn s_enc(imm: i32, rs2: u8, rs1: u8, funct3: u32, opcode: u32) -> u32 {
    let imm = imm & 0xFFF;
    let imm_hi = ((imm >> 5i32) & 0x7F) as u32;
    let imm_lo = (imm & 0x1F) as u32;
    (imm_hi << 25u32) | ((rs2 as u32) << 20u32) | ((rs1 as u32) << 15u32) | (funct3 << 12u32) | (
    imm_lo << 7u32) | opcode
}

pub open spec fn b_imm_enc(imm: i32) -> u32 {
    let imm = imm & 0x1FFE;
    let bit12 = ((imm >> 12i32) & 1) as u32;
    let bit11 = ((imm >> 11i32) & 1) as u32;
    let bits10_5 = ((imm >> 5i32) & 0x3F) as u32;
    let bits4_1 = ((imm >> 1i32) & 0xF) as u32;
    (bit12 << 31u32) | (bits10_5 << 25u32) | (bits4_1 << 8u32) | (bit11 << 7u32)
}

pub open spec fn b_enc(imm: i32, rs2: u8, rs1: u8, funct3: u32) -> u32 {
    b_imm_enc(imm) | ((rs2 as u32) << 20u32) | ((rs1 as u32) << 15u32) | (funct3 << 12u32) | 0x63
}

pub open spec fn j_imm_enc(imm: i32) -> u32 {
    let bit20 = ((imm >> 20i32) & 1) as u32;
    let bits10_1 = ((imm >> 1i32) & 0x3FF) as u32;
    let bit11 = ((imm >> 11i32) & 1) as u32;
    let bits19_12 = ((imm >> 12i32) & 0xFF) as u32;
    (bit20 << 31u32) | (bits10_1 << 21u32) | (bit11 << 20u32) | (bits19_12 << 12u32)
}

pub open spec fn amo_enc(
    funct5: u32,
    aq: bool,
    rl: bool,
    rs2: u8,
    rs1: u8,
    funct3: u32,
    rd: u8,
) -> u32 {
    let aq_bit: u32 = if aq {
        1
    } else {
        0
    };
    let rl_bit: u32 = if rl {
        1
    } else {
        0
    };
    (funct5 << 27u32) | (aq_bit << 26u32) | (rl_bit << 25u32) | ((rs2 as u32) << 20u32) | ((
    rs1 as u32) << 15u32) | (funct3 << 12u32) | ((rd as u32) << 7u32) | 0x2F
}

// ---------------------------------------------------------------------------
// R-type: arithmetic register-register
// ---------------------------------------------------------------------------

fn r_type(funct7: u32, rs2: u8, rs1: u8, funct3: u32, rd: u8, opcode: u32) -> (r: u32)
    ensures
        r == r_enc(funct7, rs2, rs1, funct3, rd, opcode),
{
    (funct7 << 25) | ((rs2 as u32) << 20) | ((rs1 as u32) << 15) | (funct3 << 12) | ((rd as u32)
        << 7) | opcode
}

/// ADD rd, rs1, rs2
#[verifier::allow_in_spec]
pub fn add(rd: u8, rs1: u8, rs2: u8) -> u32
    returns
        r_enc(0, rs2, rs1, 0, rd, 0x33),
{
    r_type(0, rs2, rs1, 0, rd, 0x33)
}

/// SUB rd, rs1, rs2
#[verifier::allow_in_spec]
pub fn sub(rd: u8, rs1: u8, rs2: u8) -> u32
    returns
        r_enc(0x20, rs2, rs1, 0, rd, 0x33),
{
    r_type(0x20, rs2, rs1, 0, rd, 0x33)
}

/// SLL rd, rs1, rs2
#[verifier::allow_in_spec]
pub fn sll(rd: u8, rs1: u8, rs2: u8) -> u32
    returns
        r_enc(0, rs2, rs1, 1, rd, 0x33),
{
    r_type(0, rs2, rs1, 1, rd, 0x33)
}

/// SRL rd, rs1, rs2
#[verifier::allow_in_spec]
pub fn srl(rd: u8, rs1: u8, rs2: u8) -> u32
    returns
        r_enc(0, rs2, rs1, 5, rd, 0x33),
{
    r_type(0, rs2, rs1, 5, rd, 0x33)
}

/// SRA rd, rs1, rs2
#[verifier::allow_in_spec]
pub fn sra(rd: u8, rs1: u8, rs2: u8) -> u32
    returns
        r_enc(0x20, rs2, rs1, 5, rd, 0x33),
{
    r_type(0x20, rs2, rs1, 5, rd, 0x33)
}

/// OR rd, rs1, rs2
#[verifier::allow_in_spec]
pub fn or(rd: u8, rs1: u8, rs2: u8) -> u32
    returns
        r_enc(0, rs2, rs1, 6, rd, 0x33),
{
    r_type(0, rs2, rs1, 6, rd, 0x33)
}

/// AND rd, rs1, rs2
#[verifier::allow_in_spec]
pub fn and(rd: u8, rs1: u8, rs2: u8) -> u32
    returns
        r_enc(0, rs2, rs1, 7, rd, 0x33),
{
    r_type(0, rs2, rs1, 7, rd, 0x33)
}

/// XOR rd, rs1, rs2
#[verifier::allow_in_spec]
pub fn xor(rd: u8, rs1: u8, rs2: u8) -> u32
    returns
        r_enc(0, rs2, rs1, 4, rd, 0x33),
{
    r_type(0, rs2, rs1, 4, rd, 0x33)
}

// M-extension (multiply/divide)

/// MUL rd, rs1, rs2
#[verifier::allow_in_spec]
pub fn mul(rd: u8, rs1: u8, rs2: u8) -> u32
    returns
        r_enc(1, rs2, rs1, 0, rd, 0x33),
{
    r_type(1, rs2, rs1, 0, rd, 0x33)
}

/// DIVU rd, rs1, rs2
#[verifier::allow_in_spec]
pub fn divu(rd: u8, rs1: u8, rs2: u8) -> u32
    returns
        r_enc(1, rs2, rs1, 5, rd, 0x33),
{
    r_type(1, rs2, rs1, 5, rd, 0x33)
}

/// REMU rd, rs1, rs2
#[verifier::allow_in_spec]
pub fn remu(rd: u8, rs1: u8, rs2: u8) -> u32
    returns
        r_enc(1, rs2, rs1, 7, rd, 0x33),
{
    r_type(1, rs2, rs1, 7, rd, 0x33)
}

// RV64 word-width (32-bit) operations, opcode 0x3B

/// ADDW rd, rs1, rs2
#[verifier::allow_in_spec]
pub fn addw(rd: u8, rs1: u8, rs2: u8) -> u32
    returns
        r_enc(0, rs2, rs1, 0, rd, 0x3B),
{
    r_type(0, rs2, rs1, 0, rd, 0x3B)
}

/// SUBW rd, rs1, rs2
#[verifier::allow_in_spec]
pub fn subw(rd: u8, rs1: u8, rs2: u8) -> u32
    returns
        r_enc(0x20, rs2, rs1, 0, rd, 0x3B),
{
    r_type(0x20, rs2, rs1, 0, rd, 0x3B)
}

/// SLLW rd, rs1, rs2
#[verifier::allow_in_spec]
pub fn sllw(rd: u8, rs1: u8, rs2: u8) -> u32
    returns
        r_enc(0, rs2, rs1, 1, rd, 0x3B),
{
    r_type(0, rs2, rs1, 1, rd, 0x3B)
}

/// SRLW rd, rs1, rs2
#[verifier::allow_in_spec]
pub fn srlw(rd: u8, rs1: u8, rs2: u8) -> u32
    returns
        r_enc(0, rs2, rs1, 5, rd, 0x3B),
{
    r_type(0, rs2, rs1, 5, rd, 0x3B)
}

/// SRAW rd, rs1, rs2
#[verifier::allow_in_spec]
pub fn sraw(rd: u8, rs1: u8, rs2: u8) -> u32
    returns
        r_enc(0x20, rs2, rs1, 5, rd, 0x3B),
{
    r_type(0x20, rs2, rs1, 5, rd, 0x3B)
}

/// MULW rd, rs1, rs2
#[verifier::allow_in_spec]
pub fn mulw(rd: u8, rs1: u8, rs2: u8) -> u32
    returns
        r_enc(1, rs2, rs1, 0, rd, 0x3B),
{
    r_type(1, rs2, rs1, 0, rd, 0x3B)
}

/// DIVUW rd, rs1, rs2
#[verifier::allow_in_spec]
pub fn divuw(rd: u8, rs1: u8, rs2: u8) -> u32
    returns
        r_enc(1, rs2, rs1, 5, rd, 0x3B),
{
    r_type(1, rs2, rs1, 5, rd, 0x3B)
}

/// REMUW rd, rs1, rs2
#[verifier::allow_in_spec]
pub fn remuw(rd: u8, rs1: u8, rs2: u8) -> u32
    returns
        r_enc(1, rs2, rs1, 7, rd, 0x3B),
{
    r_type(1, rs2, rs1, 7, rd, 0x3B)
}

// ---------------------------------------------------------------------------
// I-type: arithmetic immediate, loads, JALR
// ---------------------------------------------------------------------------

fn i_type(imm: i32, rs1: u8, funct3: u32, rd: u8, opcode: u32) -> (r: u32)
    ensures
        r == i_enc(imm, rs1, funct3, rd, opcode),
{
    let v = imm & 0xFFF;
    assert(0 <= v <= 0xFFF) by (bit_vector)
        requires
            v == imm & 0xFFF,
    ;
    ((v as u32) << 20) | ((rs1 as u32) << 15) | (funct3 << 12) | ((rd as u32) << 7) | opcode
}

/// ADDI rd, rs1, imm
#[verifier::allow_in_spec]
pub fn addi(rd: u8, rs1: u8, imm: i32) -> u32
    returns
        i_enc(imm, rs1, 0, rd, 0x13),
{
    i_type(imm, rs1, 0, rd, 0x13)
}

/// ANDI rd, rs1, imm
#[verifier::allow_in_spec]
pub fn andi(rd: u8, rs1: u8, imm: i32) -> u32
    returns
        i_enc(imm, rs1, 7, rd, 0x13),
{
    i_type(imm, rs1, 7, rd, 0x13)
}

/// ORI rd, rs1, imm
#[verifier::allow_in_spec]
pub fn ori(rd: u8, rs1: u8, imm: i32) -> u32
    returns
        i_enc(imm, rs1, 6, rd, 0x13),
{
    i_type(imm, rs1, 6, rd, 0x13)
}

/// XORI rd, rs1, imm
#[verifier::allow_in_spec]
pub fn xori(rd: u8, rs1: u8, imm: i32) -> u32
    returns
        i_enc(imm, rs1, 4, rd, 0x13),
{
    i_type(imm, rs1, 4, rd, 0x13)
}

/// SLLI rd, rs1, shamt (RV64: 6-bit shift amount)
#[verifier::allow_in_spec]
pub fn slli(rd: u8, rs1: u8, shamt: u32) -> u32
    returns
        ((shamt & 0x3F) << 20u32) | ((rs1 as u32) << 15u32) | (1u32 << 12u32) | ((rd as u32) << 7u32)
            | 0x13,
{
    ((shamt & 0x3F) << 20) | ((rs1 as u32) << 15) | (1 << 12) | ((rd as u32) << 7) | 0x13
}

/// SRLI rd, rs1, shamt
#[verifier::allow_in_spec]
pub fn srli(rd: u8, rs1: u8, shamt: u32) -> u32
    returns
        ((shamt & 0x3F) << 20u32) | ((rs1 as u32) << 15u32) | (5u32 << 12u32) | ((rd as u32) << 7u32)
            | 0x13,
{
    ((shamt & 0x3F) << 20) | ((rs1 as u32) << 15) | (5 << 12) | ((rd as u32) << 7) | 0x13
}

/// SRAI rd, rs1, shamt
#[verifier::allow_in_spec]
pub fn srai(rd: u8, rs1: u8, shamt: u32) -> u32
    returns
        (0x400u32 << 20u32) | ((shamt & 0x3F) << 20u32) | ((rs1 as u32) << 15u32) | (5u32 << 12u32)
            | ((rd as u32) << 7u32) | 0x13,
{
    (0x400 << 20) | ((shamt & 0x3F) << 20) | ((rs1 as u32) << 15) | (5 << 12) | ((rd as u32) << 7)
        | 0x13
}

/// JALR rd, rs1, imm
#[verifier::allow_in_spec]
pub fn jalr(rd: u8, rs1: u8, imm: i32) -> u32
    returns
        i_enc(imm, rs1, 0, rd, 0x67),
{
    i_type(imm, rs1, 0, rd, 0x67)
}

// Loads

/// LB rd, imm(rs1): load byte, sign-extend
#[verifier::allow_in_spec]
pub fn lb(rd: u8, rs1: u8, imm: i32) -> u32
    returns
        i_enc(imm, rs1, 0, rd, 0x03),
{
    i_type(imm, rs1, 0, rd, 0x03)
}

/// LBU rd, imm(rs1): load byte, zero-extend
#[verifier::allow_in_spec]
pub fn lbu(rd: u8, rs1: u8, imm: i32) -> u32
    returns
        i_enc(imm, rs1, 4, rd, 0x03),
{
    i_type(imm, rs1, 4, rd, 0x03)
}

/// LH rd, imm(rs1): load halfword, sign-extend
#[verifier::allow_in_spec]
pub fn lh(rd: u8, rs1: u8, imm: i32) -> u32
    returns
        i_enc(imm, rs1, 1, rd, 0x03),
{
    i_type(imm, rs1, 1, rd, 0x03)
}

/// LHU rd, imm(rs1): load halfword, zero-extend
#[verifier::allow_in_spec]
pub fn lhu(rd: u8, rs1: u8, imm: i32) -> u32
    returns
        i_enc(imm, rs1, 5, rd, 0x03),
{
    i_type(imm, rs1, 5, rd, 0x03)
}

/// LW rd, imm(rs1): load word, sign-extend
#[verifier::allow_in_spec]
pub fn lw(rd: u8, rs1: u8, imm: i32) -> u32
    returns
        i_enc(imm, rs1, 2, rd, 0x03),
{
    i_type(imm, rs1, 2, rd, 0x03)
}

/// LWU rd, imm(rs1): load word, zero-extend (RV64)
#[verifier::allow_in_spec]
pub fn lwu(rd: u8, rs1: u8, imm: i32) -> u32
    returns
        i_enc(imm, rs1, 6, rd, 0x03),
{
    i_type(imm, rs1, 6, rd, 0x03)
}

/// LD rd, imm(rs1): load doubleword (RV64)
#[verifier::allow_in_spec]
pub fn ld(rd: u8, rs1: u8, imm: i32) -> u32
    returns
        i_enc(imm, rs1, 3, rd, 0x03),
{
    i_type(imm, rs1, 3, rd, 0x03)
}

// ---------------------------------------------------------------------------
// S-type: stores
// ---------------------------------------------------------------------------

fn s_type(imm: i32, rs2: u8, rs1: u8, funct3: u32, opcode: u32) -> (r: u32)
    ensures
        r == s_enc(imm, rs2, rs1, funct3, opcode),
{
    let imm = imm & 0xFFF;
    let hi = (imm >> 5) & 0x7F;
    let lo = imm & 0x1F;
    assert(0 <= hi <= 0x7F && 0 <= lo <= 0x1F) by (bit_vector)
        requires
            hi == (imm >> 5i32) & 0x7F,
            lo == imm & 0x1F,
    ;
    let imm_hi = hi as u32;
    let imm_lo = lo as u32;
    (imm_hi << 25) | ((rs2 as u32) << 20) | ((rs1 as u32) << 15) | (funct3 << 12) | (imm_lo << 7)
        | opcode
}

/// SB rs2, imm(rs1): store byte
#[verifier::allow_in_spec]
pub fn sb(rs2: u8, rs1: u8, imm: i32) -> u32
    returns
        s_enc(imm, rs2, rs1, 0, 0x23),
{
    s_type(imm, rs2, rs1, 0, 0x23)
}

/// SH rs2, imm(rs1): store halfword
#[verifier::allow_in_spec]
pub fn sh(rs2: u8, rs1: u8, imm: i32) -> u32
    returns
        s_enc(imm, rs2, rs1, 1, 0x23),
{
    s_type(imm, rs2, rs1, 1, 0x23)
}

/// SW rs2, imm(rs1): store word
#[verifier::allow_in_spec]
pub fn sw(rs2: u8, rs1: u8, imm: i32) -> u32
    returns
        s_enc(imm, rs2, rs1, 2, 0x23),
{
    s_type(imm, rs2, rs1, 2, 0x23)
}

/// SD rs2, imm(rs1): store doubleword (RV64)
#[verifier::allow_in_spec]
pub fn sd(rs2: u8, rs1: u8, imm: i32) -> u32
    returns
        s_enc(imm, rs2, rs1, 3, 0x23),
{
    s_type(imm, rs2, rs1, 3, 0x23)
}

// ---------------------------------------------------------------------------
// B-type: branches
// ---------------------------------------------------------------------------

/// The B-type immediate field of a byte offset (bits [12:1]; bit 0 is
/// dropped).
#[verifier::allow_in_spec]
pub fn encode_b_type_imm(imm: i32) -> u32
    returns
        b_imm_enc(imm),
{
    let imm = imm & 0x1FFE;
    let (b12, b11, b10_5, b4_1) = ((imm >> 12) & 1, (imm >> 11) & 1, (imm >> 5) & 0x3F, (imm >> 1)
        & 0xF);
    assert(0 <= b12 <= 1 && 0 <= b11 <= 1 && 0 <= b10_5 <= 0x3F && 0 <= b4_1 <= 0xF) by (bit_vector)
        requires
            b12 == (imm >> 12i32) & 1,
            b11 == (imm >> 11i32) & 1,
            b10_5 == (imm >> 5i32) & 0x3F,
            b4_1 == (imm >> 1i32) & 0xF,
    ;
    let bit12 = b12 as u32;
    let bit11 = b11 as u32;
    let bits10_5 = b10_5 as u32;
    let bits4_1 = b4_1 as u32;
    (bit12 << 31) | (bits10_5 << 25) | (bits4_1 << 8) | (bit11 << 7)
}

/// BEQ rs1, rs2, offset
#[verifier::allow_in_spec]
pub fn beq(rs1: u8, rs2: u8, imm: i32) -> u32
    returns
        b_enc(imm, rs2, rs1, 0),
{
    encode_b_type_imm(imm) | ((rs2 as u32) << 20) | ((rs1 as u32) << 15) | (0 << 12) | 0x63
}

/// BNE rs1, rs2, offset
#[verifier::allow_in_spec]
pub fn bne(rs1: u8, rs2: u8, imm: i32) -> u32
    returns
        b_enc(imm, rs2, rs1, 1),
{
    encode_b_type_imm(imm) | ((rs2 as u32) << 20) | ((rs1 as u32) << 15) | (1 << 12) | 0x63
}

/// BLT rs1, rs2, offset (signed)
#[verifier::allow_in_spec]
pub fn blt(rs1: u8, rs2: u8, imm: i32) -> u32
    returns
        b_enc(imm, rs2, rs1, 4),
{
    encode_b_type_imm(imm) | ((rs2 as u32) << 20) | ((rs1 as u32) << 15) | (4 << 12) | 0x63
}

/// BGE rs1, rs2, offset (signed)
#[verifier::allow_in_spec]
pub fn bge(rs1: u8, rs2: u8, imm: i32) -> u32
    returns
        b_enc(imm, rs2, rs1, 5),
{
    encode_b_type_imm(imm) | ((rs2 as u32) << 20) | ((rs1 as u32) << 15) | (5 << 12) | 0x63
}

/// BLTU rs1, rs2, offset (unsigned)
#[verifier::allow_in_spec]
pub fn bltu(rs1: u8, rs2: u8, imm: i32) -> u32
    returns
        b_enc(imm, rs2, rs1, 6),
{
    encode_b_type_imm(imm) | ((rs2 as u32) << 20) | ((rs1 as u32) << 15) | (6 << 12) | 0x63
}

/// BGEU rs1, rs2, offset (unsigned)
#[verifier::allow_in_spec]
pub fn bgeu(rs1: u8, rs2: u8, imm: i32) -> u32
    returns
        b_enc(imm, rs2, rs1, 7),
{
    encode_b_type_imm(imm) | ((rs2 as u32) << 20) | ((rs1 as u32) << 15) | (7 << 12) | 0x63
}

// ---------------------------------------------------------------------------
// U-type and J-type
// ---------------------------------------------------------------------------

/// LUI rd, imm: bits [31:12] of `imm` into the upper field.
#[verifier::allow_in_spec]
pub fn lui(rd: u8, imm: i32) -> u32
    returns
        ((imm as u32) & 0xFFFFF000) | ((rd as u32) << 7u32) | 0x37,
{
    ((#[verifier::truncate] (imm as u32)) & 0xFFFFF000) | ((rd as u32) << 7) | 0x37
}

/// The J-type immediate field of a byte offset (bits [20:1]).
#[verifier::allow_in_spec]
pub fn encode_j_type_imm(imm: i32) -> u32
    returns
        j_imm_enc(imm),
{
    let (b20, b10_1, b11, b19_12) = ((imm >> 20) & 1, (imm >> 1) & 0x3FF, (imm >> 11) & 1, (imm
        >> 12) & 0xFF);
    assert(0 <= b20 <= 1 && 0 <= b10_1 <= 0x3FF && 0 <= b11 <= 1 && 0 <= b19_12 <= 0xFF)
        by (bit_vector)
        requires
            b20 == (imm >> 20i32) & 1,
            b10_1 == (imm >> 1i32) & 0x3FF,
            b11 == (imm >> 11i32) & 1,
            b19_12 == (imm >> 12i32) & 0xFF,
    ;
    let bit20 = b20 as u32;
    let bits10_1 = b10_1 as u32;
    let bit11 = b11 as u32;
    let bits19_12 = b19_12 as u32;
    (bit20 << 31) | (bits10_1 << 21) | (bit11 << 20) | (bits19_12 << 12)
}

/// JAL rd, offset
#[verifier::allow_in_spec]
pub fn jal(rd: u8, imm: i32) -> u32
    returns
        j_imm_enc(imm) | ((rd as u32) << 7u32) | 0x6F,
{
    encode_j_type_imm(imm) | ((rd as u32) << 7) | 0x6F
}

// ---------------------------------------------------------------------------
// Atomics (A extension)
// ---------------------------------------------------------------------------

fn amo(funct5: u32, aq: bool, rl: bool, rs2: u8, rs1: u8, funct3: u32, rd: u8) -> (r: u32)
    ensures
        r == amo_enc(funct5, aq, rl, rs2, rs1, funct3, rd),
{
    let aq_bit = if aq {
        1u32
    } else {
        0
    };
    let rl_bit = if rl {
        1u32
    } else {
        0
    };
    (funct5 << 27) | (aq_bit << 26) | (rl_bit << 25) | ((rs2 as u32) << 20) | ((rs1 as u32) << 15)
        | (funct3 << 12) | ((rd as u32) << 7) | 0x2F
}

/// AMOADD.D rd, rs2, (rs1): atomic add doubleword
#[verifier::allow_in_spec]
pub fn amoadd_d(rd: u8, rs2: u8, rs1: u8) -> u32
    returns
        amo_enc(0x00, true, true, rs2, rs1, 3, rd),
{
    amo(0x00, true, true, rs2, rs1, 3, rd)
}

/// AMOOR.D rd, rs2, (rs1)
#[verifier::allow_in_spec]
pub fn amoor_d(rd: u8, rs2: u8, rs1: u8) -> u32
    returns
        amo_enc(0x08, true, true, rs2, rs1, 3, rd),
{
    amo(0x08, true, true, rs2, rs1, 3, rd)
}

/// AMOAND.D rd, rs2, (rs1)
#[verifier::allow_in_spec]
pub fn amoand_d(rd: u8, rs2: u8, rs1: u8) -> u32
    returns
        amo_enc(0x0C, true, true, rs2, rs1, 3, rd),
{
    amo(0x0C, true, true, rs2, rs1, 3, rd)
}

/// AMOXOR.D rd, rs2, (rs1)
#[verifier::allow_in_spec]
pub fn amoxor_d(rd: u8, rs2: u8, rs1: u8) -> u32
    returns
        amo_enc(0x04, true, true, rs2, rs1, 3, rd),
{
    amo(0x04, true, true, rs2, rs1, 3, rd)
}

/// AMOSWAP.D rd, rs2, (rs1)
#[verifier::allow_in_spec]
pub fn amoswap_d(rd: u8, rs2: u8, rs1: u8) -> u32
    returns
        amo_enc(0x01, true, true, rs2, rs1, 3, rd),
{
    amo(0x01, true, true, rs2, rs1, 3, rd)
}

/// LR.D rd, (rs1): load-reserved doubleword
#[verifier::allow_in_spec]
pub fn lr_d(rd: u8, rs1: u8) -> u32
    returns
        amo_enc(0x02, true, true, 0, rs1, 3, rd),
{
    amo(0x02, true, true, 0, rs1, 3, rd)
}

/// SC.D rd, rs2, (rs1): store-conditional doubleword
#[verifier::allow_in_spec]
pub fn sc_d(rd: u8, rs2: u8, rs1: u8) -> u32
    returns
        amo_enc(0x03, true, true, rs2, rs1, 3, rd),
{
    amo(0x03, true, true, rs2, rs1, 3, rd)
}

// ---------------------------------------------------------------------------
// Fences
// ---------------------------------------------------------------------------

/// FENCE rw, rw: full memory fence (pred = succ = rw)
#[verifier::allow_in_spec]
pub fn fence_rw_rw() -> u32
    returns
        0x0330000Fu32,
{
    0x0330000F
}

// ---------------------------------------------------------------------------
// Reading the fields back
// ---------------------------------------------------------------------------

/// For in-range fields, each field of an R-type word reads back.
pub proof fn lemma_r_enc_fields(funct7: u32, rs2: u8, rs1: u8, funct3: u32, rd: u8, opcode: u32)
    requires
        funct7 < 0x80,
        rs2 < 32,
        rs1 < 32,
        funct3 < 8,
        rd < 32,
        opcode < 0x80,
    ensures
        r_enc(funct7, rs2, rs1, funct3, rd, opcode) & 0x7F == opcode,
        (r_enc(funct7, rs2, rs1, funct3, rd, opcode) >> 7u32) & 0x1F == rd as u32,
        (r_enc(funct7, rs2, rs1, funct3, rd, opcode) >> 12u32) & 0x7 == funct3,
        (r_enc(funct7, rs2, rs1, funct3, rd, opcode) >> 15u32) & 0x1F == rs1 as u32,
        (r_enc(funct7, rs2, rs1, funct3, rd, opcode) >> 20u32) & 0x1F == rs2 as u32,
        (r_enc(funct7, rs2, rs1, funct3, rd, opcode) >> 25u32) & 0x7F == funct7,
{
    let (a, b, d) = (rs2 as u32, rs1 as u32, rd as u32);
    assert({
        let w = (funct7 << 25u32) | (a << 20u32) | (b << 15u32) | (funct3 << 12u32) | (d << 7u32)
            | opcode;
        &&& w & 0x7F == opcode
        &&& (w >> 7u32) & 0x1F == d
        &&& (w >> 12u32) & 0x7 == funct3
        &&& (w >> 15u32) & 0x1F == b
        &&& (w >> 20u32) & 0x1F == a
        &&& (w >> 25u32) & 0x7F == funct7
    }) by (bit_vector)
        requires
            funct7 < 0x80,
            a < 32,
            b < 32,
            funct3 < 8,
            d < 32,
            opcode < 0x80,
    ;
}

/// For in-range fields, the opcode, funct3, rs1 and rs2 fields of a B-type
/// word read back, whatever the offset.
pub proof fn lemma_b_enc_fields(imm: i32, rs2: u8, rs1: u8, funct3: u32)
    requires
        rs2 < 32,
        rs1 < 32,
        funct3 < 8,
    ensures
        b_enc(imm, rs2, rs1, funct3) & 0x7F == 0x63,
        (b_enc(imm, rs2, rs1, funct3) >> 12u32) & 0x7 == funct3,
        (b_enc(imm, rs2, rs1, funct3) >> 15u32) & 0x1F == rs1 as u32,
        (b_enc(imm, rs2, rs1, funct3) >> 20u32) & 0x1F == rs2 as u32,
{
    let (a, b) = (rs2 as u32, rs1 as u32);
    assert({
        let v = imm & 0x1FFE;
        let bit12 = ((v >> 12i32) & 1) as u32;
        let bit11 = ((v >> 11i32) & 1) as u32;
        let bits10_5 = ((v >> 5i32) & 0x3F) as u32;
        let bits4_1 = ((v >> 1i32) & 0xF) as u32;
        let w = ((bit12 << 31u32) | (bits10_5 << 25u32) | (bits4_1 << 8u32) | (bit11 << 7u32)) | (a
            << 20u32) | (b << 15u32) | (funct3 << 12u32) | 0x63;
        &&& w & 0x7F == 0x63
        &&& (w >> 12u32) & 0x7 == funct3
        &&& (w >> 15u32) & 0x1F == b
        &&& (w >> 20u32) & 0x1F == a
    }) by (bit_vector)
        requires
            a < 32,
            b < 32,
            funct3 < 8,
    ;
}

/// The signed 12-bit immediate of an I-type word.
pub open spec fn i_imm_dec(w: u32) -> i32 {
    (w as i32) >> 20i32
}

/// An I-type word keeps a 12-bit signed immediate exactly.
pub proof fn lemma_i_type_roundtrip(imm: i32, rs1: u8, funct3: u32, rd: u8, opcode: u32)
    requires
        -2048 <= imm < 2048,
        rs1 < 32,
        funct3 < 8,
        rd < 32,
        opcode < 0x80,
    ensures
        i_imm_dec(i_enc(imm, rs1, funct3, rd, opcode)) == imm,
{
    let (b, d) = (rs1 as u32, rd as u32);
    assert({
        let v = imm & 0xFFF;
        let w = ((v as u32) << 20u32) | (b << 15u32) | (funct3 << 12u32) | (d << 7u32) | opcode;
        (w as i32) >> 20i32 == imm
    }) by (bit_vector)
        requires
            -2048 <= imm < 2048,
            b < 32,
            funct3 < 8,
            d < 32,
            opcode < 0x80,
    ;
}

/// The byte offset a B-type word branches by, reassembled from its
/// scattered immediate bits.
pub open spec fn b_imm_dec(w: u32) -> i32 {
    let raw: u32 = (((w >> 31u32) & 1) << 12u32) | (((w >> 7u32) & 1) << 11u32) | (((w >> 25u32)
        & 0x3F) << 5u32) | (((w >> 8u32) & 0xF) << 1u32);
    ((raw << 19u32) as i32) >> 19i32
}

/// Every even offset in [-4096, 4096) survives B-type encoding.
pub proof fn lemma_b_type_roundtrip(imm: i32)
    requires
        -4096 <= imm < 4096,
        imm % 2 == 0,
    ensures
        b_imm_dec(b_imm_enc(imm)) == imm,
{
    assert({
        let v = imm & 0x1FFE;
        let w = ((((v >> 12i32) & 1) as u32) << 31u32) | ((((v >> 5i32) & 0x3F) as u32) << 25u32)
            | ((((v >> 1i32) & 0xF) as u32) << 8u32) | ((((v >> 11i32) & 1) as u32) << 7u32);
        let raw: u32 = (((w >> 31u32) & 1) << 12u32) | (((w >> 7u32) & 1) << 11u32) | (((w
            >> 25u32) & 0x3F) << 5u32) | (((w >> 8u32) & 0xF) << 1u32);
        ((raw << 19u32) as i32) >> 19i32 == imm
    }) by (bit_vector)
        requires
            -4096 <= imm < 4096,
            imm % 2 == 0,
    ;
}

/// The byte offset a J-type word jumps by.
pub open spec fn j_imm_dec(w: u32) -> i32 {
    let raw: u32 = (((w >> 31u32) & 1) << 20u32) | (((w >> 12u32) & 0xFF) << 12u32) | (((w
        >> 20u32) & 1) << 11u32) | (((w >> 21u32) & 0x3FF) << 1u32);
    ((raw << 11u32) as i32) >> 11i32
}

/// Every even offset in [-2^20, 2^20) survives J-type encoding.
pub proof fn lemma_j_type_roundtrip(imm: i32)
    requires
        -0x100000 <= imm < 0x100000,
        imm % 2 == 0,
    ensures
        j_imm_dec(j_imm_enc(imm)) == imm,
{
    assert({
        let w = ((((imm >> 20i32) & 1) as u32) << 31u32) | ((((imm >> 1i32) & 0x3FF) as u32)
            << 21u32) | ((((imm >> 11i32) & 1) as u32) << 20u32) | ((((imm >> 12i32) & 0xFF) as u32)
            << 12u32);
        let raw: u32 = (((w >> 31u32) & 1) << 20u32) | (((w >> 12u32) & 0xFF) << 12u32) | (((w
            >> 20u32) & 1) << 11u32) | (((w >> 21u32) & 0x3FF) << 1u32);
        ((raw << 11u32) as i32) >> 11i32 == imm
    }) by (bit_vector)
        requires
            -0x100000 <= imm < 0x100000,
            imm % 2 == 0,
    ;
}

} // verus!
