//! AArch64 instruction encoding primitives.
//!
//! Each function returns one 32-bit AArch64 instruction word (ARMv8-A
//! Architecture Reference Manual encodings). Register arguments are raw
//! register numbers (0-31, where 31 is SP or ZR depending on the
//! instruction).
//!
//! The field layouts are stated by the `enc_*` spec functions; for register
//! numbers below 32 each operand can be read back from its field
//! (`lemma_enc_rrr_fields` and friends).
use vstd::prelude::*;

verus! {

// Condition codes (4-bit, used in B.cond)
pub const CC_EQ: u8 = 0x0;
pub const CC_NE: u8 = 0x1;
/// carry set / unsigned >=
pub const CC_HS: u8 = 0x2;
/// carry clear / unsigned <
pub const CC_LO: u8 = 0x3;
pub const CC_HI: u8 = 0x8;
pub const CC_LS: u8 = 0x9;
pub const CC_GE: u8 = 0xA;
pub const CC_LT: u8 = 0xB;
pub const CC_GT: u8 = 0xC;
pub const CC_LE: u8 = 0xD;
pub const CC_AL: u8 = 0xE;

// ---------------------------------------------------------------------------
// Field layouts
// ---------------------------------------------------------------------------

/// Three-register data processing: Rm at [20:16], Rn at [9:5], Rd at [4:0].
pub open spec fn enc_rrr(base: u32, rd: u8, rn: u8, rm: u8) -> u32 {
    base | ((rm as u32) << 16) | ((rn as u32) << 5) | (rd as u32)
}

/// Four-register form: Ra at [14:10] in addition.
pub open spec fn enc_rrrr(base: u32, rd: u8, rn: u8, rm: u8, ra: u8) -> u32 {
    base | ((rm as u32) << 16) | ((ra as u32) << 10) | ((rn as u32) << 5) | (rd as u32)
}

/// Two-register form: Rn at [9:5], Rd at [4:0].
pub open spec fn enc_rr(base: u32, rd: u8, rn: u8) -> u32 {
    base | ((rn as u32) << 5) | (rd as u32)
}

/// 12-bit unsigned immediate at [21:10].
pub open spec fn enc_imm12(base: u32, rd: u8, rn: u8, imm12: u16) -> u32 {
    base | (((imm12 as u32) & 0xFFF) << 10) | ((rn as u32) << 5) | (rd as u32)
}

/// Move-wide: shift selector at [22:21] (masked by `hw_mask`), imm16 at [20:5].
pub open spec fn enc_movw(base: u32, rd: u8, imm16: u16, hw: u8, hw_mask: u32) -> u32 {
    base | (((hw as u32) & hw_mask) << 21) | ((imm16 as u32) << 5) | (rd as u32)
}

/// Bitfield move: immr at [21:16], imms at [15:10].
pub open spec fn enc_bfm(base: u32, rd: u8, rn: u8, immr: u32, imms: u32) -> u32 {
    base | (immr << 16) | (imms << 10) | ((rn as u32) << 5) | (rd as u32)
}

/// Load/store with a scaled unsigned offset `uoff` at [21:10].
pub open spec fn enc_ldst(base: u32, rt: u8, rn: u8, uoff: u32) -> u32 {
    base | (uoff << 10) | ((rn as u32) << 5) | (rt as u32)
}

/// Load/store with a signed 9-bit unscaled offset at [20:12].
pub open spec fn enc_ldst_unscaled(base: u32, rt: u8, rn: u8, off: i16) -> u32 {
    base | ((((off as u16) as u32) & 0x1FF) << 12u32) | ((rn as u32) << 5u32) | (rt as u32)
}

/// Load/store pair: imm7 at [21:15], Rt2 at [14:10].
pub open spec fn enc_pair(base: u32, rt1: u8, rt2: u8, rn: u8, imm7: u32) -> u32 {
    base | (imm7 << 15) | ((rt2 as u32) << 10) | ((rn as u32) << 5) | (rt1 as u32)
}

/// The offset scaled down by 2^k, as the unsigned field the load/store
/// encodings take (the offset's bits reinterpreted as `u16`).
pub open spec fn scaled_uoff(off: i16, k: u16) -> u32 {
    ((off as u16) >> k) as u32
}

/// Rust's truncating division of an offset by 8.
pub open spec fn div8_trunc(off: i16) -> int {
    if off >= 0 {
        off / 8
    } else {
        -((-off) / 8)
    }
}

/// The 7-bit pair offset field: `off / 8` (truncating) in two's complement.
pub open spec fn pair_imm7(off: i16) -> u32 {
    (div8_trunc(off) as i16 as u32) & 0x7F
}

/// For registers below 32, each operand of a three-register word sits in
/// its field and the remaining bits are those of the opcode.
pub proof fn lemma_enc_rrr_fields(base: u32, rd: u8, rn: u8, rm: u8)
    requires
        rd < 32,
        rn < 32,
        rm < 32,
        base & 0x001F03FF == 0,
    ensures
        enc_rrr(base, rd, rn, rm) & 0x1F == rd as u32,
        (enc_rrr(base, rd, rn, rm) >> 5) & 0x1F == rn as u32,
        (enc_rrr(base, rd, rn, rm) >> 16) & 0x1F == rm as u32,
        enc_rrr(base, rd, rn, rm) & !0x001F03FFu32 == base,
{
    let (d, n, m) = (rd as u32, rn as u32, rm as u32);
    assert({
        let w = base | (m << 16) | (n << 5) | d;
        &&& w & 0x1F == d
        &&& (w >> 5) & 0x1F == n
        &&& (w >> 16) & 0x1F == m
        &&& w & !0x001F03FFu32 == base
    }) by (bit_vector)
        requires
            d < 32,
            n < 32,
            m < 32,
            base & 0x001F03FF == 0,
    ;
}

/// For a register below 32 the move-wide word carries the immediate and
/// the register in their fields.
pub proof fn lemma_enc_movw_fields(base: u32, rd: u8, imm16: u16, hw: u8, hw_mask: u32)
    requires
        rd < 32,
        hw_mask <= 3,
        base & 0x007FFFFF == 0,
    ensures
        enc_movw(base, rd, imm16, hw, hw_mask) & 0x1F == rd as u32,
        (enc_movw(base, rd, imm16, hw, hw_mask) >> 5) & 0xFFFF == imm16 as u32,
        (enc_movw(base, rd, imm16, hw, hw_mask) >> 21) & 3 == (hw as u32) & hw_mask,
        enc_movw(base, rd, imm16, hw, hw_mask) & 0xFF800000 == base,
{
    let (d, i, h) = (rd as u32, imm16 as u32, hw as u32);
    assert({
        let w = base | ((h & hw_mask) << 21) | (i << 5) | d;
        &&& w & 0x1F == d
        &&& (w >> 5) & 0xFFFF == i
        &&& (w >> 21) & 3 == h & hw_mask
        &&& w & 0xFF800000 == base
    }) by (bit_vector)
        requires
            d < 32,
            i < 0x10000,
            hw_mask <= 3,
            base & 0x007FFFFF == 0,
    ;
}

// ---------------------------------------------------------------------------
// Encoders
// ---------------------------------------------------------------------------

fn word_rrr(base: u32, rd: u8, rn: u8, rm: u8) -> (r: u32)
    ensures
        r == enc_rrr(base, rd, rn, rm),
{
    base | ((rm as u32) << 16) | ((rn as u32) << 5) | (rd as u32)
}

/// ADD Xd, Xn, Xm
#[verifier::allow_in_spec]
pub fn add_x_reg(rd: u8, rn: u8, rm: u8) -> u32
    returns
        enc_rrr(0x8B000000, rd, rn, rm),
{
    0x8B000000 | ((rm as u32) << 16) | ((rn as u32) << 5) | (rd as u32)
}

/// SUB Xd, Xn, Xm
#[verifier::allow_in_spec]
pub fn sub_x_reg(rd: u8, rn: u8, rm: u8) -> u32
    returns
        enc_rrr(0xCB000000, rd, rn, rm),
{
    0xCB000000 | ((rm as u32) << 16) | ((rn as u32) << 5) | (rd as u32)
}

/// MUL Xd, Xn, Xm (alias of MADD Xd, Xn, Xm, XZR)
#[verifier::allow_in_spec]
pub fn mul_x(rd: u8, rn: u8, rm: u8) -> u32
    returns
        enc_rrr(0x9B007C00, rd, rn, rm),
{
    0x9B007C00 | ((rm as u32) << 16) | ((rn as u32) << 5) | (rd as u32)
}

/// UDIV Xd, Xn, Xm
#[verifier::allow_in_spec]
pub fn udiv_x(rd: u8, rn: u8, rm: u8) -> u32
    returns
        enc_rrr(0x9AC00800, rd, rn, rm),
{
    0x9AC00800 | ((rm as u32) << 16) | ((rn as u32) << 5) | (rd as u32)
}

/// ORR Xd, Xn, Xm
#[verifier::allow_in_spec]
pub fn orr_x_reg(rd: u8, rn: u8, rm: u8) -> u32
    returns
        enc_rrr(0xAA000000, rd, rn, rm),
{
    0xAA000000 | ((rm as u32) << 16) | ((rn as u32) << 5) | (rd as u32)
}

/// AND Xd, Xn, Xm
#[verifier::allow_in_spec]
pub fn and_x_reg(rd: u8, rn: u8, rm: u8) -> u32
    returns
        enc_rrr(0x8A000000, rd, rn, rm),
{
    0x8A000000 | ((rm as u32) << 16) | ((rn as u32) << 5) | (rd as u32)
}

/// EOR Xd, Xn, Xm
#[verifier::allow_in_spec]
pub fn eor_x_reg(rd: u8, rn: u8, rm: u8) -> u32
    returns
        enc_rrr(0xCA000000, rd, rn, rm),
{
    0xCA000000 | ((rm as u32) << 16) | ((rn as u32) << 5) | (rd as u32)
}

/// LSLV Xd, Xn, Xm
#[verifier::allow_in_spec]
pub fn lslv_x(rd: u8, rn: u8, rm: u8) -> u32
    returns
        enc_rrr(0x9AC02000, rd, rn, rm),
{
    0x9AC02000 | ((rm as u32) << 16) | ((rn as u32) << 5) | (rd as u32)
}

/// LSRV Xd, Xn, Xm
#[verifier::allow_in_spec]
pub fn lsrv_x(rd: u8, rn: u8, rm: u8) -> u32
    returns
        enc_rrr(0x9AC02400, rd, rn, rm),
{
    0x9AC02400 | ((rm as u32) << 16) | ((rn as u32) << 5) | (rd as u32)
}

/// ASRV Xd, Xn, Xm
#[verifier::allow_in_spec]
pub fn asrv_x(rd: u8, rn: u8, rm: u8) -> u32
    returns
        enc_rrr(0x9AC02800, rd, rn, rm),
{
    0x9AC02800 | ((rm as u32) << 16) | ((rn as u32) << 5) | (rd as u32)
}

/// ADD Wd, Wn, Wm
#[verifier::allow_in_spec]
pub fn add_w_reg(rd: u8, rn: u8, rm: u8) -> u32
    returns
        enc_rrr(0x0B000000, rd, rn, rm),
{
    0x0B000000 | ((rm as u32) << 16) | ((rn as u32) << 5) | (rd as u32)
}

/// SUB Wd, Wn, Wm
#[verifier::allow_in_spec]
pub fn sub_w_reg(rd: u8, rn: u8, rm: u8) -> u32
    returns
        enc_rrr(0x4B000000, rd, rn, rm),
{
    0x4B000000 | ((rm as u32) << 16) | ((rn as u32) << 5) | (rd as u32)
}

/// MUL Wd, Wn, Wm
#[verifier::allow_in_spec]
pub fn mul_w(rd: u8, rn: u8, rm: u8) -> u32
    returns
        enc_rrr(0x1B007C00, rd, rn, rm),
{
    0x1B007C00 | ((rm as u32) << 16) | ((rn as u32) << 5) | (rd as u32)
}

/// UDIV Wd, Wn, Wm
#[verifier::allow_in_spec]
pub fn udiv_w(rd: u8, rn: u8, rm: u8) -> u32
    returns
        enc_rrr(0x1AC00800, rd, rn, rm),
{
    0x1AC00800 | ((rm as u32) << 16) | ((rn as u32) << 5) | (rd as u32)
}

/// ORR Wd, Wn, Wm
#[verifier::allow_in_spec]
pub fn orr_w_reg(rd: u8, rn: u8, rm: u8) -> u32
    returns
        enc_rrr(0x2A000000, rd, rn, rm),
{
    0x2A000000 | ((rm as u32) << 16) | ((rn as u32) << 5) | (rd as u32)
}

/// AND Wd, Wn, Wm
#[verifier::allow_in_spec]
pub fn and_w_reg(rd: u8, rn: u8, rm: u8) -> u32
    returns
        enc_rrr(0x0A000000, rd, rn, rm),
{
    0x0A000000 | ((rm as u32) << 16) | ((rn as u32) << 5) | (rd as u32)
}

/// EOR Wd, Wn, Wm
#[verifier::allow_in_spec]
pub fn eor_w_reg(rd: u8, rn: u8, rm: u8) -> u32
    returns
        enc_rrr(0x4A000000, rd, rn, rm),
{
    0x4A000000 | ((rm as u32) << 16) | ((rn as u32) << 5) | (rd as u32)
}

/// LSLV Wd, Wn, Wm
#[verifier::allow_in_spec]
pub fn lslv_w(rd: u8, rn: u8, rm: u8) -> u32
    returns
        enc_rrr(0x1AC02000, rd, rn, rm),
{
    0x1AC02000 | ((rm as u32) << 16) | ((rn as u32) << 5) | (rd as u32)
}

/// LSRV Wd, Wn, Wm
#[verifier::allow_in_spec]
pub fn lsrv_w(rd: u8, rn: u8, rm: u8) -> u32
    returns
        enc_rrr(0x1AC02400, rd, rn, rm),
{
    0x1AC02400 | ((rm as u32) << 16) | ((rn as u32) << 5) | (rd as u32)
}

/// ASRV Wd, Wn, Wm
#[verifier::allow_in_spec]
pub fn asrv_w(rd: u8, rn: u8, rm: u8) -> u32
    returns
        enc_rrr(0x1AC02800, rd, rn, rm),
{
    0x1AC02800 | ((rm as u32) << 16) | ((rn as u32) << 5) | (rd as u32)
}

/// MSUB Xd, Xn, Xm, Xa: Xd = Xa - Xn * Xm
#[verifier::allow_in_spec]
pub fn msub_x(rd: u8, rn: u8, rm: u8, ra: u8) -> u32
    returns
        enc_rrrr(0x9B008000, rd, rn, rm, ra),
{
    0x9B008000 | ((rm as u32) << 16) | ((ra as u32) << 10) | ((rn as u32) << 5) | (rd as u32)
}

/// MSUB Wd, Wn, Wm, Wa
#[verifier::allow_in_spec]
pub fn msub_w(rd: u8, rn: u8, rm: u8, ra: u8) -> u32
    returns
        enc_rrrr(0x1B008000, rd, rn, rm, ra),
{
    0x1B008000 | ((rm as u32) << 16) | ((ra as u32) << 10) | ((rn as u32) << 5) | (rd as u32)
}

/// MOV Xd, Xm (alias of ORR Xd, XZR, Xm)
#[verifier::allow_in_spec]
pub fn mov_x_reg(rd: u8, rm: u8) -> u32
    returns
        enc_rrr(0xAA000000, rd, 31, rm),
{
    orr_x_reg(rd, 31, rm)
}

/// MOV Wd, Wm (alias of ORR Wd, WZR, Wm)
#[verifier::allow_in_spec]
pub fn mov_w_reg(rd: u8, rm: u8) -> u32
    returns
        enc_rrr(0x2A000000, rd, 31, rm),
{
    orr_w_reg(rd, 31, rm)
}

/// ADD Xd, Xn, #imm12
#[verifier::allow_in_spec]
pub fn add_x_imm(rd: u8, rn: u8, imm12: u16) -> u32
    returns
        enc_imm12(0x91000000, rd, rn, imm12),
{
    0x91000000 | (((imm12 as u32) & 0xFFF) << 10) | ((rn as u32) << 5) | (rd as u32)
}

/// SUB Xd, Xn, #imm12
#[verifier::allow_in_spec]
pub fn sub_x_imm(rd: u8, rn: u8, imm12: u16) -> u32
    returns
        enc_imm12(0xD1000000, rd, rn, imm12),
{
    0xD1000000 | (((imm12 as u32) & 0xFFF) << 10) | ((rn as u32) << 5) | (rd as u32)
}

/// ADD Wd, Wn, #imm12
#[verifier::allow_in_spec]
pub fn add_w_imm(rd: u8, rn: u8, imm12: u16) -> u32
    returns
        enc_imm12(0x11000000, rd, rn, imm12),
{
    0x11000000 | (((imm12 as u32) & 0xFFF) << 10) | ((rn as u32) << 5) | (rd as u32)
}

/// SUB Wd, Wn, #imm12
#[verifier::allow_in_spec]
pub fn sub_w_imm(rd: u8, rn: u8, imm12: u16) -> u32
    returns
        enc_imm12(0x51000000, rd, rn, imm12),
{
    0x51000000 | (((imm12 as u32) & 0xFFF) << 10) | ((rn as u32) << 5) | (rd as u32)
}

/// MOVZ Xd, #imm16, LSL #(hw*16)
#[verifier::allow_in_spec]
pub fn movz_x(rd: u8, imm16: u16, hw: u8) -> u32
    returns
        enc_movw(0xD2800000, rd, imm16, hw, 3),
{
    0xD2800000 | (((hw as u32) & 3) << 21) | ((imm16 as u32) << 5) | (rd as u32)
}

/// MOVN Xd, #imm16, LSL #(hw*16): Xd = !(imm16 << 16*hw)
#[verifier::allow_in_spec]
pub fn movn_x(rd: u8, imm16: u16, hw: u8) -> u32
    returns
        enc_movw(0x92800000, rd, imm16, hw, 3),
{
    0x92800000 | (((hw as u32) & 3) << 21) | ((imm16 as u32) << 5) | (rd as u32)
}

/// MOVK Xd, #imm16, LSL #(hw*16)
#[verifier::allow_in_spec]
pub fn movk_x(rd: u8, imm16: u16, hw: u8) -> u32
    returns
        enc_movw(0xF2800000, rd, imm16, hw, 3),
{
    0xF2800000 | (((hw as u32) & 3) << 21) | ((imm16 as u32) << 5) | (rd as u32)
}

/// MOVZ Wd, #imm16, LSL #(hw*16)
#[verifier::allow_in_spec]
pub fn movz_w(rd: u8, imm16: u16, hw: u8) -> u32
    returns
        enc_movw(0x52800000, rd, imm16, hw, 1),
{
    0x52800000 | (((hw as u32) & 1) << 21) | ((imm16 as u32) << 5) | (rd as u32)
}

/// MOVK Wd, #imm16, LSL #(hw*16)
#[verifier::allow_in_spec]
pub fn movk_w(rd: u8, imm16: u16, hw: u8) -> u32
    returns
        enc_movw(0x72800000, rd, imm16, hw, 1),
{
    0x72800000 | (((hw as u32) & 1) << 21) | ((imm16 as u32) << 5) | (rd as u32)
}

/// LSL Xd, Xn, #shift (alias of UBFM Xd, Xn, #(64-shift), #(63-shift));
/// shifts above 63 do not encode.
pub fn lsl_x_imm(rd: u8, rn: u8, shift: u8) -> (r: u32)
    requires
        shift <= 63,
    ensures
        r == enc_bfm(0xD3400000, rd, rn, ((64 - shift) % 64) as u32, (63 - shift) as u32),
{
    let immr = (64 - shift) & 63;
    let imms = (63 - shift) & 63;
    assert(immr == (64 - shift) % 64 && imms == 63 - shift) by (bit_vector)
        requires
            shift <= 63,
            immr == (64 - shift) as u8 & 63,
            imms == (63 - shift) as u8 & 63,
    ;
    0xD3400000 | ((immr as u32) << 16) | ((imms as u32) << 10) | ((rn as u32) << 5) | (rd as u32)
}

/// LSR Xd, Xn, #shift (alias of UBFM Xd, Xn, #shift, #63)
#[verifier::allow_in_spec]
pub fn lsr_x_imm(rd: u8, rn: u8, shift: u8) -> u32
    returns
        enc_bfm(0xD340FC00, rd, rn, (shift & 63) as u32, 0),
{
    let (sh, n, d) = ((shift & 63) as u32, rn as u32, rd as u32);
    let r = 0xD340FC00 | (sh << 16) | (n << 5) | d;
    assert(r == 0xD340FC00 | (sh << 16) | (0u32 << 10) | (n << 5) | d) by (bit_vector)
        requires
            r == 0xD340FC00 | (sh << 16) | (n << 5) | d,
    ;
    r
}

/// ASR Xd, Xn, #shift (alias of SBFM Xd, Xn, #shift, #63)
#[verifier::allow_in_spec]
pub fn asr_x_imm(rd: u8, rn: u8, shift: u8) -> u32
    returns
        enc_bfm(0x9340FC00, rd, rn, (shift & 63) as u32, 0),
{
    let (sh, n, d) = ((shift & 63) as u32, rn as u32, rd as u32);
    let r = 0x9340FC00 | (sh << 16) | (n << 5) | d;
    assert(r == 0x9340FC00 | (sh << 16) | (0u32 << 10) | (n << 5) | d) by (bit_vector)
        requires
            r == 0x9340FC00 | (sh << 16) | (n << 5) | d,
    ;
    r
}

/// CMP Xn, Xm (alias of SUBS XZR, Xn, Xm)
#[verifier::allow_in_spec]
pub fn cmp_x_reg(rn: u8, rm: u8) -> u32
    returns
        enc_rrr(0xEB000000, 31, rn, rm),
{
    word_rrr(0xEB000000, 31, rn, rm)
}

/// LDUR/STUR family: load or store Rt at Xn + off for `-256 <= off < 256`,
/// the operation and width given by `base` (LDURB 0x38400000, LDURH
/// 0x78400000, LDUR W 0xB8400000, LDUR X 0xF8400000; the STUR forms clear
/// bit 22).
#[verifier::allow_in_spec]
pub fn ldst_unscaled(base: u32, rt: u8, rn: u8, off: i16) -> u32
    returns
        enc_ldst_unscaled(base, rt, rn, off),
{
    base | ((((#[verifier::truncate] (off as u16)) as u32) & 0x1FF) << 12u32) | ((rn as u32) << 5u32) | (rt as u32)
}

/// TST Xn, Xm (alias of ANDS XZR, Xn, Xm): flags from Xn & Xm.
#[verifier::allow_in_spec]
pub fn tst_x_reg(rn: u8, rm: u8) -> u32
    returns
        enc_rrr(0xEA000000, 31, rn, rm),
{
    word_rrr(0xEA000000, 31, rn, rm)
}

/// TST Wn, Wm (alias of ANDS WZR, Wn, Wm): flags from Wn & Wm.
#[verifier::allow_in_spec]
pub fn tst_w_reg(rn: u8, rm: u8) -> u32
    returns
        enc_rrr(0x6A000000, 31, rn, rm),
{
    word_rrr(0x6A000000, 31, rn, rm)
}

/// CMP Wn, Wm (alias of SUBS WZR, Wn, Wm)
#[verifier::allow_in_spec]
pub fn cmp_w_reg(rn: u8, rm: u8) -> u32
    returns
        enc_rrr(0x6B000000, 31, rn, rm),
{
    word_rrr(0x6B000000, 31, rn, rm)
}

/// B.cond: conditional branch with a 19-bit signed offset in instructions.
#[verifier::allow_in_spec]
pub fn b_cond(cond: u8, imm19: i32) -> u32
    returns
        0x54000000 | (((imm19 as u32) & 0x7FFFF) << 5) | (cond as u32),
{
    0x54000000 | (((#[verifier::truncate] (imm19 as u32)) & 0x7FFFF) << 5) | (cond as u32)
}

/// B: unconditional branch with a 26-bit signed offset in instructions.
#[verifier::allow_in_spec]
pub fn b_imm(imm26: i32) -> u32
    returns
        0x14000000 | ((imm26 as u32) & 0x03FFFFFF),
{
    0x14000000 | ((#[verifier::truncate] (imm26 as u32)) & 0x03FFFFFF)
}

/// BLR Xn: branch with link to register.
#[verifier::allow_in_spec]
pub fn blr(rn: u8) -> u32
    returns
        enc_rr(0xD63F0000, 0, rn),
{
    let n = rn as u32;
    let r = 0xD63F0000 | (n << 5);
    assert(r == 0xD63F0000 | (n << 5) | 0u32) by (bit_vector)
        requires
            r == 0xD63F0000 | (n << 5),
    ;
    r
}

/// RET (RET X30)
#[verifier::allow_in_spec]
pub fn ret() -> u32
    returns
        0xD65F03C0u32,
{
    0xD65F03C0
}

/// LDR Xt, [Xn, #off] (64-bit, offset scaled by 8)
#[verifier::allow_in_spec]
pub fn ldr_x_imm(rt: u8, rn: u8, off: i16) -> u32
    returns
        enc_ldst(0xF9400000, rt, rn, scaled_uoff(off, 3)),
{
    let uoff = ((#[verifier::truncate] (off as u16)) >> 3) as u32;
    0xF9400000 | (uoff << 10) | ((rn as u32) << 5) | (rt as u32)
}

/// LDR Wt, [Xn, #off] (32-bit, offset scaled by 4)
#[verifier::allow_in_spec]
pub fn ldr_w_imm(rt: u8, rn: u8, off: i16) -> u32
    returns
        enc_ldst(0xB9400000, rt, rn, scaled_uoff(off, 2)),
{
    let uoff = ((#[verifier::truncate] (off as u16)) >> 2) as u32;
    0xB9400000 | (uoff << 10) | ((rn as u32) << 5) | (rt as u32)
}

/// LDRH Wt, [Xn, #off] (16-bit zero-extending, offset scaled by 2)
#[verifier::allow_in_spec]
pub fn ldrh_imm(rt: u8, rn: u8, off: i16) -> u32
    returns
        enc_ldst(0x79400000, rt, rn, scaled_uoff(off, 1)),
{
    let uoff = ((#[verifier::truncate] (off as u16)) >> 1) as u32;
    0x79400000 | (uoff << 10) | ((rn as u32) << 5) | (rt as u32)
}

/// LDRB Wt, [Xn, #off] (8-bit zero-extending, unscaled)
#[verifier::allow_in_spec]
pub fn ldrb_imm(rt: u8, rn: u8, off: i16) -> u32
    returns
        enc_ldst(0x39400000, rt, rn, scaled_uoff(off, 0)),
{
    let u = #[verifier::truncate] (off as u16);
    assert(u >> 0u16 == u) by (bit_vector);
    let uoff = u as u32;
    0x39400000 | (uoff << 10) | ((rn as u32) << 5) | (rt as u32)
}

/// STR Xt, [Xn, #off] (64-bit)
#[verifier::allow_in_spec]
pub fn str_x_imm(rt: u8, rn: u8, off: i16) -> u32
    returns
        enc_ldst(0xF9000000, rt, rn, scaled_uoff(off, 3)),
{
    let uoff = ((#[verifier::truncate] (off as u16)) >> 3) as u32;
    0xF9000000 | (uoff << 10) | ((rn as u32) << 5) | (rt as u32)
}

/// STR Wt, [Xn, #off] (32-bit)
#[verifier::allow_in_spec]
pub fn str_w_imm(rt: u8, rn: u8, off: i16) -> u32
    returns
        enc_ldst(0xB9000000, rt, rn, scaled_uoff(off, 2)),
{
    let uoff = ((#[verifier::truncate] (off as u16)) >> 2) as u32;
    0xB9000000 | (uoff << 10) | ((rn as u32) << 5) | (rt as u32)
}

/// STRH Wt, [Xn, #off] (16-bit)
#[verifier::allow_in_spec]
pub fn strh_imm(rt: u8, rn: u8, off: i16) -> u32
    returns
        enc_ldst(0x79000000, rt, rn, scaled_uoff(off, 1)),
{
    let uoff = ((#[verifier::truncate] (off as u16)) >> 1) as u32;
    0x79000000 | (uoff << 10) | ((rn as u32) << 5) | (rt as u32)
}

/// STRB Wt, [Xn, #off] (8-bit)
#[verifier::allow_in_spec]
pub fn strb_imm(rt: u8, rn: u8, off: i16) -> u32
    returns
        enc_ldst(0x39000000, rt, rn, scaled_uoff(off, 0)),
{
    let u = #[verifier::truncate] (off as u16);
    assert(u >> 0u16 == u) by (bit_vector);
    let uoff = u as u32;
    0x39000000 | (uoff << 10) | ((rn as u32) << 5) | (rt as u32)
}

/// STP Xt1, Xt2, [Xn, #off]! (pre-index)
#[verifier::allow_in_spec]
pub fn stp_pre(rt1: u8, rt2: u8, rn: u8, off: i16) -> u32
    returns
        enc_pair(0xA9800000, rt1, rt2, rn, pair_imm7(off)),
{
    let imm7 = pair_imm(off);
    0xA9800000 | (imm7 << 15) | ((rt2 as u32) << 10) | ((rn as u32) << 5) | (rt1 as u32)
}

/// LDP Xt1, Xt2, [Xn], #off (post-index)
#[verifier::allow_in_spec]
pub fn ldp_post(rt1: u8, rt2: u8, rn: u8, off: i16) -> u32
    returns
        enc_pair(0xA8C00000, rt1, rt2, rn, pair_imm7(off)),
{
    let imm7 = pair_imm(off);
    0xA8C00000 | (imm7 << 15) | ((rt2 as u32) << 10) | ((rn as u32) << 5) | (rt1 as u32)
}

/// STP Xt1, Xt2, [Xn, #off] (signed offset)
#[verifier::allow_in_spec]
pub fn stp_offset(rt1: u8, rt2: u8, rn: u8, off: i16) -> u32
    returns
        enc_pair(0xA9000000, rt1, rt2, rn, pair_imm7(off)),
{
    let imm7 = pair_imm(off);
    0xA9000000 | (imm7 << 15) | ((rt2 as u32) << 10) | ((rn as u32) << 5) | (rt1 as u32)
}

/// LDP Xt1, Xt2, [Xn, #off] (signed offset)
#[verifier::allow_in_spec]
pub fn ldp_offset(rt1: u8, rt2: u8, rn: u8, off: i16) -> u32
    returns
        enc_pair(0xA9400000, rt1, rt2, rn, pair_imm7(off)),
{
    let imm7 = pair_imm(off);
    0xA9400000 | (imm7 << 15) | ((rt2 as u32) << 10) | ((rn as u32) << 5) | (rt1 as u32)
}

fn pair_imm(off: i16) -> (r: u32)
    ensures
        r == pair_imm7(off),
{
    let q = off / 8;
    assert(q as int == div8_trunc(off));
    (#[verifier::truncate] (q as u32)) & 0x7F
}

/// LDADD Xs, Xt, [Xn]: atomic add, acquire+release
#[verifier::allow_in_spec]
pub fn ldadd_x(rs: u8, rt: u8, rn: u8) -> u32
    returns
        enc_rrr(0xF8E00000, rt, rn, rs),
{
    0xF8E00000 | ((rs as u32) << 16) | ((rn as u32) << 5) | (rt as u32)
}

/// LDSET Xs, Xt, [Xn]: atomic OR
#[verifier::allow_in_spec]
pub fn ldset_x(rs: u8, rt: u8, rn: u8) -> u32
    returns
        enc_rrr(0xF8E03000, rt, rn, rs),
{
    0xF8E03000 | ((rs as u32) << 16) | ((rn as u32) << 5) | (rt as u32)
}

/// LDCLR Xs, Xt, [Xn]: atomic AND-NOT (clear bits)
#[verifier::allow_in_spec]
pub fn ldclr_x(rs: u8, rt: u8, rn: u8) -> u32
    returns
        enc_rrr(0xF8E01000, rt, rn, rs),
{
    0xF8E01000 | ((rs as u32) << 16) | ((rn as u32) << 5) | (rt as u32)
}

/// LDEOR Xs, Xt, [Xn]: atomic XOR
#[verifier::allow_in_spec]
pub fn ldeor_x(rs: u8, rt: u8, rn: u8) -> u32
    returns
        enc_rrr(0xF8E02000, rt, rn, rs),
{
    0xF8E02000 | ((rs as u32) << 16) | ((rn as u32) << 5) | (rt as u32)
}

/// SWP Xs, Xt, [Xn]: atomic swap
#[verifier::allow_in_spec]
pub fn swp_x(rs: u8, rt: u8, rn: u8) -> u32
    returns
        enc_rrr(0xF8E08000, rt, rn, rs),
{
    0xF8E08000 | ((rs as u32) << 16) | ((rn as u32) << 5) | (rt as u32)
}

/// CAS Xs, Xt, [Xn]: compare-and-swap
#[verifier::allow_in_spec]
pub fn cas_x(rs: u8, rt: u8, rn: u8) -> u32
    returns
        enc_rrr(0xC8E07C00, rt, rn, rs),
{
    0xC8E07C00 | ((rs as u32) << 16) | ((rn as u32) << 5) | (rt as u32)
}

/// DMB ISH: data memory barrier, inner shareable
#[verifier::allow_in_spec]
pub fn dmb_ish() -> u32
    returns
        0xD5033BBFu32,
{
    0xD5033BBF
}

/// REV16 Wd, Wn: reverse bytes in each 16-bit halfword
#[verifier::allow_in_spec]
pub fn rev16_w(rd: u8, rn: u8) -> u32
    returns
        enc_rr(0x5AC00400, rd, rn),
{
    0x5AC00400 | ((rn as u32) << 5) | (rd as u32)
}

/// REV Wd, Wn: reverse bytes in a 32-bit word
#[verifier::allow_in_spec]
pub fn rev_w(rd: u8, rn: u8) -> u32
    returns
        enc_rr(0x5AC00800, rd, rn),
{
    0x5AC00800 | ((rn as u32) << 5) | (rd as u32)
}

/// REV Xd, Xn: reverse bytes in a 64-bit doubleword
#[verifier::allow_in_spec]
pub fn rev_x(rd: u8, rn: u8) -> u32
    returns
        enc_rr(0xDAC00C00, rd, rn),
{
    0xDAC00C00 | ((rn as u32) << 5) | (rd as u32)
}

/// AND Xd, Xn, #0xFFFF: the logical-immediate encoding of a 16-bit mask
/// (N=1, immr=0, imms=0b001111). The mask argument is not consulted.
#[verifier::allow_in_spec]
pub fn and_x_imm_mask(rd: u8, rn: u8, _mask: u16) -> u32
    returns
        enc_rr(0x92400F00, rd, rn),
{
    0x92400F00 | ((rn as u32) << 5) | (rd as u32)
}

} // verus!
