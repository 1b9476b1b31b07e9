use nvmirror::aarch64::encode::{
    add_x_reg, b_cond, b_imm, cmp_x_reg, dmb_ish, ldr_x_imm, movk_x, movz_x, ret, stp_pre, str_x_imm,
    CC_EQ, CC_NE,
};

#[test]
fn encode_add_x0_x1_x2() {
    // ADD X0, X1, X2 → 0x8B020020
    assert_eq!(add_x_reg(0, 1, 2), 0x8B020020);
}

#[test]
fn encode_ret() {
    assert_eq!(ret(), 0xD65F03C0);
}

#[test]
fn encode_movz() {
    // MOVZ X0, #42
    let insn = movz_x(0, 42, 0);
    assert_eq!(insn & 0xFF800000, 0xD2800000); // opcode
    assert_eq!((insn >> 5) & 0xFFFF, 42); // immediate
    assert_eq!(insn & 0x1F, 0); // Rd = X0
}

#[test]
fn encode_b_cond() {
    // B.EQ with offset 0 → condition in the low nibble
    let insn = b_cond(CC_EQ, 0);
    assert_eq!(insn & 0xF, 0); // EQ = 0
    assert_eq!(insn & 0xFF000000, 0x54000000); // B.cond opcode
}

#[test]
fn encode_dmb_ish() {
    assert_eq!(dmb_ish(), 0xD5033BBF);
}

// --- further cases ---

#[test]
fn encode_movk_shifted() {
    // MOVK X9, #0xBEEF, LSL #32
    assert_eq!(movk_x(9, 0xBEEF, 2), 0xF2C00000 | (0xBEEF << 5) | 9);
}

#[test]
fn encode_negative_branch_offsets() {
    // B.NE -1 and B -1: the displacement fields are two's complement
    assert_eq!(b_cond(CC_NE, -1), 0x54000000 | (0x7FFFF << 5) | 1);
    assert_eq!(b_imm(-1), 0x17FFFFFF);
}

#[test]
fn encode_cmp_and_memory() {
    assert_eq!(cmp_x_reg(1, 2), 0xEB02003F);
    // LDR X0, [SP, #8] and STR X1, [SP, #16]: offsets scaled by 8
    assert_eq!(ldr_x_imm(0, 31, 8), 0xF94007E0);
    assert_eq!(str_x_imm(1, 31, 16), 0xF9000BE1);
    // STP X29, X30, [SP, #-64]!
    assert_eq!(stp_pre(29, 30, 31, -64), 0xA9BC7BFD);
}
