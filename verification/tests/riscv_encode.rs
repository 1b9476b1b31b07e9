use nvmirror::riscv::encode::{
    add, addi, beq, bne, encode_b_type_imm, encode_j_type_imm, fence_rw_rw, jal, ld, lui, sd,
    sign_extend_12,
};

#[test]
fn encode_add_x1_x2_x3() {
    // ADD x1, x2, x3 (R-type)
    let insn = add(1, 2, 3);
    assert_eq!(insn & 0x7F, 0x33); // opcode = OP
    assert_eq!((insn >> 7) & 0x1F, 1); // rd = x1
    assert_eq!((insn >> 15) & 0x1F, 2); // rs1 = x2
    assert_eq!((insn >> 20) & 0x1F, 3); // rs2 = x3
    assert_eq!((insn >> 25) & 0x7F, 0); // funct7 = 0
}

#[test]
fn encode_addi_x1_x0_42() {
    let insn = addi(1, 0, 42);
    assert_eq!(insn & 0x7F, 0x13); // opcode = OP-IMM
    assert_eq!((insn >> 7) & 0x1F, 1); // rd = x1
    assert_eq!((insn >> 15) & 0x1F, 0); // rs1 = x0
    assert_eq!((insn >> 20) & 0xFFF, 42); // imm = 42
}

#[test]
fn encode_sd() {
    let insn = sd(1, 2, 8);
    assert_eq!(insn & 0x7F, 0x23); // opcode = STORE
    assert_eq!((insn >> 12) & 0x7, 3); // funct3 = 3 (doubleword)
}

#[test]
fn encode_beq() {
    let insn = beq(1, 2, 0);
    assert_eq!(insn & 0x7F, 0x63); // opcode = BRANCH
    assert_eq!((insn >> 12) & 0x7, 0); // funct3 = BEQ
}

#[test]
fn encode_jal_zero_offset() {
    let insn = jal(1, 0);
    assert_eq!(insn & 0x7F, 0x6F); // opcode = JAL
    assert_eq!((insn >> 7) & 0x1F, 1); // rd = x1
}

#[test]
fn encode_fence() {
    assert_eq!(fence_rw_rw(), 0x0330000F);
}

// --- further cases ---

#[test]
fn sign_extend_12_values() {
    assert_eq!(sign_extend_12(0x7FF), 2047);
    assert_eq!(sign_extend_12(0x800), -2048);
    assert_eq!(sign_extend_12(0xFFF), -1);
    assert_eq!(sign_extend_12(0x1234), 0x234);
}

#[test]
fn branch_immediates_decode_back() {
    for &off in &[-4096i32, -12, -2, 0, 2, 12, 4094] {
        let w = encode_b_type_imm(off);
        let raw = (((w >> 31) & 1) << 12) | (((w >> 7) & 1) << 11) | (((w >> 25) & 0x3F) << 5)
            | (((w >> 8) & 0xF) << 1);
        assert_eq!(((raw << 19) as i32) >> 19, off);
    }
    for &off in &[-0x100000i32, -12, 0, 2, 0xFFFFE] {
        let w = encode_j_type_imm(off);
        let raw = (((w >> 31) & 1) << 20) | (((w >> 12) & 0xFF) << 12) | (((w >> 20) & 1) << 11)
            | (((w >> 21) & 0x3FF) << 1);
        assert_eq!(((raw << 11) as i32) >> 11, off);
    }
}

#[test]
fn encode_exact_words() {
    assert_eq!(bne(23, 0, -12), 0xFE0B9AE3);
    assert_eq!(ld(1, 2, 8), 0x00813083);
    // LUI keeps bits [31:12] of its argument
    assert_eq!(lui(5, 0x12345678), 0x123452B7);
}
