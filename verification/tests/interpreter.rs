use nvmirror::interpreter::InterpreterState;
use nvmirror::isa::{AluOp, BpfReg, EndianWidth, Insn, JmpOp, MemWidth, Source, STACK_SIZE};

#[test]
fn interpreter_stack_through_frame_pointer() {
    // With R10 at the top of the interpreter's stack, a store and a load
    // through it meet.
    let insns = vec![
        Insn::StoreImm { width: MemWidth::W, dst: BpfReg::R10, off: -8, imm: 0x1234_5678 },
        Insn::Load { width: MemWidth::H, dst: BpfReg::R0, src: BpfReg::R10, off: -8 },
        Insn::Exit,
    ];
    let mut st = InterpreterState::new();
    assert_eq!(st.run(&insns, 10), 0x5678);
    assert_eq!(st.regs[10], st.stack.as_ptr() as u64 + STACK_SIZE as u64);
    assert_eq!(&st.stack[STACK_SIZE - 8..STACK_SIZE - 4], &[0x78, 0x56, 0x34, 0x12]);
}

#[test]
fn interpreter_endian_and_alu() {
    let insns = vec![
        Insn::Alu64 { op: AluOp::Mov, dst: BpfReg::R0, src: Source::Imm(0x1234) },
        Insn::Endian { to_be: true, width: EndianWidth::Bits16, dst: BpfReg::R0 },
        Insn::Exit,
    ];
    assert_eq!(InterpreterState::new().run(&insns, 10), 0x3412);
    let insns = vec![
        Insn::LoadImm64 { dst: BpfReg::R0, imm: 0x1_2345_6789 },
        Insn::Endian { to_be: false, width: EndianWidth::Bits32, dst: BpfReg::R0 },
        Insn::Exit,
    ];
    assert_eq!(InterpreterState::new().run(&insns, 10), 0x2345_6789);
    // Division by zero gives 0, modulo by zero keeps the dividend.
    let insns = vec![
        Insn::Alu64 { op: AluOp::Mov, dst: BpfReg::R0, src: Source::Imm(9) },
        Insn::Alu64 { op: AluOp::Mod, dst: BpfReg::R0, src: Source::Imm(0) },
        Insn::Exit,
    ];
    assert_eq!(InterpreterState::new().run(&insns, 10), 9);
}

#[test]
fn interpreter_stops_at_step_limit() {
    let insns = vec![
        Insn::Alu64 { op: AluOp::Mov, dst: BpfReg::R0, src: Source::Imm(1) },
        Insn::Alu64 { op: AluOp::Add, dst: BpfReg::R0, src: Source::Imm(1) },
        Insn::Alu64 { op: AluOp::Add, dst: BpfReg::R0, src: Source::Imm(1) },
        Insn::Exit,
    ];
    let mut st = InterpreterState::new();
    assert_eq!(st.run(&insns, 2), 2);
    assert_eq!(st.pc, 2);
    assert!(!st.halted);
}

#[test]
fn jmp32_signed_compares_the_low_word_as_i32() {
    let mut s = InterpreterState::new();
    s.regs[2] = 0xFFFF_FFFF;
    let insns = [Insn::JmpCond32 { op: JmpOp::Jslt, dst: BpfReg::R2, src: Source::Imm(0), off: 5 }];
    assert!(s.step(&insns));
    assert_eq!(s.pc, 6);
    // Unsigned: 0xFFFF_FFFF is not below 0.
    let mut u = InterpreterState::new();
    u.regs[2] = 0xFFFF_FFFF;
    let insns = [Insn::JmpCond32 { op: JmpOp::Jlt, dst: BpfReg::R2, src: Source::Imm(0), off: 5 }];
    assert!(u.step(&insns));
    assert_eq!(u.pc, 1);
}

#[test]
fn run_points_r10_at_the_top_of_the_stack() {
    // MOV R2, 7; STX [R10-8], R2; LDX R0, [R10-8]; EXIT
    let insns = vec![
        Insn::Alu64 { op: AluOp::Mov, dst: BpfReg::R2, src: Source::Imm(7) },
        Insn::StoreReg { width: MemWidth::DW, dst: BpfReg::R10, src: BpfReg::R2, off: -8 },
        Insn::Load { width: MemWidth::DW, dst: BpfReg::R0, src: BpfReg::R10, off: -8 },
        Insn::Exit,
    ];
    let mut s = InterpreterState::new();
    assert_eq!(s.regs[10], 0);
    assert_eq!(s.run(&insns, 100), 7);
    assert_eq!(s.stack[STACK_SIZE - 8], 7);
}
