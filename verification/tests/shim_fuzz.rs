use nvmirror::decode::decode_program;
use nvmirror::disasm::{cond_name, disassemble_aarch64, A64Disasm};
use nvmirror::aarch64::encode::{add_x_reg, b_cond, b_imm, movz_x, CC_NE};
use nvmirror::fuzz::{fuzz_compile, fuzz_one, generate_program, judge, FuzzCase, FuzzResult, Rng, FUZZ_STEPS};
use nvmirror::interpreter::InterpreterState;
use nvmirror::isa::{AluOp, Insn, Source};
use nvmirror::isa::{BPF_EXIT, BPF_JMP};
use nvmirror::shim::exec_buffer::ExecBuffer;
use nvmirror::shim::{HelperTable, MAX_JIT_BUFFER_SIZE};

#[test]
fn helper_table_register_resolve() {
    let mut t = HelperTable::new();
    assert_eq!(t.resolve(5), None);
    t.register(5, 0x1000);
    assert_eq!(t.resolve(5), Some(0x1000));
    assert_eq!(t.resolve(6), None);
    // IDs outside the table are ignored
    t.register(300, 0x2000);
    assert_eq!(t.resolve(300), None);
    t.register(255, 0x3000);
    assert_eq!(t.resolve(255), Some(0x3000));
}

#[test]
fn exec_buffer_write_and_limit() {
    let mut b = ExecBuffer::new(0).unwrap();
    assert_eq!(b.capacity(), MAX_JIT_BUFFER_SIZE);
    assert_eq!(b.code_len(), 0);
    assert!(b.write_code(&[1, 2, 3, 4]).is_ok());
    assert_eq!(b.code_len(), 4);
    let too_big = vec![0u8; MAX_JIT_BUFFER_SIZE + 1];
    assert_eq!(b.write_code(&too_big), Err("Code exceeds buffer capacity"));
    assert_eq!(b.code_len(), 4);
}

#[test]
fn rng_is_xorshift64() {
    let mut r = Rng::new(1);
    // 1 → x ^= x << 13; x ^= x >> 7; x ^= x << 17
    assert_eq!(r.next_u64(), 0x40822041);
    let mut z = Rng::new(0); // zero seed becomes 1
    assert_eq!(z.next_u64(), 0x40822041);
    let mut s = Rng::new(42);
    for _ in 0..100 {
        let v = s.range(-5, 5);
        assert!((-5..5).contains(&v));
    }
    assert_eq!(s.range(7, 7), 7);
    assert_eq!(s.pick(&[9u8]), 9);
}

#[test]
fn generated_programs_have_their_shape() {
    let mut rng = Rng::new(0xDEAD_BEEF_CAFE_BABE);
    for _ in 0..200 {
        let p = generate_program(&mut rng, 20);
        assert!(p.len() >= 3 && p.len() <= 20);
        assert_eq!(p[p.len() - 1].opcode, BPF_JMP | BPF_EXIT);
        assert_eq!(p[0].regs, 0);
        assert_eq!(p[1].regs, 1);
        for (pc, insn) in p.iter().enumerate() {
            if insn.opcode % 8 == BPF_JMP && pc + 1 < p.len() {
                assert!(insn.off >= 1 && pc + 1 + (insn.off as usize) < p.len());
            }
        }
        assert!(decode_program(&p).is_ok());
    }
}

#[test]
fn disassembler_reads_encodings_back() {
    assert_eq!(disassemble_aarch64(add_x_reg(3, 4, 5)), A64Disasm::AddReg { rd: 3, rn: 4, rm: 5 });
    assert_eq!(disassemble_aarch64(movz_x(7, 42, 1)), A64Disasm::Movz { rd: 7, val: 42 << 16 });
    assert_eq!(disassemble_aarch64(b_cond(CC_NE, -3)), A64Disasm::BCond { cond: 1, byte_offset: -12 });
    assert_eq!(disassemble_aarch64(b_imm(5)), A64Disasm::B { byte_offset: 20 });
    assert_eq!(disassemble_aarch64(0xD65F03C0), A64Disasm::Ret);
    assert_eq!(disassemble_aarch64(0), A64Disasm::Unknown(0));
}

#[test]
fn fuzz_100_programs() {
    let mut rng = Rng::new(0xDEAD_BEEF_CAFE_BABEu64);
    let mut pass = 0;
    let mut compile_err = 0;

    for _ in 0..100 {
        match fuzz_one(&mut rng, 20) {
            FuzzResult::Pass { .. } => pass += 1,
            FuzzResult::CompileError(_) => compile_err += 1,
            FuzzResult::Mismatch { interpreter_result, jit_result, program } => {
                panic!(
                    "MISMATCH: interp={}, jit={}, program_len={}",
                    interpreter_result,
                    jit_result,
                    program.len()
                );
            }
        }
    }

    println!("Fuzz results: {} pass, {} compile errors", pass, compile_err);
    assert!(pass > 0, "No programs passed — generator may be broken");
}

#[test]
fn fuzz_1000_programs_small() {
    let mut rng = Rng::new(42);
    let mut pass = 0;
    let mut compile_err = 0;

    for _ in 0..1000 {
        match fuzz_one(&mut rng, 10) {
            FuzzResult::Pass { .. } => pass += 1,
            FuzzResult::CompileError(_) => compile_err += 1,
            FuzzResult::Mismatch { interpreter_result, jit_result, program } => {
                panic!(
                    "MISMATCH: interp={}, jit={}, program_len={}",
                    interpreter_result,
                    jit_result,
                    program.len()
                );
            }
        }
    }

    println!("Fuzz results: {} pass, {} compile errors", pass, compile_err);
    assert!(pass > 50, "Too few programs passed");
}

#[test]
fn judge_compares_answers() {
    let case = FuzzCase { program: vec![], interpreter_result: 7, code: vec![] };
    assert!(matches!(judge(case, 7), FuzzResult::Pass { interpreter_result: 7 }));
    let case = FuzzCase { program: vec![], interpreter_result: 7, code: vec![] };
    match judge(case, 8) {
        FuzzResult::Mismatch { interpreter_result, jit_result, program } => {
            assert_eq!((interpreter_result, jit_result, program.len()), (7, 8, 0));
        }
        _ => panic!("expected a mismatch"),
    }
}

#[test]
fn fuzz_compile_yields_code_for_compiling_programs() {
    let mut rng = Rng::new(7);
    let mut compiled = 0;
    for _ in 0..50 {
        if let Ok(case) = fuzz_compile(&mut rng, 12) {
            assert!(!case.code.is_empty() && case.code.len() % 4 == 0);
            let insns = decode_program(&case.program).unwrap();
            let mut interp = InterpreterState::new();
            assert_eq!(interp.run(&insns, FUZZ_STEPS), case.interpreter_result);
            compiled += 1;
        }
    }
    assert!(compiled > 0);
}

#[test]
fn generated_programs_stop_within_their_length() {
    let mut rng = Rng::new(99);
    for _ in 0..200 {
        let p = generate_program(&mut rng, 16);
        let insns = decode_program(&p).unwrap();
        let mut interp = InterpreterState::new();
        interp.run(&insns, insns.len());
        assert!(interp.halted || interp.pc >= insns.len());
    }
}

#[test]
fn generated_instructions_follow_the_templates() {
    let mut rng = Rng::new(0x5EED);
    for _ in 0..300 {
        let p = generate_program(&mut rng, 24);
        let insns = decode_program(&p).unwrap();
        assert_eq!(insns.len(), p.len());
        assert!(matches!(insns[insns.len() - 1], Insn::Exit));
        for (pc, insn) in insns[..insns.len() - 1].iter().enumerate() {
            match *insn {
                Insn::Alu64 { op, dst, src: Source::Imm(v) } => {
                    assert!(dst.raw() <= 9);
                    match op {
                        AluOp::Mul => assert!((1..10).contains(&v)),
                        AluOp::Lsh | AluOp::Rsh => assert!((0..16).contains(&v)),
                        AluOp::Mov => assert!((0..1000).contains(&v)),
                        AluOp::Add | AluOp::Sub | AluOp::Or | AluOp::And | AluOp::Xor => {
                            assert!((-100..100).contains(&v))
                        }
                        _ => panic!("unexpected operation"),
                    }
                }
                Insn::Alu64 { dst, src: Source::Reg(s), .. } => assert!(dst.raw() < 5 && s.raw() < 5),
                Insn::Alu32 { dst, src: Source::Imm(v), .. } => {
                    assert!(dst.raw() < 5 && (-50..50).contains(&v))
                }
                Insn::JmpCond { dst, src: Source::Imm(v), off, .. } => {
                    assert!(dst.raw() < 5 && (0..1000).contains(&v));
                    assert!((1..5).contains(&off) && pc + 1 + (off as usize) < insns.len());
                }
                _ => panic!("unexpected instruction"),
            }
        }
    }
}

#[test]
fn generated_programs_pass_the_verifier() {
    let mut rng = Rng::new(0xC0FFEE);
    for _ in 0..500 {
        let p = generate_program(&mut rng, 24);
        let insns = decode_program(&p).unwrap();
        assert!(nvmirror::verify::verify_program(&insns).is_ok());
    }
}

#[test]
fn generation_is_determined_by_the_seed() {
    let mut a = Rng::new(5);
    let mut b = Rng::new(5);
    let pa = generate_program(&mut a, 16);
    let pb = generate_program(&mut b, 16);
    assert_eq!(pa.len(), pb.len());
    for (x, y) in pa.iter().zip(pb.iter()) {
        assert_eq!((x.opcode, x.regs, x.off, x.imm), (y.opcode, y.regs, y.off, y.imm));
    }
    assert_eq!(a.next_u64(), b.next_u64());
}

#[test]
fn generated_programs_always_compile() {
    let mut rng = Rng::new(7);
    for _ in 0..200 {
        match fuzz_one(&mut rng, 40) {
            FuzzResult::Pass { .. } => {}
            other => panic!("unexpected outcome: {:?}", other),
        }
    }
}

#[test]
fn range_reads_a_negative_span_as_unsigned() {
    let mut a = Rng::new(42);
    let mut b = Rng::new(42);
    let x = b.next_u64();
    let span = (3i64 - 5) as u64;
    let expected = 5i64.checked_add((x % span) as i64);
    if let Some(v) = expected {
        assert_eq!(a.range(5, 3), v);
    }
    assert_eq!(Rng::new(9).range(4, 4), 4);
}

#[test]
fn condition_names() {
    assert_eq!(cond_name(0), "EQ");
    assert_eq!(cond_name(0xB), "LT");
    assert_eq!(cond_name(0xD), "LE");
    assert_eq!(cond_name(5), "??");
}
