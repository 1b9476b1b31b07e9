//! eBPF JIT compiler core: ISA definitions, bytecode decoder, static
//! verifier, IR lowering, AArch64 / RISC-V encoders and emitters, and a
//! reference interpreter.

pub mod isa;
pub mod decode;
pub mod verify;
pub mod ir;
pub mod regalloc;
pub mod interpreter;
pub mod aarch64;
pub mod riscv;
pub mod engine;
pub mod shim;
pub mod fuzz;
pub mod disasm;
