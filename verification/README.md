# nvmirror

An eBPF JIT compiler for NVMe controller processors, with its pipeline
proved in Verus:

```
bytecode → decode → verify → lower to IR → emit (AArch64 / RISC-V) → buffer
```

## Layout

- `src/isa.rs`, `src/decode.rs`: the instruction set and a decoder proved
  equal to the grammar `spec_decode_program`.
- `src/verify.rs`: the static verifier. An accepted program has in-bounds
  forward branches (so every run ends), an EXIT, no fall-through off the
  end, an initialization certificate (no read of an unset register, no
  write to R10, stack accesses inside the 512-byte frame) and every
  instruction reachable from the entry. Its result, error or block count,
  is exactly `spec_verify`, the register check stated instruction by
  instruction (`flow`).
- `src/ir.rs`, `src/regalloc.rs`: the typed IR, the fixed register maps and
  the lowering, stated block by block.
- `src/aarch64`, `src/riscv`: instruction encoders (each word stated by its
  fields) and the emitters, with branch relocation.
- `src/engine.rs`: the pipeline (`compile`, `compile_sized`) and the laws
  that tie the stages together (frame safety, targets in range, verified
  programs compile within the dry-run size).
- `src/interpreter.rs`: the reference interpreter, stated step by step over
  `MachineState`; `run` points R10 at the top of its stack buffer first.
  Runs of verified programs read only registers written before
  (`lemma_verified_runs_read_written`).
- `src/shim.rs`, `src/fuzz.rs`, `src/disasm.rs`: helper table and buffer
  sizing, the program generator of the differential fuzzer (its programs
  pass the verifier and compile), and a small AArch64 disassembler.
- `app/`: the command-line visualizer, the userspace executable buffer
  (mmap) and native execution.

Everything under `src/` is verified by Verus; the tests under `tests/` run
the library on concrete programs.
