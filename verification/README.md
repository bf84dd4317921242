# gisor

A small emulator of a CUDA-style GPU, verified with Verus.

`src/` is the verified library:

- `ptx_lexer`, `ptx_parser`, `lowering`, `frontend`: PTX text to tokens, to raw
  instructions, to the emulator's instruction list, each step specified by a
  spec function over the text (`sp_ptx`).
- `c_signature`: C signatures, full (`void k(float *a, int n)`) or demangled
  (`k(float*, int)`), read into parameter lists (`sp_c_kernel`, `sp_c_sig`).
- `memory`: the byte-addressed device store (allocate, release, copy in and out).
- `execute_unit`, `thread`, `warp`, `sm`, `warp_scheduler`, `basegpu`: the
  device: a launch spreads blocks over free warps, each round runs one warp
  chosen by unit class and priority, and each clock of a thread is the spec
  function `step`. Floating-point work is handed back to the caller as bit
  patterns (`StepOutcome::Float`) and finished with `complete_float`.
- `c_abi`: the fixed-size instruction records of a C reader and their conversion.

Outside crates are reached through two trusted wrappers: `cpp_demangle` (symbol
demangling, `basegpu::demangle_symbol`) and `rand` (allocation addresses,
`memory::random_u64`); one more wraps `String::push`.

`app/` is the unverified host side: the CUDA runtime entry points, the
process-wide device, the run loop that evaluates floating-point requests, CSV
dumps (`csv`, `serde`) and a PTX reader command.

`tests/` exercises the library on concrete inputs, including a full `addKernel`
launch.
