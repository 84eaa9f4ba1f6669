# wasm_jit

A small compiler for a C subset (ints, floats, `char` pointers, structs,
function calls) that lowers source to a WebAssembly-style module and then
to x86-64 machine code, with the runtime pieces a JIT needs: linear memory
and import resolution.

- `src/` is the library, verified with Verus: the lexer, the
  recursive-descent parser, the lowering to the stack machine, the x86-64
  instruction encoder and single-pass code generator, linear memory, the
  import table and linking. Beside the code stand the properties proved
  of it: printed programs parse back to themselves and spelled tokens lex
  back to themselves, lowered code refers only to existing locals and
  functions, string data is laid out without gaps or overlap, local slots
  lie inside the stack frame, and memory reads give back what was written.
- `app/` is the command-line driver and the parts that need the operating
  system: executable memory (via `winapi`, Windows only) and jumping into
  the generated code.
- `tests/` exercises the library.
