# debugger_sh

A source-level debugger for C and C++ programs that run as WebAssembly in a
browser. A program is instrumented so that it saves what its variables need and
calls a breakpoint function at every statement; the debugger reads the saved
values, the program's memory and its DWARF debug information, and speaks the
Debug Adapter Protocol.

`src/` is a library verified with Verus. It makes every decision:

- `debug/dwarf`: units, entries, attributes, line tables and expressions
- `debug/types`, `graph`, `variables`, `evaluate`: types and values
- `debug/formatters`: how values are shown, with their children; trees are
  proved to be listed in their order
- `debug/instrument`: which instructions a function is given, and a machine
  model in which it is proved that they leave the program as it was and that
  what they save is what is read back
- `debug/info`, `debugger`: what is known of a program; frames, breakpoints,
  scopes, steps
- `dap`: the protocol
- `host`: the call stack and variables of programs whose frames hold numbers
- `worker`: pausing, standard streams, and what is built and run
- `wasm`: modules
- `breakpoints`: a report on what instrumenting has added

Calls into `gimli`, `wasmparser`, `tar` and `flate2` stand behind small trusted
functions whose contracts say what is relied on.

`app/` is ordinary Rust around the library: shared buffers, messages, the
encoder and the engine that runs programs.

`tests/` runs the library on small programs.
