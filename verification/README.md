# icicle_jit_mem

Code generation for guest memory accesses in a just-in-time compiler that builds functions with
Cranelift, verified with Verus.

The generated code for a load or a store

1. checks that the address is aligned,
2. looks the page of the address up in a translation cache,
3. checks the permissions of every byte, and
4. accesses the host's memory in the byte order of the guest.

Where one of the checks fails it calls a function of the emulator instead.

- `src/` is the library. Each function that adds code states exactly which instructions it adds, and
  `src/laws.rs` and `src/paths.rs` prove what these instructions do when they run.
- `src/clif.rs` holds the calls into Cranelift; their contracts are taken from its documentation and
  source.
- `tests/` looks at the generated code as text and runs it in Cranelift's interpreter.
- `app/` connects the library to the rest of a compiler.
