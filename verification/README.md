# sarif_codegen

The backend of the Sarif compiler: its mid-level IR (MIR), the analyses on
it, the C and native (Cranelift) code generators, and the byte-level helpers
of the native runtime, written in Verus with their contracts proved.

## Layout

- `src/` — the verified library.
  - `mir`, `pretty`, `text`: the IR, its printer, decimal text helpers.
  - `analysis`, `escape`, `infer`, `kinds`, `trusted`, `text_data`: analyses
    over instruction trees (fall-through, defined values, escapes, value
    kinds, trusted list accesses, text constants).
  - `c`, `c_emit`, `lower_type`: the C emitter.
  - `values`: interpreter values, their rendering, type checks and enum tags.
  - `interp`: the interpreter's evaluation of text queries, text
    concatenation and slices, integer parses of a text range, enum tag tests, field and payload reads, integer
    arithmetic, ordering comparisons and structural equality (float
    arithmetic and ordering are handed back over their bits), the handler
    arm that a `perform` reaches, what a `while` does with its condition and
    how often a `repeat` runs, the checks before running a function, and
    its text builders and lists.
  - `bindings`: the interpreter's bindings of values and locals, their
    copies, and the reads and writes that locals, calls and branch, handler
    and body results make of them.
  - `native`, `clif`, `lowering`: native value kinds, the declarations and
    contracts of the Cranelift calls (over a model of the function being
    built: its values, blocks, and instructions with the block each is in),
    and the lowering of MIR to Cranelift IR, with the layout of the blocks
    of each `if`, `while` and `repeat`.
  - `object`: the error of the object-file backend.
  - `runtime`, `byte_access`, `text_builder`, `list_sort`, `runtime_list`,
    `text_index`: the runtime's text, byte-buffer, builder, list and text
    index operations, over safe buffers.
- `tests/` — tests of the library.
- `app/` — what stays outside the proofs: the MIR interpreter's loop (the
  walk over the instructions, the nested bodies, calls, handler frames and
  float computation), the declaration
  of runtime helpers in a Cranelift module, and object-file emission.

## What is not here

- The lowering from the front end's HIR to MIR (`lower`, the function
  lowerer and the compile-time evaluator). Its input types belong to the
  project's front-end crates (`sarif_frontend`, `sarif_syntax`), which this
  crate cannot depend on and whose definitions are not available to it, so
  it starts from MIR.
- The MIR interpreter's loop is in `app/`, unverified: the walk over the
  instructions and the nested bodies, calls and handler frames, and every
  float computation (the library cannot hold IEEE-754 floats). The
  library's `interp` and `bindings` modules make its decisions on values,
  locals, results and instructions, and the loop calls them.
- The JIT backend: it runs generated machine code through raw function
  pointers. Its runtime helpers that compute on texts, bytes, lists, the text
  index and the arena are in `src/`, written over safe buffers.
