# Vyākṛti

A Sanskrit-oriented programming language: lexer, parser, kāraka-driven type
checker, macro expansion, derives, monomorphization, constant folding, borrow
and exhaustiveness checks, a bytecode compiler and a stack machine, with the
language services of its editor backend.

## Layout

- `src/` — the library, verified with Verus. Each pass is stated as a spec
  function over a mathematical model of its input (`ExprM`, `NodeM`, token
  and value models), and the executable code is proved to compute it.
  Laws that relate several operations are public proof functions named
  `law_*` (and a few `lemma_*` on the bytecode and type encodings).
- `tests/` — tests of the library on concrete inputs.
- `app/` — the `vy` command line and the HTTP/WebSocket editor backend: file
  and network I/O, the host side of the machine (floating-point arithmetic,
  printing, foreign calls), JSON, and executable memory for the JIT.

The machine's `step` decides one instruction at a time and hands the host
what only the host can do; `app/host.rs` runs the loop.
