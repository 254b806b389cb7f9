# vesselc

The front end of the compiler for **Vessel**, a language in which a program is
a network of vessels, each with a kappa value in `[0, 1]`.

The library (`src/`) is written in Verus and proved:

- `lexer` — the token stream of a source text, with line and column of each
  token, and the lexical diagnostics;
- `parser` — the recursive-descent parser, specified by a grammar of spec
  functions over the tokens;
- `decimal`, `fixed` — exact decimal numbers, used for every literal and
  every range bound, and their four-decimal rendering in diagnostics;
- `kappa_infer` — kappa range inference, rules R1–R4 and R7–R9: seeding,
  forbidden-zone exclusion, coupling safety, boundary narrowing, function
  ranges and the composition check, each stated as a spec function over the
  program;
- `laws` — properties of ranges and of inference proved for every input;
- `comments` — a `--` comment adds no token, proved over the lexer's
  specification;
- `compile` (in `lib.rs`) — lexing, parsing and inference in one pass, with
  the law that it stops at the first diagnostic.

`app/` holds the command-line program and the LLVM code generator, which
works with floating point and the `inkwell` crate; rule R5 (α = ln κ) is
computed there, in floating point. Rule R6 is not implemented.
