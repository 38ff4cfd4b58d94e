# wlwl_eval

The verified core of the WLWL tree-walking interpreter, written in Verus.
Every function in `src/` is verified by Verus; the public ones carry
contracts that say what they give.

What the library holds:

- `value`, `text`, `double`: values (FLOATs are kept as IEEE 754 bit
  patterns), error codes, decimal and hexadecimal texts, double comparison.
- `builtins`, `arith`, `strings`, `collection`, `lookup`, `compare`,
  `convert`, `format`, `console`, `compat`: the built-in functions, each
  with its arity and type errors stated exactly.
- `callbacks`, `sorting`: the built-ins that call back into the program,
  written as step machines that the evaluator drives (it runs each
  callback and hands back its result); a stable insertion sort.
- `eval`, `dispatch`: the evaluator itself (expressions, calls, closure
  calls, loops, `TRY`/`ERR`, `MATCH`, the top level) and the dispatch of
  built-in calls. Evaluation is bounded by a fuel count. What the
  evaluator needs from its surroundings (the console, FLOAT arithmetic and
  text, parsing `FORMAT` templates, loading modules, native module
  functions) it asks of a `Host`, and it is correct for every answer.
- `env`, `patterns`, `control`, `imports`: lexical environments over a
  shared store of cells, pattern matching and destructuring, the
  evaluator's control-flow decisions, closure frames, `IMPORT`/`EXPORT`.
- `registry`, `diagnostics`, `modpath`, `suggest`, `channel`, `json`: the
  built-in registry, diagnostics and their notes, module paths, "did you
  mean" suggestions, bounded channels, and the JSON model of values.
- `laws`: properties relating several functions, proved as lemmas.

`app/` is ordinary Rust around the library: a `Host` for a process (the
standard streams, float formatting and arithmetic), serde_json documents
and file system access. `tests/` exercises the library.
