# A small typed language, verified

A tokenizer, a type-checking recursive-descent parser and a tree-walking
interpreter for a small statically typed language (`let`, `fun` with type
parameters, `struct`, lists, `+`, `-`, indexing, member access and the
built-in `print`), written in Verus.

- `src/token.rs`: source text to tokens.
- `src/ast.rs`: the syntax tree, its model, and type instantiation.
- `src/scope.rs`: what the parser knows while it reads (scopes, functions,
  structs).
- `src/parser.rs`: tokens to a checked syntax tree (`dew_it`).
- `src/interpreter.rs`: running a syntax tree (`top_level_exec`); what
  `print` writes comes back as a list of values.
- `src/output.rs`: the text that the printed values make (numbers in
  decimal, objects as `List([Number(1)])`, `Struct([("a", None)])`, ...).
- `src/text.rs`: character-sequence and association-list helpers.
- `src/laws.rs`: properties that hold for all inputs.
- `app/main.rs`: reads `./examples/main.lang`, runs it and writes its output.

Each executable function is proved to compute exactly its model, a spec
function over sequences of characters, tokens and syntax trees. The
functions named after the language's steps (`tokenize`, `dew_it`, `parse`,
`parse_value`, `Sig::matches`, `calc_value`, `exec`, `top_level_exec`, ...)
require an input that the language accepts; beside each, a checking form
(`try_tokenize`, `try_dew_it`, ..., `Sig::check_matches`) takes any input and
answers `None` (or `false`) exactly where the language rejects it.
