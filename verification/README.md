# lox

A scanner, parser and resolver for the Lox language, with the scope chains
and the value rules of its interpreter, written in Verus and proved against
mathematical models of what each part computes.

- `src/` is the verified library:
  - `scanner` turns source text into tokens (`scan_from` is its model);
  - `parser_spec` states the grammar as functions on token sequences, and
    `parser` is the recursive-descent parser proved to compute them;
    `parser_ids` proves that expression numbers increase through a parse;
  - `resolver_spec` and `resolver` find how many scopes out each local
    variable is declared and report unused ones;
  - `environment` holds the scopes of a running program, with laws on
    reading back what was defined or assigned;
  - `semantics` holds the interpreter's rules that do not depend on the
    numbers themselves; `printer` prints tokens and expressions;
  - `token`, `ast`, `text`, `utility` and `lox` hold the shared types and
    error messages.
- `app/` is the `jlox` program and the tree-walking interpreter, whose
  values hold floating-point numbers.
- `tests/` runs the library on concrete programs.

Two structures differ from a plain interpreter's: each resolver scope is a
sequence of variables whose names stay distinct, rather than a hash map from
names, and the environment keeps every scope of a run in one store, each
scope named by a number and linked to the one enclosing it, rather than a
chain of shared, mutable cells. Number literals are kept as the text that
spells them; equality and printing go by their shortest written form, which
agrees with their double-precision value for numbers of at most 15 digits.
