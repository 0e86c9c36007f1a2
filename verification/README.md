# Emela

A compiler for Emela, a small language in which functions with effects carry a mark and declare the
capabilities they need. The library is written in Verus: what each function returns is stated in its
contract and proved.

## Layout

- `src/seed/` is a complete compiler of the core language: lexer, parser, type inference and a
  generator of Rust programs.
- `src/lexer.rs` and `src/typecheck/` are the front end of the full language: string literals,
  annotated types, structs, enums, generic types, function values, imports, effects and
  capabilities.
- `src/slots.rs`, `src/names.rs`, `src/capability.rs`, `src/text.rs`, `src/bytes.rs` and
  `src/ascii.rs` hold what both share: classes of type slots, maps by name, sets of capabilities,
  and texts.
- `app/` is the command line program. It reads and writes files and calls `rustc`.
- `tests/` runs the library.

## What is proved

Each phase has a model: the tokens of a text, the tree of a list of tokens, the types of a tree, the
text of a program. The executable functions agree with their models on every input, down to the
diagnostics. Beyond that, the functions named `law_...` state what the models promise:

- Tokens that are spelled out are read again, and a program that is written down reads back as that
  program.
- The types that are inferred for the core language are the only ones under which a program is well
  typed, and a program that is rejected is well typed under none, unless a type is left
  undetermined.
- In the full language, the body of an accepted function has the type of its annotation, unless a
  type parameter is left open in it.
- Effects and capabilities reach the callers, come from calls only, and stay within what the
  platform provides. A function without a mark makes no call with effects.
- A comment at the end of a text of the core language changes nothing but where the text ends.
- Once the types of a program are registered, the variants of each enum belong to that enum.
- A match that is accepted has an arm for each value; in the full language, where the payload
  patterns of its arms take any payload.
