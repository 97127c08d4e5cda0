# Niebo

Niebo is an experimental systems-programming language. This crate is its
front end, written in Verus: every function of the library carries a
contract that Verus proves.

## Layout

- `src/parser.rs`, `src/parser/`: the parser, from characters to the syntax
  tree. Lexical pieces (whitespace, words, keywords, numbers, string
  literals and their escapes), paths and types, expressions (operands and
  the operators after them, ordered by precedence in `precedence.rs`),
  statements, definitions, imports and whole modules.
- `src/ast.rs`, `src/ast/`: the syntax tree (modules, definitions,
  functions, traits, expressions), the project model and its `chmura.toml`
  manifest, the simplification that rewrites operators and `while` loops,
  and the validator (symbol tables, scopes, types of expressions).
- `src/ast/project/cimports.rs`: the model of C declarations read from
  headers and their conversion into Niebo types.
- `src/general/`: qualified names and types.
- `src/ir/`: the core library project that every project depends on, and
  the lowering (`lowering.rs`) of a validated project to a plain
  intermediate form of functions, blocks and instructions.
- `src/numbers.rs`, `src/text.rs`: decimal numbers and text helpers.
- `app/`: the command line program: argument handling, reading projects
  from disk, reading C headers through libclang, and replaying the lowered
  module through LLVM (inkwell) into `out.ll` and `out.o`.
- `tests/`: tests of the library.

## Main properties proved

- The expression builder orders operators by precedence and always builds
  an expression from a well-formed operator string.
- Intrinsic names round-trip: the name of every intrinsic reads back as
  that intrinsic.
- Symbol tables: a fresh validator knows `nullptr` and nothing else; a
  registered global is found; a local scope shadows the outer ones; pushing
  and popping a scope restores the tables.
- Type equivalence (`Type::same_as`) is reflexive, symmetric and transitive.
- Written text reads back: an operator chain such as `a + 1 * b` parses to
  the operations it writes (nested to the right, as the grammar reads a
  binary operator's right operand as a whole expression), as an expression,
  as a statement with its `;`, and as the statements of a block (`break;`
  included); a plain path `a::b::c` parses to its segments; a name with
  calls, member accesses and method calls after it (`a().b(10).c`) parses
  to them applied in turn, and so does a term in brackets with postfixes
  after it (`(a().b)(10)`); two such terms joined by an operator
  (`a().b + c.d()`) parse to that operation of the two; a comparison
  `i < 10` or `a <= b + c` parses to the comparison of the name with the
  chain after it; intrinsics (`@add_i32(a, b)`) parse to the kind their
  name reads as, and string literals to their unescaped text. Compound
  forms read back in order: `while (c) { .. }`, `if (c) { .. } else { .. }`,
  `loop { .. }` and a block as an operand (conditions a chain in brackets,
  bodies blocks of chains, calls on one string and `break`), an
  assignment `x = e`, an index `v[e]`, a struct literal `P { x: e, .. }`
  and a prefix `&`, `*` or `-`, which takes the whole chain after it; which parts are constant follows
  the constructors (member accesses and method calls are, the rest not).
- Items read back: imports, single (`import core::traits::Add;`) or
  grouped (`header stdio::{printf, puts};`), give one import per name, in
  order; with primitive types `t` and operator chains `e`,
  `let mut? x (: t)? = e;` gives its name, mutability, type and value, and
  `fn f(a: t, ...) -> t { ... }` its name, parameters, return type and
  statements; `inter T { fn ...; fn ... { ... } }` holds every declared
  or defined function under its name (the last of a name), with its body; `type A = t;` and `struct S { f: t }`
  give their name and target or members; a module text made of such
  imports, functions, traits, aliases and structs gives them all, in order.
- Checking and typing an expression never alter a scope that was open
  before them; a check that succeeds has checked each operand, condition,
  branch, index, callee, argument, loop body and reached block statement
  (a call's arguments are not compared with the callee's parameters), and a
  type is made of the types of the parts. On literals and names of
  variables or types, a binary operation, an assignment, a `while`, an
  `if` and a unary operation check exactly when their types agree, and a
  block of such statements and of typed local definitions checks; the name
  of a function has the function's type, its parameters unnamed.
- `while c { t }` is rewritten to `loop { if c { t } else { break; } }`,
  which leaves exactly when `c` fails.
- Validating a module defines every definition and every function imported
  from a C header, with the header's return and parameter types; a name
  stands for the symbol of its last definition, and the type table records
  the type of the last definition of each type name.
- C type conversion and header reading are stated exactly over a model of
  the declarations.
- Lowering is stated exactly by a spec function over the project: C
  imports become external declarations with the header's types, each
  function's body becomes blocks and instructions (a `while` its condition,
  body and end blocks joined by a conditional branch), and the module
  carries the project's name; it fails exactly on the expression kinds the
  lowering does not handle.
