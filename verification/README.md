# ssf

`ssf` is a structurally-typed strict functional core language, meant as a
target for high-level strict functional languages. This crate builds and
validates its intermediate representation. Its functions are verified with
Verus against a mathematical model of the representation; the two calls into
`petgraph` (strongly connected components and topological sorting) are
trusted, with contracts taken from that crate's documentation.

## Layout

- `src/types.rs`: types (functions, algebraic data types with recursive
  references, primitives), their models and unfolding.
- `src/ir.rs`: expressions, definitions and modules, with their models and
  builders.
- `src/free_variables.rs`, `src/rename.rs`: free variables and renaming.
- `src/environment.rs`: inference of the environments that closures capture;
  `src/inference_laws.rs` proves that inference keeps free variables, infers
  exactly the captured variables, can be applied again to its own result and
  changes nothing when it is.
- `src/module.rs`: module construction (inference and type checking) and
  renaming of global definitions.
- `src/analysis/`: the type checker (with its laws in `type_laws.rs`: what
  each kind of expression is accepted with, and that a module's acceptance
  does not depend on the order of its definitions), the order of
  initialization of global values (through strongly connected components computed by `petgraph`), and
  the reference counting pass.
- `src/backend/`: what code generation shares with the rest: the order of
  initializers (a topological sort computed by `petgraph`), entry function
  names, errors and configuration.
- `app/`: `Display` and `Error` for the error types.

## Not included

- The code generators: compilation to LLVM IR (through `inkwell`) and to
  `ssc` modules. Only what they share with the analyses is here.
- Arrays (array literals and indexing) in expressions and types.
- The continuation-passing-style transformation.
