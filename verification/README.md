# trace_parse

Lowering of C and C++ sources into functions, variables, calls and flow
constraints, and the merge of the lowered units into one program.

`src/` is the library. Verus proves the contract of every function in it, save
the few wrappers named below, whose contracts it takes as given. It reads syntax
trees as plain rows (`syntax`, `parse`), decides what a declaration, a call or a
value means (`declarator`, `types`, `lookup`, `candidates`, `overload`, `routes`,
`flows`, `emit`, `collect`, ...), and merges units (`merge*`, `unit`, `merging`,
`target`, `selection`, `finalize`, `dispatch`, `externs`). What holds across functions is stated as public proof
functions whose names start with `law_`: what building a program keeps in
`upkeep`, and that a configuration which repeats another adds nothing in
`configurations`, over `repeated_vars`, `repeated_calls` and `repeats`.

What the library takes on trust is small and stands beside its use: the parser
and its cursor in `parse`, the hash tables in `idmap`, and a few functions on
characters and strings in `text`.

`app/` is the ordinary code around the library: the worker pool, the walk that
asks the type and symbol tables, and the loops that merge units. The tables, the
preprocessor and the project layout come in through the traits in
`app/neighbours.rs`.

`tests/` runs the library, with the parser linked in.
