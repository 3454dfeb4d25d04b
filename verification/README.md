# ontixa

The core of the Ontixa compiler workspace, in Verus: everything between a
syntax tree and what a command prints is executable Rust whose contracts
Verus proves.

- **Syntax and names** — lowering of a lossless syntax tree to the AST
  (`ast_*`), item-relative coordinates (`rebase`), name resolution over a
  workspace (`resolve`), lowering of bodies (`hir_*`).
- **Incremental queries** — the memo table, early cutoff and the demand
  state machine (`engine`, `query`), what each query demands
  (`evaluate`, `workspace`), and the proofs that a demand yields what a
  clean build would (`engine_laws`), that a check reports what a compile
  reports (`check_laws`) and what its run costs (`check_run`).
- **Source transactions** — semantic renames (`rename*`, `target`),
  structured patches (`patch*`, `seam`, `splice`), sessions and their
  guards (`session`, `snapshot`), where their edits lie in the texts
  (`spelling`, `plan_spans`, `rename_spans`; `resolve_names`,
  `param_names` and `lower_spelling` show it of resolved scopes and
  lowered bodies), and what becomes of a plan (`plan_laws`).
- **Durability** — the journaled multi-file commit and its recovery as
  state machines over file-system calls (`transaction`, `recovery`,
  `persist`, `commit`, `paths`), with proofs over a model of the disk:
  what a transaction keeps (`durability`) and leaves (`leftovers`), that
  one that nothing hinders ends and commits (`progress`), what a recovery
  settles (`recovery_laws`), and what becomes of a transaction that was
  killed (`crash`).
- **Output** — diagnostics, rendering, the JSON envelope, `explain`, the
  commands and the daemon's replies.

`src/` is the library, `tests/` its tests, `app/` the program around it:
argument parsing, the file system, and the front end (lexer, parser,
checkers, interpreter), which runs as a separate executable named by
`ONTIXA_FRONTEND`.
