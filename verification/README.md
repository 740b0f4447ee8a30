# hk, verified core

The logic of the `hk` git hook manager, proved with Verus.

- `src/path.rs`: relative paths as component lists, their order and prefixes.
- `src/path_set.rs`: a sorted set of paths, each held once.
- `src/indexed.rs`: the `indexmap` collections the steps use.
- `src/step.rs`: steps, profile selection, the command for each run type.
- `src/workspace.rs`: the search for the workspaces of a linter's files.
- `src/step_run.rs`: the decisions around running a step's command.
- `src/git.rs`: stashing unstaged changes and bringing them back, patches,
  file lists.
- `src/text.rs`: decimal numerals and substring removal.
- `app/`: the repository access through `git2`, configuration through
  `serde`, command-line options through `clap`.
