# herdr-reviewr

The backends of a code-review pane: which files changed in a git or Sapling worktree, against which
base, and what they held there.

The library under `src/` is verified with Verus. It runs no command and touches no file. An
operation takes the answers gathered so far (`answers`) and either finishes or names the questions
it still needs answered: a command to run, a file to read, a plan of writes. The caller answers them
and asks again. `app/` is that caller.

- `sl`, `rows`, `base`, `content`, `last_turn` read a Sapling repository: the changed files of a
  scope, the base chain, content at a revision, and the last turn.
- `store` and `turn` keep the base pick and the turn baselines in a directory of their own. Nothing
  is written inside a Sapling repository.
- `paths` turns a path of the system into a text and back, without losing a byte of one that is not
  UTF-8.
- `vcs` is the boundary between git and Sapling.
- `durable` and `conduct` hold what is true across operations: what survives a crash, what reads
  back, what a prune leaves, and that every question only reads or writes inside the store.
- `outside` holds the calls into other crates, each with what is taken on trust.
