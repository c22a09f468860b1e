# jellycat

`jc` manages Jujutsu (`jj`) changesets as stacks of GitHub pull requests.

The crate is in two parts:

- `src/` is the library, verified with Verus: the configuration and its
  keys, the PR ↔ change-id stores, the `jj` and `gh` command lines the tool
  runs, the reading of their output, and the decisions of each subcommand
  (what to link or unlink, which mappings `tidy` forgets, the stack
  navigation written into PR bodies, how `status` shows a timestamp, …).
  Each public function states its result in its contract; the `law_*`
  proof functions state what holds across calls.
- `app/` is the `jc` program: argument parsing, running the processes,
  prompts, spinners and output. It hands what it reads to the library and
  does what the library decides.

`tests/` exercises the library on concrete values.
