# homeos

homeos manages a machine's setup as packages: each package is a directory of
`install`, `update` and `uninstall` scripts (`.sh` on Unix, `.ps1` on
Windows), declared in `homeos.yml` with its dependencies, script aliases and,
optionally, a plugin whose templates generate the scripts. A machine-local
`state.yml` records what is installed.

## Layout

- `src/` — the library, verified with Verus. It holds the commands'
  decisions: which packages an action covers (dependency closure in both
  directions), how a plan classifies them, what the installed list becomes
  after a script ran, how declarations are edited, what each listing prints,
  how plugin templates are rendered, what refreshing a plugin found, how
  release tags compare, what a command writes before asking and what it
  does after the answer, and how errors are reported. What stays outside
  is reading and writing files, running git and scripts, the network, and
  walking directories.
  - `strmap.rs` — a name-ordered map (the configuration's tables).
  - `config.rs`, `state.rs`, `context.rs` — the data and where it lives.
  - `deps.rs`, `plan.rs`, `apply.rs` — what install, update, uninstall and apply act on.
  - `topo.rs` — the order they run in: dependencies first, cycles set aside.
  - `action_plan.rs` — the plan install, update, uninstall and apply show and run: what each
    package gets (run, or skipped as disabled, dependency disabled, already installed, not
    installed, circular dependency, script unmodified), its display, and the run's output steps.
  - `guide.rs` — the command reference of the agent guide, built from the command tree.
  - `registry.rs`, `template.rs` — declaring and editing packages.
  - `plugins.rs`, `refresh.rs`, `table.rs` — plugins and their listings.
  - `shell.rs`, `git.rs`, `init.rs`, `completion.rs`, `update_check.rs`, `error.rs`.
- `tests/` — tests of the library.
- `app/` — the `homeos` program: argument parsing, YAML files, git, scripts,
  the network and the terminal. It loops over a plan's jobs, running each
  script and handing the outcome to the library's step functions. The
  `agents-md` command prints only the command reference: the guide's own
  text is not part of this program.
