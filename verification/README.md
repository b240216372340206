# hyper_scripter

A verified core of a manager of small scripts: scripts are named (`dir/name`)
or anonymous, carry tags and a type, and are found again by exact name, by
fuzzy search, by recency (`^n`) or by wildcard patterns. The crate is written
in Verus: every function in `src/` carries a contract that Verus proves, but
for the few trusted wrappers around outside crates, whose contracts are taken
as they are written and each say what they claim.

## Layout

- `src/` is the library. Among its modules:
  - `script`, `script_type`, `tag`, `template`: script names, types (with how
    each runs and the text a new script starts from), tags and tag selectors;
  - `query`, `lookup`, `fuzzy`, `multifuzz`: reading queries and finding scripts;
  - `repo`, `event`, `historian`: which scripts are shown, and what a run records;
  - `list`, `list_impl`, `tree_lib`, `table`, `grid`, `time_fmt`, `word_wrap`,
    `color`: listings as groups, trees, tables and grids, and the times they show;
  - `config`, `config_edit`, `completion`, `args`, `path`, `render`: the
    configuration, shell completion, command lines, paths and templates.
- `tests/` holds the tests, run against the compiled library.
- `app/` is the command line around the library: argument parsing, the
  configuration file and the home directory on disk. The commands that work on
  the scripts themselves need the script database, which `app/` does not hold.

The outside crates the library calls (`regex`, `handlebars`, `fuzzy-matcher`,
`unicode-width`, `term_grid`, `chrono`) are reached through a few trusted items, each documented with
what its contract claims.
