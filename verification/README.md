# ox

An event-sourced workflow engine that runs multi-agent teams in sandboxes. This crate
holds the rules of ox as a Verus library: every function states what it returns or
changes, and Verus proves it.

## Layout

- `src/` — the library.
  - `workflow`, `interpolation`, `runtime`, `persona`, `config`: definitions, templates,
    the step graph, retry budgets, triggers, and how configuration layers combine.
  - `events`, `types`, `json`, `client`: what travels between the programs.
  - `herder`: the scheduler's view of the world, what events change in it, and what it
    decides.
  - `runner`, `rt`: the course of a step on a runner, the messages of its processes, the
    scan of its log, the counters of its proxies.
  - `watcher`: what the cx watcher makes of a repository.
  - `ctl`: what the command line tool shows, and the ensemble that it starts.
  - `text`, `strmap`, `paths`: texts, maps and paths.
- `app/` — the programs around it: `ox-herder`, `ox-runner`, `ox-rt`, `ox-ctl` and
  `ox-cx-watcher`. They read, send and wait; decisions come from the library.
- `tests/` — tests of the library from outside.

What the library takes from other crates (JSON, TOML, regular expressions, ordered maps,
base64, times) is called through small functions whose contracts are believed, each with
a comment that says what it claims.
