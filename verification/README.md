# kimi-ui

A desktop shell for the Kimi Code web UI: official daemon, official UI, native
window. What the shell decides is a library that [Verus](https://github.com/verus-lang/verus)
verifies; windows, sockets, files and processes are ordinary Rust around it.

- `src/` is the library. Every function states in its contract what it returns
  or changes, and the properties that hold across functions are public proof
  functions beside it.
  - `text`, `json`, `net`, `version`, `http`: texts, documents, addresses,
    versions, the daemon's HTTP interface
  - `registry`, `attach`, `boot`, `restart`: finding a daemon, attaching to it,
    starting one, restarting it
  - `web`, `connections`, `tabs`: the pages to show, connections and the tab bar
  - `static_server`, `embedded`: the loopback server for the web bundle
  - `sessions`, `menu`, `chrome`, `download`, `usage`, `update`, `rc`, `cli`,
    `terminate`:
    session list and snapshot, menu bar, window parts, downloads, plan quota,
    updates, Remote Control, command lines, ending child processes
- `tests/` runs the library on concrete values.
- `app/` is the program: the window layer, the commands of the pages, and the
  loops that carry out what the library's steps ask for.

Work on processes and sockets alternates with decisions. There the library has
a step type that says what to do next and a function from step and outcome to
the next step; `app/` performs the step and hands back the outcome.

What the library has from outside stands behind small declarations whose
contracts Verus believes without proof. The comment above each names the outside
function and says what is claimed of it. They cover calls into `serde_json`,
`url`, `base64` and `include_dir`, and three functions of std: `String::push`,
`String::from_utf8_lossy` and `str::to_lowercase`.
