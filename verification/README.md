# termica

The verified core of Termica, a native terminal workspace, with the program around it.

`src/` is the library, proved by Verus against the contracts that its functions carry:

- `vt`, `osc`, `markers`, `json`: what the shell's integration script reports in the byte
  stream.
- `pane`: what a pane decides in a frame (`drain`), at Enter (`submit`, `framing`), for
  completions (`completion`) and over its finished blocks (`sealed`).
- `input`, `keybindings`, `pane_slot`, `startup`: keys, shortcuts, pane numbers and the
  command line.
- `history`, `history_overlay`: the shells' history files, recording, recall, ranking and
  the search overlay.
- `persist`: the file format of stored scrollback, its writing, restoring and cleaning up.
- `links`, `paths`, `grid`, `lines`: URLs and paths in what the terminal shows.
- `block`, `block_selection`, `pane_selection`: what is known of a block, and selections
  over blocks.
- `integration`: how a shell is started.
- `pr_context`: the state of a pull request's checks.

What the library claims as a whole stands in public proof functions whose names start with
`law_`.

Calls into other crates stand in small functions marked `external_body`; their contracts are
what the proofs rest on, and their comments say what is claimed.

`tests/` runs the library. `app/` is the program: the window, the database, the files, the
shell and the threads.
