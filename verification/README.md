# rhymr

The core of a lyrics editor that colours rhymes, written in Verus: every
function in `src/` carries a contract and is proved against it.

- `src/setting/` — the settings registry, the flat `key=value` settings file
  (loading, saving, and the proof that a saved file loads back), and the
  settings dialog's category tree.
- `src/keymap.rs` — rebindable shortcuts, their file, and how an
  accelerator reads on screen.
- `src/rhyme/` — pronunciations, syllable spans, rhyme units, the
  union-find that merges matched syllables into colour groups, and the
  exact-key fallback for unknown words.
- `src/css.rs` — the colour palette and the runtime stylesheet block.
- `src/source/`, `src/platform.rs` — the Apple Notes tree.
- `src/git.rs` — the decisions behind the git integration.
- `src/terminal.rs`, `src/session.rs`, `src/dock.rs`, `src/config.rs`,
  `src/logging.rs` — terminal input, remembered view state, paths and
  logging levels.
- `app/` — the process shell: files, the Notes script, libgit2, SCSS
  compilation and logging output.
