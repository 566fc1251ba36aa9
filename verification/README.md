# rmds

Find and remove macOS metadata (`.DS_Store`, AppleDouble `._*` files and
`__MACOSX` folders) in ZIP archives, folders and Git working trees.

The crate is a Verus-verified library with a thin command-line program
around it:

- `src/` — the library. Every rule and decision lives here with its
  contract: the metadata names, the command-line syntax, which ZIP entries
  are refused, dropped or copied, how a folder or a working tree is scanned,
  how Git's answers are read and how each candidate is classified, and the
  checks that must pass before anything is removed. Scans and removals are
  state machines: they ask for one observation at a time and decide from
  what they are told.
  - `metadata.rs` — which names are metadata.
  - `bytepath.rs` — `/`-separated byte paths as the host reads them.
  - `cli.rs` — the command line, the confirmation, colors.
  - `zip_cleaner.rs` — entry names, the per-entry plan, input and output
    checks.
  - `folder_cleaner.rs` — folder scanning and in-place removal.
  - `repo_cleaner.rs` — repository discovery, working-tree scanning, Git
    status, and removal.
  - `order.rs`, `observation.rs`, `text.rs` — ordering by path, observed
    values, and how bytes are shown.
- `app/` — the program: it reads the filesystem, runs Git, reads and writes
  ZIP files and prints, feeding the library's state machines.
- `tests/` — tests of the library on concrete values.

Paths are handled as Unix hosts handle them: raw bytes with `/` as the only
separator. The program is built for Unix-like systems (it reads names as
bytes through `std::os::unix`). Host paths in Windows form, with `\`
separators and drive prefixes, are not supported.
