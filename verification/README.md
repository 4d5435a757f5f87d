# Mieli

Mieli is a desktop Markdown editor: it opens Markdown files or whole
workspaces, keeps one tab per file, autosaves, watches the disk for
changes made elsewhere and remembers the files opened recently.

This crate is its verified core. Every decision the editor takes lives in
`src/` and is proved with Verus against its contract:

- `app::workbench` — the editor's state (tabs, the path index, questions
  put to the user, notifications) and every command on it: opening,
  saving, Save As, autosave, closing, switching tabs, reacting to changes
  on disk, Recent Files, the workspace tree.
- `app::lifecycle`, `app::tabs`, `app::modals`, `app::open_tabs`,
  `app::scan` — the pieces those commands are built from.
- `config::recent` — the Recent Files list.
- `file` — file errors, the workspace scan (what is listed next, which
  failures end it, the tree it builds), watcher bookkeeping, file URLs.
- `ui` — the workspace tree's rows and expansion, the empty editor area.
- `i18n`, `actions`, `pathname`, `text`, `state` — labels, commands and
  key bindings, path handling, strings and the shared data types.

The disk, the clock, the file watcher and the widgets are the
application's (`app/`, ordinary Rust on GPUI and Bezel): it performs the
I/O and hands the results to the library as values or as the functions
that produce them (reading and writing files, writing Recent Files back,
listing a directory).
