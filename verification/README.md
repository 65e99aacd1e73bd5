# uic_tui

The verified core of a terminal runtime for HTML-defined components: the
decisions and text handling a terminal host makes, with their behaviour
stated as contracts and proved.

- `src/` is the library. Each module states its model in spec functions
  and proves the executable code against it:
  `strings` (character sequences, numerals, character classes), `text`
  (whitespace collapse, greedy wrap in cells, glyph rotation), `keys` and
  `keymap` (DOM key names and terminal key events, both ways), `dialog`
  (the alert/confirm/prompt box and its layout), `ansi` (the xterm screen
  model: SGR streams, shadow grid, pending output), `focus`, `focus_tree`
  and `overlay` (keyboard and pointer routing, focus rings, overlay
  outcomes), `calendar` (the date widget's arrow roll-over and month
  pages, with chrono's date arithmetic), `commit` (the widgets a subtree
  commit transplants or stashes), `lint` (the template compatibility lint), `widget`, `css`,
  `layout` and `render` (widget detection, styles, hit testing, grid
  placement, the document paint's per-node decisions), `expand`
  (template expansion into the render tree of a frame), `dataset`, `qr` and `worker` (dataset keys, QR text size,
  worker-tree module rewriting), with `rewrite_laws` proving that the
  module rewrite, applied twice, changes nothing more.
- Laws that relate several calls are public proof functions named `law_*`.
- `tests/` runs the library on concrete values.
- `app/` holds what talks to a real terminal or the file system: the
  ratatui backend and dialog paint, crossterm event conversion, the error
  type hosts see, and the worker's file copy.
