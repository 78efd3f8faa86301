# openuuyc

The verified core of the OpenUUYC remote-desktop client, written in Verus.

- `src/` is the library. Every function in it carries a `requires`/`ensures`
  contract that Verus proves; the `lemma_*` proof functions state laws that
  span several functions (round trips of the clipboard bitmap, ANSI and UTF-16 text
  encodings and of plugin descriptor sections, undo/redo, the notice queue,
  the device menu order, the stream settings window, the graph editor's
  layering, selection, layer order, undo and removals).
- `tests/` runs the library on concrete values.
- `app/` is the plain Rust around it: the clipboard and graph-watcher
  threads, reading plugin files, serde forms of the SDK records, the effect
  plugin's floating-point parameters and the egui side of the notice dialog.

Modules of the library:

| module | what it decides |
| --- | --- |
| `sdk`, `metadata` | plugin descriptor sections and reading them back |
| `dib`, `clipboard` | clipboard bitmaps and texts, offers and served formats |
| `power` | which power actions a device accepts, and their messages |
| `notices` | the queue of operation notices and dialog results |
| `editor`, `graph_session`, `node_library` | the node-graph editor's rules and session |
| `stream_menu` | the stream settings window |
| `device_picker` | the viewer's device menu |
| `window` | title-bar moves and edge resizes of native windows |
| `analysis` | plugin textures and overlay layers |
| `watch` | the published-graph watcher's decisions |
| `listing`, `dialogs`, `annotation_color`, `effects` | smaller display rules |
| `text`, `numeric`, `bytes` | text, number and byte helpers |
