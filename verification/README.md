# Monster Deleter

A Windows overlay in which a little monster walks up to the items that were
selected in Explorer, asks whether these are the ones, and kicks them into the
recycle bin. Where a selected item leads to an installed program, it offers to
start the program's own uninstaller instead.

`src/` is the library: everything that the program decides or computes, written
in Verus with contracts that are proved.

- `overlay`: the state machine. `overlay::state` says how one state follows
  another, `overlay::soundness` what holds in every state, and `overlay::runs`
  what holds of everything that can happen: only selected items are recycled,
  none twice, none is forgotten, and nothing happens without an answer.
- `scene`, `layout`, `canvas`, `sprite`: what is shown, where, and how it is
  drawn.
- `selection`: the way of a selection from Explorer to the overlay.
- `programs`, `registry`, `shortcut`, `bridge`, `base64`: which program an item
  leads to and how it is uninstalled.
- `config`, `json`, `patterns`: the settings.
- `shell`, `window`, `audio`, `locations`, `paths`, `wide`, `text`: what is said
  to Windows, and what its answers mean.

A few functions of `std`, `serde_json`, `regex` and `image` are called through
small functions whose contracts are not proved; each says in its documentation
what it takes from the outside function.

`app/` is the program around the library: windows, files, processes, COM, and
drawing in floating point. `tests/` runs the library on examples.
