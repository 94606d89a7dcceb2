# velo

The verified core of a node-and-arrow diagram editor whose nodes hold
markdown text. The library in `src/` is checked by Verus; `app/` holds what
depends on the machine (files, the environment, random ids, fonts) and the
serializable copies of the library's types.

- `md/` renders markdown: `tree` parses it and highlights code blocks,
  `spans` and `lines` turn the tree into styled lines and the buffer of
  the text editor,
  `sections` into flat font-and-color sections for a node's read-only view.
- `workspace` keeps documents, their tabs and each tab's checkpoint history,
  the documents held in memory, and what the key-value store holds.
- `canvas` covers arrows between nodes, node deletion and stacking, resize
  handles, text placement and pointer focus.
- `editing` decides what key presses do to node text, document names and
  the text editor widget.
- `pkv` names the keys of a browser-storage key-value store and the JSON
  text of the strings it stores.
- `startup` reads the configuration file and the document named in a page
  address.
- `images` turns a node's PNG image into the base64 text a saved document
  holds, and back.
- `ui` gives the text a dialog's input starts with and each menu button's
  icon.
- `pixel` blends glyph pixels into an RGBA buffer; `text` holds string
  helpers.

Every public function states its result in its `ensures` clause; the
`lemma_` proof functions state the properties that hold across calls.
