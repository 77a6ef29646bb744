# rigging

An inline terminal UI toolkit whose rendering and input logic is verified
with Verus.

- `src/` is the verified library: ANSI-aware measuring, wrapping and
  truncation (`ansi`), block frames with borders, titles and viewports
  (`block`), the render loop's decisions (`frame_loop`), markdown and table
  rendering (`md`, `table`), code highlighting with tree-sitter events
  (`highlight`, `theme`), the widgets (`input`, `text_widget`, `select`,
  `confirm`, `list`, `tree`, `fields`, `table_widget`, `line`, `progress`,
  `print`) and the command-line router with its help and validation
  (`parser`). Calls into `crossterm`, `unicode-width`, `strip-ansi-escapes`,
  `strsim`, `heck`, `markdown` and `tree-sitter-highlight` go through small
  trusted wrappers whose contracts name or state what those crates compute.
- `app/` is the terminal front end: raw mode, key events, the asynchronous
  render loop of a block and its handler context, sub-widgets, application
  command handlers, floating-point color blending, and serde copies of
  library types.
- `tests/` exercises the library on concrete inputs.
