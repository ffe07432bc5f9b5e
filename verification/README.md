# melon

Melon wraps your shell in a PTY and intercepts Tab to show a floating
completion popup with commands, descriptions and fuzzy matching, driven by
completion specs in the Fig format.

## Layout

- `src/` is the library, verified with Verus. Every function states what it
  does in its contract.
  - `input/`: the tokenizer (`parser`), key classification (`trigger`) and the
    model of the line being edited (`line`).
  - `completion/`: the spec types (`spec`), the spec store (`loader`), the
    spec-tree walker (`engine`), fuzzy ranking (`matcher`, through
    nucleo-matcher), directory listings (`source`) and generators with their
    caches (`generator`).
  - `ui/`: popup selection (`popup`) and the popup's text and geometry
    (`render`, with display widths from unicode-width).
  - `shell/`: shell detection from a path and escaping of inserted text.
  - `pty/`: following the shell's output (`proxy`: cursor position and OSC 7
    working-directory reports) and the key-by-key decisions of the proxy
    (`session`).
  - `config.rs`: what the user's settings decide (theme, popup rows, specs
    directory).
  - `order.rs`, `text.rs`: sorting by name and character-level helpers.
- `app/` is the program around it: command line, reading the configuration
  file and spec files, running generator scripts, listing directories, drawing with
  crossterm, the PTY and the async loop that carries out the session's
  decisions.
- `tests/` exercises the library.
