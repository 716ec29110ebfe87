# search_replace

The state machine and rules of an interactive search-and-replace panel for a
text editor, verified with Verus.

The panel holds a search pattern and a replacement template (two single-line
inputs with grapheme- and word-aware cursor movement), the search options
(match case, regex, whole word), the scope (current buffer or whole
workspace), and the list of matches with their selection.  Keys edit the
inputs, move the focus, toggle options, walk and select the matches, and ask
for the hovered match or every selected match to be replaced.

## Layout

- `src/` — the verified library.
  - `model.rs`: scope, options, match locations, results and their views.
  - `text.rs`: UTF-8 byte offsets, character indices and boundaries.
  - `movement.rs`: cursor movement by grapheme cluster and by word.
  - `pattern.rs`: the regex built from the input and options, and the
    replacement text (with capture expansion in regex mode).
  - `rope.rs`: the document as a `ropey::Rope`, and buffer search over it.
  - `keys.rs`: events, and which action each key has in each field.
  - `panel.rs`: the panel state, its invariant, every operation on it, event
    handling, and replacement (single and grouped by file).
  - `grouping.rs`: grouping selected matches by file and ordering them.
  - `workspace.rs`: the matches of one line of one file.
  - `layout.rs`: the strings, widths and offsets the panel is drawn with.
  - `laws.rs`: properties that span several operations.
- `tests/` — tests run against the compiled library.
- `app/` — the editor component around the library: the background workspace
  search (directory walk, debouncing), opening and editing documents through
  the editor, and painting.
