# term_rustdoc

A terminal viewer for a crate's rustdoc JSON output: an outline of the crate's public
items, folded by modules, beside the documentation of the item under the cursor and the
headings of that documentation.

The library in `src/` is verified with Verus:

- `tree/` builds the module tree from the crate's index (`construct`), counts items and
  impls (`stats`), sorts by name (`sort`), and shows the tree as outline lines in several
  folds (`outline`, `textline`), in plain and fancier forms (`plain`, `prettier`).
- `ui/markdown/` parses a doc's markdown into blocks of words (`parse`), wraps them into
  styled lines and records the regions of headings and links.
- `ui/scroll.rs` and `ui/page.rs` hold the scrolling panels and what each key or click does
  to them; `ui/update.rs` maps keys to actions.
- `type_names.rs` writes out type names, and `decl/` writes item declarations.

Calls into `pulldown-cmark`, `syntect`, `icu_segmenter`, `unicode-width`, `termtree`,
`smallvec`, `rustc-hash` (the set of expanded modules) and `ratatui` (the area inside a panel's border) go through small trusted wrappers whose contracts say what the call gives.

`app/` reads the JSON file, converts it, draws the page with `ratatui` and reads keys and
mouse clicks with `crossterm`; textwrap decides where lines wrap.
