# browser

A small browser engine whose logic is verified with Verus: HTML and CSS
parsing, style computation, block and inline layout, display-list painting,
a text renderer, drawing into an RGBA frame, and the state machines of the
browser window and of a tabbed WebView shell.

## Layout

- `src/` — the verified library. Each public function states its result in
  its `ensures`, over spec functions and views; functions named `law_*` are
  proofs of properties that relate several operations (for example, that
  typing after select-all replaces the address, that closing a newly opened
  tab restores the tabs, or that going back and then forward returns to the
  same entry).
  - `text`, `split`: character-level helpers and their specifications.
  - `dom`, `html`, `css`, `style`: the document tree, the HTML tokenizer and
    parser, the style sheet parser and the cascade.
  - `layout`, `paint`, `renderer`, `page`: boxes and lines, the display list,
    the text rendering of a layout tree.
  - `frame`, `raster`, `chrome`, `hit`, `viewport`: pixels, placing the
    display list in the window, the toolbar, pointer hit tests, scrolling.
  - `address`, `gui`: the address-bar editor and the window's event handling.
  - `tabs`, `shell`: the WebView shell's tabs, histories and commands.
  - `source`: page sources, link resolution and address normalization.
- `app/` — the program around the library: command-line handling, loading
  pages from disk or over HTTP, the window, fonts and the clipboard.
- `tests/` — tests of the library's public functions.

Layout widths come from a `TextMeasurer`. The library's own measurers
(`ApproximateTextMeasurer`, `MonospaceTextMeasurer`) state what they
measure, and the layout contracts are exact for them. A measurer written
outside `src/` (the window's font measurer, for one) cannot state its
widths to the verifier: the trait takes it to measure as the approximate
measurer does, so for it the layout contracts describe the approximate
layout, not the one it produces.

Calls into the `url` and `font8x8` crates and into `std::path` are made
from `src/` through a few small functions whose contracts are trusted; each
says in its doc comment what it claims of the outside function.
