# svreader

A terminal PDF reader with vim keys. Pages are drawn as sixel pictures, in
tabs and split windows, next to a file explorer. Where a reader was in a
document is kept in a `<file>.sdr/metadata.pdf.lua` file beside it.

## Layout

- `src/` is the reader's logic, verified with Verus: what keys, commands and
  clicks mean, where a page sits on the screen, what the caches keep, how a
  frame is composed from a page, how the state of a document is written and
  read back, and the text of everything that is drawn. Each function states
  what it does in its contract; what holds across functions stands in public
  proof functions.
- `tests/` runs the library on concrete values.
- `app/` is the program around it: the terminal, files, threads, and
  floating-point measurements. It rasterises pages with mupdf and encodes
  sixel with libsixel, which need `clang` and a C toolchain to build.

## Numbers

The library carries floating-point numbers as their bits (`Real32`). It
compares, clamps and quantises them, and takes products and scales from
functions that the caller passes in.

## Use

```
svreader                    # explorer rooted at $PWD
svreader some/dir/          # explorer rooted at some/dir
svreader paper.pdf          # open a PDF directly
svreader --page 42 book.pdf # start on page 42
```

`:help` lists the keys. Under the name `svreader-cli` the program works
without a terminal: it renders pages to PNG files, replays keys and prints
outlines.
