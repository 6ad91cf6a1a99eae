# papyrust

Build publication-quality EPUB and print-ready PDF from a folder of
Markdown.

A book project looks like this:

```
my-novel/
├── book.toml
├── cover.jpg
├── front-matter/        # optional, custom user pages
├── chapters/            # required
└── back-matter/         # optional
```

## Layout

- `src/` is the library, verified with Verus: project discovery and
  validation, Markdown parsing into the book IR, the EPUB pages, package
  document, navigation document and archive layout, and the Typst source
  of the print PDF. Each public function states its result in its
  contract (writing the EPUB archive is promised to succeed whenever
  every entry is within the ZIP writer's 4 GiB limit, and its bytes are
  named after the ZIP writer's output);
  the laws of the library (escaping reads back, slugs are
  file-system safe, archive entry names are distinct, content files are
  ordered by numeric prefix, loading fails exactly on errors, ...) are
  proof functions beside the code they speak of.
- `app/` is the `papyrust` command line: argument handling, the file
  system, decoding `book.toml`, writing the outputs, and compiling the
  Typst source with Typst.
- `tests/` exercises the library on concrete values.

The PDF renderer reads the EB Garamond font files
(`EBGaramond-Variable.ttf`, `EBGaramond-Italic-Variable.ttf`) from the
directory named by `PAPYRUST_FONTS`, or from `fonts/` beside the
executable.
