# nm_codegen

Reads the NetworkManager D-Bus reference (the gtk-doc HTML pages) into a model
of its interfaces and enumerations, and offers generic accessors for D-Bus
properties. The library in `src/` is verified with Verus; `app/` is the
command-line program around it.

- `src/dom.rs`: an HTML document as an arena of nodes, built from the walk
  that `scraper` makes of a page (or, for the first element that
  `scraper`'s `Html::select` finds, of its ancestors and its subtree), with
  the in-tree selectors the parsers use.
- `src/text.rs`: whitespace normalization and the string helpers it needs.
- `src/parse/`: the reference pages: table of contents, enumeration page,
  interface pages, and the assembly of a saved snapshot.
- `src/fetch/spec.rs`: planning a snapshot from the index page: which pages
  to download, under which file names, and the manifest to write.
- `src/model/`, `src/config.rs`, `src/cli.rs`: the data the rest works on.
- `src/dbus/`: typed handles for D-Bus properties.
- `app/`: argument parsing, HTTP downloads, files, JSON, and the D-Bus calls.
