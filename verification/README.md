# ssgen

The core of a static blog generator, written in Verus: Markdown pages with YAML
front matter become HTML pages with highlighted code, MathML formulas and
anchored headings; the generator also writes the lists of articles and tags, a
page per tag, an Atom feed and a sitemap, and keeps a cache of front matter so
that unchanged pages are not rendered again.

## Layout

- `src/` — the verified library.
  - `events.rs`: the Markdown events the pages are rewritten with, and a stream of them.
  - `markdown.rs`, `cmark.rs`: reading a page with pulldown-cmark, its front matter,
    and joining runs of text.
  - `syntex.rs`: rendering formulas (pulldown-latex) and code (lumis); the
    rendering iterator; reading the front matter (yaml-rust2).
  - `anchor.rs`, `anchored.rs`: rewriters that turn headings into anchored links,
    replace table-of-contents markers and (in `anchored`) link footnotes.
  - `toc.rs`: heading levels, the slugger that numbers repeated anchor ids
    (xxhash buckets), and the table-of-contents builder with its HTML.
  - `generate.rs`: front matter, page headers, labels, sorting, the map of tags,
    index and tag pages, and which output paths are kept.
  - `cache.rs`: the front matter cache.
  - `atom.rs`, `sitemap.rs`, `xml.rs`: the feeds as XML events, written by quick-xml.
  - `utils.rs`, `strings.rs`, `chars.rs`, `collections.rs`, `types.rs`: escaping,
    slugs, text helpers, small lists (smallvec) and timestamps (chrono).
- `tests/` — tests of the library on concrete pages, feeds and caches.
- `app/` — the program: walks the source directory, reads and writes files,
  turns the library's events back into pulldown-cmark events for the HTML
  writer, and stores the cache as JSON.
