# sitegen

The core of a static site generator for a personal site and blog, written in Verus.
The functions under `src/` carry contracts that Verus proves, with one exception: the
small wrappers marked `#[verifier::external_body]` that call outside crates (base64,
minify-html, serde_json, comrak, merman) and a few std functions. Their contracts are
assumed, not proved; each one's doc comment says what it claims of the call.

## Layout

- `src/text.rs` — character-level helpers: searching, trimming, words, decimal numbers.
- `src/routes.rs` — site routes and the identifiers and URLs derived from them.
- `src/dates.rs` — civil-date arithmetic, UTC normalisation and the printed date forms.
- `src/order.rs` — lexicographic order and a stable sort on keys.
- `src/markdown.rs` — HTML escaping, the Markdown render: table of contents, diagram
  planning and figures, and the formatted document.
- `src/diagrams.rs` — Mermaid diagrams drawn with the site's theme.
- `src/articles.rs` — front matter, slugs, reading time, article ordering and tag groups.
- `src/archive.rs` — entry names of the site archive.
- `src/json.rs` — JSON values with their mathematical view.
- `src/html.rs` — the page scanners the audit uses (ids, attributes, text, metas, links).
- `src/audit.rs`, `src/page_audit.rs` — the JSON-LD audit of a generated page.
- `src/schema.rs` — the JSON-LD graphs of the home, article, blog, tag and tag-index pages.
- `src/site.rs` — file paths, the encoded contact address and page minification.

`app/` holds the program around the library: file and template I/O (tera), the render
options that let raw HTML through, the floating-point parts of diagrams (SVG sizes and
edge-label padding), the Open Graph card (fontdue, image), the zip archive (zip) and the
serde conversions of the content file and the front matter.

`tests/` holds the tests, run against the compiled library.
