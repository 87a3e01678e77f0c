# rust_website

A small server-rendered article site: Markdown articles with optional `+++`
front matter are parsed into a document model, split into pages, and turned
into view models for an HTML template.

## Layout

- `src/` — the library, written and proved with Verus.
  - `text` — the character-level model of strings (trimming, searching,
    `str::lines`) shared by the parsers.
  - `domain` — articles, sections, blocks and inlines, with their models.
  - `repository::fs` — front matter, the Markdown event stream
    (`pulldown-cmark`), the article parser, slugs, snippets and directory
    scans; `repository` — the storage interface, sidebar selection, and the
    checks made before an article is written or deleted.
  - `render` — view models, the conversion to them, pagination and the
    page-aware table of contents.
  - `server` — admin tokens and sessions, device detection from request
    headers, upload naming and response headers.
  - `config` — configuration types, the checks on a loaded configuration,
    `.env` parsing.
- `tests/` — tests of the library.
- `app/` — the program around it: configuration files, the filesystem,
  the Askama template, and the Axum server.
