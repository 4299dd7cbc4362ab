# substack-cli

A command-line tool for publishing and managing Substack posts, built around a
library whose logic is specified and proved with Verus.

## Layout

- `src/` — the verified library:
  - `prosemirror` — Markdown to Substack's ProseMirror document and its JSON,
    frontmatter, headings, links, images and pipe tables;
  - `application` — the decisions of each command: post sources, titles,
    which local links, images and tables a post needs resolved and how its
    text is rewritten, linked-file cycles, publication updates;
  - `local_post_manifest` — the `.substack-posts.json` records, lookups and
    updates, with the laws that relate them;
  - `image_file`, `client`, `types`, `cli`, `error` — MIME types and data
    URIs, API endpoints and request bodies, domain values, commands, errors;
  - `table_image` — styled cell runs, tokens, row heights and column widths
    of table images;
  - `text`, `paths`, `json` — character-level text, Unix path and JSON
    helpers with exact specifications.
- `app/` — the executable: argument parsing, HTTP, files, JSON encoding and
  table drawing.
- `tests/` — tests of the library.

Table images are drawn with the DejaVu Sans fonts (`DejaVuSans.ttf`,
`DejaVuSans-Bold.ttf`, `DejaVuSans-Oblique.ttf`), embedded in the executable
at build time from `/usr/share/fonts/truetype/dejavu`.
