# vault_web

A web viewer for folders of Markdown notes ("vaults").

- `src/` is the verified library (Verus): wiki links and query blocks of a
  note are rewritten (`links`, `dataview`, `markdown`), tag lists condensed
  (`tags`), search answers assembled (`search`), the navigation tree of a
  vault built (`tree`), and the search index laid out (`index`). Names are
  written as URL path segments by `paths`; `pages` holds the page data.
- `app/` is the server around it: it reads the vaults from disk, builds and
  queries the search index, renders Markdown and the page templates, and
  serves them over HTTP.
- `tests/` runs the library on concrete notes, queries and trees.
