# models-dev-cli

A terminal browser for the [models.dev](https://models.dev) catalogue of AI
providers and their models, with fuzzy search, written in Verus: the browser's
logic is a library whose behaviour is stated in contracts and proved.

## Layout

- `src/` — the verified library
  - `data.rs` — the catalogue (providers keyed by id, each with its models keyed by id) and lookups
  - `search.rs` — fuzzy matching with nucleo-matcher, the two lists a search yields, and their order
  - `sorting.rs` — stable sorting, stated over a total preorder
  - `text.rs` — lower-casing, lexicographic order, string helpers
  - `input.rs` — key events and the search field, edited through tui-input
  - `app.rs` — the browser's state and how each key press changes it
  - `ui.rs` — the text of every part of the screen, and the detail panel's scrolling
- `tests/` — tests of the library
- `app/` — the program: fetches the catalogue, runs the terminal loop and draws with ratatui

## Keys

| Key | Action |
|---|---|
| Type | Fuzzy search (queries of up to 2048 characters once lower-cased) |
| Up / Down | Navigate list |
| Enter | Drill into provider |
| Esc | Back / Quit |
| PgUp / PgDn | Scroll detail panel |
| q (no modifier), Ctrl-C | Quit |
