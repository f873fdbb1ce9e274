# tudo

A terminal kanban board: four columns (Todo, In Progress, Blocked, Done), a memo panel, a detail
panel with clickable URLs, and a daily log of finished tasks.

The board logic is a Verus library under `src/`. Its functions are proved against their
contracts, except the few marked `#[verifier::external_body]`, whose contracts are trusted:
each wraps one call into std or an outside crate (`String::push`, unicode-width's character
width, chrono's local clock, the text of an I/O or JSON error, and ratatui's `Layout::split`),
and its doc comment says what is claimed of that call. The modules:

- `model` — statuses, tasks, memos, the per-column task map, the board, the input line
  editor (byte-offset cursor on character boundaries) and errors.
- `app` — the application state and every operation on it: navigation, moving cards between
  stages with the focus following them, reordering, creating and editing through the input
  popup, deleting, and the daily filter of finished tasks.
- `keys` — what each key press does in Normal mode and in the input popup.
- `url` — finding `http://`/`https://` URLs in text and their on-screen click regions,
  including for word-wrapped text.
- `ui` — width-aware wrapping and truncation, and the cursor position in wrapped input.
- `layout` — the screen's areas and the centred popup, status bar text, popup title and
  scrolling, memo grid cells, card click regions.
- `text`, `clock` — UTF-8 lengths, trimming, character classes; timestamps and local days.
- `laws` — properties across operations, such as the focus following a moved card, ids
  staying unique, and reordering down then up restoring a column.

`app/` is the terminal program around the library: the event loop, drawing with ratatui,
reading and writing the JSON files, and opening URLs in the browser.
