# monotabe

A practice tool for guitarists and bassists: it shows a PDF tab, plays the
recording, and scrolls the tab in time with the music.

The library (`src/`) is verified with Verus:

- `detect` — finds tablature systems on a rendered page: string-line rows,
  staves of evenly spaced lines, scroll anchors and bar counts, in exact
  integer arithmetic.
- `sync` — plans the auto-scroll schedule (a snap at the start of each row,
  a hold three quarters through it) and finds where a playback time falls
  among the scheduled points.
- `session` — the library screen's decisions: each event gives the next
  state and the outside work to perform (audio, storage, rendering, dialogs).
- `model`, `form`, `library` — songs, the song form, sorting and filtering.
- `llm` — the request content asking a model for a timing map, and the
  clean-up of its reply.
- `png`, `media`, `text` — page sizes, media-bar labels, text helpers.

`app/` holds the desktop program around it: the iced GUI, SQLite storage,
audio playback and pitch shifting, PDF rendering with `pdftoppm`, the HTTP
client and the companion browser window.
