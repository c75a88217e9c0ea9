# typing_tui

A terminal typing-speed trainer, written in Verus.

- `src/` is the verified library: the key-driven state machines of the
  screens (`menu_widget`, `mode_select_widget`, `settings_widget`,
  `typing_widget`, `result_widget`) and of the application (`app`), the
  layout of the text to type in lines (`typing_widget`), the placement of
  rows and the spelling of times (`layout`), the word-set store with its
  seeded shuffle (`wordset`), and string helpers (`text`).
- The store keeps its word sets in an in-memory SQLite database. Its
  contracts speak of a model of the database's two tables (`store_rows`):
  loading word lists makes exactly their word sets, the names come ordered by
  language and size, and the words of a set come back as that set's words, in
  an order left open. What SQLite does with each statement is stated on the
  calls into rusqlite and taken on trust.
- `app/` is the terminal front end: it reads key presses with crossterm, loads
  words from the store, computes the floating-point statistics (words per
  minute, accuracy, elapsed time) and draws the screens with ratatui.
- `tests/` exercises the library.

The settings screen (the quick-start word set and time) is handled by the
state machine, but the main menu has no entry that leads to it, so it cannot
be reached.

The front end reads the word lists from `resources/<name>.txt` (one word per
line) in the working directory: `en_1000`, `en_10000`, `ru_5000`,
`ru_10000` and `ru_50000`.
