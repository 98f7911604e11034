# splendimax

The rules engine of a two-player Splendor game, verified with Verus.

- `src/` — the library. `color` and `cost` (token amounts), `card`,
  `records` (card list lines and decks), `player`, `moves`, `state`,
  `setup` (dealing a new game; shuffling through `rand`), `movegen`
  (the moves available, in search order), `transition` (apply / undo),
  `evaluation` (position score), `render` (the board as text),
  `command` (a human player's typed commands), and the proved properties in
  `laws` and `movegen_laws`.
- `app/` — the program: reads `cards.csv` with `csv`/`serde` and prints the cards;
  also holds the file reading, game setup from the file, and board printing.
- `tests/` — unit and scenario tests.
