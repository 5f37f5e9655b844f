# jgsm

A line-up predictor for team Go leagues (KB바둑리그): it reads players'
ratings and game records from the federation's pages, builds every line-up
two squads can field, and estimates each match-up's chances.

- `src/` is the verified library: squads and line-ups (every line-up once,
  in nested-loop order), board speeds and colours, the reading of record
  pages (head-to-head tallies, recent games, colours played), the live
  broadcast's texts, prompts and menus, and the text and calendar helpers
  they rest on. Each public function carries a contract proved by Verus.
- `app/` is the program around it: the terminal menus, the web requests and
  scraping, the live browser session, the Excel export and the rating
  arithmetic, which works in floating point.
- `tests/` runs the library on concrete values.
