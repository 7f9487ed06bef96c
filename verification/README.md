# web_scrapper

A cricket scorecard scraper. Given the scorecard addresses of matches, it
writes, per match, the players, the batting and bowling scorecards and the
match details as CSV files, stages the ids of the players it saw, picks out
the ids that the master data lacks, and appends those players' profiles to
the master data.

- `src/` is the verified library (Verus): text handling (`text`), reading
  match pages (`html`, `pattern`, `players`, `scorecard`, `venue`,
  `matches`), and the master-data steps (`cleanup`, `latest`, `player`).
- `app/` is the program around it: files, HTTP, DuckDB and JSON.
- `tests/` runs the library on concrete pages and values.
