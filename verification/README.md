# judge

A terminal tool for technical interviews: question banks in Markdown, live
scoring of a candidate topic by topic, and reports (JSON, CSV, HTML, PDF).

The crate has two parts.

- `src/` is the library, written in Verus. Every function there carries a
  contract that Verus checks: parsing of question banks and role files,
  slugs and question ids, scores and totals, the session's key-press state
  machine, search and filters, the texts shown on screen, where cards go in
  the card panel, the JSON document and the CSV and HTML exports, the
  ranking and grouping of the PDF report, and the post-processing of
  generated question banks. Public proof functions named `law_*` state
  properties that hold across calls.
- `app/` is the program around it: command line, SQLite database, files
  under `~/.judge`, the terminal loop and drawing, the HTTP call to the
  question generator, JSON printing and PDF drawing.

Calls into outside crates that the library makes (SHA-256, hex, CSV
writing, date formatting, random choice and shuffling, and a few `std`
string functions) go through small trusted wrappers whose contracts are
stated next to them.

`tests/` exercises the library on concrete values.
