# lisa

A chat bot whose decisions live in a library verified with Verus.

- `src/` — the verified library:
  - `text`: decimal numerals, Unicode white space, path pieces, substring search.
  - `lisa`: the eight-ball reply for a roll, and the roll itself.
  - `palette`: images held row by row, the palette layout, colour sampling
    from opaque pixels and the palettified image; file names for the command.
  - `r34`: search addresses, link extraction from a result page, and the
    reaction-driven gallery (a state machine from reaction to action).
  - `r_scrape`: the single-page variant of the link extraction.
  - `role`: which of the author's roles the role command renames.
  - `counter`: command-use counts and their report.
- `app/` — the bot itself: Discord, HTTP, files, the clock and the terminal,
  handing plain values to the library and acting on what it returns.
- `tests/` — tests of the library on concrete values.
