# vai

Small command-line tools (option parsing, file splitting and statistics,
directory listing, screen fingerprints and mouse automation, online-judge
exercises) with their logic in a library verified by Verus.

- `src/` — the verified library. Each module states its behaviour in
  `requires`/`ensures` contracts over spec functions; `law_*` proof
  functions state properties that relate several calls.
- `tests/` — tests of the library on concrete values.
- `app/` — the tools themselves: argument handling, file and screen I/O,
  the Windows API, JSON, and all floating-point arithmetic (the judge
  exercises that compute with floats, the fingerprint scores, the word
  vector lengths). Where a verified decision depends on a float, the app
  hands the library the float's exact value or the outcome it computed.

Run a tool with `vai <tool> [options]`, for example
`vai split_lines --file data.txt --range 10..20`.
