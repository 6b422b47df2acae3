# rsl-linter

A linter for RSL macro sources (`.mac`, `.rsl`), written in Verus.

The library (`src/`) holds the rules and their proofs:

- `text` — character-level operations on the `Seq<char>` view of strings
  (white space, UTF-8 byte lengths, trimming, `str::lines`-style splitting,
  replacing, decimal rendering);
- `cleaner` — blanking comments and string contents line by line, with the
  block-comment state carried across lines;
- `pattern` — regular expressions through the `regex` crate, named by what
  the crate computes;
- `rules` — each rule as a check over the lines of a file, and as a function
  from the pattern matches to the findings;
- `linter` — diagnostics and the linter that runs the enabled rules;
- `report` — the printed form of a finding and the exit decision;
- `source` — decoding a file's bytes as UTF-8, or IBM866 otherwise;
- `laws` — properties of the linter as a whole.

`app/` is the command line (`rsl-lint [-f] [-i RULE]... [-r] PATH...`): it
reads files and directories, prints one line per finding, and exits with
status 1 when any finding is an error.
