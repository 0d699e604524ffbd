# cursmetic

Builds Windows mouse-cursor schemes from a directory of cursor files. Each
`.ani` / `.cur` file name is scored against the seventeen standard cursor
roles (by its words, its PascalCase words and the words ICU's segmenter finds,
matched against each role's English, registry and localized names); the best
file per role is proposed, the user reviews the choice, and the scheme is
written to the registry value that Windows reads.

## Layout

- `src/` — the verified library (Verus):
  - `bignat.rs`: natural numbers of any size, so that scores are exact
    fractions whatever the word counts;
  - `cursor.rs`: the cursor roles, their English and registry names;
  - `resource.rs`: the `main.cpl` string-resource ids and the decoding of what
    a resource load returns;
  - `cursor_map.rs`: a map keyed by cursor, with a map view;
  - `text.rs`, `tokens.rs`, `unicode.rs`: splitting, joining and tokenizing
    names (Unicode normalization, case mapping and word segmentation are the
    outside crates' and std's, behind trusted wrappers; the whitespace test
    is verified);
  - `eval.rs`, `word.rs`, `recognizer.rs`: exact-fraction scores, scoreboards,
    the word evaluator and the recognizer;
  - `suggestion.rs`: ordering the candidate files, choosing the best, and
    applying the user's choice;
  - `scheme.rs`, `error.rs`: the registry format of schemes, reading and
    writing it, and the lookup results.
- `tests/` — tests of the library on concrete values.
- `app/` — the command-line program: directory walk, terminal menus, and the
  Windows and registry calls.
