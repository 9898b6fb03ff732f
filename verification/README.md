# tokmat

A tokeniser, classifier and field extractor for short texts such as postal addresses and personal
names, verified with Verus.

A text is cut into tokens. Each token gets a type, by the regular expressions of the token
definitions, and a class, by the value lists of the token classes. A pattern in TEL, the token
extraction language, is then matched against the classes, and the fields that it names are read
out of the text; what no field took is the complement.

## Layout

- `src/normalize.rs`: the loose form of a text (accents, case and punctuation removed).
- `src/token_model.rs`, `src/tokenizer.rs`: definitions, class lists, tokens, types, classes.
- `src/tel.rs` and `src/tel/`: the pattern language, from text to compiled pattern.
- `src/extractor.rs` and `src/extractor/`: matching, capturing, complements, caches, statistics.
- `src/cache.rs`: the bounded cache of least recently used plans and expressions.
- `src/text.rs`, `src/runs.rs`, `src/offsets.rs`, `src/unicode.rs`: text, runs of characters, byte
  offsets, character classes.
- `src/regex.rs`, `src/clock.rs`, `src/shared.rs`: what the library has from outside.
- `app/`: loading of model files, serialisable copies of the types, an extractor behind a lock.
- `tests/`: examples that run.

## What is stated

The contracts of the public functions say what is returned for which input. Results of outside
code that have no short description (what an expression captures, the compatibility decomposition
of a text) have names, and the contracts speak of those names. The regular expression engine may
give up on a search, and nothing is said of when it does: there the contracts say what is returned
if it does and what is returned if it does not.
The public proof functions whose names begin with `law_` state what holds across functions.
