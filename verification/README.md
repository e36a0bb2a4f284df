# candle_lang

Tokenizer and parser for Candle, a small declarative language for
machine-learning workflows (`LOAD`, `SELECT`, `SPLIT`, `TRAIN`, `EVALUATE`,
`PREDICT`, `ANALYZE`, `INIT`), verified with Verus.

- `src/tokenizer.rs`: the tokenizer, a character automaton, with its
  mathematical model (`next_token_spec`, `tokens_spec`) and the laws of
  position tracking, progress and the stable end of input.
- `src/parser.rs`: the recursive-descent parser and the grammar as spec
  functions; `src/parser/laws.rs` proves that a parsed program is read to its
  end and that programs concatenate.
- `src/parser/dictionary.rs`: the key/value pairs of `SPLIT` and `INIT`.
- `src/ast.rs`: the printed form of a program; `src/text.rs`: decimal
  numerals for messages; `src/chars.rs`: character classes.
- `app/main.rs`: the `pycandle ast <file>` command.
