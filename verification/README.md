# marser

A parser-combinator library for PEG-style grammars with furthest-failure error
reporting and error recovery, written in Verus.

Every matcher and parser states its behaviour as a function of a model state
(`context::State`): input position, bound values, recorded diagnostics, memo cells
and the error handler's state. The combinators are proved against those
functions, and the whole-input driver (`driver::parse_whole_input`) is proved to
return exactly what `driver::spec_parse_whole` describes.

Layout:

- `src/input.rs`: inputs (`&str` by UTF-8 byte offset, `&[T]` by index) and the cursor.
- `src/context.rs`: parse context and the state model.
- `src/matcher/`: matchers (sequences, alternatives, repetition, lookahead, literals,
  commit, recovery and diagnostics).
- `src/parser/`: parsers (captures, memoization, alternatives, repetition, tokens,
  recovery).
- `src/error.rs`, `src/error_handler.rs`: error values and furthest-failure tracking.
- `src/render.rs`: messages and report plans; rendering through `miette`.
- `src/driver.rs`: the two-pass whole-input parse.
- `app/`: report building and printing through `ariadne`, and printing through
  `miette`.
- `tests/`: executable tests.
