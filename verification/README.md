# gscfmt

A formatter for GSC scripts. The library is verified with Verus; `app/` is
the command-line tool around it.

## Layout

- `src/text.rs` – character classes, layout-only text (`strip_space`) and
  the few calls into std that the library trusts.
- `src/lexspec.rs`, `src/lexer.rs` – the meaning of tokenizing (`lex`) and
  `tokenize` / `try_tokenize`, proved to compute it.
- `src/emitspec.rs`, `src/formatter.rs` – the layout rules as a state
  machine over tokens, and `Formatter::format` / `try_format`, proved to
  follow them.
- `src/tidy.rs` – the final pass (`finalize`): trailing white space, runs of
  blank lines, one final line feed.
- `src/diff.rs` – the whole-file diff printed by `--diff`.
- `src/lexlaws.rs`, `src/emitlaws.rs`, `src/tidylaws.rs`,
  `src/formatlaws.rs` – properties proved of the above: tokenizing and
  formatting change only white space, the token list ends with one end-of-file
  token, formatted text has tidy lines, tidying is idempotent.
