# head

A `head` utility: print the first N lines (default 10) or bytes of each
input, or all but the last N with a leading `-`; GNU size suffixes (`b`,
`kB`, `K`, `KiB`, ... up to `Q`); `-NUM` shorthand; file-name headers for
several inputs (`-q` / `-v`); NUL-terminated lines with `-z`.

Layout:

- `src/` — the verified library.
  - `size.rs`: sizes with unit suffixes (`parse_size`).
  - `config.rs`: counts, modes, inputs, the resolved configuration
    (`parse_count`, `should_print_header`, `display_name`).
  - `cli.rs`: the parsed command line and the `-NUM` rewrite
    (`preprocess_args`).
  - `processor.rs`: what `head` outputs for a whole input (`head_output`),
    its laws, and `HeadStream`, the state machine that consumes input chunk
    by chunk and releases exactly the output determined so far.
  - `lib.rs`: configuration from the command line, choice of processor,
    header text, I/O error text.
  - `text.rs`, `error.rs`: string helpers and the error type.
- `app/` — the program: argument parsing, reading files and standard
  input, writing output, error reporting.
- `tests/` — tests of the library.
