# ansl

The front end of a compiler for ansl, a small systems language with a Rust-like syntax for
the NISVC architecture, with the assembler's instruction encoding it targets.

- `src/token.rs`: tokens, source files and sources, compile errors and the token stream.
- `src/lexer.rs`: the line tokenizer as a state machine, with its preprocessor (`#include`),
  specified by spec functions over the files it is given.
- `src/ast.rs`: the syntax tree and the top-level parser.
- `src/util.rs`: the whitespace lexer over a string interner, numbers in assembler syntax.
- `src/preprocessor.rs`: classification of lexed text into preprocessor tokens.
- `src/program_as.rs`, `src/data_as.rs`: registers, operands, instructions and data labels.
- `src/text.rs`: character helpers shared by the lexers.
- `app/main.rs`: the command line: reads the files a program includes (system libraries from
  `~/.ansl`, else `/var/lib/ansl`), tokenizes and parses it.

Every function in `src/` is verified with Verus against its contract, except the thin
wrappers around outside code, whose contracts are trusted: `char_is_alphanumeric`,
`str_trim` and `push_char` in `src/text.rs` (std's `char::is_alphanumeric`, `str::trim`,
`String::push`), and `Interner` with its `new`, `intern`, `len` and `resolve` in
`src/util.rs` (the `string-interner` crate). The laws the library keeps are proof functions
named `law_*`. Among them: an `#include absolute` or
`#include system` line, anywhere in a file and naming any number of files, is replaced by the
tokens of those files in order; a `//` comment line gives no token; formatting an error is
idempotent; interning keeps every symbol's string.
