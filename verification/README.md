# rustfluent

Bundles of [Fluent](https://projectfluent.org) translations, verified with
[Verus](https://github.com/verus-lang/verus).

A `Bundle` is made out of the source texts of Fluent files for one language. Second definitions,
references to what is not there, and cyclic references are found on the way. In strict mode each of
them, and each parser error, stops the making; otherwise they are kept, and `get_compile_errors`
tells them. `get_translation` formats a message (`hello`) or an attribute of one (`hello.title`),
with texts, integers and dates for variables, and tells what went wrong in formatting.

- `src/` is the library. Its contracts say what every function returns, down to the words of every
  error. `src/laws.rs` holds what is proved of the functions together.
- `tests/` runs the library on given inputs.
- `app/` is the Python extension module around the library.

Parsing and formatting are done by the `fluent` crates, and dates are written by `chrono`. What is
believed of these crates stands on the functions marked `external_body` in `src/resource.rs`,
`src/store.rs`, `src/date.rs` and `src/text.rs`.

Two things are asked of callers, and each can be tested beforehand. The parser panics on a unicode
escape that a character outside ASCII cuts short inside a string literal; `Bundle::load` makes no
bundle where loading comes to a text with such an escape where a string literal may stand. The
formatter panics on some messages that expand to more than a hundred placeables, and on numbers with
many digits behind the point that a plural form is chosen by; `Bundle::formats_safely` is true only
of identifiers whose messages come to neither. Both tests also refuse a few inputs that would do no
harm; `src/escapes.rs`, `src/nesting.rs` and `src/expansion.rs` say which.
