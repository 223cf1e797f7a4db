# syrup

Syrup, the binary data format of OCapN, and the parts of CapTP and of OCapN
locators that rest on it, written in Verus with their behaviour stated in
contracts and proved.

## Layout

- `src/de/cursor.rs`, `src/de/cursor/` — a byte cursor with streaming
  parsers that say how much more input they need.
- `src/de/lex/` — token trees: literals, lists, records, sets and
  dictionaries; lexing (`TokenTree::parse`) and canonical encoding, with
  sets and dictionaries written in sorted order. `roundtrip.rs` proves that
  lexing an encoding gives back the tree, and that every proper prefix of an
  encoding asks for more input.
- `src/de/impl_decode.rs`, `src/ser.rs` — decoding values from trees and
  encoding them, for booleans, integers, strings, options, lists and trees;
  `src/de/value_roundtrip.rs` proves what decoding gives back of an
  encoding. `src/de/non_zero.rs` adds integers that are never zero.
- `src/de/tokens.rs` — a tokenizer that groups tokens by their delimiters
  and keeps the span of input each came from, with its errors.
- `src/bytes.rs`, `src/symbol.rs`, `src/optional_collection.rs` — byte
  strings, symbols, and collections where empty means `f`.
- `src/captp/` — CapTP messages and descriptors, the start-session
  signature over a locator, messages to remote objects and resolvers, and the
  decisions a session takes on what it sends and receives, with the flags
  that record which side ended it.
- `src/locator.rs`, `src/locator/` — node locators and sturdy references,
  read from and written to `ocapn` URIs and Syrup records;
  `src/locator/percent.rs` states the percent-encoding of each URI
  component.
- `app/` — the parts that touch the outside world: readers and writers,
  the session's receive loop, floating-point values, printable errors,
  socket addresses and key generation.

URI parsing and percent-encoding are done by `fluent-uri`, signatures by
`ed25519-dalek`; the library calls them through small wrappers. The
percent-encoding contracts state the tables of bytes each component keeps;
those for URI parsing and signatures name their results.
