# js_parser

The core of an error tolerant, lossless JavaScript parser, written and proved in Verus.

The parser reads the lexemes of a source text and yields a flat list of events: nodes start,
tokens follow, nodes finish. A node is opened with a marker, closed into a completed marker, and
can be given a parent, another kind, or be opened again afterwards. The parser can look ahead, go
back to a checkpoint, and pass tokens as trivia.

- `src/text.rs`: offsets, ranges, and slices of a text
- `src/syntax.rs`: the kinds of tokens and nodes
- `src/token_source.rs`: the lexemes of a text and a position among its tokens
- `src/event.rs`, `src/marker.rs`, `src/parser.rs`, `src/progress.rs`: the parser
- `src/diagnostic.rs`, `src/state.rs`: reports, and what the grammar keeps while it parses
- `src/laws.rs`: what holds of the parser as a whole, such as that every byte of the text is kept
  in exactly one token or piece of trivia
- `src/nesting.rs`: how nodes nest, such as that what is consumed while a node is open lies in it
- `src/explain.rs`: the text with which a command line explains a rule
- `app/`: printing to a console, and calls that panic instead of leaving a condition to the caller

The lexer is not part of this library. It hands over a reading of the text, and a new reading
where the grammar asks for another context.

`app/` prints with `biome_console` and describes rules with `biome_analyze`. `biome_rowan` is named in
`Cargo.toml` only to hold it at 0.5.7: `biome_analyze` 0.5.7 does not compile with the 0.5.8 that would
be picked otherwise.
