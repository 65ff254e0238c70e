# dynein

dynein is a command line tool for Amazon DynamoDB. This crate holds its logic as a
library whose behaviour is stated in contracts and proved with Verus, and a program
around it.

## Layout

- `src/` — the verified library.
  - `text`, `value`, `views`: texts, attribute values and their models.
  - `error`, `escape`, `b64`, `unicode`, `lexer`, `grammar`, `rules`, `reader`, `syntax`, `ast`,
    `condition`, `parser`: the expression language of dynein (literals, paths, sort key
    conditions, SET and REMOVE actions, items in dynein format) and the parser that turns
    it into DynamoDB expressions with name and value placeholders.
  - `display`: writing values, conditions and error messages back as text.
  - `data`: Query, Scan and UpdateItem parameters, primary keys of items, items read
    from JSON, and what the item table shows.
  - `batch`: items of `bwrite` and of import files, DynamoDB JSON, CSV input.
  - `transfer`: export headers and JSON pieces.
  - `app`: settings, cache and the context of a command.
  - `ddb`: keys, table descriptions and the schemas kept of them.
  - `control`, `bootstrap`, `util`, `apply`, `shell`: the decisions of the table,
    sample, key definition, template and shell commands.
- `tests/` — tests of the library.
- `app/` — the program: argument handling, files, the DynamoDB client and printing.

Laws that relate several functions stand in `src/` as public proof functions named
`law_*`.
