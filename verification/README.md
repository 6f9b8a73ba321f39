# dsfmt

A formatter for Datastar attributes in HTML, JSX and TSX, written in Verus.
It reflows tags with `data-*` attributes, splits multi-statement values and
object or array literals over several lines, and leaves every other byte of the
file as it was.

## Layout

- `src/text.rs`: characters, trimming, UTF-8 widths and other text helpers.
- `src/value.rs`: attribute values: quotes, top-level splitting, and the layout
  of a value (`formatted_value`).
- `src/syntax.rs`: the syntax tree the formatter reads (`SyntaxNode`) and its
  construction from a tree-sitter tree.
- `src/tags.rs`: the attributes of a tag, the decision to split it, and the
  reformatted tag (`formatted_tag`).
- `src/printer.rs`: the output buffer, value layout, and splicing the
  reformatted tags into the source (`formatted_source`).
- `src/parser.rs`: languages, parsing with tree-sitter, and the entry point
  `parse_and_format`.
- `src/config.rs`: options and what to do with a formatted file.
- `src/laws.rs`: properties of the formatter as a whole, proved over the
  specifications above, for a given syntax tree: text outside the replaced tags
  is kept, every tag is replaced in a nested tree, when tags are split, and that
  top-level splitting loses nothing.
- `src/idempotence.rs`: laying out an attribute value a second time leaves the
  first layout unchanged (value layouts only, not whole files).
- `app/main.rs`: the command line: argument parsing, files, directories and
  standard input.
