# asciidoc_parser

A block-level parser for AsciiDoc, written in Verus: every parsing function
states in its contract what it reads from the input and what it returns,
and Verus proves that the code meets those contracts.

## Layout

- `src/span.rs`: spans of source text (line, column, byte offset) and the
  line-oriented scanning the parsers build on.
- `src/parser.rs`: the parser's state: document attributes, the catalog of
  IDs (with unique ID generation) and section numbering.
- `src/content.rs`: block content and the substitution groups applied to it
  (special characters, quoted text, attribute references).
- `src/attributes/`: attribute lists (`[...]`) and their elements.
- `src/blocks/`: block metadata (title, anchor, attribute list) and the
  blocks: paragraphs, raw and compound delimited blocks, media and other
  block macros, sections, breaks, lists and list items, and the dispatch
  between them (`Block::parse`). `src/blocks/metadata_order.rs` proves
  that title, anchor and attribute list lines may come in any order.
- `src/patterns.rs`: the regular expressions used for list markers and
  section IDs, called through the `regex` crate.
- `tests/`: tests on concrete documents.

The contracts are written over models (`SpanView`, `MetadataView`, the
views of each block type) and spec functions that describe each kind of
block directly. `md_block_shape` in `src/blocks/block.rs` says which kind
of block `Block::parse` finds and what its view is; `nested_parsed` says
how the blocks one level inside a section or compound delimited block were
read; `md_block_warnings` and `nested_warnings` say which warnings come
with it, those of the blocks one level inside included.

## Scope notes

- Attribute entries in the document body (`:name: value`) are not read as
  blocks of their own: such a line is read as a paragraph. Document
  attributes are set through the parser (`Parser::set_attribute`), not
  from the body.
- Inside a list item, a section title ends the item. The title is only
  recognized there: the section is read (its ID registered, its number
  assigned) once, when it is parsed after the list has ended.
