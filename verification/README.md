# benchmaxxed-xml

An XML library in Verus: a parser with compact document storage, views that borrow their source,
editable documents with stable node handles, and a serializer. The functions of the library state
over mathematical models what they return and what they change, and Verus proves it. What it takes
on trust are a few calls of the standard library, each behind a small wrapper that says what is
claimed of it.

## Layout

- `src/` is the verified library.
  - Text and characters: `text`, `syntax`, `lexeme`, `error`, `config`.
  - The grammar and the parser: `scan`, `dtd`, `declaration`, `grammar`, `entities`, `reader`,
    `document`, `recovery`, `encoding`, `parser`.
  - Compact documents and views: `flat`, `identity`, `records`, `tables`, `compact`, `view`.
  - Plain trees: `dom`, `dom_api`, `mutation`, `namespace`, `cursor`, `fragment`, `value`.
  - Editable documents: `tree`, `planting`, `copying`, `growth`, `handle`, `facade`, `builder`,
    `access`, `walking`, `scoping`, `query`, `changes`, `editing`, `serialize`, `output`.
  - Laws that relate several functions: `laws` (what every change keeps), `following` (what handles
    refer to), `effects` (what a change does and what a refused one leaves), `apart` (what belongs
    to one document does not pass for part of another), `numbers`, `tallies` and `counting`
    (counts), `unescape`, `readback`, `steady`, `reopening`, `saving` and `replay` (what is written
    or built reads back as it was), `transcoding` (what is encoded is decoded as it was).
- `app/` is the ordinary Rust around it: files and streams, error texts, and conversions through
  `FromStr` and `Display`.
- `tests/` runs the library.

## Handles

A node of an editable document is named by a handle. A handle does not hold the document: its
methods take it, as in `node.name(&document)` and `node.append_element(&mut document, "item")`. A
handle follows its node through every change of the document, and says so when the node is gone
(`DeletedHandle`), when the document was reset (`StaleHandle`), or when it belongs to another
document (`WrongDocument`). While a handle is held, its document does not leave the thread:
`try_into_send` gives it back.

Documents are told apart by tokens that are drawn at random. A deep copy has another token than
the document that it was made of. That two documents that were parsed or made on their own have
different tokens is overwhelmingly likely and not proved: what is proved is what each function
does for the tokens that its document and its handles have.

## Depth

A parsed document has a limit on its depth; a tree that is built by hand has none. Trees are
copied, compared, checked, searched, changed and written with a stack of lists that wait, so that
their depth does not matter. When a tree goes out of scope, its nodes are dropped in one another.
