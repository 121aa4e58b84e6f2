# docxthedocs

A converter from legacy Word 97–2003 binary documents (`.doc`) to WordprocessingML packages
(`.docx`), with Hebrew and other right-to-left text treated as a first-class concern. The
library is written in Verus: its functions carry `requires`/`ensures` contracts that the
verifier proves. The exceptions are the few trusted wrappers around `quick-xml`, `sha2`,
`cfb`, `zip` and std (marked `#[verifier::external_body]` or declared with `assume_specification`), whose
contracts are believed rather than proved and are documented next to each of them.

## Layout

- `src/` — the verified library.
  - `bytes`, `strings`, `tags`: little-endian reads, decimal/hex text, sets of report tags.
  - `fib`: the File Information Block and the parser's error type.
  - `clx`, `story`: the piece table and the reconstruction of story text from compressed
    (Windows-1252) and UTF-16 pieces.
  - `sprm`, `props`: property modifiers and their decoding into paragraph and section
    properties, borders, shading and colours.
  - `formatting`, `chpx`: PAPX/CHPX FKP lookups, hidden and deleted runs, symbol glyphs,
    section tables.
  - `numbering`: list templates and list instances.
  - `textbox`, `paragraphs`: textbox stories and the split of the main story into
    paragraphs, tables and inline content.
  - `document`: the whole parse with the report of recovered and unsupported features.
  - `ir`: the neutral document model and its mathematical views.
  - `xml`, `wordml`, `ooxml`: WordprocessingML events, their XML text, and the package parts.
  - `validation`, `container`, `digest`: the DOCX package checks, the OLE/CFB container
    with its limits and inventory, and the source hash.
  - `report`: the conversion report, and the steps of a conversion: from the outcome of each
    piece of outside work to the next one, publishing the package only once it was read back
    and found valid.
  - `laws`: properties of the conversion as a whole, stated and proved as proof functions.
- `tests/` — executable tests of the library.
- `app/` — the command-line program: it performs the file I/O that the conversion steps ask
  for (reading the source, writing, reading back and renaming the package), JSON output and
  argument parsing.

## Outside crates

`quick-xml` (XML writing and reading), `sha2` (source hashing), `cfb` (the compound file)
and `zip` (building and reading the package) are called from the library through small
trusted wrappers whose contracts are stated in `src/xml.rs`, `src/validation.rs`,
`src/digest.rs`, `src/container.rs` and `src/ooxml.rs`. `clap`, `serde`, `serde_json` and
`thiserror` are used by the program in `app/` only.
