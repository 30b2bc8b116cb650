# i18n_convert

A library for reading, converting and writing localization files, verified
with Verus, and the `i18n-convert` command line around it.

Every resource is read into one intermediate form (`ir`): entries keyed in
file order, with values (simple, plural, array, select), comments, contexts,
source strings, translation states and format-specific extensions. Each
format under `src/formats/` has a `Parser` (`detect`, `parse`,
`capabilities`) and, where the format is written, a `Writer` (`write`,
`capabilities`); they implement the traits `FormatParser` and
`FormatWriter`. Their contracts state what is read from given bytes and
what bytes are written for a given resource, over spec functions of the
format's grammar; XML, JSON, TOML, CSV, property lists, workbooks and regular
expressions are handled by `quick-xml`, `serde_json`, `json5`, `toml`,
`csv`, `plist`, `calamine`, `rust_xlsxwriter` and `regex` behind trusted
wrappers whose results are named. HJSON is read by a
verified parser of the library's own.

Layout:

- `src/ir/` — the intermediate representation.
- `src/formats/` — one module per format, the detection registry
  (`registry.rs`, all 32 formats, which detection ranks) and what formats
  share. `po_roundtrip.rs` proves that a resource of plain entries written
  as PO reads back with the same keys, order and texts
  (`lemma_po_roundtrip`); `plain_text.rs` and `ios_strings.rs` hold the
  like laws for plain text and for the escaping of `.strings` values.
- `src/convert.rs` — data-loss warnings for a conversion, each naming the
  target format, with the law that relates them to the entries
  (`lemma_data_loss_warnings`).
- `src/detect.rs` — detection from a file path and its content, with the
  law that every matching format is ranked once, most confident first
  (`lemma_detection`).
- `src/placeholder_convert.rs` — placeholder syntax between platforms.
- `src/xml.rs`, `src/json.rs`, `src/pattern.rs`, `src/collections.rs`,
  `src/text.rs` — the outside crates and text helpers the formats use.
- `app/` — the command line: argument parsing, file I/O and picking a
  format's parser and writer by its identifier.
- `tests/` — tests of the library.

Formats read and written: Android XML, iOS Strings, Flutter ARB, Qt
Linguist, structured JSON, i18next JSON, JSON5, plain YAML, JavaScript,
TypeScript, PHP/Laravel, XLIFF 1.2, XLIFF 2.0, Gettext PO, TMX, .NET RESX,
Java properties, CSV, TOML, INI, SRT, Markdown, plain text, iSpring
XLIFF, HJSON, iOS property lists, iOS string dictionaries, Excel workbooks,
NEON and Adobe Captivate XML (whose inline markup is kept as text and
written back as markup). Xcode String Catalogs and Rails YAML are
detected.
