# ewe

The core of the EWE wordnet editor as a Verus library: the wordnet data model and the logic
around it, each function with a contract that Verus proves.

## Layout

- `src/` – the verified library
  - `model.rs`, `ids.rs` – entries, senses, synsets and their identifiers
  - `links.rs` – the reverse and sense links inferred when a wordnet is loaded
  - `members.rs`, `assemble.rs`, `lexicon.rs` – resolving synset members against the
    entries, and the lemma, ILI and identifier indices of a lexicon
  - `relations.rs` – the relation types the editor offers
  - `editor.rs` – the edit actions that bring a synset up to date with the editor's drafts
  - `search.rs` – search-box suggestions and the synsets the relation picker lists
  - `concordance.rs` – corpus occurrences of a sense, in pages
  - `stats.rs` – summary statistics of a wordnet
  - `web.rs` – sitemaps, `robots.txt`, content types and negotiation, download links, display
    helpers
  - `theme.rs`, `settings.rs`, `cli.rs`, `subcat.rs` – theming, settings, the command
    line's helpers and subcategorisation frames
  - `text.rs` – character-level helpers and lexicographic order
- `tests/` – tests run against the compiled library
- `app/` – a small command-line program around the library: reading settings and YAML
  sources, caching the parsed sources in a `redb` database (`--cached` loads from it), and
  printing what the library computes

Outside crates are called through `#[verifier::external_body]` wrappers whose contracts are
stated next to them (`quick-xml`'s escaping, `chrono`'s date formatting, and a few functions of
`std` that `vstd` does not specify).
