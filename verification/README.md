# atom_syndication

Reading and writing the Atom syndication format, with namespace-aware
extensions, verified with Verus.

## Layout

- `src/` — the library. Every function is verified but the calls into
  `quick-xml` and std in `codec.rs`: those are small wrappers whose
  contracts state what `quick-xml`'s source shows, and which the verified
  code relies on.
  - `xml.rs`: XML events as plain values; `codec.rs`: bytes to events and
    events to bytes through the `quick-xml` reader and writer (the only place
    that calls `quick-xml`); what the reader gives for a document's bytes,
    decoded into events, is `document_events`, and what the writer writes for
    a list of events, escaping and indentation included, is `document_text`.
  - `chars.rs`, `scope.rs`, `namespace.rs`: NCNames, namespace scopes,
    declarations and name resolution.
  - `extension.rs`, `extension_writer.rs`: extensions, their semantic
    equality, and how they are written (prefix choice, synthesized
    declarations).
  - `elements.rs`, `person.rs`, `entry.rs`, `feed.rs`, `util.rs`, `toxml.rs`:
    the Atom elements, read from and written as events.
  - `builders.rs`: builders for names, attributes, extensions, persons and
    feeds.
  - `equivalence.rs`, `roundtrip.rs`, `document_laws.rs`: the laws — semantic
    equality of extensions is an equivalence, and the events written for an
    extension, entry or feed parse back as what was written. Bytes become
    events, and events bytes, through `quick-xml` (`document_events`,
    `document_text`).
- `tests/` — tests run against the compiled library.
- `app/` — reading from any `BufRead` and writing to any `Write`.
