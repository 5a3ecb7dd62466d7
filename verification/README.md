# casm

Architecture documents, checked. A document names the nodes of a system,
their interfaces and controls, and the relationships between them; this
crate resolves such a document into an architecture, validates it against a
set of rules, renders it as a diagram, and answers an editor's questions
about it (completion, hover, navigation, quick fixes).

## Layout

- `src/` is the library, verified with Verus. Each public function states in
  `ensures` what it returns, over spec functions and views of the library's
  types; laws that relate several functions are public proof functions whose
  names begin with `law_`.
  - `document`: the authoring grammar and its resolution into an
    architecture (identifiers, schema digests, endpoints, conformance claims,
    names, metadata), and the way back; `law_resolution_round_trips` and
    `law_emitted_document_resolves_back` are the round trip.
  - `conformance`, `pattern`, `pattern_doc`, `semver`: patterns as shapes to
    conform to. A pattern file's grammar is checked into a pattern; a claim
    names a pattern by exact version and may bind roles by hand; the
    `patterns-are-satisfied` rule holds the architecture to each claimed
    pattern's roles and required relationships, and reports a claim naming a
    pattern it was not given as unchecked, never as satisfied.
  - `resolve`, `architecture`, `validator`, `rules`, `graph`: the model and
    its checks; `graph` calls petgraph through trusted wrappers whose
    contracts are stated in their doc comments.
  - `index`, `completion`, `hover`, `navigation`, `actions`, `text`: the
    editor's view of a document, positions counted in UTF-16 units.
  - `documents`, `library`, `catalog`: the open-document store with its
    limits and least-recently-used eviction, and where the pattern library
    lives.
  - `recorder`, `record`, `otlp`, `sink`, `clock`: telemetry.
- `app/` is the language-server process: protocol plumbing, file and clock
  access (finding and reading the pattern library a workspace means), the
  serde forms of the document and pattern grammars, and the metric values
  that carry floating point.
- `tests/` runs the library on concrete inputs.
