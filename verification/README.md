# pg_ripple (verified core)

The logic of the pg_ripple RDF triple store, written in Verus and proved
against its contracts: Datalog rule parsing, stratification, semi-naive and
goal-directed evaluation plans, the SQL compiler for rules, `owl:sameAs`
canonicalisation, lattice fixpoints, conflict detection, inline literal
encoding, dictionary hash keys, and the N-Triples, Turtle and JSON-LD
serialisers.

Layout:

- `src/` — the verified library (`pg_ripple`).
  - `datalog/` — rule IR, parser, stratifier, compiler (`compiler/`),
    semi-naive and magic-set planning, predicate-variable instantiation,
    plan cache, lattices, conflicts, provenance SQL, proof-tree text.
  - `dictionary.rs`, `inline.rs` — term keys, inline literal IDs,
    N-Triples text of entries.
  - `export/` — N-Triples, N-Quads, Turtle and JSON-LD documents.
  - `resolution.rs` — entity-resolution decisions.
  - `text.rs` — string helpers with their specifications.
- `tests/` — tests of the library.
- `app/` — the database side: it runs the statements the library
  produces against PostgreSQL through the `Db` interface, keeps the
  dictionary caches, talks JSON and HTTP, and computes floating-point
  metrics.
