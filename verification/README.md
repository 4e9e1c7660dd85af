# browser_engine

An AI-first semantic browser engine core, verified with Verus.

`src/` is the verified library:

- `dom`: the DOM tree, with attribute, child and parent operations and
  text content; `parse`: parsing HTML with html5ever and building the tree from the parsed document; `a11y`: the accessibility tree built from it;
  `semantic` and `pulse`: the affordances an agent can use and the frames
  that describe them; `layout`: display types; `api`: script discovery and the
  transpilation of a page's scripts.
- `taint`, `lanes`, `capability`, `braid`: information-flow labels,
  compression lanes, privacy levels and the `web.*` capability names.
- `wire` and `cid`: the canonical TLV wire format over LEB128 and content
  identifiers.
- `search`: scoped, capability-gated retrieval: query sanitization,
  the field allowlist, the audit trail, the scope-bound cache, the scope
  guard AND-ed onto every query, the tantivy index partitions and the
  search orchestration.
- `transpile`: the strategy registry that turns JavaScript statements into
  terms or escalation records; `net`: the rules of a page fetch.

`app/` holds what the verifier does not take: layout geometry in floating
point, network fetches and the HTTP API.

The Braid IR registry and its adapter are not part of this crate: they are
built on the `braid-ir`, `braid-capability` and `braid-verify` crates, which
are not available from the package registry. `braid` keeps the `web.*`
capability vocabulary and the mapping from privacy capabilities to its
names.

`tests/` exercises the library from outside.
