# Concilium language engine

A generator for constructed languages: phoneme inventories and syllable templates,
seeded word generation under phonotactic constraints, sound changes applied in
environments, a small morphology and word-order grammar, translation of English text
through a semantic mapper, and Markdown glossaries.

Layout:

- `src/` — the library, verified with Verus. Each module states its behaviour over
  abstract models (`Seq`, `Set`, `Map`) and proves it; the `law_*` proof functions
  state properties that hold across operations.
- `tests/` — executable tests of the library.
- `app/` — the command-line program: reading the `data/` corpus, writing the Markdown
  files, speaking through `espeak-ng`, and fetching corpus material from public web
  services.

Chances (of optional syllable slots and of sound changes) are 24-bit fixed-point
thresholds (`rng::Probability`); `app/floats.rs` converts from floating point.
