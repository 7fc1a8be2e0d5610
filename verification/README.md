# hera

Offline semantic search over ingested documents with hyperdimensional
computing, verified with Verus.

Texts are encoded as 4096-bit hypervectors (token vectors bound to position
keys, plus bigram vectors, bundled by majority vote). Queries are ranked by the
number of agreeing bits. The Monte Carlo validator re-runs a query 1000 times
under seeded 2% bit-flip noise and marks a result validated when it stays in
the top 10 in at least 70% of the runs.

## Layout

- `src/hdc.rs`: hypervectors, bind / bundle / permute, similarity counts, and
  their algebraic laws.
- `src/rng.rs`: FNV-1a hashing, xorshift generator, seeded vectors and noise.
- `src/text.rs`: tokenizing, cleaning, tag stripping, chunking, and their laws.
- `src/rank.rs`: stable top-k ranking.
- `src/engine.rs`: item memory, the encoder, and the document engine.
- `src/montecarlo.rs`: Monte Carlo search, classification and similarity.
- `src/ingest.rs`: reading PDF, DOCX, XLSX, CSV, JSON, XML, HTML and text.
- `src/formats.rs`: the trusted calls into the document-reading crates.
- `src/connectors.rs`: connector configurations and the events they produce.
- `app/`: the command loop, file and network I/O (URL fetching included), the
  PDF reader run under a panic guard, the connectors' device and stream loops,
  and the floating-point reports.
- `tests/`: tests of the library on concrete values.
