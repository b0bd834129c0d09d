# sha_on_cq

Witness generation for a PLONKish circuit of SHA-256 (one 512-bit message chunk),
together with the constraints of the circuit. Every function carries a contract that
Verus proves, except the calls into outside crates, whose contracts are trusted: the
call into `sha2` (`sha::sha256`), which names the digest without stating what it is,
and the three calls into the table builder of `tabled` (`table::render`), whose
contracts say what each call does to the rows of text that the builder holds. The
contract of `sha::sha256` also states, as `sha2` documents, that for a message that fits
one chunk the digest is the compression of its padded chunk, so the table built from
`prepare_input` and `sha_hash` is proved to validate.

- `src/types.rs`: words, limbs (11, 11 and 10 bits), `Bitem`, rotations, binary and
  decimal text.
- `src/sha_ops.rs`, `src/lookup_tables.rs`: the SHA-256 functions and the lookup tables.
- `src/sha.rs`: padding of a short message into one chunk; hashing through `sha2`.
- `src/trace.rs`: the trace of the 64 rounds, specified by the compression function.
- `src/table/`: the fixed part, the advice area (9 columns, of which the rounds fill the
  first eight) filled from a trace, the six gates and
  `Table::validate`; `correctness.rs` proves that the table of a chunk satisfies every
  gate in every row exactly when its public column carries the chunk's compression;
  `render.rs` lays the table out as rows of text in a `tabled` builder.
- `app/main.rs`: builds and checks the table for the empty message and writes it to
  `table.md` as markdown; `app/render_table.rs` does the same from the message itself.
  `app/dev_graph.rs` keeps the halo2 circuit graph, which this project does not build.
