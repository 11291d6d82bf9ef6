# linura

The verified core of a local-first intent library for Linux workstations,
written in Verus. Every function in `src/` carries a `requires`/`ensures`
contract that Verus proves; the laws the library keeps across functions are
public proof functions.

## Layout

- `src/library/` — the Library's rules:
  - intent lifecycle and persisted names (`records`, `names`);
  - revision, text and secret-reference checks (`checks`, `drafts`);
  - the decisions of write operations: replay, transitions, supersession,
    desired-state provenance (`operations`);
  - removal-impact classification (`removal`);
  - proposal acceptance: authority binding, time seals, the durable record
    and its replay (`acceptance`, `acceptance_record`);
  - SHA-256 operation digests (`digest`);
  - portable artifacts:
    - framing and sealing (`portable`);
    - records (`portable_records`);
    - writer and reader (`portable_writer`, `portable_reader`);
    - composition soundness (`composition`);
    - adoption classification (`adoption`).
  - Laws that a written artifact reads back and decodes (`round_trip`,
    `read_back`).
- `src/migration/` — the migration ledger and its codec, recovery records and
  checkpoints, backup evidence checks, and the migration runner as a state
  machine from event to action.
- `src/observation/` — observation sequence numbers, retention of evidence,
  platform and compositor probes, and the WirePlumber sink snapshot parser.
- `src/provider/` — interpretation of provider replies and the
  capability-less adapter's framing.
- `src/order.rs`, `src/num.rs`, `src/text.rs`, `src/path.rs` — stable ordering,
  numerals, text and path helpers with their lemmas.
- `app/` — the unverified edge: SQLite statements, files and directories,
  processes and the loop that drives the migration runner. It hands the library
  plain values and acts on what the library decides.
- `tests/` — tests run against the compiled library.

Outside crates: `sha2` is called from `src/library/digest.rs` behind a trusted
wrapper; `rusqlite` and `rustix` are used in `app/`.
