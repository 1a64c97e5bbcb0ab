# codex_mbtx_contract

A verified library for the MBTX transparent-execution experiments: the
runner's line protocol and the tool's admission checks, the classification
and sealing of evidence, the accounting of the collectors, and the reports
built from stored runs. Every function in `src/` carries a contract that
Verus proves; calls into `serde_json`, `sha2`, `toml` and `std` that the
library cannot prove are made through small trusted items whose contracts
name or state what those crates return.

Layout:

- `src/` — the verified library (one module per concern: `protocol`,
  `admission`, `collection`, `online`, `attempt`, `evidence`, `reporting`,
  `eval`, `pairs`, `reassess`, ...).
- `tests/` — tests of the library on concrete values.
- `app/` — the command-line programs around it: the M5 fixture runner, the
  evaluation report, and the online relay experiment. They read and write
  files and run processes; every decision they make comes from the library.
