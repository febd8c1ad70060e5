# hold_migrate

Decides which private `target/` directories of Cargo repos can be deleted once
the repos build into a shared target directory (the "hold"), and records every
reclamation in an append-only JSON-lines ledger.

- `src/` is the verified library (Verus):
  - `plan`: the classification of a repo (`classify` asks for the facts it
    needs one probe at a time and decides), anchoring and binary staleness,
    sorting of the scan, and the choice of what `apply` cleans;
  - `report`: the plan table and summary, and the messages of `apply`;
  - `ledger`: ledger entries, the framing of ledger lines, the ledger's place;
  - `reclaim`: the size of a walked directory tree;
  - `paths`, `text`: path joining and `~/` expansion, and text helpers.
- `app/` is the command-line program around it: argument parsing, directory
  walks, file-system probes, deletion, JSON serialization and printing.
- `tests/` exercises the library on concrete values.
