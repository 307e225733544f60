# batsim

The verified core of an ERCOT residential battery fleet simulator: its
integrity-checked device catalog and the decision logic of its HTTP control
plane, written in Verus. Every function in `src/` carries a contract that
Verus proves; the calls into outside crates (SHA-256, xxh3, base64url,
RFC 3339 formatting and parsing, ULIDs, ChaCha draws, constant-time
comparison) stand behind small trusted wrappers whose contracts say what
those crates document.

## Layout

- `src/` — the library.
  - Catalog: `kinds`, `catalog` (sorted per-kind tables), `entry_checks`,
    `xref` (cross-references), `integrity` (file and catalog hashes),
    `load` (assembly and layering of a shadow tree), `error`, `violation`.
  - HomeSystem composition: `system`, `composition`.
  - Control plane: `problem` (RFC 9457 documents), `api`, `auth`, `idem`
    (idempotency keys), `audit` (dispatch log), `dispatch` (targets,
    latency, action plans), `sim` (virtual-time state machine), `listing`
    (filters, paging, scenario times, fleet manifests), `telemetry`
    (queries and stream filters), `retention` (bounded rings and bucket
    plans), `runs` (backtest requests and run state), `config`.
  - Shared: `text`, `digest`, `codec`, `clock`, `fields`.
- `tests/` — executable tests of the library.
- `app/` — the command line: reading catalog trees and documents from
  disk, JSON (de)serialisation, and the floating-point rules (ratings,
  efficiency curves, power sums, bucket means) that Verus does not check.
