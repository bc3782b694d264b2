# dev-security

Security auditing for Rust projects on top of `cargo-audit` and
`cargo-deny`, with its logic verified by Verus.

## Layout

- `src/` — the verified library.
  - `lib.rs`: severities, scopes, findings, errors, and the test that
    decides whether a tool run failed outright.
  - `run.rs`: `AuditRun` (configuration), the steps of executing a run
    (which tool runs next, which failure ends it) and the normalisation of
    findings (allow-list, severity threshold, ordering by
    `(id, affected_crate)`, de-duplication), with its laws: uniqueness,
    idempotence, filtering, independence of order for distinct keys.
  - `result.rs`: `AuditResult`, its counts and worst severity, and its
    `dev_report::Report`.
  - `audit.rs`, `deny.rs`: findings from the decoded output of each tool,
    severity labels, titles, synthetic ids and line selection.
  - `producer.rs`: the report that a run yields, success or failure.
  - `order.rs`, `text.rs`: lexicographic order, trimming, UTF-8 widths,
    line splitting.
  - `report.rs`: the `dev_report` calls, each behind a wrapper with the
    contract that `dev_report`'s source shows.
- `app/` — process spawning, JSON decoding with `serde_json`, the serde
  forms of the result types and the `dev_report::Producer` adapter.
- `tests/` — tests of the library.
