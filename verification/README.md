# goose

The logic of a load-testing tool, verified with Verus: how users are allocated to
scenarios and transactions, how a test plan is parsed and stepped through, how
metrics are recorded, merged across workers and aggregated into percentiles, how
the manager and the workers of a distributed test decide each turn of their loops,
how Coordinated Omission events are counted, and how the metric tables, the live
dashboard's tables and the HTML report are laid out.

- `src/` is the verified library. Each public function states in its contract what
  it returns or changes; the laws that relate several functions are public proof
  functions (`lemma_*`).
- `tests/` runs the library on concrete values.
- `app/` holds what the verifier does not take: floating-point figures (averages,
  rates, percentages and the tables that show them next to the library's rows),
  the time of a dashboard snapshot, and the `Display` of the statistics tables.

Calls into outside crates (`rand`, `url`, `num-format`) go through small trusted
wrappers whose contracts say what the crates' documentation promises.
