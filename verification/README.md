# log_analyzer

Parses HTTP access logs (`timestamp method endpoint status latency`, e.g.
`2026-09-22T10:30:21 GET /api/users 200 123ms`), counts requests, status classes,
methods, endpoints and latencies, and reports them on the console or as JSON.

- `src/` is the library, verified with Verus: the line parser (`parser`, `text`), the
  statistics and their merging (`stats`, `tally`), and the content of the reports
  (`report`). Each public function states what it returns in its contract; the laws
  (merging split counts equals counting in one pass, the order of requests does not
  matter but for the latency order, parsing a rendered line gives the entry back, the
  latency figures are ordered and depend only on the latency values, the tallies sum to
  the counters) are proof functions in the same modules.
- `app/` is the command-line program: argument parsing (clap), reading the file, the
  worker threads or Tokio tasks, printing and JSON serialization (serde_json).
- `tests/` exercises the library on concrete values.
