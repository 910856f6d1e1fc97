# codex_core (verified decisions)

The decision logic of the Codex core agent loop around model retries, exec
wakeups and background code cell completions, written in Verus with its
contracts proved.

- `src/` — the verified library: retry delays and retry/fallback decisions
  (`responses_retry`), the code cell completion broker (`completion`), exec
  wakeup batching and telemetry records (`exec_wakeup`), the model-visible
  completion notices (`code_cell_completion`, `exec_command_completion`) and
  decimal rendering of integers (`decimal`).
- `app/` — the async plumbing that performs what the library decides:
  sleeping, cancellation, logging, spawning and talking to the session.
- `tests/` — tests of the library on concrete values.
