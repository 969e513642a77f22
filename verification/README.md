# velos

A control plane that schedules containers onto registered workers and
reconciles what runs toward what was asked for, with its decisions proved
correct by Verus.

- `src/` — the verified library: the scheduler and scheduling pass, the
  node-lifecycle pass (readiness from leases, eviction), the worker's
  reconcile core and the steps that carry out its actions, the API server's
  request decisions (envelope stamping, selectors, replace/delete/status,
  access), credentials and bootstrap tokens, memory quantities, the login
  agent's plists, and the small JSON document model they share.
- `app/` — the programs around it: the HTTP server over SQLite, the
  controller loops, the worker daemon and its runtimes, and the command-line
  client.
- `tests/` — tests of the library.
