# featherai

A local-first project and task manager (Spanish UI): projects with tasks,
a grid, a task table, a Kanban board and a Gantt chart, a default admin
account, and a peer-to-peer network that shares the stores between
installations.

## Layout

- `src/` — the library, verified with Verus: the domain model and its wire
  names, the ordering and assembly of the stored catalog, password checks,
  dates, the peer list and `peers.txt`, the data directory rules, and the
  decisions behind every screen (sorting, filtering, board moves, Gantt
  geometry, forms, toasts, navigation). Each public function states what it
  returns in its contract; the `law_*` proof functions state what holds
  across calls.
- `tests/` — tests on concrete values.
- `app/` — the desktop program: windows (Dioxus), the embedded stores
  (GuardianDB), the network (iroh, mDNS), files and the environment. It
  reads, hands plain values to the library and carries its answers out.
