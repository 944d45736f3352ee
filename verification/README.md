# lion

`lion` runs a command inside a disposable bubblewrap (`bwrap`) sandbox and
shows what it does: fresh namespaces on an empty root, a scrubbed
environment, explicit read-only or read-write exposure of host paths, a
per-run network profile (none, DNS, full, or an HTTP(S) domain allow-list
through a small proxy), and a live view of file accesses, denied accesses
and the resource use of the process tree.

## Layout

- `src/` — the library, verified with Verus. Every decision of a run lives
  here: merging `lion.toml` files, planning the `bwrap` command line from the
  request, the configuration, the saved modules and the facts gathered about
  the host (`sandbox_engine`), the paths to look up before planning
  (`sandbox_engine::probes`), reporting the end of a run (`errors`,
  `sandbox_engine::runner`), classifying monitor lines and inotify events
  (`monitor`, `tui::events`), the dashboard state and its keys (`tui::app`),
  reading the process tree's figures out of `/proc` texts (`tui::perf`,
  `sandbox_engine::procfs`), the saved optional modules, the exposure
  profile, the proxy allow-list and the AppArmor set-up decisions.
  `sandbox_engine::guarantees` states what every command line guarantees.
- `tests/` — tests of the library on concrete values.
- `app/` — the `lion` program: argument parsing, files, processes, the
  proxy, inotify, threads and the terminal dashboard, around the library.
