# tiny_cli

The library behind `tiny`, a small macOS command-line tool for everyday
housekeeping: `scan` (read-only report of large, old and duplicate files),
`clean` (interactive cleanup of caches and recoverable data), `uninstall`
(apps and their `~/Library` leftovers), `focus` (a timer) and `sys`.

Everything that decides something is in `src/` and verified with Verus:

- `text`, `util`, `path` — the string, number and path models every report
  is written against (`format_bytes` reproduces the two-decimal float formatting
  exactly, with integers).
- `clean` — the category registry and selection, flag validation, discovery
  grouping, the picker and drill-down, the execution plan, the per-category
  command answers (`tmutil`, `docker`, `mdfind`, `defaults`, `go`, `getconf`),
  the project walks (`__pycache__`, virtualenvs, `target`, `node_modules`) and
  the folder listings (old downloads and screenshots, Mail versions, Telegram
  media, Firefox caches) over a model of the directory tree, the printed summary
  and plan, and the step-by-step flow of a cleanup.
- `scan` — roots, ignore rules, sorting, per-extension totals, duplicate
  groups and the text report.
- `uninstall` — app ordering, leftover locations, plans, refusals, dates and
  the printed report.
- `focus` — the timer frames and the `sys` lines.
- `laws` — properties that span functions, proved once for all inputs.

`app/` is the binary: argument parsing, the file system (it reads the directory
trees the library walks), subprocesses,
prompts, JSON output and the timer loop, calling the library for every
decision.
