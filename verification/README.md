# MindBack

MindBack keeps a local supervision log of the day: it records a screenshot at intervals,
has a local vision model say what the screen shows and whether it serves the day's
project, and summarizes the day in half-hour windows and a daily Markdown report.

- `src/` is the verified library (Verus): the clock model and half-hour windows, the
  local summary rules, the cache of window summaries, the reports, the capture guard,
  path rules, and the development bridge's request parsing and routing.
- `app/` is the Tauri shell around it: files, processes (the vision worker and the
  summary agent), the clock, JSON, the tray and the bridge's socket.
- `tests/` exercises the library.
