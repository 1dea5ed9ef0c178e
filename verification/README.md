# achieve

The logic of Achieve, a desktop day-companion that plans the day, nudges through
it and records where the time went, written in Verus with its behaviour stated in
`requires` / `ensures` contracts and proved.

## Layout

- `src/` — the verified library.
  - `intervals` — interval arithmetic on the time ledger: merging, subtracting,
    the away rows of a window, attribution of untracked focus to work segments.
  - `ledger` — settings, break and estimate arithmetic, recurrence decisions.
  - `dashboard` — the pieces of the dashboard: buckets, bars, timeline, breakdowns.
  - `email` — the daily summary: its HTML, when it is due, its payload.
  - `reminder` — what to do with a due reminder, and the reminder e-mail.
  - `engine` — the background loop's decisions as a state machine.
  - `niri`, `window`, `desktop`, `autostart`, `idle`, `media` — compositor focus
    tracking, window routing, config and autostart entries, idle and audio rules.
  - `json` — JSON values parsed by serde_json and read field by field.
  - `text`, `sorting`, `model` — strings as character sequences, a stable sort,
    the data types.
- `tests/` — tests run against the compiled library.
- `app/` — the Tauri program around the library: database, D-Bus, processes,
  HTTP, the tray and the windows.
