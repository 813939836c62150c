# aw_notify

The logic of an ActivityWatch notification service, verified with Verus.

- `src/` is the library. Instants are whole seconds since the Unix epoch
  (UTC) and durations are whole seconds.
  - `text`: decimal numerals, joining, and the compact duration format
    ("1d 1h", "5m", "30s").
  - `clock`: the calendar facts the service needs (day and hour starts,
    service days that begin at 04:00 UTC, date names), through `chrono`.
  - `times`: time per category for one day, and the summary of the
    categories that took a noticeable share of it.
  - `alert`: per-category threshold alerts that announce each crossed
    threshold once.
  - `service`: server port, query text, activity status, server-status and
    new-day watches.
- `app/` is the program: command line, server requests, background loops,
  desktop notifications. It acts on the library's decisions.
- `tests/` exercises the library on concrete values.
