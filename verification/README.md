# cron_rs

Cron expressions and schedules, with their behaviour stated in contracts
and proved with Verus.

- `src/` is the verified library:
  - `parser.rs`: cron expressions (`0/15 8-18 * * Mon-Fri`, `TZ=Asia/Tokyo @daily`,
    `@every 1h30m`) read into schedules; every result and every error message is
    given by a spec function over the text (names are matched in lower case; the
    lower case of text that is not ASCII is named, not spelled out).
  - `spec.rs`: calendar schedules and the search for their next activation, as a
    state machine over the wall clock of a time zone.
  - `constant_delay.rs`: schedules that fire at a fixed interval.
  - `schedule.rs`: the `Schedule` trait and the schedules an expression stands for.
  - `cron.rs`: the decisions of a scheduler: its timetable of entries, kept in
    order of next activation, and which entries run when.
  - `chain.rs`: chains of job wrappers.
  - `time.rs`, `duration.rs`: instants in IANA time zones and spans of time; the
    zone database is read through `chrono-tz`.
  - `civil.rs`, `fixed_zone.rs`: the Gregorian calendar, and the proof that in a
    zone at a fixed offset from UTC the search finds exactly the first activation.
  - `text.rs`: text handling over `Vec<char>`.
- `app/` is the scheduler's run loop (tokio), the job wrappers that need threads
  or panics, and the interactive `cron-cli` terminal.
- `tests/` runs the library on concrete values.
