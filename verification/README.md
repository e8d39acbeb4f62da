# tracing-rolling-file-inc (verified core)

A rolling file appender with customizable rolling conditions (daily, hourly,
every minute, and/or a size limit).  The current log file is
`<suffix>.current.log`; at every rollover it becomes `<suffix>.<n>.log`, with
`n` growing by one.  At every rollover the appender deletes the numbered file
`max_file_count` indices behind the one it creates, and each numbered file it
knows of (those present when it started and those it created since) that
lies `max_file_count` or more indices behind the newest, so at most
`max_file_count` numbered files are kept (none when it is 0).

Layout:

- `src/` — the verified library:
  - `frequency.rs`: wall-clock date-times and the period a frequency puts them in;
  - `condition.rs`, `base.rs`: the rolling condition and its date/size implementation;
  - `naming.rs`: file names and decimal indices;
  - `scan.rs`: recovering the next index from the files already present (through the `regex` crate);
  - `appender.rs`: the appender as a state machine that hands out file operations and takes their outcomes.
- `app/` — the file-system side: performs the state machine's requests with
  `std::fs`, reads the clock with `chrono`, and implements `io::Write`.
- `tests/` — rolling scenarios run against an in-memory directory, and
  tests of each component.
