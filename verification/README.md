# Activity monitor

A daemon that watches what a developer does (windows, terminal, browser,
clipboard, files, local servers, calendar), turns the raw events into a session
timeline, recognizes moments in which the developer is stuck or idle, distills
closed sessions into a long-term profile, and offers a short suggestion when
the moment is right.

- `src/` is the logic, written and verified with Verus.
  - `collectors/`: what each source's raw data means as an event.
  - `normalize/`: the pipeline from raw events to the session timeline.
  - `immediate/`: the sliding window, the pattern recognizers, the blocking
    score and the intervention gate.
  - `distiller/`: the summary of a session, and how it changes the profile.
  - `profile.rs`, `recommend.rs`, `store.rs`, `server.rs`, `desktop.rs`: the
    profile's schema, recommendations, and the decisions of the store, the
    server and the desktop shell.
  - `json.rs`, `text.rs`, `number.rs`, `path.rs`, `moment.rs`, `quantity.rs`,
    `arithmetic.rs`, `table.rs`, `lists.rs`: what these are built on.
- `app/` is the program around it: channels, sockets, the database, HTTP, the
  clocks, and the arithmetic on doubles. `app/main.rs` is the daemon;
  `app/desktop.rs` is the desktop shell.
- `tests/` runs the library.

Real-valued quantities are carried as the bit patterns of doubles. The library
says which operations are done on them, and in which order; the caller passes a
function that does one operation.
