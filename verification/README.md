# mission_centre_pg

The verified core of a PostgreSQL activity monitor, and a small terminal
front end around it.

`src/` is the library, written in Verus. Verus checks every function in
it, and nearly all of them state what they return in a contract that Verus
proves:

- `actions`: what a user may ask the server to do, the SQL each request
  runs, and how identifiers are quoted into it.
- `collector`: the shapes of a sample, how sessions are counted and counters
  summed, the chains blocked backends form, the version-dependent queries,
  statement keys, and the collector's decisions — when the slow tier runs,
  when history is written, how an error is classified, when a connection is
  given up and how long to wait before the next attempt.
- `connection`: what the connect-time probe says about the server and role.
- `history`: when a history row is due and which store receives it.
- `explain`: wrapping a captured statement for `EXPLAIN`, or refusing it.
- `pages`, `window`, `window_actions`, `dialogs`: what the screens compute
  before they draw — sizes, filters, orders, labels, banners, confirmations
  and which actions are offered.
- `clock`, `text`: monotonic time in nanoseconds, and the string routines the
  rest is built from.

`app/` is ordinary Rust: the network and database I/O, the secret store, the
settings file, the SQLite history store, and the floating-point rates and
ratios. It runs the collector loop the library decides for, and prints what
each sample shows.

The front end is deliberately a terminal one: it connects to one server,
prints the overview figures, the busiest sessions, statements and tables of
each sample, explains a statement, and runs one action on request. The
desktop windows (GTK pages, server switching, filters, the lock view and the
add-server dialog) are not part of this crate; what they compute before
drawing is in `src/` and is exercised by `tests/`.

`tests/` runs the library on concrete values.
