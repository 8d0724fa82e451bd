# lillypad

The verified core of a small environment dashboard that shows temperature,
humidity and air pressure read from a sensor board.

- `src/` — the library, verified with Verus:
  - `sensor` — the address each quantity is read from; `sensor::model` — the
    quantities (board name, display unit and divisor) and the server's state
    of readings (latest reading and history).
  - `server` — the time windows; `server::util` — locating a time in a
    history of readings and resampling a window of it into chart points.
  - `app` — the dashboard's view state; `app::graph` — chart axes;
    `app::ui` — icons.
- `tests/` — tests of the library on concrete values.
- `app/` — the program around it: the HTTP requests to the board, the web
  server and its server functions, the web interface, the serde types and the
  floating-point arithmetic on readings.
