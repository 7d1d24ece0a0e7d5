# napwatch

A terminal monitor for macOS power use: battery state and instantaneous draw,
sleep/wake counters with a live feed of sleep and wake events, the processes
that use the most power, and the `pmset` switches (Power Nap, Wake for network
access, Low Power Mode, Standby, TCP Keepalive), which can be flipped from the UI.

Layout:

- `src/` is the library, written in Verus and proved against its contracts:
  - `text.rs`: the string operations the readers use (`lines`, `trim`,
    `split_whitespace`, `split`, `find`, string order), each stated over
    character sequences;
  - `number.rs`: decimal parsing and formatting with the semantics of
    `str::parse` and `to_string`;
  - `power.rs`: readers for the output of `pmset`, `top`, `ps`, `plutil`,
    `launchctl` and `ioreg`;
  - `actions.rs`: the commands that flip switches, kill and renice processes;
  - `app.rs`: the monitor's state and how each poll updates it;
  - `controls.rs`: key handling and the steps around running a command;
  - `display.rs`: the texts and colours that the UI derives from the state.
- `app/` is the program: it runs the tools, reads floats, draws with ratatui
  and runs the event loop.
- `tests/` runs the library on sample outputs.
