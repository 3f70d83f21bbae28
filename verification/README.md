# wakamore

A rhythm game ("whack-a-mole to music"): notes fall down eight lanes (seven
keys and a scratch) and are hit with the keyboard or a gamepad. Charts are
read from BMS files.

The rules of the game are a library verified with Verus; the program around
it (windows, rendering, files, floating-point timing) is ordinary Rust.

## Layout

- `src/` — the verified library
  - `text.rs`: the character-level model of the text functions the parsers
    use (trimming, ASCII upper case, digit parsing, UTF-8 widths).
  - `bms.rs`: BMS header keys and the line-by-line chart parser, specified
    as a function from the text to the chart it denotes.
  - `chart.rs`: where each note of a chart falls (lane, measure, fraction of
    the measure), in position order.
  - `events.rs`: the input and lane events shared by the other modules.
  - `input.rs`: key names, key bindings per screen, reading bindings from
    TOML (through the `toml` crate) and turning key states into events.
  - `emitter.rs`: input events to lane events, gamepad buttons to lanes, and
    the last physical input seen on each lane.
  - `game.rs`: screen transitions, scoring, lane input state and the lane
    layout.
  - `app_core.rs`: loop timing, play events from keys, and the screens of
    the windowed application.
  - `key_log.rs`: the bounded, time-limited key event log.
- `tests/` — tests of the library.
- `app/` — the program: a winit/wgpu/egui application with a game window
  and a debug window (`--demo` runs a plain wgpu demo), plus the
  floating-point parts of play (note times, judgement windows, frame-rate
  history).
