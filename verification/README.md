# utensil

The decisions of a policy daemon for a phone, written and proved with Verus.

- `src/refresh/`: the refresh-rate policy: rates, configuration, input devices, how a mode is
  applied, status and command line.
- `src/pm.rs`, `src/packages.rs`, `src/pids.rs`, `src/preload.rs`: preloading the files of an
  application that comes to the foreground.
- `src/watchdog/`: punishing applications that stay in the background, at the ticks of a timer that is
  stopped in deep idle and started again after it.
- `src/deepsleep.rs`: the idle machine that runs while the screen is off.
- `src/supervisor/`: starting, stopping, restarting and showing the daemon.
- `src/text.rs`, `src/numeral.rs`, `src/paths.rs`, `src/lines.rs`, `src/lossy.rs`: texts,
  numerals, paths and lines.
- `src/command.rs`, `src/property.rs`, `src/readiness.rs`: processes, properties and events as
  the policies see them.
- `app/`: the program around the library, which reads, waits and writes.
- `tests/`: tests of the library.
