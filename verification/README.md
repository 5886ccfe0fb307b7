# AutoStart

AutoStart opens a flight simulator's helper apps and websites when the simulator starts and
closes them when it exits. Profiles name the simulator processes that trigger them and the
items to open, in order, each after its own delay.

## Layout

- `src/` is the library, written in Verus: the profile and settings rules, the monitor's
  state machine, session bookkeeping, process matching and following, launch and close
  decisions, app discovery rules, the tray's texts and the command line. Each public function
  states what it returns in its contract, and the laws that span several functions (one
  watcher per simulator, the bounded session history, the close delay, the flight start that
  gives up, learned process names that never override manual ones) are proof functions.
  Calls into `uuid`, `url`, `serde_json` and a few std functions go through small trusted wrappers whose
  doc comments say what is assumed of them.
- `app/` is the headless program around the library: it reads and writes the JSON files,
  samples processes with `sysinfo`, starts and ends programs, and runs the monitor loop on
  `tokio`, handing each poll and command to the library and doing what it decides. The
  commands the window and the tray would send (start flight, cancel, pause, resume, close
  now, keep apps, test launch, test close) are read one per line from standard input.
- `tests/` runs the library on concrete values.
