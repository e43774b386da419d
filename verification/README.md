# Raven Gaming

One window for everything that stands between a Raven install and a game that runs: the graphics
driver and its libraries, the modules for every kernel, the system settings large games depend on,
the launchers and what a game should be started with, recording, and screen sharing.

Three rules the pages keep:

* Never claim a state that has not been observed.
* Never offer a fix that will not work.
* Change nothing without being asked.

## Layout

* `src/` is the logic, written and proved in [Verus](https://github.com/verus-lang/verus). It is
  handed what was read of the machine and gives back plain values: what was recognised, what a page
  shows, the command to run, the files to write. Every function states what it returns, and the
  `Laws` at the end of a module state what holds across functions.
* `app/` is ordinary Rust around it: reading files, starting programs, the privileged half that
  carries out one action from a fixed list, the GTK window, and the paintings.
* `tests/` runs the logic on concrete values.

## What is taken on trust

The proofs rest on what the standard library and `serde_json` are documented to do, stated where
they are called: upper and lower case in `casing`, lossy UTF-8 in `capture`, the machine's byte
order in `controllers`, pushing a character in `text`, and reading JSON in `json`.
