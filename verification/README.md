# i3-controller

Generates launch scripts for i3 window-manager sessions.

A config file names the apps to launch, where their windows go, the processes to stop first, the
text to type into apps, and the timers to run. `i3-controller generate` turns it into a POSIX shell
script, `i3-controller wizard` makes one in a dialogue, and `i3-controller init` writes a sample.

- `src/` is the library, verified with Verus: the config format, the generator, and the dialogue as
  a state machine that does no I/O. Each public function states in its contract exactly what it
  returns. The functions named `law_...` state what holds of the library as a whole, for example
  that a config that was written is read back, and that every app is launched before any window is
  arranged.
- `app/` is the program: arguments, files, processes and the terminal.
- `tests/` runs the library.
