# desktop_launcher

A launcher for freedesktop desktop entries (applications and links), with a
`rofi` script mode.

- `src/` is the verified library (Verus): reading an entry from a parsed
  desktop file, the entry database sorted by name and indexed by id and tag,
  the user's tags, the commands that start an entry or an action, and the
  rofi protocol (steps, rows, the hex text that carries a command).
- `app/` is the program around it: argument parsing, reading and writing the
  configuration and the database, scanning the desktop-file directories,
  starting processes and printing.
- `tests/` exercise the library on concrete values.

The original keeps its maps and sets in `rustc_hash` hash maps keyed by
strings. Verus's specifications of std's maps prove nothing useful for
`String` keys, so the library holds them as vectors of pairs (a later pair
for a key overrides an earlier one) and as vectors whose items occur once,
with those rules stated as spec functions and kept by every operation.
