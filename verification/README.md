# LogCrab

The logic of a viewer for log files, verified with Verus.

`src/` is the library. Every function states what it gives or changes, and Verus proves
that it does. What comes from other crates stands behind a few small functions whose
contracts say what is taken from those crates on trust.

- `filetype`: the formats: DLT logs, packet captures with TCP flows and SOME/IP, and
  Bluetooth logs
- `store`: several files in one order of time, their bookmarks, scores and session files
- `loader`: reading a file in growing chunks, and scoring its lines
- `sidecar`: talking to a service that scores lines with a learned model
- `config`: the settings, and how those of other versions are read
- `ui`: menus, notices, dropped files and earlier sessions
- `time`, `text`, `net`, `string_set`, `collections`: what the others build on

`tests/` runs the library on concrete values. `app/` is the program around it: the window,
files on disk and threads.

Lengths of time, kinds of messages and scores are worked out by functions that callers
hand in. Scores are floating-point numbers, which the library carries as bits.
