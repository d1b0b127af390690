# onesource

Turns a project directory into one context file for an AI assistant: a
filtered directory tree, then each selected text file framed in a
`<file path="…">` block, with an estimate of the output's tokens.

- `src/` is the verified library: pattern filters and the safety
  blacklist, profiles and how they combine with the command line, the
  selection of walked entries, the directory tree, the framing of files,
  the `explain` decisions, version comparison for self-update, and the
  text of every report. Each public function states its result in its
  contract; the laws of the library are public proof functions.
- `app/` is the command-line program around it: argument parsing, the
  `.onesourcerc` file, walking the file system, the clipboard and the
  update download.
- `tests/` runs the library on concrete values.
