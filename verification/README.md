# brush_core

The core of a bash-compatible shell, as a library whose logic is verified with Verus:
shell variables and their scopes (name references included), word expansion (planning a
word's expansion piece by piece, field splitting, parameter-expansion decisions, and
assignments to parameters named by their text), quoting and escaping, programmable
completion (finding the word to complete, quoting candidates, the edits they make, the
completion specs and their actions), extended tests, the call stack, command history,
redirections, and the filters around command execution.

Layout:

- `src/` is the verified library. Each function states what it does in `requires` /
  `ensures`; public `law_*` proof functions state properties that hold across functions
  (for example, that quote removal undoes quoting, that saving and importing history
  gives back its command lines, that field splitting only drops `IFS` chars).
- `tests/` runs the library on concrete values.
- `app/` holds what the library leaves to its caller: history files on disk, converting
  the parser's syntax trees to the library's shapes, file checks for extended tests,
  builtins' command-line options (clap), display text (color-print), and the loops that
  run a word's expansion and an assignment, handing the pieces that need the shell to it.
