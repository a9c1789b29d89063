# rush

The core of an interactive command shell, written in Verus.

`src/` holds the shell's decisions, each with a contract proved by Verus:

- `parser`: splitting a command line into words (quotes, backslash escapes,
  the pipeline marker);
- `command`: redirection operators, splitting at `|`, laying out a pipeline;
- `builtins`, `cd`, `history`, `files`, `paths`: what the builtins `echo`,
  `type`, `cd`, `ls`, `mkdir`, `history` and `exit` do, and when a file
  counts as executable on Unix and on Windows;
- `editor`, `completion`: the line editor as a state machine driven by keys,
  Tab completion (builtins, then the search path, and file names after a
  space) and the longest common prefix of the matches;
- `text`: character-level helpers (decimal numbers, line splitting, joining).

`app/main.rs` is the program around it: raw terminal input through
`crossterm`, processes, files and the environment.
