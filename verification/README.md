# shell0

A small interactive Unix shell with the built-in commands `echo`, `pwd`,
`cd`, `ls`, `cat`, `cp`, `mv`, `mkdir`, `rm` and `exit`.

- `src/` is the verified library (Verus): the command-line tokenizer
  (`shell::parse_command`), the read–parse–run state machine (`shell::Shell`),
  and what each command decides — argument checks, error messages, target
  paths, the order and layout of `ls` listings, permission strings, device
  numbers. Contracts state each result exactly; the `law_*` proof functions
  state the properties that hold across inputs (round trips of the tokenizer
  and of the mode bits, uniqueness of the listing order, and so on).
- `commands::simple` holds the shell's own `ls` and `cd`, which its command
  table runs; `commands::ls`, `commands::listing` and `commands::cd` also
  hold the fuller forms (`cd ~` and `cd -`, headers only where needed,
  device numbers, access-control marks, names ordered without case).
- `app/` is the program around it: terminal input and output, the file
  system, the environment, user and group names, extended attributes.
  `app/commands` are the commands the shell runs; `app/extended` the fuller
  `cd`, `echo` and `ls`.
- `tests/` runs the library on concrete inputs.
