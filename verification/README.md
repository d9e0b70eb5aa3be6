# doas

A `doas` for Linux: users run commands as another user when the rules in
`/etc/doas.conf` allow it.

The library under `src/` is written in Verus; each function carries a
contract that Verus proves:

- `tokenizer`, `config`: the lexer and the parser of the rule file, and
  matching a request against the rules (the last rule that applies decides);
- `lines`: a rule file read line by line gives the rules of its lines;
- `command`: the command line, and the command that runs;
- `env`, `c`: the command's environment, user and group ids;
- `timestamp`: durations, clock readings and the time stamp that spares a
  password for a while;
- `sys`: the process table's stat line, random indices;
- `pass`, `verify`, `pam`: reading a password key by key, the tries it gets,
  the prompt;
- `vidoas`: the answers given while editing the rule file;
- `utils`, `display`: a bounded array and the formatters of C-string
  messages;
- `render`, `text`: rules and errors as text, decimal numbers.

`app/` holds the program: the system calls (ids, the password and group
tables, clocks, terminals, PAM, files) and the loops that hand their results
to the library. `tests/` holds the tests.
