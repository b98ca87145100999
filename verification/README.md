# pwatch

A command-line tool that shows which processes listen on TCP ports and
signals them, with an interactive viewer.

- `src/` is the library, verified with Verus: the `/proc/net/tcp` and
  `lsof` formats (`procfs`, `lsof`), text and number handling (`text`,
  `number`), port ordering and lookup and kill messages (`port`), the JSON
  listing (`json`), the viewer's state and key handling (`app`, `handler`),
  what the viewer's screen shows (`view`), and the settings (`config`,
  `cli`).
- `app/` is the program around it: command-line parsing, reading `/proc`,
  running `lsof` and `ps`, sending signals, printing, the settings file and
  the terminal user interface.
- `tests/` runs the library on concrete inputs.
