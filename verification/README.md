# alternative_link_core

Two machines on one local network find each other by broadcasting an
announcement (`<code> <ipv4>`) that carries a shared pairing code, then test
that they reach each other directly with a probe (`PING <ipv4>`) and its answer
(`ACK <ipv4>`).

- `src/` is the verified library: the wire texts and their parsers
  (`protocol`, `ipv4`, `decimal`, `text`), the choice of a local address
  (`discovery`, `errors`), the decisions of the listening and probing tasks and
  the status lines (`engine`), and the small choices of the command line and
  prompts (`cli`, `prompts`). Each reader is proved to give back what the
  matching writer wrote.
- `app/` is the program around it: command-line parsing, interface listing,
  UDP sockets, tasks, terminal input and logging.
- `tests/` runs the library on concrete inputs.
