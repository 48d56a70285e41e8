# http_server_tester

A tester for HTTP servers: it builds and starts a server, sends it GET, POST,
pipelined, proxied and load-test requests with `curl`, `nc` and `ab`, and compares
the replies with expected files.

- `src/` is the verified library: the JSON model of the configuration, read from
  the file's bytes through serde_json (`parse`), its getters and error messages
  (`config`, `json`, with values quoted as serde_json prints them through `render`),
  the order of a whole test session (`suite`), the tool and mode checks (`check`), each test run
  as a step function from state and event to next state and action (`run`), the
  summary lines (`report`), and the string utilities they rest on (`text`), each
  with its contract; the laws about splitting and joining, pipelined replies, base
  addresses and the tallies of whole runs are proof functions.
- `app/` is the command-line program: argument parsing, logging, performing the
  actions that the step functions ask for (building, running commands, reading
  files, starting and stopping the server), reading the configuration file's bytes,
  and the float parsing of `ab`'s rates.
- `tests/` runs the library on concrete inputs.
