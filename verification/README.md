# rrr — the remote REPL runner, verified core

`rrr` runs REPL processes on a server and lets a client talk to them over
TCP; every request and reply is sealed with a passcode (AES-GCM-256, then
Base64).

The library under `src/` holds the logic, each function with a contract
proved by Verus:

- `text` — lines, joins, prefixes, paths and UTF-8 over `String`.
- `table` — a string-keyed table (options, running REPLs).
- `cypher` — the passcode key, sealing and opening (`simple_encrypt`, `base64`).
- `config` — options from arguments and `RRR_*` variables; address, port,
  passcode and launcher directory.
- `client` — the requests a client sends, its command line and interactive
  decisions, the prompt.
- `server` — reading requests, deciding what the server does, the replies.
- `repl`, `repls`, `eres` — what is written to a REPL and how its output is read.
- `utils` — reading one line from a byte stream.
- `cli` — splitting the program's arguments and choosing the mode.

`app/` is the program around it: sockets, processes, the terminal.
