# rush

A remote terminal over websockets: a Linux server forks a login process on a
pty, and a client puts the local terminal in raw mode and relays bytes over a
websocket. The protocol logic is a library verified with Verus; the program
around it does the I/O.

## Layout

- `src/` — the verified library.
  - `text` — character-level string work (search, split, trim, decimal).
  - `crypto` — base64, hex, constant-time comparison, SHA-1 and SHA-256,
    each proved against its specification.
  - `frame` — websocket frames: encoding, decoding, masking.
  - `message` — reassembly of messages from frames, and control frames.
  - `http` — the upgrade request and response, header parsing.
  - `handshake` — laws of the upgrade: what the client sends, the server
    accepts; what the server answers, the client accepts.
  - `json_reader` — a JSON object reader: members at object level, strings
    unescaped.
  - `json`, `json_laws` — the control messages and their read-back laws.
  - `queue` — the bounded output queue between the pty reader and the
    websocket writer.
  - `session` — the decisions of client and server sessions: exit codes,
    reconnection, input handling, the program and environment of a session.
  - `uri`, `args`, `manage`, `sys` — addresses, the command line, updating
    and installing, and the plain data that the operating system hands over.
- `app/` — `main`, sockets, threads, the pty and terminal calls.
- `tests/` — tests of the library on concrete values.
