# collab_mode

The rules of a collaborative editing service: who may talk to whom, how a message
travels, and how a script of edits is read, run and judged.

- `src/` is the library. Its functions state what they return in `requires` and
  `ensures` clauses, and Verus proves it; of the time of day nothing is stated. What a few outside functions do (hashing,
  signatures, certificates, Base64, the clock, random numbers) is taken on trust;
  each such place says what it takes.
  - `types`, `simple_op`: identifiers, file descriptors, operations and their
    transformation.
  - `signaling`: identities and signatures, the server's decisions, the client's
    state, routing without a network.
  - `webchannel`: connections between hosts, frames on a byte stream, streams and
    pings of a connection, routing without a network.
  - `ssh_channel`, `websocket_receptor`: the decisions around a remote command and
    around a socket.
  - `transcript`, `transcript_runner`, `harness`: documents, scripts of edits, the
    run of a script and its report.
- `app/` connects the library to sockets, processes, databases and the terminal. It
  carries out what the library decides.
- `tests/` runs the library.
