# board_server

A WebSocket server that keeps rooms of boards, the apps that drive them,
referees and visitors, and the text protocol they speak
(`command:(arg,arg,...)`).

- `src/` is the library, verified with Verus: the message parser and the
  rendering of replies, the decision of what each connection loop does with
  a frame and a command, and the shared state (rooms and the slab tables of
  boards, visitors and referees) with every request that reads or changes it.
- `app/main.rs` is the server itself: sockets, timeouts, locks, logging and
  sending, calling the library for every decision.
- `tests/` exercises the library on concrete values.
