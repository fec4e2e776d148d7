# Capture the Flag

A multiplayer arena game: players join a host over TCP, run for the flag
in the middle of the map and win by carrying it out of the central circle.

`src/` is the verified core, written with Verus:

- `types`, `codec`, `protocol`, `frame`: the binary wire protocol (one-byte
  codes, big-endian fields, length-prefixed strings and frames), with the
  law that decoding an encoded message gives it back;
- `client`: the client's snapshot of a session and how each server message
  changes it;
- `server`: the host's rules for joins, the countdown, flag pickups and
  steals (one steal per tick), victory and discovery replies;
- `discovery`: the client's table of servers found on the network;
- `logger`: log lines, log file rotation and the names shown in logs;
- `grid`: the grid board and the line-based JSON messages of the text
  protocol.

`app/` is the desktop program around it (macroquad window, sockets,
threads, clocks and the floating-point geometry of the arena), and `tests/`
exercises the library.
