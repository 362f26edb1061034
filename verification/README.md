# rperf3

Network throughput testing over the iPerf3 wire protocol: a client and a
server whose logic is verified with Verus.

- `src/` is the library. `common/` holds what both sides share: the channel
  abstraction with its ghost history of calls (`protocol`, `call_log`), control messages
  and frames (`wire`, `message`, `big_endian`), the session cookie and the
  registry of sessions (`cookie`, `session`), byte accounts and interval rows
  (`accounting`, `interval`, `stream`, `test`), the UDP path (`udp_header`,
  `udp_session`, `jitter`, `pacing`), double-precision arithmetic in integers
  (`binary64`, `rounding`, `format`), the options of the command line (`bandwidth`,
  `affinity`), processor time (`cpu`) and authentication (`auth`). `cli`,
  `client`, `server`, `script` (the order of a server's session) and `report`
  build on it.
- `tests/` runs the library against fixed values, and its arithmetic against
  the floating point of the machine.
- `app/` is the program: argument parsing, sockets, threads, JSON, files and
  the terminal.

A contract over a channel speaks of the calls made on it. `write_run`,
`read_run` and their relatives say which calls a function makes and what it
returns for what the calls gave; the laws beside them say what that means for
the bytes on the wire, such as `frame_round_trip`: a frame is read back as it
was sent, however the bytes were cut on the way.

What is believed without proof stands in `auth`, `cookie`, `server`,
`session`, `text`, `test` and `timer`: small wrappers around functions of
`rsa`, `sha2`, `base64`, `rand` and the standard library, each with a comment
that says what is claimed of it.
