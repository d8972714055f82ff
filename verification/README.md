# chat

A multi-user chat over TCP: clients send newline-delimited UTF-8 lines to a
broker, which relays each line to every other connected client.

- `src/` is the library, verified with Verus: the wire format (`codec`), the
  broker's peer table and broadcast (`peer`, `table`, `server`), what each
  line of a connection means (`session`), the client's handling of lines
  (`client`), and the laws that hold across them (`laws`, `framing`).
- `app/` is the program around it: `chat server [--addr ADDR]` and
  `chat client USER [--server ADDR]`, with the sockets, tasks, terminal and
  logging.
- `tests/` runs the library on concrete connections and lines.

The peer table is a `Vec` of entries in which no address occurs twice. The
address is an enum of socket-address fields; vstd's `HashMap` specifications
cover only keys whose hashing vstd models (integers, `bool`, ...), so a map
keyed by it would need an assumed key model.
