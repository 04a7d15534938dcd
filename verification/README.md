# async-chat

The core of a line-based multi-room chat server, verified with Verus.

- `src/state/`: the server state. `app_state` holds the rooms (a
  `dashmap::DashMap` from room name to room), the metrics, and a ghost record
  of the rooms that collections removed; `room` is one
  room (its `tokio` broadcast channel and its bounded history); `history`
  states what the history keeps; `channel` is a room's `tokio` broadcast
  channel with a ghost record of what was done with it (its identity, the
  events handed to its send and what each send reported, the receivers and
  sender handles made, the receiver counts read), extended only next to the
  tokio calls, and the
  receiver and sender handles that carry the channel's identity;
  `metrics` the wrapping counters; `event`
  the events and how they are rendered; `local_user_state` what a
  connection keeps; `room_table` declares the `dashmap` items that the
  state uses.
- `src/command.rs`: reading a client's line as a command or a message.
- `src/text.rs`: Unicode whitespace, trimming and word splitting.
- `src/session.rs`: what a connection does on connect, on each line, when
  its receiver lags and when it is cut off; the caller does the socket I/O.
- `src/laws.rs`: properties that span several operations.
- `app/main.rs`: the TCP server around the library (accepting, reading,
  writing, room collection and metrics timers, shutdown).
