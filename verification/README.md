# rion

A WebRTC selective forwarding unit: publishers send media into a room, the server
forwards it over NATS, and subscribers in the room receive it. Room state shared by
the server instances lives in Redis.

- `src/` is the library, verified with Verus: the room registry, the plan that keeps a
  subscriber's tracks in line with its room, the renegotiation and connection-state
  decisions, the control-channel protocol, the command codec, the Redis keys and NATS
  subjects, request checks and error replies.
- `app/` is the server around it: HTTP routes, Redis and NATS I/O, and the WebRTC peer
  connections, which act on the library's decisions.
- `tests/` runs the library on concrete inputs.
