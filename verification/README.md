# protohackers

Small TCP services with their logic verified by Verus.

- `src/means.rs`: the nine-byte price protocol. Frames are decoded into
  messages, inserted prices are kept per connection, and queries are
  answered with the mean of the prices in a time interval (rounded toward
  zero, big-endian).
- `src/prime.rs`: primality by trial division, and the answer of the JSON
  primality service to a decoded request.
- `src/chat_room.rs`: the membership table of the chat room and the requests
  its owner task serves (admit, remove, list, check a name, broadcast).
- `src/chat_session.rs`: the naming rules and the state machine of one chat
  connection, with the lines it sends.
- `app/`: the servers themselves (sockets, tasks, channels, timeouts, JSON
  and the floating-point handling of numbers). Run with one of
  `smoke_test`, `means_to_an_end`, `prime_time`, `budget_chat` as argument.
