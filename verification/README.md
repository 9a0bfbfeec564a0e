# ta_queue

The help queue of a lab room, as a verified library, with the WebSocket server around it.

Students at tables 1 to 30 join a queue and may leave it; teaching assistants help
them, take them out of it, and see the listing. The library holds the queue as two doubly linked lists
threaded through one slot per table, and proves that every operation keeps them linked
and that each student's number is their place in line.

- `src/queue.rs`: the board, its view as two sequences, and its operations.
- `src/links.rs`: lemmas on the linked lists.
- `src/protocol.rs`: what each command does, as a list of actions.
- `src/cookie.rs`: the access token in a cookie header.
- `src/session.rs`: who may connect: the token's signature and expiry (checked by
  `jsonwebtoken`) and what its claims allow.
- `src/text.rs`: decimal numbers.
- `src/laws.rs`: properties that relate the operations.
- `app/main.rs`: the server: sockets, locks, the secret from the environment, and JSON.
