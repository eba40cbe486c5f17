# request_duplicator

An HTTP request duplicator: one incoming request is copied to many target
URLs. The decisions are a verified library (`src/`, checked by Verus); the
network, the timers and the tasks around them are ordinary Rust (`app/`).

- `model`: priorities, per-priority counters (wrapping like machine
  counters), the log of answers, the channels and the shared state.
- `string_set`, `negative_cache`: the set of targets that answered
  `404 Not Found`.
- `headers`, `status`: header lookup and removal, header text, status classes
  and the outcome of an attempt.
- `dispatch`: the queue-based engine — tasks, the two-level priority queue,
  the round-robin load balancer, the enqueuer, the runner and its builder.
- `duplicator`, `http_handler`: fan-out of a request to the targets that are
  not banned, and the answers of the HTTP API.
- `request_sender`, `request_processor`: the counter-keeping senders.
- `webhook`: the plan of the webhook sender — targets from a list, messages
  of targets per worker, the order in which workers start.
- `foreign`: the calls into `serde_json`, `ulid`, `http` and std that the
  library relies on, with their contracts.
