# rtb_aggregator

A user-profile service for real-time bidding, with its core logic verified by Verus.

- `src/` is the verified library:
  - `time`: UTC instants parsed from text (through chrono), half-open time ranges.
  - `data`: user tags as received and as read (time and action parsed).
  - `nmax`: a bounded list of the most recent items.
  - `logic_case_two`: per-user recent views and buys, cookie sharding, and profile queries.
  - `logic_demo`: a counting state.
  - `kafka_aggregator`: the aggregation step and the rule that batches consumed messages.
  - `endpoints`: topics, replica addresses and stub responses of the HTTP front ends.
- `app/` holds the programs: HTTP servers (rocket), Kafka consumers and producers
  (rdkafka), request forwarding (reqwest) and JSON forms (serde). Run it with one of
  `case-one`, `aggregator-demo`, `aggregator-case-two` or `router`.
- `tests/` exercises the library on concrete values.
