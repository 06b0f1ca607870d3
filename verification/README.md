# Pulse

The verified core of an MQTT v5 broker, and the program around it.

`src/` is the library. It holds the broker's rules as executable Rust with
contracts that Verus proves: matching of topics and filters, sessions, delivery
at QoS 0, 1 and 2, offline queues, retained messages, shared subscriptions,
authentication and access lists, the packet handler, the WebSocket handler, and
the durable storage with its binary log. Time, connections and files are plain
values there: a moment is a number of milliseconds, a connection is a number, a
file is a sequence of bytes.

- `broker`, `session`, `subscription`, `routing`, `delivery`, `inflight`,
  `retained_store`, `retained_trie`: the broker's state and operations
- `handler`, `connection`, `websocket`, `flush`: what a connection does with a
  packet, as a list of effects to perform
- `packet`, `mqtt_codec`, `netty`, `write`: packets and their wire form, by the
  codec of `rs_netty`
- `auth`, `config`, `reason`, `message`, `protocol`, `gauges`: rules and limits
- `storage`: snapshots, patches, the binary log and its recovery, rows of
  database tables
- `vnext`: an index of subscriptions, a log of events and shards
- `text`, `numbers`, `value`, `ordered_map`: what the rest is built on
- modules whose name ends in `laws`, and `storage::durability`: properties that
  span several operations

`app/` is the program: listeners, timers, files, databases, metrics and
settings. `tests/` runs the library on concrete values.
