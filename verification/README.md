# minidb

A small key-value store, partitioned into named buckets, spoken to over a line protocol and made
durable by a write-ahead log.

`src/` is the verified library:

- `names`: bucket names, keys and values, and the rules for which strings can be which;
- `store`: the store itself, an association list per bucket, viewed as a map of maps;
- `protocol`: parsing and writing request and response lines, with their round trips proved;
- `server`: what a request does to the store, and what a connection or the server decides about
  each thing that happens to it;
- `wal`: the log's records and their replay, with the proof that replaying a log rebuilds the
  store;
- `actor`: how the task that owns the store settles a request once the log has had its say;
- `retry`, `runtime`, `checksum`: back-off delays, a hand-written future's polls, and a slow
  checksum;
- `text`, `assoc`: characters and UTF-8 widths, and association lists.

`app/` is the asynchronous program around it: the Tokio server with its actor, connections,
shutdown and log file, and a command-line client (`minidb client [ADDR]`).
