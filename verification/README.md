# rnacos_raft

The storage side of a raft cluster for a configuration and naming service,
written in Verus: the formats of its files, the bookkeeping that plans every
read and write of them, and the state machines that hand out ids and manage
tables, each with a contract that Verus proves.

## Layout

- `src/common`: maps kept as entry lists (`StrMap`, `IdMap`), big-endian and
  varint codecs, protobuf field reading and writing (through quick-protobuf),
  and a reader that cuts a byte stream into length-prefixed frames.
- `src/raft/filestore`: the raft log files (`log`, `raftlog`, `logfile`), the
  index file (`index_record`, `raftindex`), snapshot files
  (`snapshot_record`, `raftsnapshot`), the manager of the log files
  (`logmanager`), the store's answers to raft (`storecore`), and where
  applied commands go and what they are answered, with the steps of
  building a snapshot (`apply`).
- `src/raft/db`: named sequences and tables.
- `src/raft/cache`, `src/raft/cluster`, `src/raft/network`, `src/raft/store`,
  `src/raft/asyncraft`: cached values with their expiry, the limiter, what the
  leader does for routed requests and answers, raft's store of the state
  machine (`store/innerstore`), and the messages of the cluster.
- `src/sequence`: id ranges handed out from sequences kept by raft.
- `src/transfer`: the header and records of the data transfer file and the
  rows of the databases that data is moved from.
- `app`: file I/O around the library (index, log and snapshot files), the
  SQL that reads the source databases, the JSON forms of messages, and the
  loops that carry out what the library decides over the node's services
  (`services`).
- `tests`: tests of the library on concrete values.

Laws that span calls are public proof functions named `law_...`; for
example `law_log_read_after_write`, `law_log_write_keeps` and
`law_log_strip_keeps` in `src/raft/filestore/logfile.rs` say what the bytes of
a log file hold as records are written, read and stripped.
