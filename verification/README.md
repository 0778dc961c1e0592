# Sharded counter

A replicated counter sharded over many Raft groups that share one managed host, written in Verus:
the decisions of the service are verified against contracts, and the programs around them only
perform what was decided.

## Layout

- `src/types.rs`, `src/history.rs`: the vocabulary that everything else speaks.
- `src/model.rs`: a live many-group scheduler, with its books and no history.
  `model/run.rs`, `model/pass.rs` and `model/retry.rs` state what holds of whole runs of it.
- `src/oracle.rs`: a judge of scheduling histories, with a history and no books. Fairness is a
  safety property over pass plans: a group that stays ready is offered a turn in every pass.
- `src/agreement/`: the two held against each other. What a recorder writes down of each call of the
  scheduler, and that the judge derives from it exactly what the scheduler answered.
- `src/adapter/`: the replicated counter. Command and snapshot codecs, the state machine, the policy
  around a managed group host (`cluster.rs`), the order in which a cluster is driven
  (`cluster/drive.rs`) and the audit of a driven run.
- `src/node/`: the durable process. Its records and registry, the client protocol, peer frames, and
  the engine: the desk of client operations, the board of managed work, lifecycle commands, the
  audit of the host's passes, and the order of the process loop.
- `src/profile/`: replayable long runs. What they submit, in which order, and what they check.
- `src/table.rs`, `src/bytes.rs`, `src/text.rs`, `src/checksum.rs`, `src/message.rs`: ordered tables,
  integers in bytes, numbers and words in text, the checksum, Raft messages.
- `tests/`: the library from outside.
- `app/`: the programs. Raft groups, the managed host, files, sockets and threads.

Properties that relate several operations are stated as public proof functions whose names start
with `law_`.

## What is taken on trust

Functions of other crates are called from `src/` behind wrappers, whose contracts say what is claimed
of each:

- `checksum.rs`: `rafter-crc32`'s checksum, stated bit by bit.
- `message.rs`: what `rafter-codec` writes for a peer message and reads from bytes, each named as a
  function of its argument alone.
- `adapter/payloads.rs`: `rafter`'s in-memory snapshot source, as a map from transfers to payloads.

Everything else in `src/` is proved.
