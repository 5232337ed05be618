# Flow Observability

Lightweight traffic capture, bounded local buffering, and comparison across independent nodes
that never mixes up where a number came from.

```text
pcap headers -> 10 s flow buckets -> bounded spool
             -> idempotent HTTP ingest -> node, stats and series queries
```

The library under `src/` is written in Verus: what every function returns or changes stands in
its contract, and Verus proves it. The public proof functions state what holds across functions,
among them:

- a spool within its bytes stays there, gives its numbers out in turn, and accounts for each of
  them: the batch is pending, or its loss is recorded with the bucket range, or it was
  acknowledged;
- a capture run accounts for every packet: it is in a batch, or still held;
- an acknowledgement removes one batch and nothing else, and an upload that stops keeps what was
  not acknowledged;
- a batch is taken once, a contradiction is refused, and a refusal changes nothing;
- nodes and capture points are kept apart, and a series carries exactly the traffic of its rows;
- the payload of a frame never matters;
- a spool or a store that is opened again holds what it held.

What Verus cannot take is under `app/`: the command line, SQLite files, HTTP and live capture. It
hands plain values to the library and carries out what the library decides.

| Module | Contents |
| --- | --- |
| `packet`, `addr`, `text` | headers of a frame, addresses and numbers as text |
| `aggregate`, `capture`, `accounting` | packets by interval and flow, and a capture run |
| `model`, `encoding`, `batch` | what is exchanged, its JSON text, checksums and identities |
| `retention`, `spool`, `history`, `upload` | which batches stay, the spool over time, and its way out |
| `control`, `series`, `inventory`, `http` | ingest, queries and replies |
| `sqlite`, `limits`, `clock`, `synthetic` | column ranges, limits, the time, made-up traffic |

Trusted are the calls into `serde_json` and `blake3` in `encoding`, and the reading of the clock
in `clock`.
