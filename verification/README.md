# verified_actions

A ledger of side effects (webhooks, payments, notifications, provisioning calls) that
will not say an action succeeded until it has checked, written in Rust and proved with
[Verus](https://github.com/verus-lang/verus).

> **A 2xx response is not evidence that an action happened.**

| operation | |
|---|---|
| `submit-action` | Performs the effect at most once per idempotency key: the key is looked up, and reserved by a record of its own, before the outbound call. The record that it creates is `pending_verification`, or `failed` where the transport errored; never `confirmed`. |
| `verify-action` | Issues a different request that reads back the state the effect was supposed to change. The only transition into `confirmed`. |
| `get-record` | Reads one record. |
| `list-records` | Reads a range of the ledger, page by page. |

```
                          transport errored
     submit-action ─────────────────────────► failed        (safe to resubmit)
          │
          │ transport accepted
          ▼
   pending_verification
          │
          │ verify-action  (an independent read-back)
          ├─────────── expectation met ─────► confirmed
          └─────────── expectation missed ──► unverified    (do not retry)
```

`confirmed`, `unverified` and `failed` are terminal: neither an operation nor
`Record::settle` recomputes them.

Where a submission was cut off, or the outcome of its call could not be written, the record
that reserved the key stays: it is `pending_verification` and has no `effect`. The call may
have been made or not, and a probe could not tell, so submitting or verifying the key
returns that record and touches nothing. A human decides.

Request and response bodies are not stored, only their SHA-256 and length. What the probe
sends is kept, since a verification needs it.

`list-records` names a `next_start` whenever the scan hit the limit or more keys were in
the range than fit: the least text after what the page covers. A full walk passes it back
as `start` until there is none.

## Layout

`src/` is the library. It does no I/O: an operation is a machine whose states name the
host call that comes next, and `resume` takes the outcome of that call.

| module | |
|---|---|
| `record` | records, expectations, settling, the claims text and its digest |
| `transport` | requests, and the attempt that is kept of every call |
| `index` | the secondary index of keys |
| `host` | events, reading and writing records |
| `submit`, `verify`, `get`, `list` | the four operations |
| `model` | a model of the ledger, and of operations that run on it event by event |
| `laws` | theorems about the ledger across operations |
| `walk`, `catalog` | theorems about pages, full walks, reads and the index |
| `text`, `digest` | text, order and fingerprints, with the calls into `std`, `sha2` and `hex` |

`app/` is ordinary Rust around it: the JSON shapes, a driver that runs the machines
against a host, and the wasm component with its host bindings (generated from the host's
WIT package under `wit/`, which the host's SDK provides).

## What is proved

Each function states its result over a mathematical view of its arguments. Across
operations (`src/laws.rs`, `src/walk.rs`, `src/catalog.rs`, `src/index.rs`), where any host
call may fail and any run may be cut off after any event, as long as operations run one
after the other:

- no effect is sent twice under one key, and under the key of every effect that was sent
  stands its record;
- the ledger is append-only: no record is lost, a record keeps its key, action, effect and
  creation, and one in a terminal state never changes;
- the fields of every record agree with its status, and none holds a request body, but
  its SHA-256 and length;
- a submission confirms nothing; a verification confirms a record only after a probe
  whose response met every clause of its expectation, and only where its effect was sent
  and accepted;
- a new record that a submission returns with success, and a newly settled one that a
  verification returns with success, is written and its digest is anchored;
- replaying a key, or verifying a settled record, touches nothing.

The index stands in the ledger's map under `__index`. That key is no place for a record:
one submitted under it is sent at most once too, but the index is written over its record,
so what is said of records above is not said of it.

Of reading:

- a full walk of a ledger that does not change, over scans that honour range and limit,
  ends and gives every record exactly once, in ascending order, whatever the index holds;
  records under keys of the ledger's own bookkeeping (`__`) are left out;
- where the scans give no record's key, a full walk does the same of the keys of an index
  that lists no key twice;
- the index lists every record's key as long as it is not full, no submission has failed or
  was cut off, and no key holds a line feed, ends in a carriage return, or is `__index`.

What is believed without proof are the calls behind the wrappers in `text` and `digest`;
the comment above each says what it is taken to do.
