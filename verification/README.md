# nififf3

Read and write NiFi's FlowFile V3 format (`application/flowfile-v3`), with
Verus proofs of what reading and writing come to.

A flow file is binary content together with a set of string attributes. On the
wire:

```text
"NiFiFF3"          7-byte magic header
attribute count    field length
per attribute:     key, then value, each a field length + UTF-8 bytes
content size       8-byte big-endian integer
content            <content size> bytes
```

A field length is 2 bytes big-endian. A value of `0xFFFF` or above is written
as the marker `0xFF 0xFF` followed by the value as 4 bytes big-endian.
Attributes are written in sorted key order, so the output is deterministic.

## Layout

`src/` is the library. Everything in it is verified, except for the few calls
into `base64`, `uuid` and the standard library whose contracts say what is
taken on trust.

- `format`, `decode`: the header, as bytes; the one is the inverse of the other.
- `attributes`, `limits`, `attr`, `text`, `error`, `io`, `identity`: what
  everything else is built on.
- `flow_file`, `builder`, `fragments`: flow files, and how they are made, split
  and put together again.
- `sync`: readers and writers of streams of concatenated flow files.
- `async_io`, `http`, `spool`: the same for asynchronous transports, as state
  machines. They are told what a read or a write came to, and answer what is to
  be done next.
- `json`, `cli`: flow files as JSON, and what the commands of the program do.
- `flowfiles`: streams of flow files that each lend out the stream while their
  content is read.
- `laws`, `flowfiles::laws`, and the laws in `spool`: what holds of all of them
  together.

`app/` is the program around it: the command line, files, sockets, temporary
files, serde and axum. `tests/` holds the tests.
