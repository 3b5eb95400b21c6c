# jetstreamer

Reads epoch archives (CAR files) over HTTP or from S3, and gathers per-program invocation
statistics by slot.

`src/` is the library, verified with Verus. It decides and computes; it never waits. Whatever
needs the outside world is told what to do next and reports back what came of it:

- `text`, `uvarint`, `cursor`, `cid`, `raw_node`, `node_reader`, `block_nodes`: the archive format,
  from single integers to nodes gathered up to a block
- `slot_seek`, `seek_spacing`, `seek_from`: where to position a stream, and when
- `http_seek`, `http_status`: a seekable reader over range requests that resumes a body which broke
  off; `http_seek::laws` states what holds of whole sessions
- `epochs`: slots and epochs, how an archive is opened, the sequential and the S3 reader, block
  times
- `pending`, `program_tracking`: the statistics; `program_tracking::laws` states what holds over any
  number of transactions

Functions of other crates are called through small items with contracts that are trusted; each says
in its comment which function it calls and what is claimed of it.

`app/` holds the streams, the database and the plugin plumbing; `tests/` runs the library.
