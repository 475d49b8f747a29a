# blob_db

A blob database: stores of content-addressed blobs, served over a binary
TCP protocol. A blob's identity is the sha256 digest of its contents.

The library under `src/` is written in Verus and verified:

- `types`, `frames`, `wire`: the values of the protocol and the byte format
  of its frames, as specifications over byte sequences;
- `send_recv`: writing and reading frames (`Send`, `Recv`, greetings,
  requests, responses), each proved to follow the format;
- `frame_laws`: reading a frame gives back what was written, and reading
  never looks past the end of a frame;
- `serialize`: a second framing in which blobs travel inside their frames;
- `funcs`: codes, blob identities (through `sha2`) and their hexadecimal
  names;
- `server`, `client`, `persister`: the decisions of the server, the client
  and the on-disk store, apart from their input and output;
- `model`, `assoc`: the database held in memory, with its laws (a saved blob
  loads back, saving twice is a no-op, a deleted blob is gone, ...).

`app/` holds the program: the TCP server over the file system, the client,
and a test rig that drives a server and compares its answers with the
in-memory model. `tests/` exercises the library.
