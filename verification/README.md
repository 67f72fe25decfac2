# PromiseDB storage

Verified durable storage for a transactional commitment processor.

The library frames, checks, recovers and coordinates; the state machine whose transitions it makes
durable is any type that implements `engine::Engine`.

- `domain`, `command`, `outcome`, `event`, `transition`: the values that are stored.
- `wire`: the canonical byte format. Every value has a mathematical encoding and parser, proved
  inverse to each other, and an encoder and decoder proved equal to them.
- `codec`, `transition`: complete command and transition payloads.
- `record`, `recovery`: checksummed log records, with sequences that neither skip nor repeat.
- `batch`, `database`, `backend`: group commit that persists before it publishes.
- `replay`: engine state from a log.
- `snapshot`: bounded, checksummed snapshot files.
- `file`: manifests, segment headers, file names, segment rotation, what opening a directory
  decides, and what a snapshot makes superfluous.
- `message`: failures in words.

`src/` is the verified library. Functions named `law_..` state what holds across calls: what is
written is read back, only canonical bytes are accepted, a cut log keeps its complete records, and a
committed group is recovered once and in order. Whether memory can be had is up to the allocator:
what reserves memory holds for every answer, and its counterpart named `.._granted` takes the answers
as a list and says exactly what each of them gives. `tests/` runs the library on concrete values. `app/`
holds what touches the file system: byte streams, locks, and directories.

BLAKE3 hashes and UUIDs come from the `blake3` and `uuid` crates.
