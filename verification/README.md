# lwk_wollet

Storage of wallet updates and the logic of an Esplora blockchain backend, written in Verus.

- `src/counter.rs`: the position of a persisted update and its twelve-digit file name, with
  proofs that names and positions stand for each other.
- `src/persister.rs`: the `Persister` interface, `NoPersist`, `MemoryPersister`, and the
  bookkeeping of `FsPersister` (which file to write, which to read, how many updates a
  directory holds when it is reopened).
- `src/esplora.rs`: the URLs an Esplora client requests and how it reads the replies.
- `src/encoding.rs`: decimal and hexadecimal text.
- `src/consensus.rs`: the trusted calls into the `elements` crate (SHA-256, consensus decoding).
- `app/`: the file and HTTP I/O around the library.
