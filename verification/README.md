# p2p

A peer-to-peer file store on a Kademlia overlay, written in Verus.

- `src/` is the verified library: 160-bit keys and the XOR metric, k-buckets
  and the routing table, the iterative lookup as a state machine, the answers
  a node gives to requests, file sharding and chunk encryption, the
  bookkeeping of stored chunks and uploaded files, the configuration rules and
  the command-line grammar. Calls into `sha1`, `hex`, `uuid`, `rand` and
  `aes-gcm` stand behind small trusted wrappers whose contracts say what those
  crates promise.
- `app/` is the program around it: sockets, timers, files, YAML/JSON/bincode
  encodings and the interactive prompt. It performs the actions the library
  decides on and hands back what came in.
- `tests/` exercises the library through its public interface.

Verify with Verus (`verus src/lib.rs --crate-type lib`) and run the tests with
the crate built by Verus.
