# bastionai

The storage and bookkeeping logic of the BastionAI training server, verified
with Verus.

- `src/sized_objects.rs`: a byte stream of length-prefixed objects (8-byte
  little-endian length, then the bytes), with proofs that objects come back out
  in the order in which they were appended.
- `src/artifact.rs`: artifacts (payload, description, secret) and HMAC-SHA256
  verification of requests through `ring`.
- `src/store.rs`: the registry of artifacts keyed by UUID (through `uuid`), the
  resolution of request references, and proofs of what lookups answer after
  registrations and deletions.
- `src/names.rs`: the names that select a metric and the tensors of a dataset.
- `app/`: the gRPC server, the torch models and datasets, and the metrics
  (torch and floating point), around the library.
