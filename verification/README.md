# nomos_da

The decision logic of a data-availability network node, written in Verus
and proved against its contracts:

- `packing`, `messages`, `proto`, `storage`: message framing, wire message
  types, storage keys and blob file names;
- `assignations`: which peers belong to which subnetwork;
- `health`, `policy`, `connection_monitor`, `maintenance`, `balancer`:
  failure rates of peers, the connection policy, blocking of unhealthy or
  malicious peers, and which peers to dial;
- `dispersal`, `replication`, `replication_handler`, `sampling`,
  `validator`, `behaviours`: the scheduling decisions of the protocols and
  their composition for validators and executors;
- `laws`: properties that relate several operations.

`app/` holds what the node does around the library: file I/O, the binary
encoding of the messages, the clock and the floating-point time decay,
peer identities and configuration. It is ordinary Rust and is not verified.
