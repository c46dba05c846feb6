# mm1

The verified core of mm1, an Erlang-style actor runtime: the data structures,
registries and decisions of its multi-node messaging, name service, server
behaviour and supervisors, each with a contract that is proved.

## Layout

- `src/` — the verified library:
  - addresses and subnets (`address`), the route registry (`route_registry`),
    the protocol registry (`protocol_registry`) and protocols (`codec`,
    `protocols`, `codecs`);
  - the multi-node manager (`manager`, `waitlist`, `ifaces`, `ingress`), the
    connections between nodes (`connection`, `pdu`, `writer`, `hello`,
    `connector`), links to remote subnets (`remote_subnet`, `framing`) and
    the network manager (`network`);
  - the name service (`name_service`, `name_client`), the server behaviour
    (`server`), the dispatcher of codecs (`dispatch`) and the supervisors
    (`child_spec`, `uniform`, `mixed`).
  - Where operations relate (what one undoes of another, what a sequence of
    them leaves, what every operation keeps), the module states it as a
    public proof function named `law_...`; the other contracts stand on the
    functions themselves.
- `tests/` — tests of the library on concrete values.
- `app/` — the I/O around the library: encodings on the wire (bincode, JSON,
  MessagePack), the handshakes of connections and links over tokio streams,
  and the TCP rendez-vous.
