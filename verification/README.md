# zeta

The verified core of Zeta, a peer-to-peer social network in which users publish posts
signed with secp256k1 keys, relays pass them on, and a hub keeps the directory of nodes.

`src/` is the library, checked by Verus:

- `hexcode`: lowercase hex text of bytes and its decoding (the `hex` crate).
- `crypto`: key pairs, SHA-256 digests, ECDSA signing and checking (the `secp256k1`,
  `sha2` and `rand` crates).
- `post`: signed posts, their ids and their checks.
- `storage`: the node's tables (key pair, posts newest first, subscriptions, peers) and
  the queries over them.
- `addr`: socket addresses and their text.
- `p2p`: the messages between nodes, the options, the clock, the role of a node from its NAT.
- `network`: the node's state and what it does with each message; every step returns the
  messages to send.
- `hub`: the directory of nodes.
- `web`: the answers of the web interface.
- `display`: the one-line descriptions that nodes print (the `chrono` crate for dates).
- `text`, `seqs`: decimal text, UTF-8 lengths, white space; selections from sequences.

The node's tables, its state and the hub's directory each carry a type invariant (posts
newest first with distinct ids, each author, peer address, seen id and directory address
once), so callers never have to carry a well-formedness condition.

The program runs in one of two modes: `client` (a node, which acts as a relay when its NAT
lets others reach it) and `hub-relay` (the directory). There is no other program.

`app/` is the program around it: command line, UDP sockets and bincode, STUN, NAT
detection, the SQLite file the tables are kept in, timers and the axum web server.
`tests/` runs the library with the real outside crates.

NAT classification is done by the `nat-detect` crate, pinned to 0.1.7, whose
`nat_detect_with_servers` runs the STUN exchanges and whose `NatType` the library maps to
its own. At run time the program reads two files that this repository does not hold:
`valid_ipv4s.txt`, the list of STUN servers (one IPv4 address and port per line) from
which twenty are drawn at random, and `static/index.html`, the page served at `/`.
