# blockchain

A small proof-of-work blockchain as a verified library.

- `src/encoding.rs`: decimal, lower-case hex (both ways), JSON string
  escaping and Unicode white space, each against a specification.
- `src/transaction.rs`: transactions, their JSON form inside hash payloads,
  the canonical message that is signed, and addresses.
- `src/blockchain.rs`: blocks and the chain, block hashes, proof of work,
  mining with rewards, admission of transactions and chain validation,
  with the laws that mining keeps a valid chain valid and that the pending
  pool never holds a reward.
- `src/node.rs`: a node's chain and neighbours, the longest-valid-chain
  rule, and signature checking of offered transactions.
- `src/wallet.rs`: secp256k1 wallets that derive addresses and sign; the
  secret is a `SecretKey` whose type invariant keeps it a valid scalar.
- `src/crypto.rs`: the trusted boundary to `sha2` and `k256`.
- `app/`: the HTTP server of three nodes (axum, reqwest, tokio), which does
  the network traffic and hands its results to the library.
