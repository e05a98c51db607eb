# proxy_dex

The decision logic of the farm proxy of a locked-asset DEX contract, verified
with Verus.

- `src/amount.rs`: amounts of any size, as big-endian base-256 digits,
  with addition and the test for zero.
- `src/payment.rs`: ESDT payments as plain values (token identifier bytes,
  nonce, amount).
- `src/token_send.rs`: the `TokenSendModule` trait, which plans multi-token
  transfers; payment compaction and its laws.
- `src/proxy_farm.rs`: the `ProxyFarmModule` trait, whose endpoints are
  sequences of steps (checks, farm calls to make, transfers, burns and
  merges to do), with the laws of the intermediated-farm set and of the
  wrapped farm token attributes.
- `src/proxy_storage.rs`: `ProxyStorage`, the contract storage that
  implements both traits.
- `app/`: the contract modules that read the blockchain, perform the steps
  and log the events.
