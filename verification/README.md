# multidao

A verified library for a cross-chain, multi-asset stable-coin ledger:

- `multidao` — the MultiDAO runtime module: assets (issue, transfer, destroy,
  mint), collateralised debt positions, prices and the collateral rate, the
  queue of relayed packets checked when their block header arrives, the
  authorities that answer the offchain worker's pings, and genesis.
- `template` — the DOT chain's escrow module, which locks transfers to the other chain.
- `calls` — encoding the calls a client submits (`recv_packet`, `update_client`,
  `transfer_dot`) against a chain's metadata.
- `exchangeable` — host functions whose implementation can be swapped and restored.
- `remote_read` — requests to read another chain's storage at a block.
- `storage` — the keyed storage the modules keep their state in.
- `holdings` — what all accounts together hold of an asset.
- `scale` — the SCALE codec where the library uses it (`parity-scale-codec`).
- `laws` — properties that span the operations, proved.

`app/` holds the runtime glue outside the verified library: calling the
plugin through the host and submitting the offchain worker's pongs.
