# mev_engine

The core of an MEV engine for Arbitrum, written in Rust and verified with Verus: what it computes
and decides is stated in contracts and proved.

- `amm`: constant-product pricing and what it guarantees
- `simulator`: simulation of arbitrage, backruns, liquidations and bundles
- `hot_path`, `rlp`: hashing, RLP, batched prices, the opportunity queue, the transaction buffer
- `swap_decoder`: swaps in the calldata of pending transactions
- `abi`, `multicall`: batched contract calls and their replies
- `pools`, `discovery`, `readings`, `pool_list`, `pool_manager`: which pools there are and what
  they hold
- `quotes`, `opportunities`: round trips through two pools, and which are worth taking
- `mev_config`, `wallet`, `launcher`, `providers`: settings, the signing key and the decisions of
  the running loops
- `types`, `config`, `u256`, `bytes`, `seqs`, `hexadecimal`, `text`: what the others build on

What the library takes on trust stands in functions marked `external_body`, each of which calls
one function of `ethers`, `hex`, `sha3` or the standard library and says what it relies on.

`app/` holds the program around the library: network connections, tasks, output, floating-point
figures and serialised forms of the types.
