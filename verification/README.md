# pfft_miner

A proof-of-work miner for the PFFT token on Ethereum mainnet. The contract
mints to whoever presents a nonce such that
`keccak256(challenge[32] ++ nonce_be[32])`, read as a 256-bit big-endian
number, is at most `(2^256 - 1) >> (4 * hex_zeros)`.

- `src/` is the library, verified with Verus: big-endian 256-bit numbers and
  their order (`uint`), the difficulty target and contract status (`status`),
  the puzzle and its chunked search (`pow`), the host side of the GPU search
  (`gpu`), the mining session as a state machine (`session`), the checks of
  the RPC URL and private key and the key's address (`signer`), wallet files
  (`wallet`) and hex text (`hexfmt`).
- `app/` is the command-line program around it: JSON-RPC calls through
  `alloy`, threads, timing, the wallet file on disk, printing.
- `tests/` runs the library on concrete values.

Options: `--rpc URL` (or `ETH_RPC`), `--wallet PATH` (or `PFFT_WALLET`;
both are also read from a `.env` file), `--threads N`, `--cpu-only`,
`--benchmark`, `--pause SECS`, and `--gpu-batch N`.

The OpenCL solver in `app/pow.rs` is built only with a `gpu` feature and the
`opencl3` crate, which this manifest does not declare; without them the miner
runs on the CPU and `--gpu-batch` and `--cpu-only` have no effect.
