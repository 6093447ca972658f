# Rustle

A static analyzer for NEAR smart contracts, written in Verus. The analyses
work on LLVM bitcode of a contract, read into an owned model of the module;
each detector is a verified function from that model to the lines it records.

Layout:

- `src/ir.rs`: the module model (values, functions, basic blocks) and its
  well-formedness.
- `src/patterns.rs`: the symbol and path patterns, matched with the `regex`
  crate.
- `src/users.rs`, `src/callgraph.rs`, `src/reach.rs`: the transitive users
  of a value, the call-graph searches, and what those searches answer in
  terms of the call graph.
- `src/detectors/`: one file per detector.
- `src/output.rs`, `src/input.rs`: the lines detectors record, the files they
  are written to, and the lists some detectors read back.
- `src/text.rs`: string helpers.
- `src/contracts/`: the sample contracts (an AMM, a staking pool and an NFT
  marketplace), their state and the decisions of each method.
- `app/`: the command-line driver; it reads bitcode through the LLVM C API
  and writes the detectors' output files.

Usage: `rustle <detector> [--nep-id <id>] <bitcode_file> [...]`; output goes to
`$TMP_DIR/.<detector>.tmp` (`./.tmp/` by default).
