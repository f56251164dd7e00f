# realtime

The L1 side of a real-time proposer: it turns a batch of L2 blocks into the L1
transaction that proposes it, decides step by step how that transaction is sent,
and finds the bridge message that a user operation sends in the trace of a
simulated call. The library is written in Rust and verified with Verus.

- `src/bytes.rs`: big-endian integers, words and bounded slices
- `src/message.rs`: bridge messages
- `src/abi.rs`: the contract ABI, hashes and hex addresses, computed by `alloy`
- `src/calldata.rs`: the inner call of a Safe's `execTransaction`
- `src/trace.rs`: logs and call outputs of a trace
- `src/events.rs`: the bridge's events among the logs
- `src/proposal.rs`: what a proposal is made of
- `src/proposal_tx_builder.rs`: the transaction that proposes a batch
- `src/execution_layer.rs`: sending a batch, and the search for a message
- `src/error.rs`: errors and their texts
- `app/`: the node, the transaction monitor and the environment around the library
- `tests/`: tests on concrete values

Functions named `law_..` state what holds of several functions together.

The proof store of the synchronous mode is configured in the environment:
`SYNC_PROOF_STORE_ADDRESS` names it, and `SYNC_MODE_V2`, if it is set, says that
it is of the second version, which takes the return value of the L2 call in
place of a message for the bridge to process.
