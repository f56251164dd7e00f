//! The L1 side of a real-time proposer: the transaction that proposes a batch of L2 blocks, the
//! steps in which it is sent, and the search for the bridge message of a user operation.
pub mod abi;
pub mod bytes;
pub mod calldata;
pub mod error;
pub mod events;
pub mod execution_layer;
pub mod message;
pub mod proposal;
pub mod proposal_tx_builder;
pub mod reading;
pub mod trace;
