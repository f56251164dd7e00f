//! What a proposal is made of, and the calls that carry it to the L1.
use vstd::prelude::*;

use crate::bytes::{Address, Bytes32};
use crate::message::Message;

verus! {

/// A call that a user wants to have executed on the L1.
#[derive(Debug, PartialEq, Eq)]
pub struct UserOp {
    pub submitter: Address,
    pub calldata: Vec<u8>,
}

/// A message from the L2 that the bridge is to process on the L1.
#[derive(Debug, PartialEq, Eq)]
pub struct L1Call {
    pub message_from_l2: Message,
    pub signal_slot_proof: Vec<u8>,
}

/// The L2 state that a proposal ends in.
#[derive(Debug, PartialEq, Eq)]
pub struct Checkpoint {
    /// A 48-bit block number.
    pub block_number: u64,
    pub block_hash: Bytes32,
    pub state_root: Bytes32,
}

/// One block of a proposal.
#[derive(Debug, PartialEq, Eq)]
pub struct L2Block {
    pub timestamp_sec: u64,
    pub coinbase: Address,
    pub anchor_block_number: u64,
    pub gas_limit_without_anchor: u64,
    /// The encoded transactions.
    pub tx_list: Vec<Vec<u8>>,
}

/// What the L1 is told of one block.
#[derive(Debug, PartialEq, Eq)]
pub struct BlockManifest {
    pub timestamp: u64,
    pub coinbase: Address,
    pub anchor_block_number: u64,
    pub gas_limit: u64,
    /// The encoded transactions.
    pub transactions: Vec<Vec<u8>>,
}

/// What a `BlockManifest` holds.
#[verifier::ext_equal]
pub struct BlockManifestView {
    pub timestamp: u64,
    pub coinbase: Seq<u8>,
    pub anchor_block_number: u64,
    pub gas_limit: u64,
    pub transactions: Seq<Seq<u8>>,
}

impl View for BlockManifest {
    type V = BlockManifestView;

    open spec fn view(&self) -> BlockManifestView {
        BlockManifestView {
            timestamp: self.timestamp,
            coinbase: self.coinbase@,
            anchor_block_number: self.anchor_block_number,
            gas_limit: self.gas_limit,
            transactions: self.transactions@.map_values(|tx: Vec<u8>| tx@),
        }
    }
}

/// A batch of L2 blocks with what is proposed along with them.
#[derive(Debug, PartialEq, Eq)]
pub struct Proposal {
    pub l2_blocks: Vec<L2Block>,
    pub user_ops: Vec<UserOp>,
    pub signal_slots: Vec<Bytes32>,
    pub l1_calls: Vec<L1Call>,
    pub zk_proof: Option<Vec<u8>>,
    pub max_anchor_block_number: u64,
    pub checkpoint: Checkpoint,
}

impl Proposal {
    /// The checkpoint's block number has at most 48 bits.
    pub open spec fn well_formed(self) -> bool {
        self.checkpoint.block_number < 0x1_0000_0000_0000
    }

    /// The anchor block number has at most 48 bits.
    pub open spec fn anchor_fits(self) -> bool {
        self.max_anchor_block_number < 0x1_0000_0000_0000
    }
}

/// The contracts on the L1 that a proposal goes to.
#[derive(Clone, Copy, Debug, PartialEq, Eq)]
pub struct ContractAddresses {
    pub realtime_inbox: Address,
    pub proposer_multicall: Address,
    pub bridge: Address,
}

/// The proof system that proved a batch.
#[derive(Clone, Copy, Debug, PartialEq, Eq)]
pub struct ProofType {
    /// The bit by which the verifier knows the proof system.
    pub bit_flag: u8,
}

impl ProofType {
    /// The bit by which the verifier knows the proof system.
    pub fn proof_bit_flag(&self) -> (flag: u8)
        ensures
            flag == self.bit_flag,
    {
        self.bit_flag
    }
}

/// A proof with the bit of its proof system.
#[derive(Debug, PartialEq, Eq)]
pub struct SubProof {
    pub proof_bit_flag: u8,
    pub data: Vec<u8>,
}

/// The blobs that hold the manifest of a proposal.
#[derive(Debug, PartialEq, Eq)]
pub struct BlobReference {
    pub blob_start_index: u16,
    pub num_blobs: u16,
    /// A 24-bit offset into the first blob.
    pub offset: u32,
}

/// A KZG commitment to a blob, or its proof.
pub type Bytes48 = [u8; 48];

/// The blobs that go with a transaction, with their commitments and the proofs of these.
#[derive(Debug, PartialEq, Eq)]
pub struct BlobTransactionSidecar {
    pub blobs: Vec<Vec<u8>>,
    pub commitments: Vec<Bytes48>,
    pub proofs: Vec<Bytes48>,
}

/// What a `BlobTransactionSidecar` holds.
#[verifier::ext_equal]
pub struct SidecarView {
    pub blobs: Seq<Seq<u8>>,
    pub commitments: Seq<Seq<u8>>,
    pub proofs: Seq<Seq<u8>>,
}

impl View for BlobTransactionSidecar {
    type V = SidecarView;

    open spec fn view(&self) -> SidecarView {
        SidecarView {
            blobs: self.blobs@.map_values(|blob: Vec<u8>| blob@),
            commitments: self.commitments@.map_values(|commitment: Bytes48| commitment@),
            proofs: self.proofs@.map_values(|proof: Bytes48| proof@),
        }
    }
}

/// What the second proof store is told of the message that returns from the L2.
#[derive(Debug, PartialEq, Eq)]
pub struct ReturnMessage {
    pub id: u64,
    pub success: bool,
    pub data: Vec<u8>,
    pub hop_proof: Vec<u8>,
}

/// One call of a multicall.
#[derive(Debug, PartialEq, Eq)]
pub struct Call {
    pub target: Address,
    /// The value, as a big-endian 256-bit integer.
    pub value: Bytes32,
    pub data: Vec<u8>,
}

/// What a `Call` holds.
#[verifier::ext_equal]
pub struct CallView {
    pub target: Seq<u8>,
    pub value: Seq<u8>,
    pub data: Seq<u8>,
}

impl View for Call {
    type V = CallView;

    open spec fn view(&self) -> CallView {
        CallView { target: self.target@, value: self.value@, data: self.data@ }
    }
}

/// What the calls of a list hold.
pub open spec fn call_views(calls: Seq<Call>) -> Seq<CallView> {
    calls.map_values(|call: Call| call@)
}

/// Where synchronous calls keep their proofs, as the environment configures it.
#[derive(Debug, PartialEq, Eq)]
pub struct SyncSettings {
    /// The value of `SYNC_PROOF_STORE_ADDRESS`, if it is set: the address of the proof store.
    pub proof_store_address: Option<String>,
    /// Whether `SYNC_MODE_V2` is set: the proof store is of the second version.
    pub mode_v2: bool,
}

/// A transaction to the L1 with its blobs.
#[derive(Debug, PartialEq, Eq)]
pub struct TransactionRequest {
    pub from: Address,
    pub to: Address,
    pub input: Vec<u8>,
    pub blob_sidecar: BlobTransactionSidecar,
}

/// What a `TransactionRequest` holds.
#[verifier::ext_equal]
pub struct TransactionView {
    pub from: Seq<u8>,
    pub to: Seq<u8>,
    pub input: Seq<u8>,
    pub blob_sidecar: SidecarView,
}

impl View for TransactionRequest {
    type V = TransactionView;

    open spec fn view(&self) -> TransactionView {
        TransactionView {
            from: self.from@,
            to: self.to@,
            input: self.input@,
            blob_sidecar: self.blob_sidecar@,
        }
    }
}

/// A transaction with what is known of its cost.
#[derive(Debug, PartialEq, Eq)]
pub enum PricedTransaction<F> {
    /// The fees are not known: the transaction goes out as it is.
    Unpriced(TransactionRequest),
    /// The transaction goes out with this gas limit and these fees per gas.
    Priced { tx: TransactionRequest, gas_limit: u64, fees_per_gas: F },
}

/// Block numbers fit exactly if they have at most 48 bits.
pub proof fn law_block_numbers_have_48_bits(batch: Proposal)
    ensures
        batch.well_formed() <==> batch.checkpoint.block_number <= 0xffff_ffff_ffff,
        batch.anchor_fits() <==> batch.max_anchor_block_number <= 0xffff_ffff_ffff,
{
}

/// What is known of a call, a manifest, a sidecar or a transaction is all that it holds: two of
/// which the same is known hold the same in every field.
pub proof fn law_views_of_proposals_are_faithful(
    calls: (Call, Call),
    manifests: (BlockManifest, BlockManifest),
    sidecars: (BlobTransactionSidecar, BlobTransactionSidecar),
    txs: (TransactionRequest, TransactionRequest),
)
    ensures
        calls.0@ == calls.1@ ==> {
            &&& calls.0.target@ == calls.1.target@
            &&& calls.0.value@ == calls.1.value@
            &&& calls.0.data@ == calls.1.data@
        },
        manifests.0@ == manifests.1@ ==> {
            let (a, b) = manifests;
            &&& a.timestamp == b.timestamp
            &&& a.coinbase@ == b.coinbase@
            &&& a.anchor_block_number == b.anchor_block_number
            &&& a.gas_limit == b.gas_limit
            &&& a.transactions@.len() == b.transactions@.len()
            &&& forall|i: int|
                0 <= i < a.transactions@.len() ==> (#[trigger] a.transactions@[i])@
                    == b.transactions@[i]@
        },
        sidecars.0@ == sidecars.1@ ==> {
            let (a, b) = sidecars;
            &&& a.blobs@.len() == b.blobs@.len()
            &&& a.commitments@.len() == b.commitments@.len()
            &&& a.proofs@.len() == b.proofs@.len()
            &&& forall|i: int|
                0 <= i < a.blobs@.len() ==> (#[trigger] a.blobs@[i])@ == b.blobs@[i]@
            &&& forall|i: int|
                0 <= i < a.commitments@.len() ==> (#[trigger] a.commitments@[i])@
                    == b.commitments@[i]@
            &&& forall|i: int|
                0 <= i < a.proofs@.len() ==> (#[trigger] a.proofs@[i])@ == b.proofs@[i]@
        },
        txs.0@ == txs.1@ ==> {
            &&& txs.0.from@ == txs.1.from@
            &&& txs.0.to@ == txs.1.to@
            &&& txs.0.input@ == txs.1.input@
            &&& txs.0.blob_sidecar@ == txs.1.blob_sidecar@
        },
        sidecars.0@.blobs.len() == sidecars.0.blobs@.len(),
{
    let (a, b) = manifests;
    if a@ == b@ {
        assert(a@.transactions.len() == b@.transactions.len());
        assert forall|i: int| 0 <= i < a.transactions@.len() implies (
        #[trigger] a.transactions@[i])@ == b.transactions@[i]@ by {
            assert(a@.transactions[i] == b@.transactions[i]);
        }
    }
    let (a, b) = sidecars;
    if a@ == b@ {
        assert(a@.blobs.len() == b@.blobs.len());
        assert(a@.commitments.len() == b@.commitments.len());
        assert(a@.proofs.len() == b@.proofs.len());
        assert forall|i: int| 0 <= i < a.blobs@.len() implies (#[trigger] a.blobs@[i])@
            == b.blobs@[i]@ by {
            assert(a@.blobs[i] == b@.blobs[i]);
        }
        assert forall|i: int| 0 <= i < a.commitments@.len() implies (#[trigger] a.commitments@[i])@
            == b.commitments@[i]@ by {
            assert(a@.commitments[i] == b@.commitments[i]);
        }
        assert forall|i: int| 0 <= i < a.proofs@.len() implies (#[trigger] a.proofs@[i])@
            == b.proofs@[i]@ by {
            assert(a@.proofs[i] == b@.proofs[i]);
        }
    }
}

} // verus!
