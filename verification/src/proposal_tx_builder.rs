//! Builds the L1 transaction that proposes a batch.
use vstd::prelude::*;
use vstd::slice::{slice_subrange, slice_to_vec};
use vstd::string::*;

use crate::abi::{
    abi_multicall_params, abi_process_message_params, abi_propose_input, abi_propose_params,
    abi_store_params, abi_store_v2_params, abi_sub_proofs, bool_word, calldata,
    encode_multicall_params, encode_process_message_params, encode_propose_input,
    encode_propose_params, encode_store_params, encode_store_v2_params, encode_sub_proofs,
    hex_address, law_store_params_read_back, law_store_v2_params_read_back, param_bytes,
    param_word, parse_address, selector,
};
use crate::bytes::{
    be_nat, bytes_view, law_length_prefixed_lies_within, lemma_be_bytes_zero,
    lemma_low_uint_of_uint_word, lemma_pow256_values, length_prefixed, low_address, low_uint,
    read_length_prefixed, read_u64, uint_word, zeros, Address, Bytes32,
};
use crate::error::{Error, ErrorView};
use crate::proposal::{
    call_views, BlobReference, BlobTransactionSidecar, BlockManifest, BlockManifestView, Call,
    CallView, ContractAddresses, L1Call, L2Block, PricedTransaction, ProofType, Proposal,
    ReturnMessage, SidecarView, SubProof, SyncSettings, TransactionRequest, TransactionView, UserOp,
};

verus! {

/// The signature of the inbox's `propose`.
pub const PROPOSE: &'static str = "propose(bytes,(uint48,bytes32,bytes32),bytes)";

/// The signature of the proposer's `multicall`.
pub const MULTICALL: &'static str = "multicall((address,uint256,bytes)[])";

/// The signature of the bridge's `processMessage`.
pub const PROCESS_MESSAGE: &'static str =
    "processMessage((uint64,uint64,uint32,address,uint64,address,uint64,address,address,uint256,bytes),bytes)";

/// The signature of the first proof store's `store`.
pub const STORE: &'static str = "store(uint256,address,bytes,address,bytes)";

/// The signature of the second proof store's `store`.
pub const STORE_V2: &'static str = "store(uint256,address,bytes,uint64,bool,bytes,bytes)";

/// The gas of a transaction whose gas could not be estimated.
pub const FALLBACK_GAS: u64 = 5_000_000;

/// Builds the transactions that propose batches.
pub struct ProposalTxBuilder {
    pub extra_gas_percentage: u64,
    pub proof_type: ProofType,
}

/// The return value that a message from the L2 carries: whether the call on the L2 succeeded, and
/// what it returned. The data is that of `onMessageInvocation(abi.encode(callId, success,
/// retData, ..))`, so the payload stands behind the selector and two words. A message that
/// does not hold a return value counts as a failed call that returned nothing.
pub open spec fn decoded_return(data: Seq<u8>) -> (bool, Seq<u8>) {
    let payload = data.skip(68);
    if data.len() > 68 && payload.len() >= 96 {
        match length_prefixed(payload, low_uint(payload.subrange(64, 96), 8) as int) {
            Some(returned) => (payload.subrange(32, 64) != zeros(32), returned),
            None => (false, Seq::empty()),
        }
    } else {
        (false, Seq::empty())
    }
}

/// Decodes the return value that a message from the L2 carries.
pub fn decode_return(data: &Vec<u8>) -> (decoded: (bool, Vec<u8>))
    ensures
        (decoded.0, decoded.1@) == decoded_return(data@),
{
    if data.len() > 68 {
        let payload: &[u8] = slice_subrange(data.as_slice(), 68, data.len());
        assert(payload@ =~= data@.skip(68));
        if payload.len() >= 96 {
            let mut success: bool = false;
            let mut i: usize = 32;
            while i < 64
                invariant
                    32 <= i <= 64,
                    payload@.len() >= 96,
                    success == exists|j: int| 32 <= j < i && payload@[j] != 0,
                decreases 64 - i,
            {
                if payload[i] != 0 {
                    success = true;
                }
                i = i + 1;
            }
            proof {
                let word = payload@.subrange(32, 64);
                if success {
                    let j = choose|j: int| 32 <= j < 64 && payload@[j] != 0;
                    assert(word[j - 32] != zeros(32)[j - 32]);
                } else {
                    assert(word =~= zeros(32));
                }
                assert(payload@.subrange(64, 96).subrange(24, 32) =~= payload@.subrange(88, 96));
            }
            let offset: u64 = read_u64(payload, 88);
            if let Some(returned) = read_length_prefixed(payload, 0, offset) {
                return (success, returned);
            }
        }
    }
    (false, Vec::new())
}

/// Whether the data of a message holds a return value as the ABI lays it out behind the selector
/// and the two words of the outer byte string: the success flag in the second word of the
/// payload, an offset in the third, and at that offset the returned bytes behind their length.
pub open spec fn holds_return(
    data: Seq<u8>,
    success: bool,
    offset: nat,
    returned: Seq<u8>,
) -> bool {
    let payload = data.skip(68);
    let flag: nat = if success {
        1
    } else {
        0
    };
    let start = offset as int;
    &&& data.len() >= 68 + 96
    &&& data.len() >= 68 + offset + 32 + returned.len()
    &&& payload.subrange(32, 64) == uint_word(flag)
    &&& payload.subrange(64, 96) == uint_word(offset)
    &&& payload.subrange(start, start + 32) == uint_word(returned.len())
    &&& payload.subrange(start + 32, start + 32 + returned.len()) == returned
}

/// A return value that the L2 sent is given back: exactly the success flag and the bytes that
/// the data of a message holds are decoded from it, wherever the bytes stand.
pub proof fn law_return_reads_back(
    data: Seq<u8>,
    success: bool,
    offset: nat,
    returned: Seq<u8>,
)
    requires
        holds_return(data, success, offset, returned),
        offset <= u64::MAX,
        returned.len() <= u64::MAX,
    ensures
        decoded_return(data) == (success, returned),
{
    lemma_pow256_values();
    lemma_low_uint_of_uint_word(offset, 8);
    lemma_low_uint_of_uint_word(returned.len(), 8);
    lemma_low_uint_of_uint_word(0, 8);
    lemma_low_uint_of_uint_word(1, 8);
    lemma_be_bytes_zero(32);
}

/// The return value is read by the bytes: behind the selector and two words, the call on the L2
/// succeeded if any byte of the second word is set, and what it returned stands where the last
/// eight bytes of the third word say, as long as the last eight bytes there say. Where it does not
/// lie within the data the call counts as failed, and nothing was returned.
pub proof fn law_return_is_read_by_its_bytes(data: Seq<u8>)
    ensures
        ({
            let n = data.len();
            let at = 68int + be_nat(data.subrange(156, 164));
            let len = be_nat(data.subrange(at + 24, at + 32));
            let (success, returned) = decoded_return(data);
            if n >= 164 && at + 32 <= n && at + 32 + len <= n {
                &&& returned == data.subrange(at + 32, at + 32 + len)
                &&& success <==> exists|i: int| 100 <= i < 132 && #[trigger] data[i] != 0
            } else {
                !success && returned.len() == 0
            }
        }),
{
    let payload = data.skip(68);
    if data.len() >= 164 {
        let offset = be_nat(data.subrange(156, 164));
        let at = 68int + offset;
        assert(payload.subrange(64, 96).subrange(24, 32) =~= data.subrange(156, 164));
        law_length_prefixed_lies_within(payload, offset as int);
        if at + 32 <= data.len() {
            assert(payload.subrange(offset + 24int, offset + 32int) =~= data.subrange(
                at + 24,
                at + 32,
            ));
        }
        if let Some(returned) = length_prefixed(payload, offset as int) {
            assert(returned =~= data.subrange(at + 32, at + 32 + returned.len()));
            let word = payload.subrange(32, 64);
            if exists|i: int| 100 <= i < 132 && #[trigger] data[i] != 0 {
                let i = choose|i: int| 100 <= i < 132 && #[trigger] data[i] != 0;
                assert(word[i - 100] != zeros(32)[i - 100]);
            } else {
                assert forall|k: int| 0 <= k < 32 implies word[k] == zeros(32)[k] by {
                    assert(data[100 + k] == 0);
                }
                assert(word =~= zeros(32));
            }
        }
    }
}

/// The manifest of a block.
pub open spec fn block_manifest(block: L2Block) -> BlockManifestView {
    BlockManifestView {
        timestamp: block.timestamp_sec,
        coinbase: block.coinbase@,
        anchor_block_number: block.anchor_block_number,
        gas_limit: block.gas_limit_without_anchor,
        transactions: block.tx_list@.map_values(|tx: Vec<u8>| tx@),
    }
}

/// The manifest of a batch: its blocks, in their order.
pub open spec fn block_manifests(blocks: Seq<L2Block>) -> Seq<BlockManifestView> {
    blocks.map_values(|block: L2Block| block_manifest(block))
}

/// What the manifests of a list hold.
pub open spec fn manifest_views(blocks: Seq<BlockManifest>) -> Seq<BlockManifestView> {
    blocks.map_values(|block: BlockManifest| block@)
}

/// The call that proposes a batch with a given proof.
pub open spec fn propose_call(
    bit_flag: u8,
    batch: Proposal,
    proof: Seq<u8>,
    inbox: Seq<u8>,
    num_blobs: u16,
) -> CallView {
    let input = abi_propose_input(
        (0u16, num_blobs, 0u32),
        batch.signal_slots@.map_values(|slot: Bytes32| slot@),
        batch.max_anchor_block_number,
    );
    let checkpoint = (
        batch.checkpoint.block_number,
        batch.checkpoint.block_hash@,
        batch.checkpoint.state_root@,
    );
    CallView {
        target: inbox,
        value: zeros(32),
        data: selector(PROPOSE@) + abi_propose_params(
            input,
            checkpoint,
            abi_sub_proofs(seq![(bit_flag, proof)]),
        ),
    }
}

/// The call that proposes a batch. The batch needs a proof, and the number of its blobs has to
/// fit in sixteen bits.
pub open spec fn checked_propose_call(
    bit_flag: u8,
    batch: Proposal,
    inbox: Seq<u8>,
    num_blobs: nat,
) -> Result<CallView, ErrorView> {
    match batch.zk_proof {
        Some(proof) => if num_blobs <= u16::MAX {
            Ok(propose_call(bit_flag, batch, proof@, inbox, num_blobs as u16))
        } else {
            Err(ErrorView::TooManyBlobs)
        },
        None => Err(ErrorView::ZkProofNotSet),
    }
}

/// The call that a user operation asks for.
pub open spec fn user_op_call(user_op: UserOp) -> CallView {
    CallView { target: user_op.submitter@, value: zeros(32), data: user_op.calldata@ }
}

/// The calls that user operations ask for, in their order.
pub open spec fn user_op_calls(user_ops: Seq<UserOp>) -> Seq<CallView> {
    user_ops.map_values(|user_op: UserOp| user_op_call(user_op))
}

/// The call that has the bridge process a message from the L2.
pub open spec fn l1_call_call(l1_call: L1Call, bridge: Seq<u8>) -> CallView {
    CallView {
        target: bridge,
        value: zeros(32),
        data: selector(PROCESS_MESSAGE@) + abi_process_message_params(
            l1_call.message_from_l2@,
            l1_call.signal_slot_proof@,
        ),
    }
}

/// The calls that have the bridge process messages from the L2, in their order.
pub open spec fn l1_call_calls(l1_calls: Seq<L1Call>, bridge: Seq<u8>) -> Seq<CallView> {
    l1_calls.map_values(|l1_call: L1Call| l1_call_call(l1_call, bridge))
}

/// The calldata that has the bridge process the first message from the L2, empty if there is none.
pub open spec fn first_process_message(l1_calls: Seq<L1Call>, bridge: Seq<u8>) -> Seq<u8> {
    if l1_calls.len() > 0 {
        l1_call_call(l1_calls[0], bridge).data
    } else {
        Seq::empty()
    }
}

/// The parameters with which a proposal is stored in the first proof store, along with the calldata
/// that processes the first message from the L2.
pub open spec fn store_params(
    propose: CallView,
    l1_calls: Seq<L1Call>,
    bridge: Seq<u8>,
) -> Seq<u8> {
    abi_store_params(
        zeros(32),
        propose.target,
        propose.data,
        bridge,
        first_process_message(l1_calls, bridge),
    )
}

/// What the second proof store is told of the first message from the L2: its id, whether the call
/// on the L2 succeeded, what it returned, and the proof. Without a message these are zero, false
/// and empty.
pub open spec fn first_return(l1_calls: Seq<L1Call>) -> (u64, bool, Seq<u8>, Seq<u8>) {
    if l1_calls.len() > 0 {
        let message = l1_calls[0].message_from_l2;
        let (success, data) = decoded_return(message.data@);
        (message.id, success, data, l1_calls[0].signal_slot_proof@)
    } else {
        (0u64, false, Seq::empty(), Seq::empty())
    }
}

/// The parameters with which a proposal is stored in the second proof store, along with what the
/// first message from the L2 returns.
pub open spec fn store_v2_params(propose: CallView, l1_calls: Seq<L1Call>) -> Seq<u8> {
    let (id, success, data, hop_proof) = first_return(l1_calls);
    abi_store_v2_params(zeros(32), propose.target, propose.data, id, success, data, hop_proof)
}

/// The call that stores a proposal in a proof store.
pub open spec fn store_call(
    mode_v2: bool,
    proof_store: Seq<u8>,
    propose: CallView,
    l1_calls: Seq<L1Call>,
    bridge: Seq<u8>,
) -> CallView {
    CallView {
        target: proof_store,
        value: zeros(32),
        data: if mode_v2 {
            selector(STORE_V2@) + store_v2_params(propose, l1_calls)
        } else {
            selector(STORE@) + store_params(propose, l1_calls, bridge)
        },
    }
}

/// The calls of a multicall. With a proof store: the call that stores the proposal, then the user
/// operations, one of which will carry the proposal out. Without: the user operations, the
/// proposal, then the messages from the L2.
pub open spec fn arranged_calls(
    store: Option<CallView>,
    user_ops: Seq<CallView>,
    propose: CallView,
    l1_calls: Seq<CallView>,
) -> Seq<CallView> {
    match store {
        Some(store) => seq![store] + user_ops,
        None => user_ops + seq![propose] + l1_calls,
    }
}

/// The proof store that the settings name.
pub open spec fn proof_store(settings: SyncSettings) -> Result<Option<Seq<u8>>, ErrorView> {
    match settings.proof_store_address {
        Some(text) => match hex_address(vstd::utf8::encode_utf8(text@)) {
            Ok(address) => Ok(Some(address)),
            Err(error) => Err(ErrorView::InvalidProofStoreAddress(error)),
        },
        None => Ok(None),
    }
}

/// The calls of the multicall that proposes a batch.
pub open spec fn multicall_calls(
    batch: Proposal,
    propose: CallView,
    bridge: Seq<u8>,
    store: Option<Seq<u8>>,
    mode_v2: bool,
) -> Seq<CallView> {
    let store = match store {
        Some(store) => Some(store_call(mode_v2, store, propose, batch.l1_calls@, bridge)),
        None => None,
    };
    arranged_calls(
        store,
        user_op_calls(batch.user_ops@),
        propose,
        l1_call_calls(batch.l1_calls@, bridge),
    )
}

/// The transaction that carries a propose call: to the inbox itself if there are neither user
/// operations nor messages from the L2, and else through the multicall. Either way the blobs go
/// with it.
pub open spec fn blob_transaction(
    batch: Proposal,
    propose: CallView,
    from: Seq<u8>,
    contracts: ContractAddresses,
    settings: SyncSettings,
    blob_sidecar: SidecarView,
) -> Result<TransactionView, ErrorView> {
    if batch.user_ops@.len() == 0 && batch.l1_calls@.len() == 0 {
        Ok(
            TransactionView {
                from,
                to: contracts.realtime_inbox@,
                input: propose.data,
                blob_sidecar,
            },
        )
    } else {
        match proof_store(settings) {
            Ok(store) => {
                let calls = multicall_calls(
                    batch,
                    propose,
                    contracts.bridge@,
                    store,
                    settings.mode_v2,
                );
                Ok(
                    TransactionView {
                        from,
                        to: contracts.proposer_multicall@,
                        input: selector(MULTICALL@) + abi_multicall_params(calls),
                        blob_sidecar,
                    },
                )
            },
            Err(error) => Err(error),
        }
    }
}

/// The gas that a transaction takes before anything is added: the estimate, or the fallback
/// where there is none.
pub open spec fn base_gas(gas_estimate: Option<u64>) -> nat {
    match gas_estimate {
        Some(gas) => gas as nat,
        None => FALLBACK_GAS as nat,
    }
}

/// The gas with a percentage of it added, rounded down.
pub open spec fn padded_gas(gas: nat, percentage: nat) -> nat {
    gas + gas * percentage / 100
}

/// What the result of building a call holds: the call, and the blobs that go with it.
pub open spec fn call_result_view(
    built: Result<(Call, BlobTransactionSidecar), Error>,
) -> Result<(CallView, SidecarView), ErrorView> {
    match built {
        Ok((call, sidecar)) => Ok((call@, sidecar@)),
        Err(error) => Err(error@),
    }
}

/// What the result of building a transaction holds.
pub open spec fn tx_result_view(built: Result<TransactionRequest, Error>) -> Result<
    TransactionView,
    ErrorView,
> {
    match built {
        Ok(tx) => Ok(tx@),
        Err(error) => Err(error@),
    }
}

/// A zero word.
fn zero_word() -> (word: Bytes32)
    ensures
        word@ == zeros(32),
{
    let word: Bytes32 = [0u8; 32];
    assert(word@ =~= zeros(32));
    word
}

/// Puts the calls of a multicall in order.
pub fn arrange_calls(
    store: Option<Call>,
    user_ops: Vec<Call>,
    propose: Call,
    l1_calls: Vec<Call>,
) -> (calls: Vec<Call>)
    ensures
        call_views(calls@) == arranged_calls(
            match store {
                Some(store) => Some(store@),
                None => None,
            },
            call_views(user_ops@),
            propose@,
            call_views(l1_calls@),
        ),
{
    let ghost ops = user_ops@;
    let ghost last = l1_calls@;
    match store {
        Some(store) => {
            let mut user_ops: Vec<Call> = user_ops;
            let mut calls: Vec<Call> = Vec::new();
            calls.push(store);
            calls.append(&mut user_ops);
            assert(call_views(calls@) =~= seq![store@] + call_views(ops));
            calls
        },
        None => {
            let mut l1_calls: Vec<Call> = l1_calls;
            let mut calls: Vec<Call> = user_ops;
            calls.push(propose);
            calls.append(&mut l1_calls);
            assert(call_views(calls@) =~= call_views(ops) + seq![propose@] + call_views(last));
            calls
        },
    }
}

impl ProposalTxBuilder {
    /// Makes a builder that adds a percentage to the estimated gas.
    pub fn new(extra_gas_percentage: u64, proof_type: ProofType) -> (builder: Self)
        ensures
            builder.extra_gas_percentage == extra_gas_percentage,
            builder.proof_type == proof_type,
    {
        ProposalTxBuilder { extra_gas_percentage, proof_type }
    }

    /// Prices the transaction that proposes a batch. The gas is the estimate, or the fallback where
    /// the estimate failed, and the extra percentage of it. Where the fees are not known the
    /// transaction goes out without any of this.
    pub fn build_propose_tx<F>(
        &self,
        tx_blob: TransactionRequest,
        gas_estimate: Option<u64>,
        fees_per_gas: Option<F>,
    ) -> (priced: PricedTransaction<F>)
        requires
            base_gas(gas_estimate) * self.extra_gas_percentage <= u64::MAX,
            padded_gas(base_gas(gas_estimate), self.extra_gas_percentage as nat) <= u64::MAX,
        ensures
            priced == (match fees_per_gas {
                Some(fees_per_gas) => PricedTransaction::Priced {
                    tx: tx_blob,
                    gas_limit: padded_gas(
                        base_gas(gas_estimate),
                        self.extra_gas_percentage as nat,
                    ) as u64,
                    fees_per_gas,
                },
                None => PricedTransaction::Unpriced(tx_blob),
            }),
    {
        let gas: u64 = match gas_estimate {
            Some(gas) => gas,
            None => FALLBACK_GAS,
        };
        let gas_limit: u64 = gas + gas * self.extra_gas_percentage / 100;
        match fees_per_gas {
            Some(fees_per_gas) => PricedTransaction::Priced { tx: tx_blob, gas_limit, fees_per_gas },
            None => PricedTransaction::Unpriced(tx_blob),
        }
    }

    /// Builds the transaction that proposes a batch whose manifest fills the blobs.
    pub fn build_propose_blob(
        &self,
        batch: &Proposal,
        from: Address,
        contract_addresses: &ContractAddresses,
        blob_sidecar: BlobTransactionSidecar,
        settings: &SyncSettings,
    ) -> (built: Result<TransactionRequest, Error>)
        requires
            batch.well_formed(),
            batch.zk_proof is Some && blob_sidecar@.blobs.len() <= u16::MAX ==> batch.anchor_fits(),
        ensures
            tx_result_view(built) == (match checked_propose_call(
                self.proof_type.bit_flag,
                *batch,
                contract_addresses.realtime_inbox@,
                blob_sidecar@.blobs.len(),
            ) {
                Ok(propose) => blob_transaction(
                    *batch,
                    propose,
                    from@,
                    *contract_addresses,
                    *settings,
                    blob_sidecar@,
                ),
                Err(error) => Err(error),
            }),
            selector(PROPOSE@).len() == 4,
            selector(MULTICALL@).len() == 4,
    {
        match self.build_propose_call(batch, contract_addresses.realtime_inbox, blob_sidecar) {
            Ok((propose, blob_sidecar)) => self.carry_propose_call(
                batch,
                propose,
                blob_sidecar,
                from,
                contract_addresses,
                settings,
            ),
            Err(error) => Err(error),
        }
    }

    /// Builds the transaction that carries a propose call and its blobs.
    pub fn carry_propose_call(
        &self,
        batch: &Proposal,
        propose: Call,
        blob_sidecar: BlobTransactionSidecar,
        from: Address,
        contract_addresses: &ContractAddresses,
        settings: &SyncSettings,
    ) -> (built: Result<TransactionRequest, Error>)
        ensures
            tx_result_view(built) == blob_transaction(
                *batch,
                propose@,
                from@,
                *contract_addresses,
                *settings,
                blob_sidecar@,
            ),
            selector(MULTICALL@).len() == 4,
    {
        if batch.user_ops.len() == 0 && batch.l1_calls.len() == 0 {
            return Ok(
                TransactionRequest {
                    from,
                    to: contract_addresses.realtime_inbox,
                    input: propose.data,
                    blob_sidecar,
                },
            );
        }
        let store: Option<Call> = match &settings.proof_store_address {
            Some(text) => match parse_address(text.as_str()) {
                Ok(address) => Some(
                    self.build_store_call(
                        settings.mode_v2,
                        address,
                        &propose,
                        &batch.l1_calls,
                        contract_addresses.bridge,
                    ),
                ),
                Err(error) => {
                    return Err(Error::InvalidProofStoreAddress(error));
                },
            },
            None => None,
        };
        let user_ops: Vec<Call> = self.build_user_op_calls(&batch.user_ops);
        let l1_calls: Vec<Call> = if store.is_some() {
            Vec::new()
        } else {
            self.build_l1_call_calls(&batch.l1_calls, contract_addresses.bridge)
        };
        let calls: Vec<Call> = arrange_calls(store, user_ops, propose, l1_calls);
        let input: Vec<u8> = calldata(MULTICALL, &encode_multicall_params(&calls));
        Ok(
            TransactionRequest {
                from,
                to: contract_addresses.proposer_multicall,
                input,
                blob_sidecar,
            },
        )
    }

    /// Builds the call that stores a proposal in a proof store.
    fn build_store_call(
        &self,
        mode_v2: bool,
        proof_store: Address,
        propose: &Call,
        l1_calls: &Vec<L1Call>,
        bridge: Address,
    ) -> (call: Call)
        ensures
            call@ == store_call(mode_v2, proof_store@, propose@, l1_calls@, bridge@),
            selector(STORE@).len() == 4,
            selector(STORE_V2@).len() == 4,
    {
        let call_id: Bytes32 = zero_word();
        let data: Vec<u8> = if mode_v2 {
            let returned: ReturnMessage = if l1_calls.len() > 0 {
                let (success, data) = decode_return(&l1_calls[0].message_from_l2.data);
                ReturnMessage {
                    id: l1_calls[0].message_from_l2.id,
                    success,
                    data,
                    hop_proof: slice_to_vec(l1_calls[0].signal_slot_proof.as_slice()),
                }
            } else {
                ReturnMessage { id: 0, success: false, data: Vec::new(), hop_proof: Vec::new() }
            };
            calldata(STORE_V2, &encode_store_v2_params(&call_id, propose, &returned))
        } else {
            let process_message: Call = if l1_calls.len() > 0 {
                self.build_l1_call_call(&l1_calls[0], bridge)
            } else {
                Call { target: bridge, value: zero_word(), data: Vec::new() }
            };
            calldata(STORE, &encode_store_params(&call_id, propose, &process_message))
        };
        Call { target: proof_store, value: zero_word(), data }
    }

    /// Builds the call that a user operation asks for.
    pub fn build_user_op_call(&self, user_op: &UserOp) -> (call: Call)
        ensures
            call@ == user_op_call(*user_op),
            call.target == user_op.submitter,
            call.data@ == user_op.calldata@,
    {
        Call {
            target: user_op.submitter,
            value: zero_word(),
            data: slice_to_vec(user_op.calldata.as_slice()),
        }
    }

    /// Builds the calls that user operations ask for.
    fn build_user_op_calls(&self, user_ops: &Vec<UserOp>) -> (calls: Vec<Call>)
        ensures
            call_views(calls@) == user_op_calls(user_ops@),
    {
        let mut calls: Vec<Call> = Vec::new();
        let mut i: usize = 0;
        while i < user_ops.len()
            invariant
                i <= user_ops@.len(),
                calls@.len() == i,
                forall|j: int| 0 <= j < i ==> (#[trigger] calls@[j])@ == user_op_call(user_ops@[j]),
            decreases user_ops@.len() - i,
        {
            calls.push(self.build_user_op_call(&user_ops[i]));
            i = i + 1;
        }
        assert(call_views(calls@) =~= user_op_calls(user_ops@));
        calls
    }

    /// Builds the manifests of the blocks of a batch.
    pub fn build_manifest(&self, batch: &Proposal) -> (blocks: Vec<BlockManifest>)
        ensures
            manifest_views(blocks@) == block_manifests(batch.l2_blocks@),
    {
        let mut blocks: Vec<BlockManifest> = Vec::new();
        let mut i: usize = 0;
        while i < batch.l2_blocks.len()
            invariant
                i <= batch.l2_blocks@.len(),
                blocks@.len() == i,
                forall|j: int|
                    0 <= j < i ==> (#[trigger] blocks@[j])@ == block_manifest(batch.l2_blocks@[j]),
            decreases batch.l2_blocks@.len() - i,
        {
            let block: &L2Block = &batch.l2_blocks[i];
            let mut transactions: Vec<Vec<u8>> = Vec::new();
            let mut k: usize = 0;
            while k < block.tx_list.len()
                invariant
                    k <= block.tx_list@.len(),
                    transactions@.len() == k,
                    forall|j: int|
                        0 <= j < k ==> (#[trigger] transactions@[j])@ == block.tx_list@[j]@,
                decreases block.tx_list@.len() - k,
            {
                transactions.push(slice_to_vec(block.tx_list[k].as_slice()));
                k = k + 1;
            }
            assert(transactions@.map_values(|tx: Vec<u8>| tx@) =~= block.tx_list@.map_values(
                |tx: Vec<u8>| tx@,
            ));
            blocks.push(
                BlockManifest {
                    timestamp: block.timestamp_sec,
                    coinbase: block.coinbase,
                    anchor_block_number: block.anchor_block_number,
                    gas_limit: block.gas_limit_without_anchor,
                    transactions,
                },
            );
            i = i + 1;
        }
        assert(manifest_views(blocks@) =~= block_manifests(batch.l2_blocks@));
        blocks
    }

    /// Builds the call that proposes a batch whose manifest fills the blobs, and hands the blobs
    /// on.
    pub fn build_propose_call(
        &self,
        batch: &Proposal,
        inbox_address: Address,
        blob_sidecar: BlobTransactionSidecar,
    ) -> (built: Result<(Call, BlobTransactionSidecar), Error>)
        requires
            batch.well_formed(),
            batch.zk_proof is Some && blob_sidecar@.blobs.len() <= u16::MAX ==> batch.anchor_fits(),
        ensures
            call_result_view(built) == (match checked_propose_call(
                self.proof_type.bit_flag,
                *batch,
                inbox_address@,
                blob_sidecar@.blobs.len(),
            ) {
                Ok(propose) => Ok((propose, blob_sidecar@)),
                Err(error) => Err(error),
            }),
            selector(PROPOSE@).len() == 4,
    {
        let raw_proof: &Vec<u8> = match &batch.zk_proof {
            Some(proof) => proof,
            None => {
                return Err(Error::ZkProofNotSet);
            },
        };
        let mut sub_proofs: Vec<SubProof> = Vec::new();
        sub_proofs.push(
            SubProof {
                proof_bit_flag: self.proof_type.proof_bit_flag(),
                data: slice_to_vec(raw_proof.as_slice()),
            },
        );
        let proof: Vec<u8> = encode_sub_proofs(&sub_proofs);
        let num_blobs: usize = blob_sidecar.blobs.len();
        if num_blobs > u16::MAX as usize {
            return Err(Error::TooManyBlobs);
        }
        let blobs = BlobReference { blob_start_index: 0, num_blobs: num_blobs as u16, offset: 0 };
        let input: Vec<u8> = encode_propose_input(
            &blobs,
            &batch.signal_slots,
            batch.max_anchor_block_number,
        );
        let data: Vec<u8> = calldata(
            PROPOSE,
            &encode_propose_params(&input, &batch.checkpoint, &proof),
        );
        assert(sub_proofs@.map_values(|proof: SubProof| (proof.proof_bit_flag, proof.data@))
            =~= seq![(self.proof_type.bit_flag, raw_proof@)]);
        Ok((Call { target: inbox_address, value: zero_word(), data }, blob_sidecar))
    }

    /// Builds the call that has the bridge process a message from the L2.
    pub fn build_l1_call_call(&self, l1_call: &L1Call, bridge_address: Address) -> (call: Call)
        ensures
            call@ == l1_call_call(*l1_call, bridge_address@),
            selector(PROCESS_MESSAGE@).len() == 4,
            call.data@.skip(4) == abi_process_message_params(
                l1_call.message_from_l2@,
                l1_call.signal_slot_proof@,
            ),
    {
        let params: Vec<u8> = encode_process_message_params(
            &l1_call.message_from_l2,
            &l1_call.signal_slot_proof,
        );
        Call {
            target: bridge_address,
            value: zero_word(),
            data: calldata(PROCESS_MESSAGE, &params),
        }
    }

    /// Builds the calls that have the bridge process messages from the L2.
    fn build_l1_call_calls(&self, l1_calls: &Vec<L1Call>, bridge_address: Address) -> (calls: Vec<
        Call,
    >)
        ensures
            call_views(calls@) == l1_call_calls(l1_calls@, bridge_address@),
    {
        let mut calls: Vec<Call> = Vec::new();
        let mut i: usize = 0;
        while i < l1_calls.len()
            invariant
                i <= l1_calls@.len(),
                calls@.len() == i,
                forall|j: int|
                    0 <= j < i ==> (#[trigger] calls@[j])@ == l1_call_call(
                        l1_calls@[j],
                        bridge_address@,
                    ),
            decreases l1_calls@.len() - i,
        {
            calls.push(self.build_l1_call_call(&l1_calls[i], bridge_address));
            i = i + 1;
        }
        assert(call_views(calls@) =~= l1_call_calls(l1_calls@, bridge_address@));
        calls
    }
}

/// The order of a multicall. The user operations stand in it once each, in their order. With a
/// proof store only the call to the store comes before them and nothing after them. Without one
/// nothing comes before them, and the proposal and then the messages from the L2 after them.
pub proof fn law_multicall_order(
    batch: Proposal,
    propose: CallView,
    bridge: Seq<u8>,
    store: Option<Seq<u8>>,
    mode_v2: bool,
)
    ensures
        ({
            let calls = multicall_calls(batch, propose, bridge, store, mode_v2);
            let n = batch.user_ops@.len() as int;
            let ops = user_op_calls(batch.user_ops@);
            match store {
                Some(store) => {
                    &&& calls.len() == 1 + n
                    &&& calls[0].target == store
                    &&& calls.subrange(1, 1 + n) == ops
                },
                None => {
                    &&& calls.len() == n + 1 + batch.l1_calls@.len()
                    &&& calls.subrange(0, n) == ops
                    &&& calls[n] == propose
                    &&& calls.subrange(n + 1, calls.len() as int) == l1_call_calls(
                        batch.l1_calls@,
                        bridge,
                    )
                },
            }
        }),
{
    let calls = multicall_calls(batch, propose, bridge, store, mode_v2);
    let n = batch.user_ops@.len() as int;
    let ops = user_op_calls(batch.user_ops@);
    if store is Some {
        assert(calls.subrange(1, 1 + n) =~= ops);
    } else {
        assert(calls.subrange(0, n) =~= ops);
        assert(calls.subrange(n + 1, calls.len() as int) =~= l1_call_calls(
            batch.l1_calls@,
            bridge,
        ));
    }
}

/// No call of the multicall that proposes a batch carries value.
pub proof fn law_no_call_carries_value(
    bit_flag: u8,
    batch: Proposal,
    proof: Seq<u8>,
    contracts: ContractAddresses,
    num_blobs: u16,
    store: Option<Seq<u8>>,
    mode_v2: bool,
    i: int,
)
    requires
        0 <= i < multicall_calls(
            batch,
            propose_call(bit_flag, batch, proof, contracts.realtime_inbox@, num_blobs),
            contracts.bridge@,
            store,
            mode_v2,
        ).len(),
    ensures
        multicall_calls(
            batch,
            propose_call(bit_flag, batch, proof, contracts.realtime_inbox@, num_blobs),
            contracts.bridge@,
            store,
            mode_v2,
        )[i].value == zeros(32),
{
}

/// In the second version of the synchronous mode the bridge takes no part in the return: what is
/// called does not depend on the bridge.
pub proof fn law_v2_leaves_the_bridge_out(
    batch: Proposal,
    propose: CallView,
    bridge: Seq<u8>,
    other_bridge: Seq<u8>,
    store: Seq<u8>,
)
    ensures
        multicall_calls(batch, propose, bridge, Some(store), true) == multicall_calls(
            batch,
            propose,
            other_bridge,
            Some(store),
            true,
        ),
{
}

/// The first proof store is given the proposal to carry out and the first message from the L2 to
/// process, if there is one: the targets and the calldata are read back from what is stored.
pub proof fn law_store_holds_the_proposal(
    propose: CallView,
    l1_calls: Seq<L1Call>,
    bridge: Seq<u8>,
)
    requires
        propose.target.len() == 20,
        bridge.len() == 20,
        propose.data.len() + first_process_message(l1_calls, bridge).len() + 0x1000 <= u64::MAX,
    ensures
        ({
            let params = store_params(propose, l1_calls, bridge);
            &&& low_address(param_word(params, 1)) == propose.target
            &&& param_bytes(params, 2) == Some(propose.data)
            &&& low_address(param_word(params, 3)) == bridge
            &&& param_bytes(params, 4) == Some(first_process_message(l1_calls, bridge))
        }),
{
    law_store_params_read_back(
        zeros(32),
        propose.target,
        propose.data,
        bridge,
        first_process_message(l1_calls, bridge),
    );
}

/// The second proof store is given the proposal to carry out and what the first message from the
/// L2 returns, whatever messages there are and whatever they hold: all of it is read back from
/// what is stored.
pub proof fn law_store_v2_holds_the_proposal(propose: CallView, l1_calls: Seq<L1Call>)
    requires
        propose.target.len() == 20,
        propose.data.len() + first_return(l1_calls).2.len() + first_return(l1_calls).3.len()
            + 0x1000 <= u64::MAX,
    ensures
        ({
            let params = store_v2_params(propose, l1_calls);
            let (id, success, data, hop_proof) = first_return(l1_calls);
            &&& low_address(param_word(params, 1)) == propose.target
            &&& param_bytes(params, 2) == Some(propose.data)
            &&& low_uint(param_word(params, 3), 8) == id
            &&& param_word(params, 4) == bool_word(success)
            &&& param_bytes(params, 5) == Some(data)
            &&& param_bytes(params, 6) == Some(hop_proof)
        }),
{
    let (id, success, data, hop_proof) = first_return(l1_calls);
    law_store_v2_params_read_back(
        zeros(32),
        propose.target,
        propose.data,
        id,
        success,
        data,
        hop_proof,
    );
}

/// The second proof store is given what the L2 returned: where the first message from the L2 holds
/// a return value, that value, the id of the message and its proof are read back from what is
/// stored, along with the proposal.
pub proof fn law_store_v2_holds_the_return(
    propose: CallView,
    l1_calls: Seq<L1Call>,
    success: bool,
    offset: nat,
    returned: Seq<u8>,
)
    requires
        l1_calls.len() > 0,
        holds_return(l1_calls[0].message_from_l2.data@, success, offset, returned),
        offset <= u64::MAX,
        propose.target.len() == 20,
        propose.data.len() + returned.len() + l1_calls[0].signal_slot_proof@.len() + 0x1000
            <= u64::MAX,
    ensures
        ({
            let params = store_v2_params(propose, l1_calls);
            &&& low_address(param_word(params, 1)) == propose.target
            &&& param_bytes(params, 2) == Some(propose.data)
            &&& low_uint(param_word(params, 3), 8) == l1_calls[0].message_from_l2.id
            &&& param_word(params, 4) == bool_word(success)
            &&& param_bytes(params, 5) == Some(returned)
            &&& param_bytes(params, 6) == Some(l1_calls[0].signal_slot_proof@)
        }),
{
    law_return_reads_back(l1_calls[0].message_from_l2.data@, success, offset, returned);
    law_store_v2_holds_the_proposal(propose, l1_calls);
}

/// The propose call depends on the proof, the signal slots, the anchor block number, the checkpoint
/// and the number of blobs alone: batches that agree in these are proposed by the same call, or
/// refused with the same error, whatever their blocks, user operations and messages from the L2.
pub proof fn law_propose_call_leaves_the_rest_out(
    bit_flag: u8,
    a: Proposal,
    b: Proposal,
    inbox: Seq<u8>,
    num_blobs: nat,
)
    requires
        a.signal_slots@ == b.signal_slots@,
        bytes_view(a.zk_proof) == bytes_view(b.zk_proof),
        a.max_anchor_block_number == b.max_anchor_block_number,
        a.checkpoint == b.checkpoint,
    ensures
        checked_propose_call(bit_flag, a, inbox, num_blobs) == checked_propose_call(
            bit_flag,
            b,
            inbox,
            num_blobs,
        ),
{
}

/// The manifest holds the blocks of a batch, all of them, field by field and in their order, with
/// their transactions in their order.
pub proof fn law_manifest_holds_the_blocks(batch: Proposal, i: int)
    requires
        0 <= i < batch.l2_blocks@.len(),
    ensures
        block_manifests(batch.l2_blocks@).len() == batch.l2_blocks@.len(),
        ({
            let block = batch.l2_blocks@[i];
            let described = block_manifests(batch.l2_blocks@)[i];
            &&& described.timestamp == block.timestamp_sec
            &&& described.coinbase == block.coinbase@
            &&& described.anchor_block_number == block.anchor_block_number
            &&& described.gas_limit == block.gas_limit_without_anchor
            &&& described.transactions.len() == block.tx_list@.len()
            &&& forall|k: int|
                0 <= k < block.tx_list@.len() ==> #[trigger] described.transactions[k]
                    == block.tx_list@[k]@
        }),
{
}

/// A batch with neither user operations nor messages from the L2 goes to the inbox itself,
/// whatever the settings for synchronous calls, even if they name no address.
pub proof fn law_plain_batch_skips_the_multicall(
    batch: Proposal,
    propose: CallView,
    from: Seq<u8>,
    contracts: ContractAddresses,
    settings: SyncSettings,
    blob_sidecar: SidecarView,
)
    requires
        batch.user_ops@.len() == 0,
        batch.l1_calls@.len() == 0,
    ensures
        blob_transaction(batch, propose, from, contracts, settings, blob_sidecar) == Ok::<
            _,
            ErrorView,
        >(
            (TransactionView {
                from,
                to: contracts.realtime_inbox@,
                input: propose.data,
                blob_sidecar,
            }),
        ),
{
}

/// Whichever way a proposal takes, the blobs that were made for it go with it, all of them and no
/// others.
pub proof fn law_blobs_go_with_the_proposal(
    batch: Proposal,
    propose: CallView,
    from: Seq<u8>,
    contracts: ContractAddresses,
    settings: SyncSettings,
    blob_sidecar: SidecarView,
)
    ensures
        blob_transaction(batch, propose, from, contracts, settings, blob_sidecar) matches Ok(tx)
            ==> tx.blob_sidecar == blob_sidecar,
{
}

/// The gas limit is never below the gas that it was made from, and grows with it and with the
/// percentage.
pub proof fn law_padded_gas_grows(gas: nat, more_gas: nat, percentage: nat, more_percentage: nat)
    requires
        gas <= more_gas,
        percentage <= more_percentage,
    ensures
        gas <= padded_gas(gas, percentage),
        padded_gas(gas, percentage) <= padded_gas(more_gas, more_percentage),
{
    assert(gas * percentage <= more_gas * more_percentage) by (nonlinear_arith)
        requires
            gas <= more_gas,
            percentage <= more_percentage,
    ;
}

/// A user operation is called as it is: for every user operation, whatever its calldata, the call
/// goes to its submitter, carries no value, and has exactly its calldata; so operations that ask
/// for different things lead to different calls.
pub proof fn law_user_operation_is_called_as_it_is(a: UserOp, b: UserOp)
    ensures
        user_op_call(a).target == a.submitter@,
        user_op_call(a).data == a.calldata@,
        forall|i: int| 0 <= i < 32 ==> #[trigger] user_op_call(a).value[i] == 0,
        user_op_call(a).value.len() == 32,
        user_op_call(a) == user_op_call(b) ==> a.submitter@ == b.submitter@ && a.calldata@
            == b.calldata@,
{
}

/// The order of calls: with a store it comes first, with the user operations behind it, and neither
/// the proposal nor the messages are called. Without one the user operations come first, then the
/// proposal, then the messages.
pub proof fn law_calls_are_arranged(
    store: Option<CallView>,
    user_ops: Seq<CallView>,
    propose: CallView,
    l1_calls: Seq<CallView>,
)
    ensures
        ({
            let calls = arranged_calls(store, user_ops, propose, l1_calls);
            match store {
                Some(store) => {
                    &&& calls.first() == store
                    &&& calls.drop_first() == user_ops
                },
                None => {
                    &&& calls.len() == user_ops.len() + 1 + l1_calls.len()
                    &&& calls.take(user_ops.len() as int) == user_ops
                    &&& calls[user_ops.len() as int] == propose
                    &&& calls.skip(user_ops.len() + 1int) == l1_calls
                },
            }
        }),
{
    let calls = arranged_calls(store, user_ops, propose, l1_calls);
    if store is Some {
        assert(calls.drop_first() =~= user_ops);
    } else {
        assert(calls.take(user_ops.len() as int) =~= user_ops);
        assert(calls.skip(user_ops.len() + 1int) =~= l1_calls);
    }
}

/// The gas limit adds the percentage, rounded down: what is added is the whole number of gas that
/// is nearest to the percentage from below. The gas that it is made from is the estimate, and five
/// million where there is none.
pub proof fn law_padded_gas_adds_the_percentage(gas: nat, percentage: nat, estimate: u64)
    ensures
        ({
            let added = padded_gas(gas, percentage) - gas;
            &&& 0 <= added
            &&& 100 * added <= gas * percentage
            &&& gas * percentage < 100 * (added + 1)
        }),
        base_gas(Some(estimate)) == estimate,
        base_gas(None) == 5_000_000,
{
    assert(gas * percentage >= 0) by (nonlinear_arith);
}

/// What is known of the result of building something is all that it holds.
pub proof fn law_views_of_results(
    call: Call,
    sidecar: BlobTransactionSidecar,
    tx: TransactionRequest,
    error: Error,
    calls: Seq<Call>,
    blocks: Seq<BlockManifest>,
)
    ensures
        call_result_view(Ok((call, sidecar))) == Ok::<_, ErrorView>((call@, sidecar@)),
        call_result_view(Err(error)) == Err::<(CallView, SidecarView), _>(error@),
        tx_result_view(Ok(tx)) == Ok::<_, ErrorView>(tx@),
        tx_result_view(Err(error)) == Err::<TransactionView, _>(error@),
        call_views(calls).len() == calls.len(),
        forall|i: int| 0 <= i < calls.len() ==> call_views(calls)[i] == (#[trigger] calls[i])@,
        manifest_views(blocks).len() == blocks.len(),
        forall|i: int| 0 <= i < blocks.len() ==> manifest_views(blocks)[i] == (#[trigger] blocks[i])@,
{
}

} // verus!
