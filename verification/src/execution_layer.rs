//! The L1 execution layer: what is sent to it and what is read from it.
use vstd::prelude::*;

use crate::abi::abi_message;
use crate::bytes::{uint_word, Address, Bytes32};
use crate::calldata::{exec_transaction_inner, extract_exec_transaction_inner};
use crate::error::{Error, ErrorView};
use crate::events::{
    event_error, event_topic, is_bridge_log, law_last_events_are_found,
    law_message_event_reads_back, law_other_logs_are_no_events, law_outputs_stand_in_for_events,
    lemma_other_logs_do_not_count, log_event, log_events, read_logs, resolve_bridge, resolved,
    same_but_other_logs, search_view, LogEvent, MESSAGE_SENT, SIGNAL_SENT,
};
use crate::message::{message_sized, Message, MessageView};
use crate::proposal::{
    BlobTransactionSidecar, BlockManifest, CallView, ContractAddresses, PricedTransaction,
    ProofType, Proposal, SyncSettings, TransactionRequest, UserOp,
};
use crate::proposal_tx_builder::{
    base_gas, blob_transaction, block_manifests, checked_propose_call, manifest_views, padded_gas,
    ProposalTxBuilder,
};
use crate::reading::{
    law_async_batch_is_one_multicall, law_batches_that_can_be_proposed, law_proposal_is_read_back,
    makes_user_ops, multicall_item, processes_messages, reads_message, reads_propose,
};
use crate::trace::{
    collect_logs_recursive, frame_message, frame_slot, law_frames_are_known_by_their_first_bytes,
    law_outputs_give_the_last, law_sent_message_is_recovered, logs_of, outputs_bridge, preorder,
    CallFrame, CallLogFrame,
};

verus! {

/// The percentage that is added to the estimated gas of a proposal.
pub const EXTRA_GAS_PERCENTAGE: u64 = 10;

/// What the execution layer is configured with, besides the node.
#[derive(Debug, PartialEq, Eq)]
pub struct EthereumL1Config<R> {
    pub realtime_inbox: Address,
    pub proposer_multicall: Address,
    pub bridge: Address,
    pub proof_type: ProofType,
    pub raiko_client: R,
}

/// The L1 execution layer as one proposer sees it, with the monitor of its transactions and its
/// client of the prover.
#[derive(Debug, PartialEq, Eq)]
pub struct ExecutionLayer<M, R> {
    pub preconfer_address: Address,
    pub transaction_monitor: M,
    pub contract_addresses: ContractAddresses,
    pub proof_type: ProofType,
    pub raiko_client: R,
}

/// What the node is asked to trace.
#[derive(Debug, PartialEq, Eq)]
pub struct TraceRequest {
    pub from: Address,
    pub to: Address,
    pub input: Vec<u8>,
    /// Whether the trace is to hold the logs.
    pub with_log: bool,
    /// Whether the trace is to leave out all calls but the first.
    pub only_top_call: bool,
}

/// What the node answers to a request for a trace.
#[derive(Debug, PartialEq, Eq)]
pub enum GethTrace {
    /// The calls that were made.
    CallTracer(CallFrame),
    /// A trace of another kind.
    Other,
}

/// Where the sending of a batch stands.
#[derive(Debug, PartialEq, Eq)]
pub enum SendState<F> {
    /// Nothing was done yet.
    Ready { batch: Proposal },
    /// The manifest is being put into blobs.
    AwaitSidecar { batch: Proposal },
    /// The gas of the transaction is being estimated.
    AwaitGas { tx: TransactionRequest },
    /// The fees per gas are being fetched.
    AwaitFees { tx: TransactionRequest, gas_estimate: Option<u64> },
    /// The pending nonce of the proposer is being fetched.
    AwaitNonce { priced: PricedTransaction<F> },
    /// The transaction is being handed to the monitor.
    AwaitMonitor,
    /// The batch was sent, or it failed.
    Done,
}

/// What happened while a batch is sent.
#[derive(Debug, PartialEq, Eq)]
pub enum SendEvent<F> {
    /// The batch is to be sent.
    Begin,
    /// The manifest was put into these blobs, or could not be; and these are the settings.
    SidecarBuilt { sidecar: Result<BlobTransactionSidecar, Error>, settings: SyncSettings },
    /// The gas was estimated, or could not be.
    GasEstimated(Option<u64>),
    /// The fees were fetched, or could not be.
    FeesFetched(Option<F>),
    /// The pending nonce was fetched, or could not be.
    NonceFetched(Result<u64, Error>),
    /// The monitor took the transaction, or refused it.
    Monitored(Result<(), String>),
}

/// What is to be done next for a batch to be sent.
#[derive(Debug, PartialEq, Eq)]
pub enum SendAction<F> {
    /// Encode and compress the manifest and put it into blobs. How it fills them is up to the
    /// encoder and the coder of the blobs.
    BuildSidecar { manifest: Vec<BlockManifest> },
    /// Estimate the gas of the transaction.
    EstimateGas,
    /// Fetch the fees per gas.
    FetchFees,
    /// Fetch the pending nonce of the proposer.
    FetchPendingNonce,
    /// Hand the transaction to the monitor with this nonce.
    Monitor { tx: PricedTransaction<F>, nonce: u64 },
    /// Stop: this is the result.
    Finish(Result<(), Error>),
}

/// Whether an event can happen in a state.
pub open spec fn accepts<F>(state: SendState<F>, event: SendEvent<F>) -> bool {
    match state {
        SendState::Ready { .. } => event is Begin,
        SendState::AwaitSidecar { .. } => event is SidecarBuilt,
        SendState::AwaitGas { .. } => event is GasEstimated,
        SendState::AwaitFees { .. } => event is FeesFetched,
        SendState::AwaitNonce { .. } => event is NonceFetched,
        SendState::AwaitMonitor => event is Monitored,
        SendState::Done => false,
    }
}

/// Whether the numbers in a step fit: the anchor block number of a batch that can be proposed in
/// 48 bits, and the gas with its extra percentage in 64 bits.
pub open spec fn fits<F>(state: SendState<F>, event: SendEvent<F>) -> bool {
    match (state, event) {
        (
            SendState::AwaitSidecar { batch },
            SendEvent::SidecarBuilt { sidecar: Ok(sidecar), .. },
        ) => {
            &&& batch.well_formed()
            &&& batch.zk_proof is Some && sidecar@.blobs.len() <= u16::MAX ==> batch.anchor_fits()
        },
        (SendState::AwaitFees { gas_estimate, .. }, _) => {
            &&& base_gas(gas_estimate) * EXTRA_GAS_PERCENTAGE <= u64::MAX
            &&& padded_gas(base_gas(gas_estimate), EXTRA_GAS_PERCENTAGE as nat) <= u64::MAX
        },
        _ => true,
    }
}

/// Whether a step ends the sending with an error.
pub open spec fn fails_with<F>(
    next: SendState<F>,
    action: SendAction<F>,
    error: ErrorView,
) -> bool {
    &&& next is Done
    &&& action matches SendAction::Finish(Err(e)) && e@ == error
}

impl<M, R> ExecutionLayer<M, R> {
    /// Whether an event in a state leads to the next state and the next action.
    ///
    /// The manifest of the batch goes into blobs. Then the transaction is built with them, its gas
    /// estimated, its fees fetched, the nonce fetched and the transaction handed to the monitor.
    /// A failed estimate and unknown fees do not stop it; every other failure does.
    pub open spec fn send_step<F>(
        self,
        state: SendState<F>,
        event: SendEvent<F>,
        next: SendState<F>,
        action: SendAction<F>,
    ) -> bool {
        match (state, event) {
            (SendState::Ready { batch }, SendEvent::Begin) => {
                &&& next == SendState::<F>::AwaitSidecar { batch }
                &&& action matches SendAction::BuildSidecar { manifest }
                &&& manifest_views(manifest@) == block_manifests(batch.l2_blocks@)
            },
            (
                SendState::AwaitSidecar { batch },
                SendEvent::SidecarBuilt { sidecar, settings },
            ) => match sidecar {
                Ok(sidecar) => match checked_propose_call(
                    self.proof_type.bit_flag,
                    batch,
                    self.contract_addresses.realtime_inbox@,
                    sidecar@.blobs.len(),
                ) {
                    Ok(propose) => match blob_transaction(
                        batch,
                        propose,
                        self.preconfer_address@,
                        self.contract_addresses,
                        settings,
                        sidecar@,
                    ) {
                        Ok(built) => {
                            &&& next matches SendState::AwaitGas { tx } && tx@ == built
                            &&& action is EstimateGas
                        },
                        Err(error) => fails_with(next, action, error),
                    },
                    Err(error) => fails_with(next, action, error),
                },
                Err(error) => fails_with(next, action, error@),
            },
            (SendState::AwaitGas { tx }, SendEvent::GasEstimated(gas_estimate)) => {
                &&& next == SendState::<F>::AwaitFees { tx, gas_estimate }
                &&& action is FetchFees
            },
            (SendState::AwaitFees { tx, gas_estimate }, SendEvent::FeesFetched(fees)) => {
                &&& action is FetchPendingNonce
                &&& next == (match fees {
                    Some(fees_per_gas) => SendState::AwaitNonce {
                        priced: PricedTransaction::Priced {
                            tx,
                            gas_limit: padded_gas(
                                base_gas(gas_estimate),
                                EXTRA_GAS_PERCENTAGE as nat,
                            ) as u64,
                            fees_per_gas,
                        },
                    },
                    None => SendState::AwaitNonce { priced: PricedTransaction::Unpriced(tx) },
                })
            },
            (SendState::AwaitNonce { priced }, SendEvent::NonceFetched(nonce)) => match nonce {
                Ok(nonce) => {
                    &&& next is AwaitMonitor
                    &&& action == SendAction::<F>::Monitor { tx: priced, nonce }
                },
                Err(error) => fails_with(next, action, error@),
            },
            (SendState::AwaitMonitor, SendEvent::Monitored(monitored)) => match monitored {
                Ok(_) => {
                    &&& next is Done
                    &&& action matches SendAction::Finish(Ok(_))
                },
                Err(text) => fails_with(next, action, ErrorView::SendBatch(text@)),
            },
            _ => false,
        }
    }

    /// The URL of the node: the first of the configured ones.
    pub fn rpc_url(execution_rpc_urls: &Vec<String>) -> (url: Result<&String, Error>)
        ensures
            url is Ok == (execution_rpc_urls@.len() > 0),
            url matches Ok(url) ==> *url == execution_rpc_urls@[0],
            url matches Err(error) ==> error@ == ErrorView::RpcUrlRequired,
    {
        if execution_rpc_urls.len() > 0 {
            Ok(&execution_rpc_urls[0])
        } else {
            Err(Error::RpcUrlRequired)
        }
    }

    /// The monitor of the transactions, if it could be set up.
    pub fn monitor(created: Result<M, String>) -> (monitor: Result<M, Error>)
        ensures
            match created {
                Ok(created) => monitor matches Ok(monitor) && monitor == created,
                Err(text) => monitor matches Err(error) && error@
                    == ErrorView::CreateTransactionMonitor(text@),
            },
    {
        match created {
            Ok(monitor) => Ok(monitor),
            Err(text) => Err(Error::CreateTransactionMonitor(text)),
        }
    }

    /// Makes the execution layer of a proposer, provided that the inbox answers for its
    /// configuration.
    pub fn new<C>(
        preconfer_address: Address,
        transaction_monitor: M,
        config: EthereumL1Config<R>,
        inbox_config: Result<C, String>,
    ) -> (layer: Result<Self, Error>)
        ensures
            match inbox_config {
                Ok(_) => layer == Ok::<Self, Error>(
                    ExecutionLayer {
                        preconfer_address,
                        transaction_monitor,
                        contract_addresses: ContractAddresses {
                            realtime_inbox: config.realtime_inbox,
                            proposer_multicall: config.proposer_multicall,
                            bridge: config.bridge,
                        },
                        proof_type: config.proof_type,
                        raiko_client: config.raiko_client,
                    },
                ),
                Err(text) => layer matches Err(error) && error@ == ErrorView::GetConfig(text@),
            },
    {
        match inbox_config {
            Ok(_) => {
                let contract_addresses = ContractAddresses {
                    realtime_inbox: config.realtime_inbox,
                    proposer_multicall: config.proposer_multicall,
                    bridge: config.bridge,
                };
                Ok(
                    ExecutionLayer {
                        preconfer_address,
                        transaction_monitor,
                        contract_addresses,
                        proof_type: config.proof_type,
                        raiko_client: config.raiko_client,
                    },
                )
            },
            Err(text) => Err(Error::GetConfig(text)),
        }
    }

    /// The configuration of the protocol, as the inbox answers for it.
    pub fn fetch_protocol_config<C>(&self, inbox_config: Result<C, String>) -> (config: Result<
        C,
        Error,
    >)
        ensures
            match inbox_config {
                Ok(answer) => config matches Ok(config) && config == answer,
                Err(text) => config matches Err(error) && error@ == ErrorView::GetConfig(text@),
            },
    {
        match inbox_config {
            Ok(config) => Ok(config),
            Err(text) => Err(Error::GetConfig(text)),
        }
    }

    /// The hash of the last finalized block, as the inbox answers for it.
    pub fn get_last_finalized_block_hash(&self, answer: Result<Bytes32, String>) -> (hash: Result<
        Bytes32,
        Error,
    >)
        ensures
            match answer {
                Ok(answer) => hash matches Ok(hash) && hash == answer,
                Err(text) => hash matches Err(error) && error@
                    == ErrorView::GetLastFinalizedBlockHash(text@),
            },
    {
        match answer {
            Ok(hash) => Ok(hash),
            Err(text) => Err(Error::GetLastFinalizedBlockHash(text)),
        }
    }

    /// The address of the proposer.
    pub fn get_preconfer_address(&self) -> (address: Address)
        ensures
            address == self.preconfer_address,
    {
        self.preconfer_address
    }

    /// The operators of this epoch and of the next. Anyone can propose, so the proposer itself
    /// stands for both, whatever the time.
    pub fn get_operators_for_current_and_next_epoch(
        &self,
        _current_epoch_timestamp: u64,
        _current_slot_timestamp: u64,
    ) -> (operators: Result<(Address, Address), Error>)
        ensures
            operators == Ok::<(Address, Address), Error>(
                (self.preconfer_address, self.preconfer_address),
            ),
    {
        Ok((self.preconfer_address, self.preconfer_address))
    }

    /// Whether the wrapper names a router: always.
    pub fn is_preconf_router_specified_in_taiko_wrapper(&self) -> (specified: Result<bool, Error>)
        ensures
            specified == Ok::<bool, Error>(true),
    {
        Ok(true)
    }

    /// The L2 height that the inbox knows: always zero.
    pub fn get_l2_height_from_taiko_inbox(&self) -> (height: Result<u64, Error>)
        ensures
            height == Ok::<u64, Error>(0),
    {
        Ok(0)
    }

    /// The handover window, which there is none of.
    pub fn get_handover_window_slots(&self) -> (slots: Result<u64, Error>)
        ensures
            slots matches Err(error) && error@ == ErrorView::NotImplemented,
    {
        Err(Error::NotImplemented)
    }

    /// The client of the prover.
    pub fn get_raiko_client(&self) -> (client: &R)
        ensures
            *client == self.raiko_client,
    {
        &self.raiko_client
    }

    /// Takes the next step in sending a batch to the L1.
    pub fn send_batch_to_l1<F>(&self, state: SendState<F>, event: SendEvent<F>) -> (step: (
        SendState<F>,
        SendAction<F>,
    ))
        requires
            accepts(state, event),
            fits(state, event),
        ensures
            self.send_step(state, event, step.0, step.1),
    {
        let builder = ProposalTxBuilder::new(EXTRA_GAS_PERCENTAGE, self.proof_type);
        match (state, event) {
            (SendState::Ready { batch }, _) => {
                let manifest: Vec<BlockManifest> = builder.build_manifest(&batch);
                (SendState::AwaitSidecar { batch }, SendAction::BuildSidecar { manifest })
            },
            (
                SendState::AwaitSidecar { batch },
                SendEvent::SidecarBuilt { sidecar: Ok(sidecar), settings },
            ) => {
                match builder.build_propose_blob(
                    &batch,
                    self.preconfer_address,
                    &self.contract_addresses,
                    sidecar,
                    &settings,
                ) {
                    Ok(tx) => (SendState::AwaitGas { tx }, SendAction::EstimateGas),
                    Err(error) => (SendState::Done, SendAction::Finish(Err(error))),
                }
            },
            (
                SendState::AwaitSidecar { .. },
                SendEvent::SidecarBuilt { sidecar: Err(error), .. },
            ) => (SendState::Done, SendAction::Finish(Err(error))),
            (SendState::AwaitGas { tx }, SendEvent::GasEstimated(gas_estimate)) => (
                SendState::AwaitFees { tx, gas_estimate },
                SendAction::FetchFees,
            ),
            (SendState::AwaitFees { tx, gas_estimate }, SendEvent::FeesFetched(fees)) => (
                SendState::AwaitNonce { priced: builder.build_propose_tx(tx, gas_estimate, fees) },
                SendAction::FetchPendingNonce,
            ),
            (SendState::AwaitNonce { priced }, SendEvent::NonceFetched(Ok(nonce))) => (
                SendState::AwaitMonitor,
                SendAction::Monitor { tx: priced, nonce },
            ),
            (SendState::AwaitNonce { .. }, SendEvent::NonceFetched(Err(error))) => (
                SendState::Done,
                SendAction::Finish(Err(error)),
            ),
            (SendState::AwaitMonitor, SendEvent::Monitored(Err(text))) => (
                SendState::Done,
                SendAction::Finish(Err(Error::SendBatch(text))),
            ),
            _ => (SendState::Done, SendAction::Finish(Ok(()))),
        }
    }
}

/// What a search in a trace gives: the logs of the trace read as events, and the events and the
/// call outputs decide. A trace of another kind gives nothing, and a trace that the node refused
/// is an error.
pub open spec fn search_result(traced: Result<GethTrace, String>) -> Result<
    Option<(MessageView, Seq<u8>)>,
    ErrorView,
> {
    match traced {
        Ok(GethTrace::CallTracer(frame)) => resolved(
            log_events(logs_of(preorder(frame))),
            outputs_bridge(frame),
        ),
        Ok(GethTrace::Other) => Ok(None),
        Err(text) => Err(ErrorView::TraceCall(text@)),
    }
}

/// Finds the bridge message that a user operation sends.
pub trait L1BridgeHandlerOps {
    /// The call to trace: the inner call of the user operation, so that bridge messages are
    /// visible even if the proxy reverts. All calls are traced, with their logs.
    fn trace_request(&self, user_op: &UserOp) -> (request: TraceRequest)
        ensures
            request.from == user_op.submitter,
            exec_transaction_inner(user_op.calldata@) matches Some((to, data)) ==> request.to@ == to
                && request.input@ == data,
            exec_transaction_inner(user_op.calldata@) is None ==> request.to == user_op.submitter
                && request.input@ == user_op.calldata@,
            request.with_log,
            !request.only_top_call,
    ;

    /// Finds the message and the signal slot in the trace of a user operation.
    fn find_message_and_signal_slot(&self, traced: Result<GethTrace, String>) -> (found: Result<
        Option<(Message, Bytes32)>,
        Error,
    >)
        ensures
            search_view(found) == search_result(traced),
    ;
}

impl<M, R> L1BridgeHandlerOps for ExecutionLayer<M, R> {
    fn trace_request(&self, user_op: &UserOp) -> (request: TraceRequest) {
        let (to, input) = extract_exec_transaction_inner(user_op.submitter, &user_op.calldata);
        TraceRequest {
            from: user_op.submitter,
            to,
            input,
            with_log: true,
            only_top_call: false,
        }
    }

    fn find_message_and_signal_slot(&self, traced: Result<GethTrace, String>) -> (found: Result<
        Option<(Message, Bytes32)>,
        Error,
    >) {
        match traced {
            Ok(GethTrace::CallTracer(frame)) => {
                let logs: Vec<CallLogFrame> = collect_logs_recursive(&frame);
                let events: Vec<LogEvent> = read_logs(&logs);
                resolve_bridge(events, &frame)
            },
            Ok(GethTrace::Other) => Ok(None),
            Err(text) => Err(Error::TraceCall(text)),
        }
    }
}

/// Logs of other contracts do not change what the search finds, nor do they make it fail: two
/// traces that differ only in logs that are none of the bridge's, at whatever depth and whatever
/// they hold, give the same.
pub proof fn law_other_logs_do_not_change_the_search(f: CallFrame, g: CallFrame)
    requires
        same_but_other_logs(f, g),
    ensures
        search_result(Ok(GethTrace::CallTracer(f))) == search_result(Ok(GethTrace::CallTracer(g))),
{
    lemma_other_logs_do_not_count(f, g);
}

/// The events of a trace are found, at whatever depth and whatever the types of the calls: where
/// every event in the trace can be decoded, the last log that is a `MessageSent` event with an
/// encoded message and the last one that is a `SignalSent` event give the message and the slot.
/// This needs the two events to have different topics.
pub proof fn law_search_finds_the_events(
    frame: CallFrame,
    i: int,
    j: int,
    topics: (Seq<Bytes32>, Seq<Bytes32>),
    message: MessageView,
    data: Seq<u8>,
)
    requires
        0 <= i < logs_of(preorder(frame)).len(),
        0 <= j < logs_of(preorder(frame)).len(),
        message_sized(message),
        message.data.len() <= 0x4000_0000,
        logs_of(preorder(frame))[i].topics == Some(topics.0),
        topics.0.len() == 2,
        topics.0[0]@ == event_topic(MESSAGE_SENT@),
        logs_of(preorder(frame))[i].data == Some(uint_word(32) + abi_message(message)),
        logs_of(preorder(frame))[j].topics == Some(topics.1),
        topics.1.len() == 1,
        topics.1[0]@ == event_topic(SIGNAL_SENT@),
        topics.1[0]@ != topics.0[0]@,
        logs_of(preorder(frame))[j].data == Some(data),
        data.len() >= 128,
        forall|k: int|
            i < k < logs_of(preorder(frame)).len() ==> !(log_event(
                #[trigger] logs_of(preorder(frame))[k],
            ) is Message),
        forall|k: int|
            j < k < logs_of(preorder(frame)).len() ==> !(log_event(
                #[trigger] logs_of(preorder(frame))[k],
            ) is Slot),
        forall|k: int|
            0 <= k < logs_of(preorder(frame)).len() ==> {
                let event = log_event(#[trigger] logs_of(preorder(frame))[k]);
                !(event is BadMessage) && !(event is BadSignal)
            },
    ensures
        search_result(Ok(GethTrace::CallTracer(frame))) == Ok::<_, ErrorView>(
            Some((message, data.subrange(64, 96))),
        ),
{
    let logs = logs_of(preorder(frame));
    let events = log_events(logs);
    law_message_event_reads_back(logs[i], topics.0, message);
    assert forall|k: int| i < k < events.len() implies !((#[trigger] events[k]) is Message) by {
        assert(events[k] == log_event(logs[k]));
    }
    assert forall|k: int| j < k < events.len() implies !((#[trigger] events[k]) is Slot) by {
        assert(events[k] == log_event(logs[k]));
    }
    assert forall|k: int| 0 <= k < events.len() implies !((#[trigger] events[k]) is BadMessage)
        && !(events[k] is BadSignal) by {
        assert(events[k] == log_event(logs[k]));
    }
    law_last_events_are_found(
        events,
        outputs_bridge(frame),
        i,
        j,
        message,
        data.subrange(64, 96),
    );
}

/// The call outputs of a trace stand in for its events: where no log of the trace is a message
/// event, or none is a signal event, and none is an event that cannot be decoded, the search gives
/// what the call outputs give. A trace of another kind gives nothing, and a trace that the node
/// refused gives the node's text.
pub proof fn law_search_falls_back_to_the_outputs(frame: CallFrame, text: String)
    requires
        forall|k: int|
            0 <= k < logs_of(preorder(frame)).len() ==> {
                let event = log_event(#[trigger] logs_of(preorder(frame))[k]);
                !(event is BadMessage) && !(event is BadSignal)
            },
        (forall|k: int|
            0 <= k < logs_of(preorder(frame)).len() ==> !(log_event(
                #[trigger] logs_of(preorder(frame))[k],
            ) is Message)) || (forall|k: int|
            0 <= k < logs_of(preorder(frame)).len() ==> !(log_event(
                #[trigger] logs_of(preorder(frame))[k],
            ) is Slot)),
    ensures
        search_result(Ok(GethTrace::CallTracer(frame))) == Ok::<_, ErrorView>(
            outputs_bridge(frame),
        ),
        search_result(Ok(GethTrace::Other)) == Ok::<Option<(MessageView, Seq<u8>)>, ErrorView>(
            None,
        ),
        search_result(Err(text)) == Err::<Option<(MessageView, Seq<u8>)>, _>(
            ErrorView::TraceCall(text@),
        ),
{
    let logs = logs_of(preorder(frame));
    let events = log_events(logs);
    assert forall|k: int| 0 <= k < events.len() implies event_error(
        #[trigger] events[k],
    ) is None by {
        assert(events[k] == log_event(logs[k]));
    }
    if forall|k: int| 0 <= k < logs.len() ==> !(log_event(#[trigger] logs[k]) is Message) {
        assert forall|k: int| 0 <= k < events.len() implies !((
        #[trigger] events[k]) is Message) by {
            assert(events[k] == log_event(logs[k]));
        }
    } else {
        assert forall|k: int| 0 <= k < events.len() implies !((#[trigger] events[k]) is Slot) by {
            assert(events[k] == log_event(logs[k]));
        }
    }
    law_outputs_stand_in_for_events(events, outputs_bridge(frame));
}

/// A message and a slot that a reverted call left in its outputs are found: a trace without logs of
/// the bridge whose last call of `sendMessage` and last call of `sendSignal`, each whatever
/// arguments it has, returned a message and a slot, gives that message and that slot.
pub proof fn law_search_recovers_what_was_returned(
    frame: CallFrame,
    i: int,
    j: int,
    arguments: (Seq<u8>, Seq<u8>),
    outputs: (Seq<u8>, Seq<u8>),
    message: MessageView,
)
    requires
        forall|k: int|
            0 <= k < logs_of(preorder(frame)).len() ==> !is_bridge_log(
                #[trigger] logs_of(preorder(frame))[k],
            ),
        0 <= i < preorder(frame).len(),
        0 <= j < preorder(frame).len(),
        preorder(frame)[i].typ@ == "CALL"@,
        preorder(frame)[i].input@ == seq![0x1bu8, 0xdb, 0x00, 0x37] + arguments.0,
        preorder(frame)[i].output matches Some(output) && output@ == outputs.0,
        outputs.0.len() <= u64::MAX,
        message_sized(message),
        reads_message(outputs.0, 64, message),
        preorder(frame)[j].input@ == seq![0x66u8, 0xca, 0x2b, 0xc0] + arguments.1,
        preorder(frame)[j].output matches Some(output) && output@ == outputs.1,
        outputs.1.len() >= 32,
        forall|k: int|
            i < k < preorder(frame).len() ==> frame_message(#[trigger] preorder(frame)[k]) is None,
        forall|k: int|
            j < k < preorder(frame).len() ==> frame_slot(#[trigger] preorder(frame)[k]) is None,
    ensures
        search_result(Ok(GethTrace::CallTracer(frame))) == Ok::<_, ErrorView>(
            Some((message, outputs.1.take(32))),
        ),
{
    let frames = preorder(frame);
    law_sent_message_is_recovered(frames[i], arguments.0, outputs.0, message);
    law_frames_are_known_by_their_first_bytes(frames[j]);
    law_outputs_give_the_last(frame, i, j);
    assert forall|k: int| 0 <= k < logs_of(frames).len() implies log_event(
        #[trigger] logs_of(frames)[k],
    ) is Other by {
        law_other_logs_are_no_events(logs_of(frames)[k]);
    }
    law_search_falls_back_to_the_outputs(frame, arbitrary());
}

/// How far a state is from the end.
pub open spec fn steps_left<F>(state: SendState<F>) -> nat {
    match state {
        SendState::Ready { .. } => 6,
        SendState::AwaitSidecar { .. } => 5,
        SendState::AwaitGas { .. } => 4,
        SendState::AwaitFees { .. } => 3,
        SendState::AwaitNonce { .. } => 2,
        SendState::AwaitMonitor => 1,
        SendState::Done => 0,
    }
}

/// Sending ends: every step comes nearer to the end, and exactly the step that reaches it gives a
/// result.
pub proof fn law_send_ends<M, R, F>(
    layer: ExecutionLayer<M, R>,
    state: SendState<F>,
    event: SendEvent<F>,
    next: SendState<F>,
    action: SendAction<F>,
)
    requires
        layer.send_step(state, event, next, action),
    ensures
        steps_left(next) < steps_left(state),
        next is Done <==> action is Finish,
{
}

/// A batch counts as sent only when the monitor took its transaction, and the monitor is given
/// only the transaction that waited for the nonce, with the nonce that was fetched.
pub proof fn law_sent_only_through_the_monitor<M, R, F>(
    layer: ExecutionLayer<M, R>,
    state: SendState<F>,
    event: SendEvent<F>,
    next: SendState<F>,
    action: SendAction<F>,
)
    requires
        layer.send_step(state, event, next, action),
    ensures
        action matches SendAction::Finish(Ok(_)) ==> state is AwaitMonitor && (event matches
            SendEvent::Monitored(Ok(_))),
        action is Monitor ==> (state matches SendState::AwaitNonce { priced } && priced
            == action->tx) && (
        event matches SendEvent::NonceFetched(Ok(nonce)) && nonce == action->nonce),
{
}

/// The manifest that goes into blobs depends on the blocks alone: for batches with the same blocks
/// it is the same, whoever sends them and whatever else they hold.
pub proof fn law_manifest_depends_on_the_blocks_alone<M, R, F>(
    layers: (ExecutionLayer<M, R>, ExecutionLayer<M, R>),
    batches: (Proposal, Proposal),
    states: (SendState<F>, SendState<F>),
    actions: (SendAction<F>, SendAction<F>),
)
    requires
        batches.0.l2_blocks@ == batches.1.l2_blocks@,
        layers.0.send_step(
            (SendState::Ready { batch: batches.0 }),
            SendEvent::Begin,
            states.0,
            actions.0,
        ),
        layers.1.send_step(
            (SendState::Ready { batch: batches.1 }),
            SendEvent::Begin,
            states.1,
            actions.1,
        ),
    ensures
        actions.0 is BuildSidecar,
        actions.1 is BuildSidecar,
        manifest_views(actions.0->manifest@) == manifest_views(actions.1->manifest@),
{
}

/// Whether a transaction is the one that was built from the batch, with the blobs that were made
/// for it, the gas limit that its estimate gives and the fees if they are known.
pub open spec fn carries_batch<M, R, F>(
    layer: ExecutionLayer<M, R>,
    batch: Proposal,
    sidecar: BlobTransactionSidecar,
    settings: SyncSettings,
    gas_estimate: Option<u64>,
    fees: Option<F>,
    tx: PricedTransaction<F>,
) -> bool {
    let propose = checked_propose_call(
        layer.proof_type.bit_flag,
        batch,
        layer.contract_addresses.realtime_inbox@,
        sidecar@.blobs.len(),
    );
    let built = blob_transaction(
        batch,
        propose->Ok_0,
        layer.preconfer_address@,
        layer.contract_addresses,
        settings,
        sidecar@,
    );
    let padded = padded_gas(base_gas(gas_estimate), EXTRA_GAS_PERCENTAGE as nat);
    &&& propose is Ok
    &&& built is Ok
    &&& built->Ok_0.blob_sidecar == sidecar@
    &&& match tx {
        PricedTransaction::Unpriced(tx) => fees is None && tx@ == built->Ok_0,
        PricedTransaction::Priced { tx, gas_limit, fees_per_gas } => {
            &&& fees == Some(fees_per_gas)
            &&& tx@ == built->Ok_0
            &&& gas_limit == padded as u64
        },
    }
}

/// The transaction that the monitor is given is the one that was built from the batch, with the
/// nonce that was fetched: whatever the estimate of its gas and the fees, its sender, its target,
/// its input and its blobs stay, and the proposal in it counts as many blobs as it carries.
pub proof fn law_monitored_transaction_is_the_built_one<M, R, F>(
    layer: ExecutionLayer<M, R>,
    batch: Proposal,
    sidecar: BlobTransactionSidecar,
    settings: SyncSettings,
    gas_estimate: Option<u64>,
    fees: Option<F>,
    nonce: u64,
    states: (SendState<F>, SendState<F>, SendState<F>, SendState<F>),
    actions: (SendAction<F>, SendAction<F>, SendAction<F>, SendAction<F>),
)
    requires
        layer.send_step(
            (SendState::AwaitSidecar { batch }),
            (SendEvent::SidecarBuilt { sidecar: Ok(sidecar), settings }),
            states.0,
            actions.0,
        ),
        layer.send_step(states.0, SendEvent::GasEstimated(gas_estimate), states.1, actions.1),
        layer.send_step(states.1, SendEvent::FeesFetched(fees), states.2, actions.2),
        layer.send_step(states.2, SendEvent::NonceFetched(Ok(nonce)), states.3, actions.3),
    ensures
        actions.3 is Monitor,
        actions.3->nonce == nonce,
        carries_batch(
            layer,
            batch,
            sidecar,
            settings,
            gas_estimate,
            fees,
            actions.3->tx,
        ),
{
}

/// Every event that is awaited is taken, and every step whose numbers fit can be taken: block
/// numbers of 48 bits, and gas of which the tenfold fits.
pub proof fn law_awaited_events_are_taken<F>(
    batch: Proposal,
    tx: TransactionRequest,
    priced: PricedTransaction<F>,
    sidecar: Result<BlobTransactionSidecar, Error>,
    settings: SyncSettings,
    gas_estimate: Option<u64>,
    fees: Option<F>,
    nonce: Result<u64, Error>,
    monitored: Result<(), String>,
)
    requires
        batch.checkpoint.block_number < 0x1_0000_0000_0000,
        batch.max_anchor_block_number < 0x1_0000_0000_0000,
        gas_estimate matches Some(gas) ==> gas * 10 <= u64::MAX,
    ensures
        accepts((SendState::<F>::Ready { batch }), SendEvent::Begin),
        fits((SendState::<F>::Ready { batch }), SendEvent::Begin),
        accepts(
            (SendState::<F>::AwaitSidecar { batch }),
            (SendEvent::SidecarBuilt { sidecar, settings }),
        ),
        fits(
            (SendState::<F>::AwaitSidecar { batch }),
            (SendEvent::SidecarBuilt { sidecar, settings }),
        ),
        accepts((SendState::<F>::AwaitGas { tx }), SendEvent::GasEstimated(gas_estimate)),
        fits((SendState::<F>::AwaitGas { tx }), SendEvent::GasEstimated(gas_estimate)),
        accepts((SendState::AwaitFees { tx, gas_estimate }), SendEvent::FeesFetched(fees)),
        fits((SendState::AwaitFees { tx, gas_estimate }), SendEvent::FeesFetched(fees)),
        accepts((SendState::AwaitNonce { priced }), SendEvent::NonceFetched(nonce)),
        fits((SendState::AwaitNonce { priced }), SendEvent::NonceFetched(nonce)),
        accepts(SendState::<F>::AwaitMonitor, SendEvent::Monitored(monitored)),
        fits(SendState::<F>::AwaitMonitor, SendEvent::Monitored(monitored)),
{
}

/// What is done for a batch: first its manifest goes into blobs; a built transaction waits for its
/// gas, whatever comes of that for its fees, and whatever comes of these for the nonce; and the
/// nonce hands it to the monitor. The transaction stays the same, with the tenth of its gas added
/// and the fees where they are known.
pub proof fn law_steps_of_sending<M, R, F>(
    layer: ExecutionLayer<M, R>,
    batch: Proposal,
    tx: TransactionRequest,
    priced: PricedTransaction<F>,
    gas_estimate: Option<u64>,
    fees: Option<F>,
    nonce: u64,
    next: SendState<F>,
    action: SendAction<F>,
)
    ensures
        layer.send_step((SendState::Ready { batch }), SendEvent::Begin, next, action) ==> {
            &&& next == (SendState::<F>::AwaitSidecar { batch })
            &&& action is BuildSidecar
            &&& action->manifest@.len() == batch.l2_blocks@.len()
        },
        layer.send_step(
            (SendState::AwaitGas { tx }),
            SendEvent::GasEstimated(gas_estimate),
            next,
            action,
        ) ==> {
            &&& next == (SendState::<F>::AwaitFees { tx, gas_estimate })
            &&& action is FetchFees
        },
        layer.send_step(
            (SendState::AwaitFees { tx, gas_estimate }),
            SendEvent::FeesFetched(fees),
            next,
            action,
        ) ==> {
            let gas: int = match gas_estimate {
                Some(gas) => gas as int,
                None => 5_000_000,
            };
            &&& action is FetchPendingNonce
            &&& next is AwaitNonce
            &&& fees is None ==> next->priced == PricedTransaction::<F>::Unpriced(tx)
            &&& fees matches Some(fees_per_gas) ==> {
                &&& next->priced is Priced
                &&& next->priced->tx == tx
                &&& next->priced->fees_per_gas == fees_per_gas
                &&& gas + gas / 10 <= u64::MAX ==> next->priced->gas_limit == gas + gas / 10
            }
        },
        layer.send_step(
            (SendState::AwaitNonce { priced }),
            SendEvent::NonceFetched(Ok(nonce)),
            next,
            action,
        ) ==> next is AwaitMonitor && action == (SendAction::<F>::Monitor { tx: priced, nonce }),
        layer.send_step(SendState::AwaitMonitor, SendEvent::Monitored(Ok(())), next, action) ==> {
            &&& next is Done
            &&& action matches SendAction::Finish(Ok(_))
        },
{
    if layer.send_step((SendState::Ready { batch }), SendEvent::Begin, next, action) {
        assert(manifest_views(action->manifest@).len() == block_manifests(
            batch.l2_blocks@,
        ).len());
    }
    let gas: int = match gas_estimate {
        Some(gas) => gas as int,
        None => 5_000_000,
    };
    assert(gas * 10 / 100 == gas / 10);
}

/// A failure ends the sending with that failure: of the blobs and of the nonce the error as it is,
/// of the monitor its text behind what failed, and of a batch without a proof or with too many
/// blobs that reason.
pub proof fn law_failures_end_the_sending<M, R, F>(
    layer: ExecutionLayer<M, R>,
    batch: Proposal,
    priced: PricedTransaction<F>,
    sidecar: BlobTransactionSidecar,
    settings: SyncSettings,
    failure: Error,
    text: String,
    next: SendState<F>,
    action: SendAction<F>,
)
    ensures
        layer.send_step(
            (SendState::AwaitSidecar { batch }),
            (SendEvent::SidecarBuilt { sidecar: Err(failure), settings }),
            next,
            action,
        ) ==> next is Done && (action matches SendAction::Finish(Err(e)) && e@ == failure@),
        layer.send_step(
            (SendState::AwaitNonce { priced }),
            SendEvent::NonceFetched(Err(failure)),
            next,
            action,
        ) ==> next is Done && (action matches SendAction::Finish(Err(e)) && e@ == failure@),
        layer.send_step(
            SendState::AwaitMonitor,
            SendEvent::Monitored(Err(text)),
            next,
            action,
        ) ==> next is Done && (action matches SendAction::Finish(Err(e)) && e@
            == ErrorView::SendBatch(text@)),
        layer.send_step(
            (SendState::AwaitSidecar { batch }),
            (SendEvent::SidecarBuilt { sidecar: Ok(sidecar), settings }),
            next,
            action,
        ) && batch.zk_proof is None ==> next is Done && (action matches SendAction::Finish(Err(e))
            && e@ == ErrorView::ZkProofNotSet),
        layer.send_step(
            (SendState::AwaitSidecar { batch }),
            (SendEvent::SidecarBuilt { sidecar: Ok(sidecar), settings }),
            next,
            action,
        ) && batch.zk_proof is Some && sidecar.blobs@.len() >= 0x1_0000 ==> next is Done && (
        action matches SendAction::Finish(Err(e)) && e@ == ErrorView::TooManyBlobs),
{
}

/// Blobs lead to the transaction that is built with them, from the proposer, or to the reason for
/// which none can be built; in either mode and whatever the batch holds.
pub proof fn law_blobs_lead_to_the_transaction<M, R, F>(
    layer: ExecutionLayer<M, R>,
    batch: Proposal,
    sidecar: BlobTransactionSidecar,
    settings: SyncSettings,
    propose: CallView,
    next: SendState<F>,
    action: SendAction<F>,
)
    requires
        layer.send_step(
            (SendState::AwaitSidecar { batch }),
            (SendEvent::SidecarBuilt { sidecar: Ok(sidecar), settings }),
            next,
            action,
        ),
        checked_propose_call(
            layer.proof_type.bit_flag,
            batch,
            layer.contract_addresses.realtime_inbox@,
            sidecar.blobs@.len(),
        ) == Ok::<_, ErrorView>(propose),
    ensures
        match blob_transaction(
            batch,
            propose,
            layer.preconfer_address@,
            layer.contract_addresses,
            settings,
            sidecar@,
        ) {
            Ok(built) => {
                &&& next matches SendState::AwaitGas { tx } && tx@ == built
                &&& action is EstimateGas
            },
            Err(error) => {
                &&& next is Done
                &&& action matches SendAction::Finish(Err(e)) && e@ == error
            },
        },
{
    assert(sidecar@.blobs.len() == sidecar.blobs@.len());
}

/// A batch goes out as it is. With a proof and blobs whose number fits, a batch with neither user
/// operations nor messages from the L2 goes to the inbox, and its proposal is read back from the
/// transaction. A batch with some goes through the multicall: without a proof store the proposal
/// is read back from the call behind the user operations, and these come first as they are.
/// Either way the blobs go with it, and the proposal counts them.
pub proof fn law_sent_batch_is_read_back<M, R, F>(
    layer: ExecutionLayer<M, R>,
    batch: Proposal,
    sidecar: BlobTransactionSidecar,
    settings: SyncSettings,
    next: SendState<F>,
    action: SendAction<F>,
)
    requires
        layer.send_step(
            (SendState::AwaitSidecar { batch }),
            (SendEvent::SidecarBuilt { sidecar: Ok(sidecar), settings }),
            next,
            action,
        ),
        batch.zk_proof is Some,
        sidecar.blobs@.len() < 0x1_0000,
        settings.proof_store_address is None,
        next matches SendState::AwaitGas { tx } ==> tx.input@.len() <= u64::MAX,
        checked_propose_call(
            layer.proof_type.bit_flag,
            batch,
            layer.contract_addresses.realtime_inbox@,
            sidecar.blobs@.len(),
        ) matches Ok(call) ==> call.data.len() <= u64::MAX,
    ensures
        action is EstimateGas,
        next matches SendState::AwaitGas { tx } && {
            let n = batch.user_ops@.len() as int;
            let params = tx.input@.skip(4);
            let call = multicall_item(params, n);
            let plain = n == 0 && batch.l1_calls@.len() == 0;
            &&& tx.from@ == layer.preconfer_address@
            &&& tx.blob_sidecar@ == sidecar@
            &&& plain ==> tx.to@ == layer.contract_addresses.realtime_inbox@ && reads_propose(
                tx.input@,
                layer.proof_type.bit_flag,
                batch,
                batch.zk_proof->0@,
                sidecar.blobs@.len(),
            )
            &&& !plain ==> {
                &&& tx.to@ == layer.contract_addresses.proposer_multicall@
                &&& makes_user_ops(params, 0, batch.user_ops@)
                &&& call.target == layer.contract_addresses.realtime_inbox@
                &&& reads_propose(
                    call.data,
                    layer.proof_type.bit_flag,
                    batch,
                    batch.zk_proof->0@,
                    sidecar.blobs@.len(),
                )
                &&& processes_messages(
                    params,
                    n + 1,
                    batch.l1_calls@,
                    layer.contract_addresses.bridge@,
                )
            }
        },
{
    let contracts = layer.contract_addresses;
    let inbox = contracts.realtime_inbox@;
    let bit_flag = layer.proof_type.bit_flag;
    let num_blobs = sidecar.blobs@.len();
    assert(sidecar@.blobs.len() == num_blobs);
    let built = checked_propose_call(bit_flag, batch, inbox, num_blobs);
    law_batches_that_can_be_proposed(bit_flag, batch, inbox, num_blobs);
    let propose = built->Ok_0;
    law_proposal_is_read_back(bit_flag, batch, inbox, num_blobs, propose);
    if batch.user_ops@.len() + batch.l1_calls@.len() > 0 {
        law_async_batch_is_one_multicall(
            batch,
            propose,
            layer.preconfer_address@,
            contracts,
            settings,
            sidecar@,
        );
    }
}

} // verus!
