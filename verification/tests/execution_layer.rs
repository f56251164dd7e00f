use alloy::primitives::keccak256;
use realtime::error::Error;
use realtime::events::{MESSAGE_SENT, SIGNAL_SENT};
use realtime::execution_layer::{
    EthereumL1Config, ExecutionLayer, GethTrace, L1BridgeHandlerOps, SendAction, SendEvent,
    SendState, TraceRequest, EXTRA_GAS_PERCENTAGE,
};
use realtime::message::Message;
use realtime::proposal::{
    BlobTransactionSidecar, BlockManifest, Checkpoint, ContractAddresses, L2Block,
    PricedTransaction, ProofType, Proposal, SyncSettings, TransactionRequest, UserOp,
};
use realtime::proposal_tx_builder::ProposalTxBuilder;
use realtime::trace::{CallFrame, CallLogFrame};

type Layer = ExecutionLayer<&'static str, &'static str>;
type Fees = u32;

fn config() -> EthereumL1Config<&'static str> {
    EthereumL1Config {
        realtime_inbox: [1; 20],
        proposer_multicall: [2; 20],
        bridge: [3; 20],
        proof_type: ProofType { bit_flag: 4 },
        raiko_client: "raiko",
    }
}

fn layer() -> Layer {
    ExecutionLayer::new([9; 20], "monitor", config(), Ok::<(), String>(())).unwrap()
}

fn batch() -> Proposal {
    Proposal {
        l2_blocks: vec![L2Block {
            timestamp_sec: 1,
            coinbase: [2; 20],
            anchor_block_number: 3,
            gas_limit_without_anchor: 4,
            tx_list: vec![vec![5]],
        }],
        user_ops: vec![UserOp { submitter: [6; 20], calldata: vec![7] }],
        signal_slots: vec![[8; 32]],
        l1_calls: vec![],
        zk_proof: Some(vec![9]),
        max_anchor_block_number: 10,
        checkpoint: Checkpoint { block_number: 11, block_hash: [12; 32], state_root: [13; 32] },
    }
}

fn settings() -> SyncSettings {
    SyncSettings { proof_store_address: None, mode_v2: false }
}

fn sidecar() -> BlobTransactionSidecar {
    BlobTransactionSidecar {
        blobs: vec![vec![0xb0; 4]],
        commitments: vec![[0xc0; 48]],
        proofs: vec![[0xf0; 48]],
    }
}

fn built() -> TransactionRequest {
    let layer = layer();
    ProposalTxBuilder::new(EXTRA_GAS_PERCENTAGE, layer.proof_type)
        .build_propose_blob(&batch(), [9; 20], &layer.contract_addresses, sidecar(), &settings())
        .unwrap()
}

fn word(n: u64) -> Vec<u8> {
    let mut out = vec![0u8; 24];
    out.extend_from_slice(&n.to_be_bytes());
    out
}

fn frame() -> CallFrame {
    CallFrame {
        typ: "CALL".to_string(),
        input: vec![],
        output: None,
        logs: vec![],
        calls: vec![],
    }
}

#[test]
fn first_url_is_used() {
    let urls = vec!["a".to_string(), "b".to_string()];
    assert_eq!(Layer::rpc_url(&urls), Ok(&"a".to_string()));
}

#[test]
fn url_is_required() {
    let error = Layer::rpc_url(&vec![]).unwrap_err();
    assert_eq!(error, Error::RpcUrlRequired);
    assert_eq!(error.message(), "L1 RPC URL is required");
}

#[test]
fn monitor_is_required() {
    assert_eq!(Layer::monitor(Ok("monitor")), Ok("monitor"));
    let error = Layer::monitor(Err("down".to_string())).unwrap_err();
    assert_eq!(error.message(), "Failed to create TransactionMonitor: down");
}

#[test]
fn new_takes_the_configuration() {
    let layer = layer();
    assert_eq!(layer.preconfer_address, [9; 20]);
    assert_eq!(layer.transaction_monitor, "monitor");
    assert_eq!(
        layer.contract_addresses,
        ContractAddresses {
            realtime_inbox: [1; 20],
            proposer_multicall: [2; 20],
            bridge: [3; 20],
        }
    );
    assert_eq!(layer.proof_type, ProofType { bit_flag: 4 });
    assert_eq!(*layer.get_raiko_client(), "raiko");
}

#[test]
fn new_needs_the_inbox() {
    let error =
        Layer::new([9; 20], "monitor", config(), Err::<(), String>("gone".to_string()))
            .unwrap_err();
    assert_eq!(error, Error::GetConfig("gone".to_string()));
    assert_eq!(error.message(), "Failed to call getConfig for RealTimeInbox: gone");
}

#[test]
fn answers_of_the_inbox_are_handed_on() {
    let layer = layer();
    assert_eq!(layer.fetch_protocol_config(Ok(75u8)), Ok(75));
    let error = layer.fetch_protocol_config(Err::<u8, String>("gone".to_string())).unwrap_err();
    assert_eq!(error.message(), "Failed to call getConfig for RealTimeInbox: gone");
    assert_eq!(layer.get_last_finalized_block_hash(Ok([7; 32])), Ok([7; 32]));
    let error = layer.get_last_finalized_block_hash(Err("gone".to_string())).unwrap_err();
    assert_eq!(error.message(), "Failed to call getLastFinalizedBlockHash: gone");
}

#[test]
fn proposer_is_the_operator() {
    let layer = layer();
    assert_eq!(layer.get_preconfer_address(), [9; 20]);
    assert_eq!(
        layer.get_operators_for_current_and_next_epoch(1, 2),
        Ok(([9; 20], [9; 20]))
    );
    assert_eq!(layer.is_preconf_router_specified_in_taiko_wrapper(), Ok(true));
    assert_eq!(layer.get_l2_height_from_taiko_inbox(), Ok(0));
    let error = layer.get_handover_window_slots().unwrap_err();
    assert_eq!(error, Error::NotImplemented);
    assert_eq!(error.message(), "Not implemented for RealTime execution layer");
}

/// Sends the batch up to the request for the nonce.
fn priced(gas_estimate: Option<u64>, fees: Option<Fees>) -> SendState<Fees> {
    let layer = layer();
    let (state, action) =
        layer.send_batch_to_l1::<Fees>(SendState::Ready { batch: batch() }, SendEvent::Begin);
    assert_eq!(
        action,
        SendAction::BuildSidecar {
            manifest: vec![BlockManifest {
                timestamp: 1,
                coinbase: [2; 20],
                anchor_block_number: 3,
                gas_limit: 4,
                transactions: vec![vec![5]],
            }],
        }
    );
    let (state, action) = layer.send_batch_to_l1(
        state,
        SendEvent::SidecarBuilt { sidecar: Ok(sidecar()), settings: settings() },
    );
    assert_eq!(state, SendState::AwaitGas { tx: built() });
    assert_eq!(action, SendAction::EstimateGas);
    let (state, action) = layer.send_batch_to_l1(state, SendEvent::GasEstimated(gas_estimate));
    assert_eq!(action, SendAction::FetchFees);
    let (state, action) = layer.send_batch_to_l1(state, SendEvent::FeesFetched(fees));
    assert_eq!(action, SendAction::FetchPendingNonce);
    state
}

#[test]
fn sends_a_batch() {
    let layer = layer();
    let (state, action) =
        layer.send_batch_to_l1(priced(Some(1000), Some(5)), SendEvent::NonceFetched(Ok(17)));
    assert_eq!(
        action,
        SendAction::Monitor {
            tx: PricedTransaction::Priced { tx: built(), gas_limit: 1100, fees_per_gas: 5 },
            nonce: 17,
        }
    );
    assert_eq!(built().blob_sidecar, sidecar());
    let (state, action) = layer.send_batch_to_l1(state, SendEvent::Monitored(Ok(())));
    assert_eq!(state, SendState::Done);
    assert_eq!(action, SendAction::Finish(Ok(())));
}

#[test]
fn sends_a_batch_without_estimate_or_fees() {
    let layer = layer();
    let (_, action) =
        layer.send_batch_to_l1(priced(None, Some(5)), SendEvent::NonceFetched(Ok(17)));
    assert_eq!(
        action,
        SendAction::Monitor {
            tx: PricedTransaction::Priced { tx: built(), gas_limit: 5_500_000, fees_per_gas: 5 },
            nonce: 17,
        }
    );
    let (_, action) =
        layer.send_batch_to_l1(priced(Some(1000), None), SendEvent::NonceFetched(Ok(18)));
    assert_eq!(
        action,
        SendAction::Monitor { tx: PricedTransaction::Unpriced(built()), nonce: 18 }
    );
}

#[test]
fn failures_stop_the_sending() {
    let layer = layer();
    let stopped = |step: (SendState<Fees>, SendAction<Fees>)| match step {
        (SendState::Done, SendAction::Finish(Err(error))) => error.message(),
        step => panic!("went on: {:?}", step),
    };
    let stopped_at_sidecar = |batch: Proposal,
                              sidecar: Result<BlobTransactionSidecar, Error>,
                              settings: SyncSettings| {
        stopped(layer.send_batch_to_l1(
            SendState::AwaitSidecar { batch },
            SendEvent::SidecarBuilt { sidecar, settings },
        ))
    };
    assert_eq!(
        stopped_at_sidecar(batch(), Err(Error::EncodeManifest("rlp".to_string())), settings()),
        "Can't encode and compress manifest: rlp"
    );
    assert_eq!(
        stopped_at_sidecar(batch(), Err(Error::Other("kzg".to_string())), settings()),
        "kzg"
    );
    let mut unproved = batch();
    unproved.zk_proof = None;
    assert_eq!(
        stopped_at_sidecar(unproved, Ok(sidecar()), settings()),
        "ZK proof not set on proposal"
    );
    let mut too_many = sidecar();
    too_many.blobs = vec![vec![]; 65536];
    assert_eq!(
        stopped_at_sidecar(batch(), Ok(too_many), settings()),
        "out of range integral type conversion attempted"
    );
    assert_eq!(
        stopped_at_sidecar(
            batch(),
            Ok(sidecar()),
            SyncSettings { proof_store_address: Some("0x1".to_string()), mode_v2: false }
        ),
        "Invalid SYNC_PROOF_STORE_ADDRESS: odd number of digits"
    );
    assert_eq!(
        stopped(layer.send_batch_to_l1(
            priced(None, None),
            SendEvent::NonceFetched(Err(Error::Other("no nonce".to_string()))),
        )),
        "no nonce"
    );
    assert_eq!(
        stopped(layer.send_batch_to_l1(
            SendState::AwaitMonitor,
            SendEvent::Monitored(Err("busy".to_string())),
        )),
        "Sending batch to L1 failed: busy"
    );
}

#[test]
fn traces_the_inner_call() {
    let mut calldata = vec![0x6a, 0x76, 0x12, 0x02];
    calldata.extend(vec![0u8; 12]);
    calldata.extend(vec![0x55u8; 20]);
    calldata.extend(word(0));
    calldata.extend(word(96));
    calldata.extend(word(2));
    calldata.extend_from_slice(&[0xab, 0xcd]);
    let user_op = UserOp { submitter: [0x66; 20], calldata };
    assert_eq!(
        layer().trace_request(&user_op),
        TraceRequest {
            from: [0x66; 20],
            to: [0x55; 20],
            input: vec![0xab, 0xcd],
            with_log: true,
            only_top_call: false,
        }
    );
}

#[test]
fn traces_any_other_call_as_it_is() {
    let user_op = UserOp { submitter: [0x66; 20], calldata: vec![1, 2, 3, 4, 5] };
    assert_eq!(
        layer().trace_request(&user_op),
        TraceRequest {
            from: [0x66; 20],
            to: [0x66; 20],
            input: vec![1, 2, 3, 4, 5],
            with_log: true,
            only_top_call: false,
        }
    );
}

/// Logs of a message with id 21 and of a signal to a slot of sevens.
fn bridge_logs() -> Vec<CallLogFrame> {
    let mut message = word(32);
    for n in [21, 0, 0, 0, 0, 0, 0, 0, 0, 0, 352, 1] {
        message.extend(word(n));
    }
    message.push(0xcc);
    let signal = vec![word(0), word(0), vec![7; 32], word(0)].concat();
    vec![
        CallLogFrame {
            topics: Some(vec![keccak256(MESSAGE_SENT).0, [0; 32]]),
            data: Some(message),
        },
        CallLogFrame { topics: Some(vec![keccak256(SIGNAL_SENT).0]), data: Some(signal) },
    ]
}

fn bridge_message() -> Message {
    Message {
        id: 21,
        fee: 0,
        gas_limit: 0,
        from: [0; 20],
        src_chain_id: 0,
        src_owner: [0; 20],
        dest_chain_id: 0,
        dest_owner: [0; 20],
        to: [0; 20],
        value: [0; 32],
        data: vec![0xcc],
    }
}

#[test]
fn finds_the_events_of_a_trace() {
    let mut inner = frame();
    inner.logs = bridge_logs();
    let mut top = frame();
    top.calls = vec![frame(), inner];
    assert_eq!(
        layer().find_message_and_signal_slot(Ok(GethTrace::CallTracer(top))),
        Ok(Some((bridge_message(), [7; 32])))
    );
}

#[test]
fn finds_the_outputs_of_a_reverted_trace() {
    let mut signal = frame();
    signal.input = vec![0x66, 0xca, 0x2b, 0xc0];
    signal.output = Some(vec![8; 32]);
    let mut message = frame();
    message.input = vec![0x1b, 0xdb, 0x00, 0x37];
    let mut output = vec![word(0), word(64)].concat();
    for n in [21, 0, 0, 0, 0, 0, 0, 0, 0, 0, 352, 1] {
        output.extend(word(n));
    }
    output.push(0xcc);
    message.output = Some(output);
    message.calls = vec![signal];
    assert_eq!(
        layer().find_message_and_signal_slot(Ok(GethTrace::CallTracer(message))),
        Ok(Some((bridge_message(), [8; 32])))
    );
}

#[test]
fn finds_nothing_in_other_traces() {
    assert_eq!(layer().find_message_and_signal_slot(Ok(GethTrace::CallTracer(frame()))), Ok(None));
    assert_eq!(layer().find_message_and_signal_slot(Ok(GethTrace::Other)), Ok(None));
}

#[test]
fn refused_trace_is_an_error() {
    let error = layer().find_message_and_signal_slot(Err("timeout".to_string())).unwrap_err();
    assert_eq!(error, Error::TraceCall("timeout".to_string()));
    assert_eq!(error.message(), "Failed to simulate executeBatch on L1: timeout");
}

#[test]
fn undecodable_event_is_an_error() {
    let mut top = frame();
    top.logs = bridge_logs();
    top.logs[0].data = Some(vec![]);
    let error = layer().find_message_and_signal_slot(Ok(GethTrace::CallTracer(top))).unwrap_err();
    assert_eq!(
        error.message(),
        "Failed to decode MessageSent event L1: \
         ABI decoding failed: buffer overrun while deserializing"
    );
}

#[test]
fn logs_of_other_contracts_do_not_change_the_search() {
    let other = || CallLogFrame { topics: Some(vec![[5; 32]]), data: Some(vec![1, 2, 3]) };
    let no_topics = || CallLogFrame { topics: None, data: None };
    let empty_topics = || CallLogFrame { topics: Some(vec![]), data: Some(vec![9]) };
    let mut plain = frame();
    plain.calls = vec![frame(), frame()];
    plain.calls[1].logs = bridge_logs();
    let mut noisy = frame();
    noisy.logs = vec![other(), empty_topics()];
    noisy.calls = vec![frame(), frame()];
    noisy.calls[0].logs = vec![no_topics()];
    noisy.calls[1].logs = vec![other()];
    noisy.calls[1].logs.extend(bridge_logs());
    noisy.calls[1].logs.insert(2, no_topics());
    noisy.calls[1].logs.push(other());
    let found = layer().find_message_and_signal_slot(Ok(GethTrace::CallTracer(noisy)));
    assert_eq!(found, layer().find_message_and_signal_slot(Ok(GethTrace::CallTracer(plain))));
    assert_eq!(found, Ok(Some((bridge_message(), [7; 32]))));
}

#[test]
fn manifest_depends_on_the_blocks_alone() {
    let mut other = batch();
    other.user_ops = vec![];
    other.zk_proof = None;
    other.signal_slots = vec![];
    other.max_anchor_block_number = 99;
    let (_, action) =
        layer().send_batch_to_l1::<Fees>(SendState::Ready { batch: batch() }, SendEvent::Begin);
    let (_, other_action) =
        layer().send_batch_to_l1::<Fees>(SendState::Ready { batch: other }, SendEvent::Begin);
    assert_eq!(action, other_action);
}
