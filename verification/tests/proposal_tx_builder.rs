use alloy::primitives::keccak256;
use realtime::error::{Error, HexError};
use realtime::message::Message;
use realtime::proposal::{
    BlobTransactionSidecar, BlockManifest, Call, Checkpoint, ContractAddresses, L1Call, L2Block,
    PricedTransaction, ProofType, Proposal, SyncSettings, TransactionRequest, UserOp,
};
use realtime::proposal_tx_builder::{
    arrange_calls, decode_return, ProposalTxBuilder, FALLBACK_GAS, MULTICALL, PROCESS_MESSAGE,
    PROPOSE, STORE, STORE_V2,
};

const INBOX: [u8; 20] = [0x11; 20];
const PROPOSER_MULTICALL: [u8; 20] = [0x22; 20];
const BRIDGE: [u8; 20] = [0x33; 20];
const SENDER: [u8; 20] = [0x44; 20];
const PROOF_STORE: &str = "0xD28C7Cc7B071a4290EEe8a71Ebd18E49a7aAeF8f";
const PROOF_STORE_BYTES: [u8; 20] = [
    0xd2, 0x8c, 0x7c, 0xc7, 0xb0, 0x71, 0xa4, 0x29, 0x0e, 0xee, 0x8a, 0x71, 0xeb, 0xd1, 0x8e, 0x49,
    0xa7, 0xaa, 0xef, 0x8f,
];

fn word(n: u64) -> Vec<u8> {
    let mut out = vec![0u8; 24];
    out.extend_from_slice(&n.to_be_bytes());
    out
}

fn address_word(address: [u8; 20]) -> Vec<u8> {
    let mut out = vec![0u8; 12];
    out.extend_from_slice(&address);
    out
}

/// A byte string behind its length, filled up to whole words.
fn byte_string(bytes: &[u8]) -> Vec<u8> {
    let mut out = word(bytes.len() as u64);
    out.extend_from_slice(bytes);
    while out.len() % 32 != 0 {
        out.push(0);
    }
    out
}

fn function(signature: &str, params: Vec<Vec<u8>>) -> Vec<u8> {
    let mut out = keccak256(signature)[..4].to_vec();
    out.extend(params.concat());
    out
}

fn builder() -> ProposalTxBuilder {
    ProposalTxBuilder::new(10, ProofType { bit_flag: 4 })
}

fn contracts() -> ContractAddresses {
    ContractAddresses {
        realtime_inbox: INBOX,
        proposer_multicall: PROPOSER_MULTICALL,
        bridge: BRIDGE,
    }
}

fn async_settings() -> SyncSettings {
    SyncSettings { proof_store_address: None, mode_v2: false }
}

fn sync_settings(mode_v2: bool) -> SyncSettings {
    SyncSettings { proof_store_address: Some(PROOF_STORE.to_string()), mode_v2 }
}

fn user_op(tag: u8) -> UserOp {
    UserOp { submitter: [tag; 20], calldata: vec![tag; 33] }
}

/// The data of a message that returns `returned` from the L2.
fn return_data(success: bool, returned: &[u8]) -> Vec<u8> {
    let mut out = vec![0xaa; 68];
    out.extend(word(0));
    out.extend(word(success as u64));
    out.extend(word(128));
    out.extend(word(7));
    out.extend(byte_string(returned));
    out
}

fn l1_call(id: u64) -> L1Call {
    L1Call {
        message_from_l2: Message {
            id,
            fee: 5,
            gas_limit: 6,
            from: [1; 20],
            src_chain_id: 763374,
            src_owner: [2; 20],
            dest_chain_id: 100,
            dest_owner: [3; 20],
            to: [4; 20],
            value: [9; 32],
            data: return_data(true, &[0xca, 0xfe]),
        },
        signal_slot_proof: vec![0xd0, 0xd1, 0xd2],
    }
}

fn batch(user_ops: Vec<UserOp>, l1_calls: Vec<L1Call>) -> Proposal {
    Proposal {
        l2_blocks: vec![],
        user_ops,
        signal_slots: vec![[5; 32], [6; 32]],
        l1_calls,
        zk_proof: Some(vec![0xee; 40]),
        max_anchor_block_number: 0xffff_ffff_ffff,
        checkpoint: Checkpoint {
            block_number: 77,
            block_hash: [7; 32],
            state_root: [8; 32],
        },
    }
}

/// The calldata of `propose` for `batch` in two blobs.
fn propose_calldata() -> Vec<u8> {
    let input = vec![
        word(32),
        word(0),
        word(2),
        word(0),
        word(160),
        word(0xffff_ffff_ffff),
        word(2),
        vec![5; 32],
        vec![6; 32],
    ]
    .concat();
    let proof =
        vec![word(32), word(1), word(32), word(4), word(64), byte_string(&[0xee; 40])].concat();
    let input = byte_string(&input);
    function(
        PROPOSE,
        vec![
            word(160),
            word(77),
            vec![7; 32],
            vec![8; 32],
            word(160 + input.len() as u64),
            input,
            byte_string(&proof),
        ],
    )
}

fn process_message_calldata(call: &L1Call) -> Vec<u8> {
    let m = &call.message_from_l2;
    let message = vec![
        word(m.id),
        word(m.fee),
        word(m.gas_limit as u64),
        address_word(m.from),
        word(m.src_chain_id),
        address_word(m.src_owner),
        word(m.dest_chain_id),
        address_word(m.dest_owner),
        address_word(m.to),
        m.value.to_vec(),
        word(352),
        byte_string(&m.data),
    ]
    .concat();
    function(
        PROCESS_MESSAGE,
        vec![
            word(64),
            word(64 + message.len() as u64),
            message,
            byte_string(&call.signal_slot_proof),
        ],
    )
}

fn multicall_calldata(calls: &[(/* target */ [u8; 20], /* data */ Vec<u8>)]) -> Vec<u8> {
    let items: Vec<Vec<u8>> = calls
        .iter()
        .map(|(target, data)| {
            vec![address_word(*target), word(0), word(96), byte_string(data)].concat()
        })
        .collect();
    let mut offsets = vec![];
    let mut offset = 32 * items.len();
    for item in &items {
        offsets.extend(word(offset as u64));
        offset += item.len();
    }
    function(MULTICALL, vec![word(32), word(items.len() as u64), offsets, items.concat()])
}

fn sidecar() -> BlobTransactionSidecar {
    BlobTransactionSidecar {
        blobs: vec![vec![0xb0; 4], vec![0xb1; 4]],
        commitments: vec![[0xc0; 48], [0xc1; 48]],
        proofs: vec![[0xf0; 48], [0xf1; 48]],
    }
}

/// A sidecar of `n` empty blobs.
fn empty_blobs(n: usize) -> BlobTransactionSidecar {
    BlobTransactionSidecar { blobs: vec![vec![]; n], commitments: vec![], proofs: vec![] }
}

fn request(to: [u8; 20], input: Vec<u8>) -> TransactionRequest {
    TransactionRequest { from: SENDER, to, input, blob_sidecar: sidecar() }
}

fn build(batch: &Proposal, settings: &SyncSettings) -> Result<TransactionRequest, Error> {
    builder().build_propose_blob(batch, SENDER, &contracts(), sidecar(), settings)
}

#[test]
fn builds_the_propose_call() {
    let (call, blobs) =
        builder().build_propose_call(&batch(vec![], vec![]), INBOX, sidecar()).unwrap();
    assert_eq!(call, Call { target: INBOX, value: [0; 32], data: propose_calldata() });
    assert_eq!(blobs, sidecar());
}

#[test]
fn propose_call_needs_a_proof() {
    let mut batch = batch(vec![], vec![]);
    batch.zk_proof = None;
    // Without a proof the numbers are not looked at.
    batch.max_anchor_block_number = u64::MAX;
    let error = builder().build_propose_call(&batch, INBOX, empty_blobs(65536)).unwrap_err();
    assert_eq!(error, Error::ZkProofNotSet);
    assert_eq!(error.message(), "ZK proof not set on proposal");
}

#[test]
fn propose_call_counts_blobs_in_sixteen_bits() {
    let batch = batch(vec![], vec![]);
    assert!(builder().build_propose_call(&batch, INBOX, empty_blobs(65535)).is_ok());
    let error = builder().build_propose_call(&batch, INBOX, empty_blobs(65536)).unwrap_err();
    assert_eq!(error, Error::TooManyBlobs);
    assert_eq!(error.message(), "out of range integral type conversion attempted");
    assert_eq!(error.message(), u16::try_from(65536usize).unwrap_err().to_string());
}

#[test]
fn builds_the_call_of_a_user_op() {
    assert_eq!(
        builder().build_user_op_call(&user_op(9)),
        Call { target: [9; 20], value: [0; 32], data: vec![9; 33] }
    );
}

#[test]
fn builds_the_call_of_a_message_from_the_l2() {
    let l1_call = l1_call(3);
    assert_eq!(
        builder().build_l1_call_call(&l1_call, BRIDGE),
        Call { target: BRIDGE, value: [0; 32], data: process_message_calldata(&l1_call) }
    );
}

#[test]
fn builds_the_manifest() {
    let mut batch = batch(vec![], vec![]);
    batch.l2_blocks = vec![
        L2Block {
            timestamp_sec: 1,
            coinbase: [2; 20],
            anchor_block_number: 3,
            gas_limit_without_anchor: 4,
            tx_list: vec![vec![5], vec![6, 7]],
        },
        L2Block {
            timestamp_sec: 8,
            coinbase: [9; 20],
            anchor_block_number: 10,
            gas_limit_without_anchor: 11,
            tx_list: vec![],
        },
    ];
    assert_eq!(
        builder().build_manifest(&batch),
        vec![
            BlockManifest {
                timestamp: 1,
                coinbase: [2; 20],
                anchor_block_number: 3,
                gas_limit: 4,
                transactions: vec![vec![5], vec![6, 7]],
            },
            BlockManifest {
                timestamp: 8,
                coinbase: [9; 20],
                anchor_block_number: 10,
                gas_limit: 11,
                transactions: vec![],
            },
        ]
    );
}

#[test]
fn plain_batch_goes_to_the_inbox() {
    let bad = SyncSettings { proof_store_address: Some("no address".to_string()), mode_v2: true };
    for settings in [async_settings(), sync_settings(true), bad] {
        assert_eq!(
            build(&batch(vec![], vec![]), &settings),
            Ok(request(INBOX, propose_calldata()))
        );
    }
}

#[test]
fn async_multicall_is_user_ops_then_proposal_then_messages() {
    let batch = batch(vec![user_op(1), user_op(2)], vec![l1_call(3), l1_call(4)]);
    let input = multicall_calldata(&[
        ([1; 20], vec![1; 33]),
        ([2; 20], vec![2; 33]),
        (INBOX, propose_calldata()),
        (BRIDGE, process_message_calldata(&l1_call(3))),
        (BRIDGE, process_message_calldata(&l1_call(4))),
    ]);
    // Without a proof store the version of the synchronous mode does not matter.
    for mode_v2 in [false, true] {
        assert_eq!(
            build(&batch, &SyncSettings { proof_store_address: None, mode_v2 }),
            Ok(request(PROPOSER_MULTICALL, input.clone()))
        );
    }
}

#[test]
fn async_multicall_with_messages_alone() {
    let batch = batch(vec![], vec![l1_call(3)]);
    let input = multicall_calldata(&[
        (INBOX, propose_calldata()),
        (BRIDGE, process_message_calldata(&l1_call(3))),
    ]);
    assert_eq!(
        build(&batch, &async_settings()),
        Ok(request(PROPOSER_MULTICALL, input))
    );
}

fn store_calldata(process_message: &[u8]) -> Vec<u8> {
    let propose = byte_string(&propose_calldata());
    function(
        STORE,
        vec![
            word(0),
            address_word(INBOX),
            word(160),
            address_word(BRIDGE),
            word(160 + propose.len() as u64),
            propose,
            byte_string(process_message),
        ],
    )
}

fn store_v2_calldata(id: u64, success: bool, data: &[u8], hop_proof: &[u8]) -> Vec<u8> {
    let propose = byte_string(&propose_calldata());
    let data = byte_string(data);
    function(
        STORE_V2,
        vec![
            word(0),
            address_word(INBOX),
            word(224),
            word(id),
            word(success as u64),
            word(224 + propose.len() as u64),
            word((224 + propose.len() + data.len()) as u64),
            propose,
            data,
            byte_string(hop_proof),
        ],
    )
}

#[test]
fn first_proof_store_is_given_the_proposal_and_the_first_message() {
    let batch = batch(vec![user_op(1), user_op(2)], vec![l1_call(3), l1_call(4)]);
    let input = multicall_calldata(&[
        (PROOF_STORE_BYTES, store_calldata(&process_message_calldata(&l1_call(3)))),
        ([1; 20], vec![1; 33]),
        ([2; 20], vec![2; 33]),
    ]);
    assert_eq!(
        build(&batch, &sync_settings(false)),
        Ok(request(PROPOSER_MULTICALL, input))
    );
}

#[test]
fn first_proof_store_without_messages() {
    let batch = batch(vec![user_op(1)], vec![]);
    let input = multicall_calldata(&[
        (PROOF_STORE_BYTES, store_calldata(&[])),
        ([1; 20], vec![1; 33]),
    ]);
    assert_eq!(build(&batch, &sync_settings(false)).unwrap().input, input);
}

#[test]
fn second_proof_store_is_given_the_proposal_and_the_return_value() {
    let batch = batch(vec![user_op(1), user_op(2)], vec![l1_call(3), l1_call(4)]);
    let input = multicall_calldata(&[
        (
            PROOF_STORE_BYTES,
            store_v2_calldata(3, true, &[0xca, 0xfe], &[0xd0, 0xd1, 0xd2]),
        ),
        ([1; 20], vec![1; 33]),
        ([2; 20], vec![2; 33]),
    ]);
    let mut other_bridge = contracts();
    other_bridge.bridge = [0x99; 20];
    for contracts in [contracts(), other_bridge] {
        assert_eq!(
            builder().build_propose_blob(
                &batch,
                SENDER,
                &contracts,
                sidecar(),
                &sync_settings(true)
            ),
            Ok(request(PROPOSER_MULTICALL, input.clone()))
        );
    }
}

#[test]
fn second_proof_store_without_messages() {
    let batch = batch(vec![user_op(1)], vec![]);
    let input = multicall_calldata(&[
        (PROOF_STORE_BYTES, store_v2_calldata(0, false, &[], &[])),
        ([1; 20], vec![1; 33]),
    ]);
    assert_eq!(build(&batch, &sync_settings(true)).unwrap().input, input);
}

#[test]
fn proof_store_is_a_hex_address() {
    let batch = batch(vec![user_op(1)], vec![]);
    let with = |text: &str| {
        build(
            &batch,
            &SyncSettings { proof_store_address: Some(text.to_string()), mode_v2: false },
        )
    };
    let expected = build(&batch, &sync_settings(false));
    assert!(expected.is_ok());
    assert_eq!(with(&PROOF_STORE[2..]), expected);
    assert_eq!(with(&PROOF_STORE.to_lowercase()), expected);
    assert_eq!(with(&PROOF_STORE.to_uppercase()), expected);

    let error = with("0x123").unwrap_err();
    assert_eq!(error, Error::InvalidProofStoreAddress(HexError::OddLength));
    assert_eq!(error.message(), "Invalid SYNC_PROOF_STORE_ADDRESS: odd number of digits");
    for text in ["", "0x", "0x1234", "00D28C7Cc7B071a4290EEe8a71Ebd18E49a7aAeF8f"] {
        let error = with(text).unwrap_err();
        assert_eq!(error, Error::InvalidProofStoreAddress(HexError::InvalidStringLength));
        assert_eq!(error.message(), "Invalid SYNC_PROOF_STORE_ADDRESS: invalid string length");
    }
    let error = with("0xD28C7Cc7g071a4290EEe8a71Ebd18E49a7aAeF8z").unwrap_err();
    assert_eq!(
        error,
        Error::InvalidProofStoreAddress(HexError::InvalidHexCharacter { c: 'g', index: 8 })
    );
    assert_eq!(
        error.message(),
        "Invalid SYNC_PROOF_STORE_ADDRESS: invalid character 'g' at position 8"
    );
    let parsed = "0xD28C7Cc7g071a4290EEe8a71Ebd18E49a7aAeF8z".parse::<alloy::primitives::Address>();
    assert_eq!(
        error.message(),
        format!("Invalid SYNC_PROOF_STORE_ADDRESS: {}", parsed.unwrap_err())
    );
}

#[test]
fn missing_proof_comes_before_a_bad_proof_store() {
    let mut batch = batch(vec![user_op(1)], vec![]);
    batch.zk_proof = None;
    let settings =
        SyncSettings { proof_store_address: Some("0x123".to_string()), mode_v2: false };
    assert_eq!(build(&batch, &settings), Err(Error::ZkProofNotSet));
}

#[test]
fn decodes_a_return_value() {
    assert_eq!(decode_return(&return_data(true, &[1, 2, 3])), (true, vec![1, 2, 3]));
    assert_eq!(decode_return(&return_data(false, &[1, 2, 3])), (false, vec![1, 2, 3]));
    assert_eq!(decode_return(&return_data(true, &[])), (true, vec![]));
}

#[test]
fn any_nonzero_flag_is_a_success() {
    let mut data = return_data(false, &[1]);
    data[68 + 32] = 0x80;
    assert_eq!(decode_return(&data), (true, vec![1]));
}

#[test]
fn message_without_return_value_is_a_failure() {
    let good = return_data(true, &[1, 2, 3]);
    let failed = (false, Vec::<u8>::new());
    for len in [0, 68, 69, 68 + 95, 68 + 96, 68 + 128 + 31, 68 + 128 + 32 + 2] {
        assert_eq!(decode_return(&good[..len].to_vec()), failed);
    }
    assert_eq!(decode_return(&good[..68 + 128 + 32 + 3].to_vec()), (true, vec![1, 2, 3]));
    let mut far = good.clone();
    for byte in &mut far[68 + 88..68 + 96] {
        *byte = 0xff;
    }
    assert_eq!(decode_return(&far), failed);
    let mut long = good;
    for byte in &mut long[68 + 128 + 24..68 + 128 + 32] {
        *byte = 0xff;
    }
    assert_eq!(decode_return(&long), failed);
}

#[test]
fn arranges_calls() {
    let call = |tag: u8| Call { target: [tag; 20], value: [0; 32], data: vec![tag] };
    assert_eq!(
        arrange_calls(None, vec![call(1), call(2)], call(3), vec![call(4), call(5)]),
        vec![call(1), call(2), call(3), call(4), call(5)]
    );
    assert_eq!(
        arrange_calls(Some(call(0)), vec![call(1), call(2)], call(3), vec![call(4)]),
        vec![call(0), call(1), call(2)]
    );
}

fn tx() -> TransactionRequest {
    request(INBOX, vec![1, 2])
}

#[test]
fn prices_a_transaction() {
    assert_eq!(
        builder().build_propose_tx(tx(), Some(1_000_009), Some("fees")),
        PricedTransaction::Priced { tx: tx(), gas_limit: 1_100_009, fees_per_gas: "fees" }
    );
    assert_eq!(
        builder().build_propose_tx(tx(), Some(0), Some("fees")),
        PricedTransaction::Priced { tx: tx(), gas_limit: 0, fees_per_gas: "fees" }
    );
}

#[test]
fn failed_estimate_falls_back() {
    assert_eq!(FALLBACK_GAS, 5_000_000);
    assert_eq!(
        builder().build_propose_tx(tx(), None, Some("fees")),
        PricedTransaction::Priced { tx: tx(), gas_limit: 5_500_000, fees_per_gas: "fees" }
    );
}

#[test]
fn unknown_fees_leave_the_transaction_unpriced() {
    for gas_estimate in [None, Some(21_000)] {
        assert_eq!(
            builder().build_propose_tx::<&str>(tx(), gas_estimate, None),
            PricedTransaction::Unpriced(tx())
        );
    }
}

#[test]
fn gas_limit_grows_with_gas_and_percentage() {
    let limit = |percentage: u64, gas: u64| {
        let builder = ProposalTxBuilder::new(percentage, ProofType { bit_flag: 0 });
        match builder.build_propose_tx(tx(), Some(gas), Some(())) {
            PricedTransaction::Priced { gas_limit, .. } => gas_limit,
            PricedTransaction::Unpriced(_) => panic!("fees are known"),
        }
    };
    assert_eq!(limit(0, 199), 199);
    assert_eq!(limit(10, 199), 218);
    assert_eq!(limit(10, 200), 220);
    assert_eq!(limit(50, 200), 300);
}

#[test]
fn propose_call_leaves_the_rest_of_the_batch_out() {
    let mut full = batch(vec![user_op(1)], vec![l1_call(3)]);
    full.l2_blocks = vec![L2Block {
        timestamp_sec: 1,
        coinbase: [2; 20],
        anchor_block_number: 3,
        gas_limit_without_anchor: 4,
        tx_list: vec![vec![5]],
    }];
    assert_eq!(
        builder().build_propose_call(&full, INBOX, sidecar()),
        builder().build_propose_call(&batch(vec![], vec![]), INBOX, sidecar())
    );
}

#[test]
fn second_proof_store_with_a_message_that_returns_nothing() {
    let mut call = l1_call(3);
    call.message_from_l2.data = vec![1, 2, 3];
    let batch = batch(vec![user_op(1)], vec![call]);
    let input = multicall_calldata(&[
        (PROOF_STORE_BYTES, store_v2_calldata(3, false, &[], &[0xd0, 0xd1, 0xd2])),
        ([1; 20], vec![1; 33]),
    ]);
    assert_eq!(build(&batch, &sync_settings(true)).unwrap().input, input);
}
