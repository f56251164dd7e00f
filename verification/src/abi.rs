//! The contract ABI, hashes and hex addresses, as `alloy` computes them.
use vstd::prelude::*;
use vstd::string::*;

use alloy::primitives::aliases::{U24, U48};
use alloy::primitives::U256;
use alloy::sol_types::{sol_data, SolType};

use crate::bytes::{
    address_word, be_nat, lemma_be_bytes_len, lemma_be_nat_bound, lemma_low_address_of_address_word,
    lemma_low_uint_of_uint_word, lemma_pow256_values, lemma_uint_word_value, length_prefixed,
    low_address, low_uint, uint_word, zeros, Address, Bytes32,
};
use crate::error::HexError;
use crate::message::{
    lemma_message_of_words, message_of_words, message_sized, Message, MessageView,
};
use crate::proposal::{
    call_views, BlobReference, Call, CallView, Checkpoint, ReturnMessage, SubProof,
};

verus! {

/// The ABI type of a bridge message.
type MessageTuple = (
    sol_data::Uint<64>,
    sol_data::Uint<64>,
    sol_data::Uint<32>,
    sol_data::Address,
    sol_data::Uint<64>,
    sol_data::Address,
    sol_data::Uint<64>,
    sol_data::Address,
    sol_data::Address,
    sol_data::Uint<256>,
    sol_data::Bytes,
);

/// A byte string in the ABI: its length in a word, then the bytes, filled up with zeros to whole
/// words.
pub open spec fn abi_bytes(bytes: Seq<u8>) -> Seq<u8> {
    uint_word(bytes.len()) + bytes + zeros(((32 - bytes.len() % 32) % 32) as nat)
}

/// A list in the ABI whose items vary in size: the number of items, then for each item its offset
/// from behind that number, then the items.
pub open spec fn abi_list(items: Seq<Seq<u8>>) -> Seq<u8> {
    let n = items.len();
    let offsets = Seq::new(n, |i: int| uint_word(32 * n + items.take(i).flatten().len()));
    uint_word(n) + offsets.flatten() + items.flatten()
}

/// A bridge message in the ABI: a word for each field of fixed size, the offset of the data, then
/// the data.
pub open spec fn abi_message(message: MessageView) -> Seq<u8> {
    uint_word(message.id as nat) + uint_word(message.fee as nat) + uint_word(
        message.gas_limit as nat,
    ) + address_word(message.from) + uint_word(message.src_chain_id as nat) + address_word(
        message.src_owner,
    ) + uint_word(message.dest_chain_id as nat) + address_word(message.dest_owner) + address_word(
        message.to,
    ) + message.value + uint_word(352) + abi_bytes(message.data)
}

/// The Keccak-256 digest of a byte string.
pub uninterp spec fn keccak256_digest(bytes: Seq<u8>) -> Seq<u8>;

/// Calls `alloy::primitives::keccak256`, the Keccak-256 hash: the digest is a function of the
/// bytes.
#[verifier::external_body]
pub(crate) fn keccak256(bytes: &[u8]) -> (digest: Bytes32)
    ensures
        digest@ == keccak256_digest(bytes@),
{
    alloy::primitives::keccak256(bytes).0
}

/// The ABI encoding of a list of proofs as `(uint8,bytes)[]`: the offset of the list, then the
/// list.
pub open spec fn abi_sub_proofs(proofs: Seq<(u8, Seq<u8>)>) -> Seq<u8> {
    uint_word(32) + abi_list(
        proofs.map_values(
            |proof: (u8, Seq<u8>)|
                uint_word(proof.0 as nat) + uint_word(64) + abi_bytes(proof.1),
        ),
    )
}

/// Calls `SolType::abi_encode` for the type `(uint8,bytes)[]`, which encodes the list as the
/// single value of a sequence: the result is `abi_sub_proofs` of the bit flags and the proofs.
#[verifier::external_body]
pub(crate) fn encode_sub_proofs(proofs: &Vec<SubProof>) -> (encoded: Vec<u8>)
    ensures
        encoded@ == abi_sub_proofs(
            proofs@.map_values(|proof: SubProof| (proof.proof_bit_flag, proof.data@)),
        ),
{
    let values: Vec<(u8, &[u8])> = proofs.iter().map(
        |proof| (proof.proof_bit_flag, proof.data.as_slice()),
    ).collect();
    <sol_data::Array<(sol_data::Uint<8>, sol_data::Bytes)> as SolType>::abi_encode(&values)
}

/// The ABI encoding of a proposal's input as `((uint16,uint16,uint24),bytes32[],uint48)`: its
/// offset, the blob reference, the offset of the slots, the anchor block number, then the slots
/// behind their number.
pub open spec fn abi_propose_input(
    blobs: (u16, u16, u32),
    signal_slots: Seq<Seq<u8>>,
    max_anchor_block_number: u64,
) -> Seq<u8> {
    uint_word(32) + uint_word(blobs.0 as nat) + uint_word(blobs.1 as nat) + uint_word(
        blobs.2 as nat,
    ) + uint_word(160) + uint_word(max_anchor_block_number as nat) + uint_word(signal_slots.len())
        + signal_slots.flatten()
}

/// Calls `SolType::abi_encode` for the type `((uint16,uint16,uint24),bytes32[],uint48)`, which
/// encodes the input as the single value of a sequence: the result is `abi_propose_input` of the
/// blob reference, the slots and the anchor block number. The conversion to 24 and 48 bits panics
/// on larger numbers.
#[verifier::external_body]
pub(crate) fn encode_propose_input(
    blobs: &BlobReference,
    signal_slots: &Vec<Bytes32>,
    max_anchor_block_number: u64,
) -> (encoded: Vec<u8>)
    requires
        blobs.offset < 0x100_0000,
        max_anchor_block_number < 0x1_0000_0000_0000,
    ensures
        encoded@ == abi_propose_input(
            (blobs.blob_start_index, blobs.num_blobs, blobs.offset),
            signal_slots@.map_values(|slot: Bytes32| slot@),
            max_anchor_block_number,
        ),
{
    <(
        (sol_data::Uint<16>, sol_data::Uint<16>, sol_data::Uint<24>),
        sol_data::Array<sol_data::FixedBytes<32>>,
        sol_data::Uint<48>,
    ) as SolType>::abi_encode(
        &(
            (blobs.blob_start_index, blobs.num_blobs, U24::from(blobs.offset)),
            signal_slots.as_slice(),
            U48::from(max_anchor_block_number),
        ),
    )
}

/// The ABI encoding of the parameters `(bytes,(uint48,bytes32,bytes32),bytes)` of `propose`: the
/// offset of the input, the checkpoint and the offset of the proof, then the input and the proof.
pub open spec fn abi_propose_params(
    input: Seq<u8>,
    checkpoint: (u64, Seq<u8>, Seq<u8>),
    proof: Seq<u8>,
) -> Seq<u8> {
    uint_word(160) + uint_word(checkpoint.0 as nat) + checkpoint.1 + checkpoint.2 + uint_word(
        160 + abi_bytes(input).len(),
    ) + abi_bytes(input) + abi_bytes(proof)
}

/// Calls `SolType::abi_encode_sequence` for the types `(bytes,(uint48,bytes32,bytes32),bytes)`:
/// the result is `abi_propose_params` of the input, the checkpoint and the proof. The conversion
/// to 48 bits panics on a larger block number.
#[verifier::external_body]
pub(crate) fn encode_propose_params(
    input: &Vec<u8>,
    checkpoint: &Checkpoint,
    proof: &Vec<u8>,
) -> (encoded: Vec<u8>)
    requires
        checkpoint.block_number < 0x1_0000_0000_0000,
    ensures
        encoded@ == abi_propose_params(
            input@,
            (checkpoint.block_number, checkpoint.block_hash@, checkpoint.state_root@),
            proof@,
        ),
{
    <(
        sol_data::Bytes,
        (sol_data::Uint<48>, sol_data::FixedBytes<32>, sol_data::FixedBytes<32>),
        sol_data::Bytes,
    ) as SolType>::abi_encode_sequence(
        &(
            input.as_slice(),
            (U48::from(checkpoint.block_number), checkpoint.block_hash, checkpoint.state_root),
            proof.as_slice(),
        ),
    )
}

/// The ABI encoding of the parameter `(address,uint256,bytes)[]` of `multicall`: the offset of the
/// list, then the list.
pub open spec fn abi_multicall_params(calls: Seq<CallView>) -> Seq<u8> {
    uint_word(32) + abi_list(
        calls.map_values(
            |call: CallView|
                address_word(call.target) + call.value + uint_word(96) + abi_bytes(call.data),
        ),
    )
}

/// Calls `SolType::abi_encode_sequence` for the parameter `(address,uint256,bytes)[]`: the result
/// is `abi_multicall_params` of the calls.
#[verifier::external_body]
pub(crate) fn encode_multicall_params(calls: &Vec<Call>) -> (encoded: Vec<u8>)
    ensures
        encoded@ == abi_multicall_params(call_views(calls@)),
{
    let values: Vec<(Address, U256, &[u8])> = calls.iter().map(
        |call| (call.target, U256::from_be_bytes(call.value), call.data.as_slice()),
    ).collect();
    <(
        sol_data::Array<(sol_data::Address, sol_data::Uint<256>, sol_data::Bytes)>,
    ) as SolType>::abi_encode_sequence(&(values,))
}

/// The ABI encoding of the parameters of `processMessage`: the offsets of a bridge message and of a
/// proof, then the message and the proof.
pub open spec fn abi_process_message_params(
    message: MessageView,
    signal_slot_proof: Seq<u8>,
) -> Seq<u8> {
    uint_word(64) + uint_word(64 + abi_message(message).len()) + abi_message(message) + abi_bytes(
        signal_slot_proof,
    )
}

/// Calls `SolType::abi_encode_sequence` for a bridge message and `bytes`: the result is
/// `abi_process_message_params` of the message and the proof.
#[verifier::external_body]
pub(crate) fn encode_process_message_params(message: &Message, signal_slot_proof: &Vec<u8>) -> (
    encoded: Vec<u8>)
    ensures
        encoded@ == abi_process_message_params(message@, signal_slot_proof@),
{
    let m = message;
    let fields = (
        m.id, m.fee, m.gas_limit, m.from, m.src_chain_id, m.src_owner, m.dest_chain_id,
        m.dest_owner, m.to, U256::from_be_bytes(m.value), m.data.as_slice(),
    );
    <(MessageTuple, sol_data::Bytes) as SolType>::abi_encode_sequence(
        &(fields, signal_slot_proof.as_slice()),
    )
}

/// The ABI encoding of the parameters `(uint256,address,bytes,address,bytes)` of the first
/// proof store's `store`: a word each, of a byte string its offset, then the byte strings.
pub open spec fn abi_store_params(
    call_id: Seq<u8>,
    propose_target: Seq<u8>,
    propose_calldata: Seq<u8>,
    process_message_target: Seq<u8>,
    process_message_calldata: Seq<u8>,
) -> Seq<u8> {
    call_id + address_word(propose_target) + uint_word(160) + address_word(process_message_target)
        + uint_word(160 + abi_bytes(propose_calldata).len()) + abi_bytes(propose_calldata)
        + abi_bytes(process_message_calldata)
}

/// Calls `SolType::abi_encode_sequence` for the types `(uint256,address,bytes,address,bytes)`: the
/// result is `abi_store_params` of the id and of the targets and the calldata of the two calls.
#[verifier::external_body]
pub(crate) fn encode_store_params(
    call_id: &Bytes32,
    propose: &Call,
    process_message: &Call,
) -> (encoded: Vec<u8>)
    ensures
        encoded@ == abi_store_params(
            call_id@,
            propose.target@,
            propose.data@,
            process_message.target@,
            process_message.data@,
        ),
{
    <(
        sol_data::Uint<256>, sol_data::Address, sol_data::Bytes, sol_data::Address,
        sol_data::Bytes,
    ) as SolType>::abi_encode_sequence(
        &(
            U256::from_be_bytes(*call_id), propose.target, propose.data.as_slice(),
            process_message.target, process_message.data.as_slice(),
        ),
    )
}

/// The word that holds a truth value: one or zero.
pub open spec fn bool_word(value: bool) -> Seq<u8> {
    uint_word(
        if value {
            1
        } else {
            0
        },
    )
}

/// The ABI encoding of the parameters `(uint256,address,bytes,uint64,bool,bytes,bytes)` of the
/// second proof store's `store`: a word each, of a byte string its offset, then the byte strings.
pub open spec fn abi_store_v2_params(
    call_id: Seq<u8>,
    propose_target: Seq<u8>,
    propose_calldata: Seq<u8>,
    return_msg_id: u64,
    return_success: bool,
    return_data: Seq<u8>,
    hop_proof: Seq<u8>,
) -> Seq<u8> {
    let data_offset = 224 + abi_bytes(propose_calldata).len();
    let proof_offset = data_offset + abi_bytes(return_data).len();
    call_id + address_word(propose_target) + uint_word(224) + uint_word(return_msg_id as nat)
        + bool_word(return_success) + uint_word(data_offset) + uint_word(proof_offset) + abi_bytes(
        propose_calldata,
    ) + abi_bytes(return_data) + abi_bytes(hop_proof)
}

/// Calls `SolType::abi_encode_sequence` for the types
/// `(uint256,address,bytes,uint64,bool,bytes,bytes)`: the result is `abi_store_v2_params` of the
/// id, the target and the calldata of the proposal, and the fields of the return message.
#[verifier::external_body]
pub(crate) fn encode_store_v2_params(
    call_id: &Bytes32,
    propose: &Call,
    returned: &ReturnMessage,
) -> (encoded: Vec<u8>)
    ensures
        encoded@ == abi_store_v2_params(
            call_id@,
            propose.target@,
            propose.data@,
            returned.id,
            returned.success,
            returned.data@,
            returned.hop_proof@,
        ),
{
    <(
        sol_data::Uint<256>, sol_data::Address, sol_data::Bytes, sol_data::Uint<64>,
        sol_data::Bool, sol_data::Bytes, sol_data::Bytes,
    ) as SolType>::abi_encode_sequence(
        &(
            U256::from_be_bytes(*call_id), propose.target, propose.data.as_slice(), returned.id,
            returned.success, returned.data.as_slice(), returned.hop_proof.as_slice(),
        ),
    )
}

/// A digit of a hex text in lower case.
pub open spec fn hex_char(digit: u8) -> char {
    if digit < 10 {
        (0x30 + digit) as char
    } else {
        (0x61 + digit - 10) as char
    }
}

/// Bytes as a hex text in lower case, two digits each.
pub open spec fn hex_text(bytes: Seq<u8>) -> Seq<char> {
    Seq::new(
        2 * bytes.len(),
        |i: int|
            hex_char(
                if i % 2 == 0 {
                    bytes[i / 2] / 16
                } else {
                    bytes[i / 2] % 16
                },
            ),
    )
}

/// The text of the error that something lies beyond the end of the data.
pub open spec fn overrun_text() -> Seq<char> {
    "ABI decoding failed: buffer overrun while deserializing"@
}

/// The text of the error that a word is no offset or length on this machine.
pub open spec fn offset_error_text(word: Seq<u8>) -> Seq<char> {
    "type check failed for \"offset (usize)\" with data: "@ + hex_text(word)
}

/// The text of the error that a byte string is beyond the decoder's limit for memory.
pub open spec fn memory_limit_text() -> Seq<char> {
    "ABI decoding failed: memory limit of 1073741824 bytes exceeded during decoding"@
}

/// The offset or length in the word at `pos`: the word lies within the data, and its value is one
/// of `usize`. Otherwise the text of the error.
pub open spec fn decoded_offset(data: Seq<u8>, pos: int) -> Result<nat, Seq<char>> {
    let word = data.subrange(pos, pos + 32);
    if pos + 32 > data.len() {
        Err(overrun_text())
    } else if be_nat(word) > usize::MAX {
        Err(offset_error_text(word))
    } else {
        Ok(be_nat(word))
    }
}

/// The byte string that stands at `pos` behind its length: it lies within the data and has at most
/// 2^30 bytes. Otherwise the text of the error.
pub open spec fn decoded_bytes(data: Seq<u8>, pos: int) -> Result<Seq<u8>, Seq<char>> {
    match decoded_offset(data, pos) {
        Ok(len) => if pos + 32 + len > data.len() {
            Err(overrun_text())
        } else if len > 0x4000_0000 {
            Err(memory_limit_text())
        } else {
            Ok(data.subrange(pos + 32, (pos + 32 + len) as int))
        },
        Err(text) => Err(text),
    }
}

/// The message in the data of a `MessageSent` log. The first word gives the offset at which the
/// message starts; there stand a word for each field of fixed size, of which the last bytes
/// count, and the offset of the data from the start of the message. If a part cannot be read, the
/// text of the error of the first such part.
pub open spec fn decoded_message(data: Seq<u8>) -> Result<MessageView, Seq<char>> {
    match decoded_offset(data, 0) {
        Ok(start) => match decoded_offset(data, start + 320int) {
            Ok(offset) => match decoded_bytes(data, (start + offset) as int) {
                Ok(bytes) => Ok(
                    message_of_words(
                        Seq::new(
                            10,
                            |i: int| data.subrange(start + 32 * i, start + 32 * i + 32),
                        ),
                        bytes,
                    ),
                ),
                Err(text) => Err(text),
            },
            Err(text) => Err(text),
        },
        Err(text) => Err(text),
    }
}

/// What the result of decoding a message holds.
pub open spec fn decoded_view(decoded: Result<Message, String>) -> Result<MessageView, Seq<char>> {
    match decoded {
        Ok(message) => Ok(message@),
        Err(text) => Err(text@),
    }
}

/// Calls `SolType::abi_decode_sequence` for the data of `MessageSent`, a bridge message, which
/// follows the offsets without asking for zeros in unused bytes, and gives up on offsets and
/// lengths beyond `usize`, on what lies beyond the end of the data and on byte strings beyond its
/// limit for memory: the result, with the text of the error, is `decoded_message` of the data.
#[verifier::external_body]
pub(crate) fn decode_message_sent(data: &[u8]) -> (decoded: Result<Message, String>)
    ensures
        decoded_view(decoded) == decoded_message(data@),
{
    match <(MessageTuple,) as SolType>::abi_decode_sequence(data) {
        Ok((m,)) => Ok(
            Message {
                id: m.0, fee: m.1, gas_limit: m.2, from: m.3.into(), src_chain_id: m.4,
                src_owner: m.5.into(), dest_chain_id: m.6, dest_owner: m.7.into(),
                to: m.8.into(), value: m.9.to_be_bytes(), data: m.10.to_vec(),
            },
        ),
        Err(error) => Err(error.to_string()),
    }
}

/// The parameters of the event `SignalSent`.
pub struct SignalSent {
    pub app: Address,
    pub signal: Bytes32,
    pub slot: Bytes32,
    pub value: Bytes32,
}

/// Calls `SolType::abi_decode_sequence` for the data `(address,bytes32,bytes32,bytes32)` of
/// `SignalSent`: the data has to hold four words, and bytes behind them are ignored. The words
/// are the parameters, of the first the last twenty bytes.
#[verifier::external_body]
pub(crate) fn decode_signal_sent(data: &[u8]) -> (decoded: Result<SignalSent, String>)
    ensures
        decoded is Ok == (data@.len() >= 128),
        decoded matches Ok(event) ==> {
            &&& event.app@ == data@.subrange(12, 32)
            &&& event.signal@ == data@.subrange(32, 64)
            &&& event.slot@ == data@.subrange(64, 96)
            &&& event.value@ == data@.subrange(96, 128)
        },
        decoded matches Err(text) ==> text@ == overrun_text(),
{
    match <(
        sol_data::Address, sol_data::FixedBytes<32>, sol_data::FixedBytes<32>,
        sol_data::FixedBytes<32>,
    ) as SolType>::abi_decode_sequence(data) {
        Ok((app, signal, slot, value)) => Ok(
            SignalSent { app: app.into(), signal: signal.0, slot: slot.0, value: value.0 },
        ),
        Err(error) => Err(error.to_string()),
    }
}

/// A byte string that the ABI encodes is read back from where it stands.
pub proof fn lemma_abi_bytes_read_back(s: Seq<u8>, pos: int, bytes: Seq<u8>)
    requires
        0 <= pos,
        pos + abi_bytes(bytes).len() <= s.len(),
        bytes.len() <= u64::MAX,
        s.subrange(pos, pos + abi_bytes(bytes).len()) == abi_bytes(bytes),
    ensures
        length_prefixed(s, pos) == Some(bytes),
        bytes.len() <= 0x4000_0000 ==> decoded_bytes(s, pos) == Ok::<Seq<u8>, Seq<char>>(bytes),
{
    let encoded = abi_bytes(bytes);
    lemma_pow256_values();
    lemma_uint_word_value(bytes.len());
    lemma_low_uint_of_uint_word(bytes.len(), 8);
    assert(s.subrange(pos, pos + 32) =~= encoded.subrange(0, 32));
    assert(encoded.subrange(0, 32) =~= uint_word(bytes.len()));
    assert(s.subrange(pos + 32, pos + 32 + bytes.len()) =~= encoded.subrange(
        32,
        32int + bytes.len(),
    ));
    assert(encoded.subrange(32, 32int + bytes.len()) =~= bytes);
}

/// A message that the ABI encodes is decoded to itself, up to the decoder's limit for its data.
pub proof fn law_message_decodes_back(message: MessageView)
    requires
        message_sized(message),
        message.data.len() <= 0x4000_0000,
    ensures
        decoded_message(uint_word(32) + abi_message(message)) == Ok::<MessageView, Seq<char>>(
            message,
        ),
{
    let data = uint_word(32) + abi_message(message);
    let words = Seq::new(10, |i: int| data.subrange(32 + 32 * i, 32 + 32 * i + 32));
    lemma_uint_word_value(32);
    lemma_uint_word_value(352);
    lemma_uint_word_value(message.id as nat);
    lemma_uint_word_value(message.fee as nat);
    lemma_uint_word_value(message.gas_limit as nat);
    lemma_uint_word_value(message.src_chain_id as nat);
    lemma_uint_word_value(message.dest_chain_id as nat);
    lemma_uint_word_value(message.data.len());
    assert(data.subrange(0, 32) =~= uint_word(32));
    assert(words[0] =~= uint_word(message.id as nat));
    assert(words[1] =~= uint_word(message.fee as nat));
    assert(words[2] =~= uint_word(message.gas_limit as nat));
    assert(words[3] =~= address_word(message.from));
    assert(words[4] =~= uint_word(message.src_chain_id as nat));
    assert(words[5] =~= address_word(message.src_owner));
    assert(words[6] =~= uint_word(message.dest_chain_id as nat));
    assert(words[7] =~= address_word(message.dest_owner));
    assert(words[8] =~= address_word(message.to));
    assert(words[9] =~= message.value);
    assert(data.subrange(352, 384) =~= uint_word(352));
    lemma_message_of_words(words, message);
    assert(data.subrange(384, 384int + abi_bytes(message.data).len()) =~= abi_bytes(message.data));
    lemma_abi_bytes_read_back(data, 384, message.data);
}

/// Word `i` of encoded parameters.
pub open spec fn param_word(params: Seq<u8>, i: int) -> Seq<u8> {
    params.subrange(32 * i, 32 * i + 32)
}

/// The byte string that word `i` of encoded parameters points to.
pub open spec fn param_bytes(params: Seq<u8>, i: int) -> Option<Seq<u8>> {
    length_prefixed(params, low_uint(param_word(params, i), 8) as int)
}

/// The parameters of the first proof store's `store` are read back from their encoding.
pub proof fn law_store_params_read_back(
    call_id: Seq<u8>,
    propose_target: Seq<u8>,
    propose_calldata: Seq<u8>,
    process_message_target: Seq<u8>,
    process_message_calldata: Seq<u8>,
)
    requires
        call_id.len() == 32,
        propose_target.len() == 20,
        process_message_target.len() == 20,
        propose_calldata.len() + process_message_calldata.len() + 0x1000 <= u64::MAX,
    ensures
        ({
            let params = abi_store_params(
                call_id,
                propose_target,
                propose_calldata,
                process_message_target,
                process_message_calldata,
            );
            &&& param_word(params, 0) == call_id
            &&& low_address(param_word(params, 1)) == propose_target
            &&& param_bytes(params, 2) == Some(propose_calldata)
            &&& low_address(param_word(params, 3)) == process_message_target
            &&& param_bytes(params, 4) == Some(process_message_calldata)
        }),
{
    let params = abi_store_params(
        call_id,
        propose_target,
        propose_calldata,
        process_message_target,
        process_message_calldata,
    );
    let first = abi_bytes(propose_calldata);
    let second = abi_bytes(process_message_calldata);
    let second_pos = 160int + first.len();
    lemma_pow256_values();
    lemma_be_bytes_len(propose_calldata.len(), 32);
    lemma_be_bytes_len(process_message_calldata.len(), 32);
    lemma_low_uint_of_uint_word(160, 8);
    lemma_low_uint_of_uint_word(160 + first.len(), 8);
    lemma_low_address_of_address_word(propose_target);
    lemma_low_address_of_address_word(process_message_target);
    assert(param_word(params, 0) =~= call_id);
    assert(param_word(params, 1) =~= address_word(propose_target));
    assert(param_word(params, 2) =~= uint_word(160));
    assert(param_word(params, 3) =~= address_word(process_message_target));
    assert(param_word(params, 4) =~= uint_word(160 + first.len()));
    assert(params.subrange(160, 160 + first.len() as int) =~= first);
    assert(params.subrange(second_pos, second_pos + second.len()) =~= second);
    lemma_abi_bytes_read_back(params, 160, propose_calldata);
    lemma_abi_bytes_read_back(params, second_pos, process_message_calldata);
}

/// The parameters of the second proof store's `store` are read back from their encoding.
pub proof fn law_store_v2_params_read_back(
    call_id: Seq<u8>,
    propose_target: Seq<u8>,
    propose_calldata: Seq<u8>,
    return_msg_id: u64,
    return_success: bool,
    return_data: Seq<u8>,
    hop_proof: Seq<u8>,
)
    requires
        call_id.len() == 32,
        propose_target.len() == 20,
        propose_calldata.len() + return_data.len() + hop_proof.len() + 0x1000 <= u64::MAX,
    ensures
        ({
            let params = abi_store_v2_params(
                call_id,
                propose_target,
                propose_calldata,
                return_msg_id,
                return_success,
                return_data,
                hop_proof,
            );
            &&& param_word(params, 0) == call_id
            &&& low_address(param_word(params, 1)) == propose_target
            &&& param_bytes(params, 2) == Some(propose_calldata)
            &&& low_uint(param_word(params, 3), 8) == return_msg_id
            &&& param_word(params, 4) == bool_word(return_success)
            &&& param_bytes(params, 5) == Some(return_data)
            &&& param_bytes(params, 6) == Some(hop_proof)
        }),
{
    let params = abi_store_v2_params(
        call_id,
        propose_target,
        propose_calldata,
        return_msg_id,
        return_success,
        return_data,
        hop_proof,
    );
    let first = abi_bytes(propose_calldata);
    let second = abi_bytes(return_data);
    let third = abi_bytes(hop_proof);
    let second_pos = 224int + first.len();
    let third_pos = second_pos + second.len();
    lemma_pow256_values();
    lemma_be_bytes_len(propose_calldata.len(), 32);
    lemma_be_bytes_len(return_data.len(), 32);
    lemma_be_bytes_len(hop_proof.len(), 32);
    lemma_be_bytes_len(0, 32);
    lemma_be_bytes_len(1, 32);
    lemma_low_uint_of_uint_word(224, 8);
    lemma_low_uint_of_uint_word(return_msg_id as nat, 8);
    lemma_low_uint_of_uint_word(second_pos as nat, 8);
    lemma_low_uint_of_uint_word(third_pos as nat, 8);
    lemma_low_address_of_address_word(propose_target);
    assert(param_word(params, 0) =~= call_id);
    assert(param_word(params, 1) =~= address_word(propose_target));
    assert(param_word(params, 2) =~= uint_word(224));
    assert(param_word(params, 3) =~= uint_word(return_msg_id as nat));
    assert(param_word(params, 4) =~= bool_word(return_success));
    assert(param_word(params, 5) =~= uint_word(second_pos as nat));
    assert(param_word(params, 6) =~= uint_word(third_pos as nat));
    assert(params.subrange(224, 224 + first.len() as int) =~= first);
    assert(params.subrange(second_pos, second_pos + second.len()) =~= second);
    assert(params.subrange(third_pos, third_pos + third.len()) =~= third);
    lemma_abi_bytes_read_back(params, 224, propose_calldata);
    lemma_abi_bytes_read_back(params, second_pos, return_data);
    lemma_abi_bytes_read_back(params, third_pos, hop_proof);
}

/// The value of a hex digit.
pub open spec fn hex_digit(c: u8) -> Option<u8> {
    if 0x30 <= c <= 0x39 {
        Some((c - 0x30) as u8)
    } else if 0x41 <= c <= 0x46 {
        Some((c - 0x41 + 10) as u8)
    } else if 0x61 <= c <= 0x66 {
        Some((c - 0x61 + 10) as u8)
    } else {
        None
    }
}

/// A hex text without its prefix `0x` or `0X`.
pub open spec fn hex_digits(text: Seq<u8>) -> Seq<u8> {
    if text.len() >= 2 && text[0] == 0x30 && (text[1] == 0x78 || text[1] == 0x58) {
        text.skip(2)
    } else {
        text
    }
}

/// The position of the first byte that is no hex digit, or the length if there is none.
pub open spec fn first_non_digit(digits: Seq<u8>) -> nat
    decreases digits.len(),
{
    if digits.len() == 0 || hex_digit(digits[0]) is None {
        0
    } else {
        1 + first_non_digit(digits.drop_first())
    }
}

/// The address that a text, as bytes, stands for: an even number of bytes, of which forty are
/// left behind the prefix, each a hex digit, two for each byte of the address. Of several
/// reasons against it the first in this order is given.
pub open spec fn hex_address(text: Seq<u8>) -> Result<Seq<u8>, HexError> {
    let digits = hex_digits(text);
    let bad = first_non_digit(digits);
    if text.len() % 2 != 0 {
        Err(HexError::OddLength)
    } else if digits.len() != 40 {
        Err(HexError::InvalidStringLength)
    } else if bad < 40 {
        Err(HexError::InvalidHexCharacter { c: digits[bad as int] as char, index: bad as usize })
    } else {
        Ok(
            Seq::new(
                20,
                |i: int|
                    (hex_digit(digits[2 * i])->0 * 16 + hex_digit(digits[2 * i + 1])->0) as u8,
            ),
        )
    }
}

/// What a parsed address holds.
pub open spec fn address_view(parsed: Result<Address, HexError>) -> Result<Seq<u8>, HexError> {
    match parsed {
        Ok(address) => Ok(address@),
        Err(error) => Err(error),
    }
}

/// Parses an address with `alloy::primitives::Address::from_str`, which takes hex digits in
/// either case with or without the prefix `0x`, and says what it found instead.
#[verifier::external_body]
pub(crate) fn parse_address(text: &str) -> (parsed: Result<Address, HexError>)
    ensures
        address_view(parsed) == hex_address(text.spec_bytes()),
{
    match text.parse::<alloy::primitives::Address>() {
        Ok(address) => Ok(address.into()),
        Err(alloy::primitives::hex::FromHexError::OddLength) => Err(HexError::OddLength),
        Err(alloy::primitives::hex::FromHexError::InvalidStringLength) => Err(
            HexError::InvalidStringLength,
        ),
        Err(alloy::primitives::hex::FromHexError::InvalidHexCharacter { c, index }) => Err(
            HexError::InvalidHexCharacter { c, index },
        ),
    }
}

/// The selector of a function: the first four bytes of the digest of its signature.
pub open spec fn selector(signature: Seq<char>) -> Seq<u8> {
    Seq::new(4, |i: int| keccak256_digest(vstd::utf8::encode_utf8(signature))[i])
}

/// The parameters of a function stand behind the four bytes of its selector.
pub proof fn law_parameters_stand_behind_the_selector(signature: Seq<char>, params: Seq<u8>)
    ensures
        selector(signature).len() == 4,
        forall|i: int|
            0 <= i < 4 ==> #[trigger] selector(signature)[i] == keccak256_digest(
                vstd::utf8::encode_utf8(signature),
            )[i],
        (selector(signature) + params).len() == 4 + params.len(),
        (selector(signature) + params).take(4) == selector(signature),
        (selector(signature) + params).skip(4) == params,
{
    assert((selector(signature) + params).take(4) =~= selector(signature));
    assert((selector(signature) + params).skip(4) =~= params);
}

/// The calldata of a function: its selector, which has four bytes, then its encoded parameters.
pub fn calldata(signature: &str, params: &Vec<u8>) -> (out: Vec<u8>)
    ensures
        out@ == selector(signature@) + params@,
        selector(signature@).len() == 4,
        out@.skip(4) == params@,
{
    let digest: Bytes32 = keccak256(signature.as_bytes());
    let mut out: Vec<u8> = Vec::new();
    let mut i: usize = 0;
    while i < 4
        invariant
            i <= 4,
            out@ == digest@.take(i as int),
        decreases 4 - i,
    {
        out.push(digest[i]);
        assert(digest@.take(i + 1) =~= digest@.take(i as int).push(digest@[i as int]));
        i = i + 1;
    }
    assert(out@ =~= selector(signature@));
    let mut rest: Vec<u8> = vstd::slice::slice_to_vec(params.as_slice());
    out.append(&mut rest);
    proof {
        law_parameters_stand_behind_the_selector(signature@, params@);
    }
    out
}

/// The data of a `MessageSent` log is read by its bytes: the first word says where the message
/// starts, of each of its fields the last bytes of its word count, whatever stands before them,
/// and the data stands where the eleventh word says, behind its length. It is read exactly if all
/// of this lies within the data of the log, its offsets and its length are values of `usize`, and
/// the data has at most 2^30 bytes.
pub proof fn law_message_is_decoded_by_its_bytes(data: Seq<u8>)
    ensures
        ({
            let n = data.len();
            let start = be_nat(data.subrange(0, 32)) as int;
            let offset = be_nat(data.subrange(start + 320, start + 352)) as int;
            let at = start + offset;
            let len = be_nat(data.subrange(at, at + 32)) as int;
            let readable = {
                &&& n >= 32
                &&& start <= usize::MAX
                &&& start + 352 <= n
                &&& offset <= usize::MAX
                &&& at + 32 <= n
                &&& len <= usize::MAX
                &&& at + 32 + len <= n
                &&& len <= 0x4000_0000
            };
            match decoded_message(data) {
                Ok(m) => {
                    &&& readable
                    &&& m.id == be_nat(data.subrange(start + 24, start + 32))
                    &&& m.fee == be_nat(data.subrange(start + 56, start + 64))
                    &&& m.gas_limit == be_nat(data.subrange(start + 92, start + 96))
                    &&& m.from == data.subrange(start + 108, start + 128)
                    &&& m.src_chain_id == be_nat(data.subrange(start + 152, start + 160))
                    &&& m.src_owner == data.subrange(start + 172, start + 192)
                    &&& m.dest_chain_id == be_nat(data.subrange(start + 216, start + 224))
                    &&& m.dest_owner == data.subrange(start + 236, start + 256)
                    &&& m.to == data.subrange(start + 268, start + 288)
                    &&& m.value == data.subrange(start + 288, start + 320)
                    &&& m.data == data.subrange(at + 32, at + 32 + len)
                },
                Err(_) => !readable,
            }
        }),
{
    let start = be_nat(data.subrange(0, 32)) as int;
    if decoded_message(data) is Ok {
        lemma_word_ends(data, start);
        lemma_word_ends(data, start + 32);
        lemma_word_ends(data, start + 64);
        lemma_word_ends(data, start + 96);
        lemma_word_ends(data, start + 128);
        lemma_word_ends(data, start + 160);
        lemma_word_ends(data, start + 192);
        lemma_word_ends(data, start + 224);
        lemma_word_ends(data, start + 256);
    }
}

proof fn lemma_word_ends(data: Seq<u8>, pos: int)
    requires
        0 <= pos,
        pos + 32 <= data.len(),
    ensures
        ({
            let word = data.subrange(pos, pos + 32);
            &&& low_uint(word, 8) <= u64::MAX
            &&& low_uint(word, 4) <= u32::MAX
            &&& low_uint(word, 8) == be_nat(data.subrange(pos + 24, pos + 32))
            &&& low_uint(word, 4) == be_nat(data.subrange(pos + 28, pos + 32))
            &&& low_address(word) == data.subrange(pos + 12, pos + 32)
        }),
{
    let word = data.subrange(pos, pos + 32);
    lemma_pow256_values();
    lemma_be_nat_bound(word.subrange(24, 32));
    lemma_be_nat_bound(word.subrange(28, 32));
    assert(word.subrange(24, 32) =~= data.subrange(pos + 24, pos + 32));
    assert(word.subrange(28, 32) =~= data.subrange(pos + 28, pos + 32));
    assert(word.subrange(12, 32) =~= data.subrange(pos + 12, pos + 32));
}

/// Whether a byte is the hex digit of a value, in either case.
pub open spec fn is_digit_of(c: u8, value: int) -> bool {
    if value < 10 {
        c == 48 + value
    } else {
        c == 55 + value || c == 87 + value
    }
}

proof fn lemma_all_digits(digits: Seq<u8>)
    requires
        forall|i: int| 0 <= i < digits.len() ==> hex_digit(#[trigger] digits[i]) is Some,
    ensures
        first_non_digit(digits) == digits.len(),
    decreases digits.len(),
{
    if digits.len() > 0 {
        assert forall|i: int| 0 <= i < digits.drop_first().len() implies hex_digit(
            #[trigger] digits.drop_first()[i],
        ) is Some by {
            assert(digits.drop_first()[i] == digits[i + 1]);
        }
        lemma_all_digits(digits.drop_first());
    }
}

/// The hex text of an address is that address: two digits for each byte, in either case, with
/// either prefix or none.
pub proof fn law_hex_text_is_the_address(address: Seq<u8>, digits: Seq<u8>)
    requires
        address.len() == 20,
        digits.len() == 40,
        forall|i: int|
            0 <= i < 20 ==> is_digit_of(digits[2 * i], #[trigger] address[i] as int / 16)
                && is_digit_of(digits[2 * i + 1], address[i] as int % 16),
    ensures
        hex_address(digits) == Ok::<_, HexError>(address),
        hex_address(seq![0x30u8, 0x78] + digits) == Ok::<_, HexError>(address),
        hex_address(seq![0x30u8, 0x58] + digits) == Ok::<_, HexError>(address),
{
    assert forall|k: int| 0 <= k < 40 implies hex_digit(#[trigger] digits[k]) is Some by {
        let i = k / 2;
        let byte = address[i] as int;
        assert(0 <= byte / 16 < 16 && 0 <= byte % 16 < 16);
        if k % 2 == 0 {
            assert(is_digit_of(digits[2 * i], byte / 16));
            assert(k == 2 * i);
        } else {
            assert(is_digit_of(digits[2 * i + 1], byte % 16));
            assert(k == 2 * i + 1);
        }
    }
    assert(!(digits[1] == 0x78 || digits[1] == 0x58)) by {
        assert(hex_digit(digits[1]) is Some);
    }
    lemma_all_digits(digits);
    assert((seq![0x30u8, 0x78] + digits).skip(2) =~= digits);
    assert((seq![0x30u8, 0x58] + digits).skip(2) =~= digits);
    let read = Seq::new(
        20,
        |i: int| (hex_digit(digits[2 * i])->0 * 16 + hex_digit(digits[2 * i + 1])->0) as u8,
    );
    assert forall|i: int| 0 <= i < 20 implies read[i] == address[i] by {
        assert(is_digit_of(digits[2 * i], address[i] as int / 16));
        assert(hex_digit(digits[2 * i])->0 == address[i] / 16);
        assert(hex_digit(digits[2 * i + 1])->0 == address[i] % 16);
    }
    assert(read =~= address);
}

/// A text is no address for the first of these reasons: it has an odd number of bytes; there are
/// not forty behind its prefix; one of these is no hex digit, and the first such is named with
/// its place.
pub proof fn law_texts_that_are_no_address(digits: Seq<u8>, k: int)
    requires
        digits.len() >= 2 ==> digits[1] != 0x78 && digits[1] != 0x58,
    ensures
        digits.len() % 2 != 0 ==> hex_address(digits) == Err::<Seq<u8>, _>(HexError::OddLength),
        digits.len() % 2 == 0 && digits.len() != 40 ==> hex_address(digits) == Err::<Seq<u8>, _>(
            HexError::InvalidStringLength,
        ),
        digits.len() == 40 && 0 <= k < 40 && hex_digit(digits[k]) is None && (forall|i: int|
            0 <= i < k ==> hex_digit(#[trigger] digits[i]) is Some) ==> hex_address(digits) == Err::<
            Seq<u8>,
            _,
        >((HexError::InvalidHexCharacter { c: digits[k] as char, index: k as usize })),
        forall|c: u8|
            hex_digit(c) is Some <==> (0x30 <= c <= 0x39 || 0x41 <= c <= 0x46 || 0x61 <= c
                <= 0x66),
{
    if digits.len() == 40 && 0 <= k < 40 && hex_digit(digits[k]) is None && (forall|i: int|
        0 <= i < k ==> hex_digit(#[trigger] digits[i]) is Some) {
        lemma_first_non_digit(digits, k);
    }
}

proof fn lemma_first_non_digit(digits: Seq<u8>, k: int)
    requires
        0 <= k < digits.len(),
        hex_digit(digits[k]) is None,
        forall|i: int| 0 <= i < k ==> hex_digit(#[trigger] digits[i]) is Some,
    ensures
        first_non_digit(digits) == k,
    decreases k,
{
    if k > 0 {
        assert(hex_digit(digits[0]) is Some);
        let rest = digits.drop_first();
        assert forall|i: int| 0 <= i < k - 1 implies hex_digit(#[trigger] rest[i]) is Some by {
            assert(rest[i] == digits[i + 1]);
        }
        lemma_first_non_digit(rest, k - 1);
    }
}

} // verus!
