//! What a contract reads from the calldata that is built for it, and laws of what it finds there.
use vstd::prelude::*;
use vstd::seq_lib::lemma_flatten_concat;

use crate::abi::{
    abi_bytes, abi_list, abi_message, abi_multicall_params, abi_process_message_params,
    abi_propose_input, abi_propose_params, abi_sub_proofs, hex_address, keccak256_digest,
    selector,
};
use crate::bytes::{
    address_word, be_nat, lemma_be_bytes_len, lemma_be_bytes_zero, lemma_uint_word_value,
    uint_word, zeros, Bytes32,
};
use crate::error::ErrorView;
use crate::message::{message_sized, MessageView};
use crate::proposal::{
    CallView, ContractAddresses, L1Call, Proposal, SidecarView, SyncSettings, TransactionView,
    UserOp,
};
use crate::proposal_tx_builder::{
    blob_transaction, checked_propose_call, decoded_return, first_process_message, first_return,
    l1_call_call, l1_call_calls, multicall_calls, store_call, store_params, store_v2_params,
    user_op_calls, MULTICALL, PROCESS_MESSAGE, PROPOSE, STORE, STORE_V2,
};

verus! {

/// The word at `pos`.
pub open spec fn word_at(s: Seq<u8>, pos: int) -> Seq<u8> {
    s.subrange(pos, pos + 32)
}

/// The integer in the word at `pos`.
pub open spec fn uint_at(s: Seq<u8>, pos: int) -> nat {
    be_nat(s.subrange(pos, pos + 32))
}

/// The address in the word at `pos`.
pub open spec fn address_at(s: Seq<u8>, pos: int) -> Seq<u8> {
    s.subrange(pos + 12, pos + 32)
}

/// The byte string at `pos`, behind the word with its length.
pub open spec fn bytes_at(s: Seq<u8>, pos: int) -> Seq<u8> {
    s.subrange(pos + 32, pos + 32 + uint_at(s, pos))
}

/// Whether calldata calls the function with this signature.
pub open spec fn calls_function(data: Seq<u8>, signature: Seq<char>) -> bool {
    &&& data.len() >= 4
    &&& forall|i: int|
        0 <= i < 4 ==> #[trigger] data[i] == keccak256_digest(
            vstd::utf8::encode_utf8(signature),
        )[i]
}

/// Whether the message at `start` is this one: a word for each field of fixed size, the offset of
/// the data from `start`, and there the data.
pub open spec fn reads_message(s: Seq<u8>, start: int, message: MessageView) -> bool {
    let data = start + uint_at(s, start + 320);
    &&& start + 352 <= s.len()
    &&& uint_at(s, start) == message.id
    &&& uint_at(s, start + 32) == message.fee
    &&& uint_at(s, start + 64) == message.gas_limit
    &&& address_at(s, start + 96) == message.from
    &&& uint_at(s, start + 128) == message.src_chain_id
    &&& address_at(s, start + 160) == message.src_owner
    &&& uint_at(s, start + 192) == message.dest_chain_id
    &&& address_at(s, start + 224) == message.dest_owner
    &&& address_at(s, start + 256) == message.to
    &&& word_at(s, start + 288) == message.value
    &&& data + 32 + uint_at(s, data) <= s.len()
    &&& bytes_at(s, data) == message.data
}

/// Whether calldata has the bridge process this message with this proof.
pub open spec fn reads_process_message(
    data: Seq<u8>,
    message: MessageView,
    proof: Seq<u8>,
) -> bool {
    let params = data.skip(4);
    &&& calls_function(
        data,
        "processMessage((uint64,uint64,uint32,address,uint64,address,uint64,address,address,uint256,bytes),bytes)"@,
    )
    &&& reads_message(params, uint_at(params, 0) as int, message)
    &&& bytes_at(params, uint_at(params, 32) as int) == proof
}

/// Whether the input of a proposal names so many blobs from the first one on, these signal slots
/// and this anchor block number. The first word points to the input, the fourth word there to the
/// slots behind their number.
pub open spec fn reads_propose_input(
    input: Seq<u8>,
    num_blobs: nat,
    signal_slots: Seq<Bytes32>,
    max_anchor_block_number: u64,
) -> bool {
    let start = uint_at(input, 0) as int;
    let slots = start + uint_at(input, start + 96);
    &&& uint_at(input, start) == 0
    &&& uint_at(input, start + 32) == num_blobs
    &&& uint_at(input, start + 64) == 0
    &&& uint_at(input, start + 128) == max_anchor_block_number
    &&& uint_at(input, slots) == signal_slots.len()
    &&& input.len() == slots + 32 + 32 * signal_slots.len()
    &&& forall|i: int|
        0 <= i < signal_slots.len() ==> word_at(input, slots + 32 + 32 * i) == (
        #[trigger] signal_slots[i])@
}

/// Whether a list of proofs holds one proof, with the bit of its proof system. The first word
/// points to the list, the word behind the number of proofs to the proof.
pub open spec fn reads_sub_proof(proofs: Seq<u8>, bit_flag: u8, proof: Seq<u8>) -> bool {
    let list = uint_at(proofs, 0) as int;
    let first = list + 32 + uint_at(proofs, list + 32);
    &&& uint_at(proofs, list) == 1
    &&& uint_at(proofs, first) == bit_flag
    &&& bytes_at(proofs, first + uint_at(proofs, first + 32)) == proof
}

/// Whether calldata proposes a batch in so many blobs with this proof.
pub open spec fn reads_propose(
    data: Seq<u8>,
    bit_flag: u8,
    batch: Proposal,
    proof: Seq<u8>,
    num_blobs: nat,
) -> bool {
    let params = data.skip(4);
    &&& calls_function(data, "propose(bytes,(uint48,bytes32,bytes32),bytes)"@)
    &&& reads_propose_input(
        bytes_at(params, uint_at(params, 0) as int),
        num_blobs,
        batch.signal_slots@,
        batch.max_anchor_block_number,
    )
    &&& uint_at(params, 32) == batch.checkpoint.block_number
    &&& word_at(params, 64) == batch.checkpoint.block_hash@
    &&& word_at(params, 96) == batch.checkpoint.state_root@
    &&& reads_sub_proof(bytes_at(params, uint_at(params, 128) as int), bit_flag, proof)
}

/// The number of calls of a multicall.
pub open spec fn multicall_count(params: Seq<u8>) -> nat {
    uint_at(params, uint_at(params, 0) as int)
}

/// Call `i` of a multicall.
pub open spec fn multicall_item(params: Seq<u8>, i: int) -> CallView {
    let list = uint_at(params, 0) + 32int;
    let item = list + uint_at(params, list + 32 * i);
    CallView {
        target: address_at(params, item),
        value: word_at(params, item + 32),
        data: bytes_at(params, item + uint_at(params, item + 64)),
    }
}

/// A word of zeros.
pub open spec fn nothing() -> Seq<u8> {
    Seq::new(32, |i: int| 0u8)
}

proof fn lemma_uint_at(s: Seq<u8>, pos: int, n: nat)
    requires
        0 <= pos,
        pos + 32 <= s.len(),
        s.subrange(pos, pos + 32) == uint_word(n),
        n <= u64::MAX,
    ensures
        uint_at(s, pos) == n,
{
    lemma_uint_word_value(n);
}

proof fn lemma_address_at(s: Seq<u8>, pos: int, address: Seq<u8>)
    requires
        0 <= pos,
        pos + 32 <= s.len(),
        address.len() == 20,
        s.subrange(pos, pos + 32) == address_word(address),
    ensures
        address_at(s, pos) == address,
{
    assert(address_at(s, pos) =~= s.subrange(pos, pos + 32).subrange(12, 32));
    assert(address_word(address).subrange(12, 32) =~= address);
}

proof fn lemma_abi_bytes_len(bytes: Seq<u8>)
    ensures
        abi_bytes(bytes).len() >= 32 + bytes.len(),
{
    lemma_be_bytes_len(bytes.len(), 32);
}

proof fn lemma_bytes_at(s: Seq<u8>, pos: int, bytes: Seq<u8>)
    requires
        0 <= pos,
        pos + abi_bytes(bytes).len() <= s.len(),
        s.subrange(pos, pos + abi_bytes(bytes).len()) == abi_bytes(bytes),
        bytes.len() <= u64::MAX,
    ensures
        uint_at(s, pos) == bytes.len(),
        bytes_at(s, pos) == bytes,
        pos + 32 + bytes.len() <= s.len(),
{
    let encoded = abi_bytes(bytes);
    lemma_abi_bytes_len(bytes);
    lemma_be_bytes_len(bytes.len(), 32);
    assert(s.subrange(pos, pos + 32) =~= encoded.subrange(0, 32));
    assert(encoded.subrange(0, 32) =~= uint_word(bytes.len()));
    lemma_uint_at(s, pos, bytes.len());
    assert(bytes_at(s, pos) =~= encoded.subrange(32, 32int + bytes.len()));
    assert(encoded.subrange(32, 32int + bytes.len()) =~= bytes);
}

proof fn lemma_flatten_part(parts: Seq<Seq<u8>>, i: int)
    requires
        0 <= i < parts.len(),
    ensures
        ({
            let before = parts.take(i).flatten().len() as int;
            &&& before + parts[i].len() <= parts.flatten().len()
            &&& parts.flatten().subrange(before, before + parts[i].len()) == parts[i]
        }),
{
    let rest = parts.skip(i + 1);
    let before = parts.take(i).flatten().len() as int;
    assert(parts =~= parts.take(i) + seq![parts[i]] + rest);
    lemma_flatten_concat(parts.take(i) + seq![parts[i]], rest);
    lemma_flatten_concat(parts.take(i), seq![parts[i]]);
    seq![parts[i]].lemma_flatten_one_element();
    assert(parts.flatten() =~= parts.take(i).flatten() + parts[i] + rest.flatten());
    assert(parts.flatten().subrange(before, before + parts[i].len()) =~= parts[i]);
}

proof fn lemma_flatten_words(words: Seq<Seq<u8>>)
    requires
        forall|i: int| 0 <= i < words.len() ==> (#[trigger] words[i]).len() == 32,
    ensures
        words.flatten().len() == 32 * words.len(),
    decreases words.len(),
{
    if words.len() > 0 {
        let rest = words.drop_last();
        assert forall|i: int| 0 <= i < rest.len() implies (#[trigger] rest[i]).len() == 32 by {
            assert(rest[i] == words[i]);
        }
        lemma_flatten_words(rest);
        rest.lemma_flatten_push(words.last());
        assert(words =~= rest.push(words.last()));
    }
}

proof fn lemma_flatten_word(words: Seq<Seq<u8>>, i: int)
    requires
        forall|k: int| 0 <= k < words.len() ==> (#[trigger] words[k]).len() == 32,
        0 <= i < words.len(),
    ensures
        32 * i + 32 <= words.flatten().len(),
        words.flatten().subrange(32 * i, 32 * i + 32) == words[i],
{
    let before = words.take(i);
    assert forall|k: int| 0 <= k < before.len() implies (#[trigger] before[k]).len() == 32 by {
        assert(before[k] == words[k]);
    }
    lemma_flatten_words(before);
    lemma_flatten_part(words, i);
}

/// Where an item of a list stands.
proof fn lemma_list_item(items: Seq<Seq<u8>>, i: int)
    requires
        0 <= i < items.len(),
    ensures
        ({
            let list = abi_list(items);
            let n = items.len() as int;
            let offset = 32 * n + items.take(i).flatten().len();
            &&& list.len() >= 32 + offset + items[i].len()
            &&& 32 + 32 * i + 32 <= list.len()
            &&& list.subrange(0, 32) == uint_word(items.len())
            &&& list.subrange(32 + 32 * i, 64 + 32 * i) == uint_word(offset as nat)
            &&& list.subrange(32 + offset, 32 + offset + items[i].len()) == items[i]
        }),
{
    let n = items.len();
    let list = abi_list(items);
    let offsets = Seq::new(n, |k: int| uint_word(32 * n + items.take(k).flatten().len()));
    let offset = 32 * n + items.take(i).flatten().len();
    assert forall|k: int| 0 <= k < offsets.len() implies (#[trigger] offsets[k]).len() == 32 by {
        lemma_be_bytes_len(32 * n + items.take(k).flatten().len(), 32);
    }
    lemma_be_bytes_len(n, 32);
    lemma_flatten_words(offsets);
    lemma_flatten_word(offsets, i);
    lemma_flatten_part(items, i);
    let before = items.take(i).flatten().len() as int;
    assert(list.subrange(0, 32) =~= uint_word(n));
    assert(list.subrange(32 + 32 * i, 64 + 32 * i) =~= offsets.flatten().subrange(
        32 * i,
        32 * i + 32,
    ));
    assert(list.subrange(32int + offset, 32 + offset + items[i].len() as int)
        =~= items.flatten().subrange(before, before + items[i].len()));
}

/// The calls of a multicall are read back from its parameters, as many as there are and in their
/// order.
pub proof fn law_multicall_reads_back(calls: Seq<CallView>)
    requires
        forall|i: int|
            0 <= i < calls.len() ==> (#[trigger] calls[i]).target.len() == 20
                && calls[i].value.len() == 32,
        abi_multicall_params(calls).len() <= u64::MAX,
    ensures
        multicall_count(abi_multicall_params(calls)) == calls.len(),
        forall|i: int|
            0 <= i < calls.len() ==> #[trigger] multicall_item(abi_multicall_params(calls), i)
                == calls[i] && calls[i].data.len() <= u64::MAX,
{
    let params = abi_multicall_params(calls);
    let items = calls.map_values(
        |call: CallView|
            address_word(call.target) + call.value + uint_word(96) + abi_bytes(call.data),
    );
    let list = abi_list(items);
    let n = items.len();
    let offsets = Seq::new(n, |k: int| uint_word(32 * n + items.take(k).flatten().len()));
    lemma_be_bytes_len(32, 32);
    lemma_be_bytes_len(96, 32);
    lemma_be_bytes_len(n, 32);
    assert forall|k: int| 0 <= k < offsets.len() implies (#[trigger] offsets[k]).len() == 32 by {
        lemma_be_bytes_len(32 * n + items.take(k).flatten().len(), 32);
    }
    lemma_flatten_words(offsets);
    assert(params.subrange(0, 32) =~= uint_word(32));
    lemma_uint_at(params, 0, 32);
    assert(params.subrange(32, 64) =~= uint_word(n));
    lemma_uint_at(params, 32, n);
    assert forall|i: int| 0 <= i < calls.len() implies #[trigger] multicall_item(params, i)
        == calls[i] && calls[i].data.len() <= u64::MAX by {
        lemma_list_item(items, i);
        let call = calls[i];
        let item = address_word(call.target) + call.value + uint_word(96) + abi_bytes(call.data);
        assert(items[i] == item);
        let offset = 32 * n + items.take(i).flatten().len();
        let pos = 64int + offset;
        let data = abi_bytes(call.data);
        lemma_abi_bytes_len(call.data);
        assert(params.subrange(64 + 32 * i, 96 + 32 * i) =~= list.subrange(
            32 + 32 * i,
            64 + 32 * i,
        ));
        lemma_uint_at(params, 64 + 32 * i, offset);
        assert(params.subrange(pos, pos + item.len()) =~= list.subrange(
            32int + offset,
            32 + offset + item.len() as int,
        ));
        assert(params.subrange(pos, pos + 32) =~= params.subrange(
            pos,
            pos + item.len(),
        ).subrange(0, 32));
        assert(item.subrange(0, 32) =~= address_word(call.target));
        lemma_address_at(params, pos, call.target);
        assert(word_at(params, pos + 32) =~= params.subrange(pos, pos + item.len()).subrange(
            32,
            64,
        ));
        assert(item.subrange(32, 64) =~= call.value);
        assert(params.subrange(pos + 64, pos + 96) =~= params.subrange(
            pos,
            pos + item.len(),
        ).subrange(64, 96));
        assert(item.subrange(64, 96) =~= uint_word(96));
        lemma_uint_at(params, pos + 64, 96);
        assert(params.subrange(pos + 96, pos + 96 + data.len()) =~= params.subrange(
            pos,
            pos + item.len(),
        ).subrange(96, 96int + data.len()));
        assert(item.subrange(96, 96int + data.len()) =~= data);
        lemma_bytes_at(params, pos + 96, call.data);
    }
}

/// A part of bytes that stand within others stands within them too.
proof fn lemma_part(s: Seq<u8>, start: int, e: Seq<u8>, from: int, to: int)
    requires
        0 <= start,
        start + e.len() <= s.len(),
        s.subrange(start, start + e.len()) == e,
        0 <= from <= to <= e.len(),
    ensures
        s.subrange(start + from, start + to) == e.subrange(from, to),
{
    assert(s.subrange(start + from, start + to) =~= s.subrange(start, start + e.len()).subrange(
        from,
        to,
    ));
}

proof fn lemma_message_reads_back(s: Seq<u8>, start: int, message: MessageView)
    requires
        message_sized(message),
        0 <= start,
        start + abi_message(message).len() <= s.len(),
        s.subrange(start, start + abi_message(message).len()) == abi_message(message),
        message.data.len() <= u64::MAX,
    ensures
        reads_message(s, start, message),
        abi_message(message).len() == 352 + abi_bytes(message.data).len(),
{
    let e = abi_message(message);
    let data = abi_bytes(message.data);
    lemma_abi_bytes_len(message.data);
    lemma_uint_word_value(message.id as nat);
    lemma_uint_word_value(message.fee as nat);
    lemma_uint_word_value(message.gas_limit as nat);
    lemma_uint_word_value(message.src_chain_id as nat);
    lemma_uint_word_value(message.dest_chain_id as nat);
    lemma_uint_word_value(352);
    assert(e.subrange(0, 32) =~= uint_word(message.id as nat));
    assert(e.subrange(32, 64) =~= uint_word(message.fee as nat));
    assert(e.subrange(64, 96) =~= uint_word(message.gas_limit as nat));
    assert(e.subrange(96, 128) =~= address_word(message.from));
    assert(e.subrange(128, 160) =~= uint_word(message.src_chain_id as nat));
    assert(e.subrange(160, 192) =~= address_word(message.src_owner));
    assert(e.subrange(192, 224) =~= uint_word(message.dest_chain_id as nat));
    assert(e.subrange(224, 256) =~= address_word(message.dest_owner));
    assert(e.subrange(256, 288) =~= address_word(message.to));
    assert(e.subrange(288, 320) =~= message.value);
    assert(e.subrange(320, 352) =~= uint_word(352));
    assert(e.subrange(352, 352int + data.len()) =~= data);
    lemma_part(s, start, e, 0, 32);
    lemma_part(s, start, e, 32, 64);
    lemma_part(s, start, e, 64, 96);
    lemma_part(s, start, e, 96, 128);
    lemma_part(s, start, e, 128, 160);
    lemma_part(s, start, e, 160, 192);
    lemma_part(s, start, e, 192, 224);
    lemma_part(s, start, e, 224, 256);
    lemma_part(s, start, e, 256, 288);
    lemma_part(s, start, e, 288, 320);
    lemma_part(s, start, e, 320, 352);
    lemma_part(s, start, e, 352, 352int + data.len());
    lemma_uint_at(s, start, message.id as nat);
    lemma_uint_at(s, start + 32, message.fee as nat);
    lemma_uint_at(s, start + 64, message.gas_limit as nat);
    lemma_address_at(s, start + 96, message.from);
    lemma_uint_at(s, start + 128, message.src_chain_id as nat);
    lemma_address_at(s, start + 160, message.src_owner);
    lemma_uint_at(s, start + 192, message.dest_chain_id as nat);
    lemma_address_at(s, start + 224, message.dest_owner);
    lemma_address_at(s, start + 256, message.to);
    lemma_uint_at(s, start + 320, 352);
    lemma_bytes_at(s, start + 352, message.data);
}

/// Calldata that begins with a selector calls its function, and the parameters stand behind it.
proof fn lemma_calls_function(signature: Seq<char>, params: Seq<u8>)
    ensures
        calls_function(selector(signature) + params, signature),
        (selector(signature) + params).skip(4) == params,
        (selector(signature) + params).len() == 4 + params.len(),
{
    assert((selector(signature) + params).skip(4) =~= params);
}

/// A message from the L2 is handed to the bridge: the call goes to the bridge without value, calls
/// `processMessage`, and the message, field by field, and its proof are read back from its
/// calldata.
pub proof fn law_message_is_handed_to_the_bridge(l1_call: L1Call, bridge: Seq<u8>)
    requires
        l1_call_call(l1_call, bridge).data.len() <= u64::MAX,
    ensures
        l1_call_call(l1_call, bridge).target == bridge,
        l1_call_call(l1_call, bridge).value == nothing(),
        reads_process_message(
            l1_call_call(l1_call, bridge).data,
            l1_call.message_from_l2@,
            l1_call.signal_slot_proof@,
        ),
{
    let message = l1_call.message_from_l2@;
    let proof = l1_call.signal_slot_proof@;
    let params = abi_process_message_params(message, proof);
    let e = abi_message(message);
    let tail = abi_bytes(proof);
    lemma_calls_function(PROCESS_MESSAGE@, params);
    lemma_abi_bytes_len(proof);
    lemma_abi_bytes_len(message.data);
    lemma_be_bytes_len(64, 32);
    lemma_be_bytes_len(64 + e.len(), 32);
    lemma_be_bytes_len(message.id as nat, 32);
    lemma_be_bytes_len(message.fee as nat, 32);
    lemma_be_bytes_len(message.gas_limit as nat, 32);
    lemma_be_bytes_len(message.src_chain_id as nat, 32);
    lemma_be_bytes_len(message.dest_chain_id as nat, 32);
    lemma_be_bytes_len(352, 32);
    assert(params.subrange(0, 32) =~= uint_word(64));
    assert(params.subrange(32, 64) =~= uint_word(64 + e.len()));
    assert(params.subrange(64, 64 + e.len() as int) =~= e);
    assert(params.subrange(64 + e.len() as int, 64 + e.len() + tail.len() as int) =~= tail);
    lemma_uint_at(params, 0, 64);
    lemma_uint_at(params, 32, 64 + e.len());
    lemma_message_reads_back(params, 64, message);
    lemma_bytes_at(params, 64 + e.len() as int, proof);
    assert(l1_call_call(l1_call, bridge).value =~= nothing());
}

/// A batch can be proposed exactly if it has a proof and the number of its blobs fits in sixteen
/// bits; a missing proof is named first.
pub proof fn law_batches_that_can_be_proposed(
    bit_flag: u8,
    batch: Proposal,
    inbox: Seq<u8>,
    num_blobs: nat,
)
    ensures
        ({
            let built = checked_propose_call(bit_flag, batch, inbox, num_blobs);
            &&& built is Ok <==> batch.zk_proof is Some && num_blobs < 0x1_0000
            &&& batch.zk_proof is None ==> built == Err::<CallView, _>(ErrorView::ZkProofNotSet)
            &&& batch.zk_proof is Some && num_blobs >= 0x1_0000 ==> built == Err::<CallView, _>(
                ErrorView::TooManyBlobs,
            )
        }),
{
}

/// A batch is proposed as it is: the call goes to the inbox without value, calls `propose`, and the
/// number of blobs, all signal slots in their order, the anchor block number, the checkpoint and
/// the proof with the bit of its proof system are read back from its calldata.
pub proof fn law_proposal_is_read_back(
    bit_flag: u8,
    batch: Proposal,
    inbox: Seq<u8>,
    num_blobs: nat,
    call: CallView,
)
    requires
        checked_propose_call(bit_flag, batch, inbox, num_blobs) == Ok::<_, ErrorView>(call),
        call.data.len() <= u64::MAX,
    ensures
        call.target == inbox,
        call.value == nothing(),
        batch.zk_proof matches Some(proof) && reads_propose(
            call.data,
            bit_flag,
            batch,
            proof@,
            num_blobs,
        ),
{
    let proof = batch.zk_proof->0@;
    let slots = batch.signal_slots@.map_values(|slot: Bytes32| slot@);
    let input = abi_propose_input(
        (0u16, num_blobs as u16, 0u32),
        slots,
        batch.max_anchor_block_number,
    );
    let proofs = abi_sub_proofs(seq![(bit_flag, proof)]);
    let checkpoint = (
        batch.checkpoint.block_number,
        batch.checkpoint.block_hash@,
        batch.checkpoint.state_root@,
    );
    let params = abi_propose_params(input, checkpoint, proofs);
    let first = abi_bytes(input);
    let second = abi_bytes(proofs);
    let second_pos = 160 + first.len() as int;
    lemma_calls_function(PROPOSE@, params);
    assert(call.value =~= nothing());
    lemma_abi_bytes_len(input);
    lemma_abi_bytes_len(proofs);
    lemma_be_bytes_len(160, 32);
    lemma_be_bytes_len(checkpoint.0 as nat, 32);
    lemma_be_bytes_len(160 + first.len(), 32);
    assert(params.subrange(0, 32) =~= uint_word(160));
    assert(params.subrange(32, 64) =~= uint_word(checkpoint.0 as nat));
    assert(params.subrange(64, 96) =~= checkpoint.1);
    assert(params.subrange(96, 128) =~= checkpoint.2);
    assert(params.subrange(128, 160) =~= uint_word(160 + first.len()));
    assert(params.subrange(160, second_pos) =~= first);
    assert(params.subrange(second_pos, second_pos + second.len()) =~= second);
    lemma_uint_at(params, 0, 160);
    lemma_uint_at(params, 32, checkpoint.0 as nat);
    lemma_uint_at(params, 128, 160 + first.len());
    lemma_bytes_at(params, 160, input);
    lemma_bytes_at(params, second_pos, proofs);
    lemma_propose_input_reads_back(
        num_blobs as u16,
        batch.signal_slots@,
        batch.max_anchor_block_number,
    );
    lemma_sub_proof_reads_back(bit_flag, proof);
}

proof fn lemma_propose_input_reads_back(
    num_blobs: u16,
    signal_slots: Seq<Bytes32>,
    max_anchor_block_number: u64,
)
    requires
        abi_propose_input(
            (0u16, num_blobs, 0u32),
            signal_slots.map_values(|slot: Bytes32| slot@),
            max_anchor_block_number,
        ).len() <= u64::MAX,
    ensures
        reads_propose_input(
            abi_propose_input(
                (0u16, num_blobs, 0u32),
                signal_slots.map_values(|slot: Bytes32| slot@),
                max_anchor_block_number,
            ),
            num_blobs as nat,
            signal_slots,
            max_anchor_block_number,
        ),
{
    let slots = signal_slots.map_values(|slot: Bytes32| slot@);
    let input = abi_propose_input((0u16, num_blobs, 0u32), slots, max_anchor_block_number);
    assert forall|i: int| 0 <= i < slots.len() implies (#[trigger] slots[i]).len() == 32 by {
        assert(slots[i] == signal_slots[i]@);
    }
    lemma_flatten_words(slots);
    lemma_be_bytes_len(0, 32);
    lemma_be_bytes_len(32, 32);
    lemma_be_bytes_len(160, 32);
    lemma_be_bytes_len(num_blobs as nat, 32);
    lemma_be_bytes_len(max_anchor_block_number as nat, 32);
    lemma_be_bytes_len(slots.len(), 32);
    assert(input.subrange(0, 32) =~= uint_word(32));
    assert(input.subrange(32, 64) =~= uint_word(0));
    assert(input.subrange(64, 96) =~= uint_word(num_blobs as nat));
    assert(input.subrange(96, 128) =~= uint_word(0));
    assert(input.subrange(128, 160) =~= uint_word(160));
    assert(input.subrange(160, 192) =~= uint_word(max_anchor_block_number as nat));
    assert(input.subrange(192, 224) =~= uint_word(slots.len()));
    lemma_uint_at(input, 0, 32);
    lemma_uint_at(input, 32, 0);
    lemma_uint_at(input, 64, num_blobs as nat);
    lemma_uint_at(input, 96, 0);
    lemma_uint_at(input, 128, 160);
    lemma_uint_at(input, 160, max_anchor_block_number as nat);
    lemma_uint_at(input, 192, slots.len());
    assert forall|i: int| 0 <= i < signal_slots.len() implies word_at(input, 192 + 32 + 32 * i) == (
    #[trigger] signal_slots[i])@ by {
        lemma_flatten_word(slots, i);
        assert(word_at(input, 192 + 32 + 32 * i) =~= slots.flatten().subrange(
            32 * i,
            32 * i + 32,
        ));
    }
}

/// A list of one item.
proof fn lemma_single_item_list(item: Seq<u8>)
    ensures
        abi_list(seq![item]) == uint_word(1) + uint_word(32) + item,
{
    let items = seq![item];
    let n = items.len();
    let offsets = Seq::new(n, |i: int| uint_word(32 * n + items.take(i).flatten().len()));
    assert(items.take(0) =~= Seq::<Seq<u8>>::empty());
    assert(items.take(0).flatten().len() == 0);
    assert(offsets =~= seq![uint_word(32)]);
    offsets.lemma_flatten_one_element();
    items.lemma_flatten_one_element();
}

/// The encoding of one proof.
proof fn lemma_single_proof(bit_flag: u8, proof: Seq<u8>)
    ensures
        abi_sub_proofs(seq![(bit_flag, proof)]) == uint_word(32) + (uint_word(1) + uint_word(32) + (
        uint_word(bit_flag as nat) + uint_word(64) + abi_bytes(proof))),
{
    let item = uint_word(bit_flag as nat) + uint_word(64) + abi_bytes(proof);
    assert(seq![(bit_flag, proof)].map_values(
        |proof: (u8, Seq<u8>)| uint_word(proof.0 as nat) + uint_word(64) + abi_bytes(proof.1),
    ) =~= seq![item]);
    lemma_single_item_list(item);
}

proof fn lemma_sub_proof_reads_back(bit_flag: u8, proof: Seq<u8>)
    requires
        abi_sub_proofs(seq![(bit_flag, proof)]).len() <= u64::MAX,
    ensures
        reads_sub_proof(abi_sub_proofs(seq![(bit_flag, proof)]), bit_flag, proof),
{
    lemma_single_proof(bit_flag, proof);
    lemma_single_proof_reads_back(
        abi_sub_proofs(seq![(bit_flag, proof)]),
        bit_flag,
        proof,
        abi_bytes(proof),
    );
}

proof fn lemma_single_proof_reads_back(
    encoded: Seq<u8>,
    bit_flag: u8,
    proof: Seq<u8>,
    tail: Seq<u8>,
)
    requires
        tail == abi_bytes(proof),
        encoded == uint_word(32) + (uint_word(1) + uint_word(32) + (uint_word(bit_flag as nat)
            + uint_word(64) + tail)),
        encoded.len() <= u64::MAX,
    ensures
        reads_sub_proof(encoded, bit_flag, proof),
{
    lemma_abi_bytes_len(proof);
    lemma_be_bytes_len(1, 32);
    lemma_be_bytes_len(32, 32);
    lemma_be_bytes_len(64, 32);
    lemma_be_bytes_len(bit_flag as nat, 32);
    assert(encoded.subrange(0, 32) =~= uint_word(32));
    assert(encoded.subrange(32, 64) =~= uint_word(1));
    assert(encoded.subrange(64, 96) =~= uint_word(32));
    assert(encoded.subrange(96, 128) =~= uint_word(bit_flag as nat));
    assert(encoded.subrange(128, 160) =~= uint_word(64));
    assert(encoded.subrange(160, 160 + tail.len() as int) =~= tail);
    lemma_uint_at(encoded, 0, 32);
    lemma_uint_at(encoded, 32, 1);
    lemma_uint_at(encoded, 64, 32);
    lemma_uint_at(encoded, 96, bit_flag as nat);
    lemma_uint_at(encoded, 128, 64);
    lemma_bytes_at(encoded, 160, proof);
}

/// Whether calldata stores a proposal in the first proof store, along with a call to the bridge.
pub open spec fn reads_store(
    data: Seq<u8>,
    propose: CallView,
    bridge: Seq<u8>,
    process_message: Seq<u8>,
) -> bool {
    let params = data.skip(4);
    &&& calls_function(data, "store(uint256,address,bytes,address,bytes)"@)
    &&& uint_at(params, 0) == 0
    &&& address_at(params, 32) == propose.target
    &&& bytes_at(params, uint_at(params, 64) as int) == propose.data
    &&& address_at(params, 96) == bridge
    &&& bytes_at(params, uint_at(params, 128) as int) == process_message
}

/// Whether calldata stores a proposal in the second proof store, along with what the L2 returned.
pub open spec fn reads_store_v2(
    data: Seq<u8>,
    propose: CallView,
    id: u64,
    success: bool,
    returned: Seq<u8>,
    hop_proof: Seq<u8>,
) -> bool {
    let params = data.skip(4);
    &&& calls_function(data, "store(uint256,address,bytes,uint64,bool,bytes,bytes)"@)
    &&& uint_at(params, 0) == 0
    &&& address_at(params, 32) == propose.target
    &&& bytes_at(params, uint_at(params, 64) as int) == propose.data
    &&& uint_at(params, 96) == id
    &&& uint_at(params, 128) == if success {
        1nat
    } else {
        0nat
    }
    &&& bytes_at(params, uint_at(params, 160) as int) == returned
    &&& bytes_at(params, uint_at(params, 192) as int) == hop_proof
}

/// The first proof store is called without value and told of the proposal and of the first message
/// from the L2: for every list of messages that is not empty, the call that has the bridge process
/// the first of them is read back, and only for an empty list nothing is.
pub proof fn law_first_store_is_told_of_the_first_message(
    store: Seq<u8>,
    propose: CallView,
    l1_calls: Seq<L1Call>,
    bridge: Seq<u8>,
)
    requires
        propose.target.len() == 20,
        bridge.len() == 20,
        store_call(false, store, propose, l1_calls, bridge).data.len() <= u64::MAX,
    ensures
        ({
            let call = store_call(false, store, propose, l1_calls, bridge);
            let params = call.data.skip(4);
            let process_message = bytes_at(params, uint_at(params, 128) as int);
            &&& call.target == store
            &&& call.value == nothing()
            &&& reads_store(call.data, propose, bridge, process_message)
            &&& l1_calls.len() == 0 ==> process_message.len() == 0
            &&& l1_calls.len() > 0 ==> reads_process_message(
                process_message,
                l1_calls[0].message_from_l2@,
                l1_calls[0].signal_slot_proof@,
            )
        }),
{
    let call = store_call(false, store, propose, l1_calls, bridge);
    let params = store_params(propose, l1_calls, bridge);
    let process_message = first_process_message(l1_calls, bridge);
    let first = abi_bytes(propose.data);
    let second = abi_bytes(process_message);
    let second_pos = 160 + first.len() as int;
    assert(call.value =~= nothing());
    lemma_calls_function(STORE@, params);
    lemma_abi_bytes_len(propose.data);
    lemma_abi_bytes_len(process_message);
    lemma_be_bytes_len(160, 32);
    lemma_be_bytes_len(160 + first.len(), 32);
    lemma_be_bytes_zero(32);
    assert(params.subrange(0, 32) =~= uint_word(0));
    assert(params.subrange(32, 64) =~= address_word(propose.target));
    assert(params.subrange(64, 96) =~= uint_word(160));
    assert(params.subrange(96, 128) =~= address_word(bridge));
    assert(params.subrange(128, 160) =~= uint_word(160 + first.len()));
    assert(params.subrange(160, second_pos) =~= first);
    assert(params.subrange(second_pos, second_pos + second.len()) =~= second);
    lemma_uint_at(params, 0, 0);
    lemma_address_at(params, 32, propose.target);
    lemma_uint_at(params, 64, 160);
    lemma_address_at(params, 96, bridge);
    lemma_uint_at(params, 128, 160 + first.len());
    lemma_bytes_at(params, 160, propose.data);
    lemma_bytes_at(params, second_pos, process_message);
    if l1_calls.len() > 0 {
        law_message_is_handed_to_the_bridge(l1_calls[0], bridge);
    }
}

/// The second proof store is called without value and told of the proposal and of what the first
/// message from the L2 returns: its id, its proof, and the return value that its data decodes to;
/// without a message an id of zero, a failure and nothing else.
pub proof fn law_second_store_is_told_of_the_return(
    store: Seq<u8>,
    propose: CallView,
    l1_calls: Seq<L1Call>,
    bridge: Seq<u8>,
)
    requires
        propose.target.len() == 20,
        store_call(true, store, propose, l1_calls, bridge).data.len() <= u64::MAX,
    ensures
        ({
            let call = store_call(true, store, propose, l1_calls, bridge);
            &&& call.target == store
            &&& call.value == nothing()
            &&& l1_calls.len() == 0 ==> reads_store_v2(
                call.data,
                propose,
                0,
                false,
                Seq::empty(),
                Seq::empty(),
            )
            &&& l1_calls.len() > 0 ==> reads_store_v2(
                call.data,
                propose,
                l1_calls[0].message_from_l2.id,
                decoded_return(l1_calls[0].message_from_l2.data@).0,
                decoded_return(l1_calls[0].message_from_l2.data@).1,
                l1_calls[0].signal_slot_proof@,
            )
        }),
{
    let call = store_call(true, store, propose, l1_calls, bridge);
    let params = store_v2_params(propose, l1_calls);
    let (id, success, returned, hop_proof) = first_return(l1_calls);
    let flag: nat = if success {
        1
    } else {
        0
    };
    let first = abi_bytes(propose.data);
    let second = abi_bytes(returned);
    let third = abi_bytes(hop_proof);
    let second_pos = 224 + first.len() as int;
    let third_pos = second_pos + second.len();
    assert(call.value =~= nothing());
    lemma_calls_function(STORE_V2@, params);
    lemma_abi_bytes_len(propose.data);
    lemma_abi_bytes_len(returned);
    lemma_abi_bytes_len(hop_proof);
    lemma_be_bytes_len(224, 32);
    lemma_be_bytes_len(id as nat, 32);
    lemma_be_bytes_len(flag, 32);
    lemma_be_bytes_len(second_pos as nat, 32);
    lemma_be_bytes_len(third_pos as nat, 32);
    lemma_be_bytes_zero(32);
    assert(params.subrange(0, 32) =~= uint_word(0));
    assert(params.subrange(32, 64) =~= address_word(propose.target));
    assert(params.subrange(64, 96) =~= uint_word(224));
    assert(params.subrange(96, 128) =~= uint_word(id as nat));
    assert(params.subrange(128, 160) =~= uint_word(flag));
    assert(params.subrange(160, 192) =~= uint_word(second_pos as nat));
    assert(params.subrange(192, 224) =~= uint_word(third_pos as nat));
    assert(params.subrange(224, second_pos) =~= first);
    assert(params.subrange(second_pos, third_pos) =~= second);
    assert(params.subrange(third_pos, third_pos + third.len()) =~= third);
    lemma_uint_at(params, 0, 0);
    lemma_address_at(params, 32, propose.target);
    lemma_uint_at(params, 64, 224);
    lemma_uint_at(params, 96, id as nat);
    lemma_uint_at(params, 128, flag);
    lemma_uint_at(params, 160, second_pos as nat);
    lemma_uint_at(params, 192, third_pos as nat);
    lemma_bytes_at(params, 224, propose.data);
    lemma_bytes_at(params, second_pos, returned);
    lemma_bytes_at(params, third_pos, hop_proof);
}

/// Whether call `at + i` of a multicall is, for each user operation `i`, the one that it asks for:
/// to its submitter, without value, with its calldata, whatever this is.
pub open spec fn makes_user_ops(params: Seq<u8>, at: int, user_ops: Seq<UserOp>) -> bool {
    forall|i: int|
        #![trigger user_ops[i]]
        0 <= i < user_ops.len() ==> {
            let call = multicall_item(params, at + i);
            &&& call.target == user_ops[i].submitter@
            &&& call.value == nothing()
            &&& call.data == user_ops[i].calldata@
        }
}

/// Whether call `at + i` of a multicall has the bridge process message `i`, without value.
pub open spec fn processes_messages(
    params: Seq<u8>,
    at: int,
    l1_calls: Seq<L1Call>,
    bridge: Seq<u8>,
) -> bool {
    forall|i: int|
        #![trigger l1_calls[i]]
        0 <= i < l1_calls.len() ==> {
            let call = multicall_item(params, at + i);
            &&& call.target == bridge
            &&& call.value == nothing()
            &&& reads_process_message(
                call.data,
                l1_calls[i].message_from_l2@,
                l1_calls[i].signal_slot_proof@,
            )
        }
}

/// Whether a transaction makes so many calls through the proposer's multicall, with these blobs.
pub open spec fn makes_multicall(
    tx: TransactionView,
    from: Seq<u8>,
    contracts: ContractAddresses,
    blob_sidecar: SidecarView,
    count: nat,
) -> bool {
    &&& tx.from == from
    &&& tx.to == contracts.proposer_multicall@
    &&& tx.blob_sidecar == blob_sidecar
    &&& calls_function(tx.input, "multicall((address,uint256,bytes)[])"@)
    &&& multicall_count(tx.input.skip(4)) == count
}

proof fn lemma_multicall_is_made(
    batch: Proposal,
    propose: CallView,
    contracts: ContractAddresses,
    store: Option<Seq<u8>>,
    mode_v2: bool,
)
    requires
        propose.target.len() == 20,
        propose.value.len() == 32,
        store matches Some(address) ==> address.len() == 20,
        abi_multicall_params(
            multicall_calls(batch, propose, contracts.bridge@, store, mode_v2),
        ).len() <= u64::MAX,
    ensures
        ({
            let calls = multicall_calls(batch, propose, contracts.bridge@, store, mode_v2);
            let params = abi_multicall_params(calls);
            &&& multicall_count(params) == calls.len()
            &&& forall|i: int|
                0 <= i < calls.len() ==> #[trigger] multicall_item(params, i) == calls[i]
                    && calls[i].data.len() <= u64::MAX
        }),
{
    let calls = multicall_calls(batch, propose, contracts.bridge@, store, mode_v2);
    assert forall|i: int| 0 <= i < calls.len() implies (#[trigger] calls[i]).target.len() == 20
        && calls[i].value.len() == 32 by {
        let n = batch.user_ops@.len() as int;
        if store is Some {
            if i > 0 {
                assert(calls[i] == user_op_calls(batch.user_ops@)[i - 1]);
            }
        } else if i < n {
            assert(calls[i] == user_op_calls(batch.user_ops@)[i]);
        } else if i > n {
            assert(calls[i] == l1_call_calls(batch.l1_calls@, contracts.bridge@)[i - n - 1]);
        }
    }
    law_multicall_reads_back(calls);
}

/// Without a proof store a batch with user operations or messages from the L2 goes out as one
/// multicall: each user operation as it is, in their order, then the proposal, then for each
/// message from the L2 the call that has the bridge process it, in their order.
pub proof fn law_async_batch_is_one_multicall(
    batch: Proposal,
    propose: CallView,
    from: Seq<u8>,
    contracts: ContractAddresses,
    settings: SyncSettings,
    blob_sidecar: SidecarView,
)
    requires
        batch.user_ops@.len() + batch.l1_calls@.len() > 0,
        settings.proof_store_address is None,
        propose.target.len() == 20,
        propose.value.len() == 32,
        blob_transaction(batch, propose, from, contracts, settings, blob_sidecar) matches Ok(tx)
            ==> tx.input.len() <= u64::MAX,
    ensures
        ({
            let n = batch.user_ops@.len();
            blob_transaction(batch, propose, from, contracts, settings, blob_sidecar) matches Ok(tx)
                && {
                let params = tx.input.skip(4);
                &&& makes_multicall(
                    tx,
                    from,
                    contracts,
                    blob_sidecar,
                    n + 1 + batch.l1_calls@.len(),
                )
                &&& makes_user_ops(params, 0, batch.user_ops@)
                &&& multicall_item(params, n as int) == propose
                &&& processes_messages(
                    params,
                    n + 1int,
                    batch.l1_calls@,
                    contracts.bridge@,
                )
            }
        }),
{
    let bridge = contracts.bridge@;
    let n = batch.user_ops@.len() as int;
    let calls = multicall_calls(batch, propose, bridge, None, settings.mode_v2);
    let params = abi_multicall_params(calls);
    lemma_calls_function(MULTICALL@, params);
    lemma_multicall_is_made(batch, propose, contracts, None, settings.mode_v2);
    assert(multicall_item(params, n) == calls[n]);
    assert forall|i: int|
        #![trigger batch.user_ops@[i]]
        0 <= i < n implies {
        let call = multicall_item(params, 0 + i);
        &&& call.target == batch.user_ops@[i].submitter@
        &&& call.value == nothing()
        &&& call.data == batch.user_ops@[i].calldata@
    } by {
        assert(multicall_item(params, i) == calls[i]);
        assert(calls[i].value =~= nothing());
    }
    assert forall|i: int|
        #![trigger batch.l1_calls@[i]]
        0 <= i < batch.l1_calls@.len() implies {
        let call = multicall_item(params, n + 1 + i);
        &&& call.target == bridge
        &&& call.value == nothing()
        &&& reads_process_message(
            call.data,
            batch.l1_calls@[i].message_from_l2@,
            batch.l1_calls@[i].signal_slot_proof@,
        )
    } by {
        assert(multicall_item(params, n + 1 + i) == calls[n + 1 + i]);
        assert(calls[n + 1 + i] == l1_call_call(batch.l1_calls@[i], bridge));
        law_message_is_handed_to_the_bridge(batch.l1_calls@[i], bridge);
    }
}

/// With a proof store a batch with user operations or messages from the L2 goes out as one
/// multicall of another kind: first the proof store is called, then come the user operations as
/// they are, in their order, and nothing else. A store of the first version is told of the
/// proposal and of the call that has the bridge process the first message from the L2, and one of
/// the second version of the proposal and of what that message returns.
pub proof fn law_sync_batch_is_stored_first(
    batch: Proposal,
    propose: CallView,
    from: Seq<u8>,
    contracts: ContractAddresses,
    settings: SyncSettings,
    blob_sidecar: SidecarView,
    store: Seq<u8>,
)
    requires
        batch.user_ops@.len() + batch.l1_calls@.len() > 0,
        settings.proof_store_address matches Some(text) && hex_address(
            vstd::utf8::encode_utf8(text@),
        ) == Ok::<_, crate::error::HexError>(store),
        propose.target.len() == 20,
        propose.value.len() == 32,
        blob_transaction(batch, propose, from, contracts, settings, blob_sidecar) matches Ok(tx)
            ==> tx.input.len() <= u64::MAX,
    ensures
        blob_transaction(batch, propose, from, contracts, settings, blob_sidecar) matches Ok(tx) && {
            let params = tx.input.skip(4);
            let call = multicall_item(params, 0);
            let first = batch.l1_calls@[0];
            let process_message = bytes_at(
                call.data.skip(4),
                uint_at(call.data.skip(4), 128) as int,
            );
            &&& makes_multicall(tx, from, contracts, blob_sidecar, 1 + batch.user_ops@.len())
            &&& makes_user_ops(params, 1, batch.user_ops@)
            &&& call.target == store
            &&& call.value == nothing()
            &&& !settings.mode_v2 ==> {
                &&& reads_store(call.data, propose, contracts.bridge@, process_message)
                &&& batch.l1_calls@.len() == 0 ==> process_message.len() == 0
                &&& batch.l1_calls@.len() > 0 ==> reads_process_message(
                    process_message,
                    first.message_from_l2@,
                    first.signal_slot_proof@,
                )
            }
            &&& settings.mode_v2 && batch.l1_calls@.len() == 0 ==> reads_store_v2(
                call.data,
                propose,
                0,
                false,
                Seq::empty(),
                Seq::empty(),
            )
            &&& settings.mode_v2 && batch.l1_calls@.len() > 0 ==> reads_store_v2(
                call.data,
                propose,
                first.message_from_l2.id,
                decoded_return(first.message_from_l2.data@).0,
                decoded_return(first.message_from_l2.data@).1,
                first.signal_slot_proof@,
            )
        },
{
    let bridge = contracts.bridge@;
    let n = batch.user_ops@.len() as int;
    let calls = multicall_calls(batch, propose, bridge, Some(store), settings.mode_v2);
    let params = abi_multicall_params(calls);
    lemma_calls_function(MULTICALL@, params);
    lemma_multicall_is_made(batch, propose, contracts, Some(store), settings.mode_v2);
    assert(multicall_item(params, 0) == calls[0]);
    assert(calls[0] == store_call(settings.mode_v2, store, propose, batch.l1_calls@, bridge));
    assert forall|i: int|
        #![trigger batch.user_ops@[i]]
        0 <= i < n implies {
        let call = multicall_item(params, 1 + i);
        &&& call.target == batch.user_ops@[i].submitter@
        &&& call.value == nothing()
        &&& call.data == batch.user_ops@[i].calldata@
    } by {
        assert(multicall_item(params, 1 + i) == calls[1 + i]);
        assert(calls[1 + i].value =~= nothing());
    }
    if settings.mode_v2 {
        law_second_store_is_told_of_the_return(store, propose, batch.l1_calls@, bridge);
    } else {
        law_first_store_is_told_of_the_first_message(store, propose, batch.l1_calls@, bridge);
    }
}

/// A text that is no address fails a batch with user operations or messages from the L2, and only
/// such a batch.
pub proof fn law_bad_proof_store_fails(
    batch: Proposal,
    propose: CallView,
    from: Seq<u8>,
    contracts: ContractAddresses,
    settings: SyncSettings,
    blob_sidecar: SidecarView,
)
    ensures
        ({
            let built = blob_transaction(batch, propose, from, contracts, settings, blob_sidecar);
            let multicall = batch.user_ops@.len() + batch.l1_calls@.len() > 0;
            &&& built is Err <==> multicall && (settings.proof_store_address matches Some(text)
                && hex_address(vstd::utf8::encode_utf8(text@)) is Err)
            &&& built matches Err(error) ==> error == ErrorView::InvalidProofStoreAddress(
                hex_address(
                    vstd::utf8::encode_utf8(settings.proof_store_address->0@),
                )->Err_0,
            )
        }),
{
}

} // verus!
