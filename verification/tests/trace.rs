use realtime::message::Message;
use realtime::trace::{
    collect_logs_recursive, extract_bridge_from_call_outputs, read_output_message, CallFrame,
    CallLogFrame,
};

const SEND_MESSAGE: [u8; 4] = [0x1b, 0xdb, 0x00, 0x37];
const SEND_SIGNAL: [u8; 4] = [0x66, 0xca, 0x2b, 0xc0];

fn word(n: u64) -> Vec<u8> {
    let mut out = vec![0u8; 24];
    out.extend_from_slice(&n.to_be_bytes());
    out
}

fn address_word(address: [u8; 20]) -> Vec<u8> {
    let mut out = vec![0u8; 12];
    out.extend_from_slice(&address);
    out
}

fn message(id: u64) -> Message {
    Message {
        id,
        fee: 5,
        gas_limit: 0x01020304,
        from: [1; 20],
        src_chain_id: 100,
        src_owner: [2; 20],
        dest_chain_id: 763374,
        dest_owner: [3; 20],
        to: [4; 20],
        value: [9; 32],
        data: vec![0xca, 0xfe],
    }
}

/// What `sendMessage` returns: the hash, the offset of the message and the message.
fn output(m: &Message) -> Vec<u8> {
    let mut out = vec![0xaa; 32];
    out.extend(word(64));
    out.extend(word(m.id));
    out.extend(word(m.fee));
    out.extend(word(m.gas_limit as u64));
    out.extend(address_word(m.from));
    out.extend(word(m.src_chain_id));
    out.extend(address_word(m.src_owner));
    out.extend(word(m.dest_chain_id));
    out.extend(address_word(m.dest_owner));
    out.extend(address_word(m.to));
    out.extend_from_slice(&m.value);
    out.extend(word(352));
    out.extend(word(m.data.len() as u64));
    out.extend_from_slice(&m.data);
    out.extend(vec![0u8; 30]);
    out
}

fn frame(typ: &str, input: &[u8], output: Option<Vec<u8>>, calls: Vec<CallFrame>) -> CallFrame {
    CallFrame { typ: typ.to_string(), input: input.to_vec(), output, logs: vec![], calls }
}

fn log(tag: u8) -> CallLogFrame {
    CallLogFrame { topics: Some(vec![[tag; 32]]), data: Some(vec![tag]) }
}

#[test]
fn selectors_are_those_of_the_bridge() {
    let send_message = alloy::primitives::keccak256(
        "sendMessage((uint64,uint64,uint32,address,uint64,address,uint64,address,address,uint256,bytes))",
    );
    assert_eq!(send_message[..4], SEND_MESSAGE);
    assert_eq!(alloy::primitives::keccak256("sendSignal(bytes32)")[..4], SEND_SIGNAL);
}

#[test]
fn collects_logs_in_call_order() {
    let mut leaf = frame("CALL", &[], None, vec![]);
    leaf.logs = vec![log(3)];
    let mut first = frame("CALL", &[], None, vec![leaf]);
    first.logs = vec![log(2)];
    let mut second = frame("CALL", &[], None, vec![]);
    second.logs = vec![log(4), log(5)];
    let mut top = frame("CALL", &[], None, vec![first, second]);
    top.logs = vec![log(0), log(1)];
    assert_eq!(
        collect_logs_recursive(&top),
        vec![log(0), log(1), log(2), log(3), log(4), log(5)]
    );
}

#[test]
fn collects_logs_without_topics_or_data() {
    let mut top = frame("CALL", &[], None, vec![]);
    top.logs = vec![CallLogFrame { topics: None, data: None }];
    assert_eq!(collect_logs_recursive(&top), vec![CallLogFrame { topics: None, data: None }]);
}

#[test]
fn reads_back_a_message() {
    assert_eq!(read_output_message(&output(&message(7))), message(7));
}

#[test]
fn reads_a_message_whose_data_is_cut_off() {
    let mut out = output(&message(7));
    out.truncate(64 + 352 + 32 + 1);
    let mut expected = message(7);
    expected.data = vec![];
    assert_eq!(read_output_message(&out), expected);
}

#[test]
fn reads_a_message_whose_data_is_far_away() {
    let mut out = output(&message(7));
    for byte in &mut out[64 + 344..64 + 352] {
        *byte = 0xff;
    }
    let mut expected = message(7);
    expected.data = vec![];
    assert_eq!(read_output_message(&out), expected);
}

#[test]
fn reads_missing_words_as_zero() {
    let out = output(&message(7))[..97].to_vec();
    let found = read_output_message(&out);
    assert_eq!(found.id, 7);
    assert_eq!(found.fee, 0);
    assert_eq!(found.to, [0; 20]);
    assert_eq!(found.value, [0; 32]);
    // The offset reads as zero, so the id is taken for the length of the data, which is missing.
    assert_eq!(found.data, Vec::<u8>::new());
}

#[test]
fn extracts_message_and_slot_at_any_depth() {
    let signal = frame("STATICCALL", &SEND_SIGNAL, Some(vec![8; 40]), vec![]);
    let bridge = frame("CALL", &SEND_MESSAGE, Some(output(&message(1))), vec![signal]);
    let proxy = frame("CALL", &[1, 2], None, vec![bridge]);
    let top = frame("CALL", &[], None, vec![proxy]);
    assert_eq!(extract_bridge_from_call_outputs(&top), Some((message(1), [8; 32])));
}

#[test]
fn later_calls_replace_earlier_ones() {
    let first = frame("CALL", &SEND_MESSAGE, Some(output(&message(1))), vec![]);
    let second = frame("CALL", &SEND_MESSAGE, Some(output(&message(2))), vec![]);
    let signal_a = frame("CALL", &SEND_SIGNAL, Some(vec![8; 32]), vec![]);
    let signal_b = frame("CALL", &SEND_SIGNAL, Some(vec![9; 32]), vec![]);
    let top = frame("CALL", &[], None, vec![first, signal_a, second, signal_b]);
    assert_eq!(extract_bridge_from_call_outputs(&top), Some((message(2), [9; 32])));
}

#[test]
fn needs_both_message_and_slot() {
    let bridge = frame("CALL", &SEND_MESSAGE, Some(output(&message(1))), vec![]);
    assert_eq!(extract_bridge_from_call_outputs(&bridge), None);
    let signal = frame("CALL", &SEND_SIGNAL, Some(vec![8; 32]), vec![]);
    assert_eq!(extract_bridge_from_call_outputs(&signal), None);
}

#[test]
fn ignores_delegated_and_short_outputs() {
    let signal = || frame("CALL", &SEND_SIGNAL, Some(vec![8; 32]), vec![]);
    let delegated = frame("DELEGATECALL", &SEND_MESSAGE, Some(output(&message(1))), vec![signal()]);
    assert_eq!(extract_bridge_from_call_outputs(&delegated), None);
    let short = frame("CALL", &SEND_MESSAGE, Some(vec![1; 96]), vec![signal()]);
    assert_eq!(extract_bridge_from_call_outputs(&short), None);
    let reverted = frame("CALL", &SEND_MESSAGE, None, vec![signal()]);
    assert_eq!(extract_bridge_from_call_outputs(&reverted), None);
    let short_signal = frame("CALL", &SEND_SIGNAL, Some(vec![8; 31]), vec![]);
    let top = frame("CALL", &SEND_MESSAGE, Some(output(&message(1))), vec![short_signal]);
    assert_eq!(extract_bridge_from_call_outputs(&top), None);
}
