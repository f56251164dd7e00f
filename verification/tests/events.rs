use alloy::primitives::keccak256;
use realtime::error::Error;
use realtime::events::{
    read_log, read_logs, resolve_bridge, LogEvent, MESSAGE_SENT, SIGNAL_SENT,
};
use realtime::message::Message;
use realtime::trace::{CallFrame, CallLogFrame};

fn word(n: u64) -> Vec<u8> {
    let mut out = vec![0u8; 24];
    out.extend_from_slice(&n.to_be_bytes());
    out
}

fn address_word(address: [u8; 20]) -> Vec<u8> {
    let mut out = vec![0u8; 12];
    out.extend_from_slice(&address);
    out
}

fn message(id: u64) -> Message {
    Message {
        id,
        fee: 5,
        gas_limit: 6,
        from: [1; 20],
        src_chain_id: 100,
        src_owner: [2; 20],
        dest_chain_id: 763374,
        dest_owner: [3; 20],
        to: [4; 20],
        value: [9; 32],
        data: vec![0xca, 0xfe],
    }
}

fn message_data(m: &Message) -> Vec<u8> {
    let mut out = word(32);
    out.extend(word(m.id));
    out.extend(word(m.fee));
    out.extend(word(m.gas_limit as u64));
    out.extend(address_word(m.from));
    out.extend(word(m.src_chain_id));
    out.extend(address_word(m.src_owner));
    out.extend(word(m.dest_chain_id));
    out.extend(address_word(m.dest_owner));
    out.extend(address_word(m.to));
    out.extend_from_slice(&m.value);
    out.extend(word(352));
    out.extend(word(m.data.len() as u64));
    out.extend_from_slice(&m.data);
    out.extend(vec![0u8; 30]);
    out
}

fn message_log(m: &Message) -> CallLogFrame {
    CallLogFrame {
        topics: Some(vec![keccak256(MESSAGE_SENT).0, [0xaa; 32]]),
        data: Some(message_data(m)),
    }
}

fn signal_log(slot: u8) -> CallLogFrame {
    let mut data = address_word([1; 20]);
    data.extend(vec![2u8; 32]);
    data.extend(vec![slot; 32]);
    data.extend(vec![3u8; 32]);
    CallLogFrame { topics: Some(vec![keccak256(SIGNAL_SENT).0]), data: Some(data) }
}

fn empty_frame() -> CallFrame {
    CallFrame {
        typ: "CALL".to_string(),
        input: vec![],
        output: None,
        logs: vec![],
        calls: vec![],
    }
}

/// A frame whose call outputs give message 40 and a slot of eights.
fn output_frame() -> CallFrame {
    let mut out = vec![0xaa; 32];
    out.extend(word(64));
    out.extend_from_slice(&message_data(&message(40))[32..]);
    let mut signal = empty_frame();
    signal.input = vec![0x66, 0xca, 0x2b, 0xc0];
    signal.output = Some(vec![8; 32]);
    let mut top = empty_frame();
    top.input = vec![0x1b, 0xdb, 0x00, 0x37];
    top.output = Some(out);
    top.calls = vec![signal];
    top
}

#[test]
fn reads_a_message_event() {
    assert_eq!(read_log(&message_log(&message(7))), LogEvent::Message(message(7)));
}

#[test]
fn reads_a_signal_event() {
    assert_eq!(read_log(&signal_log(6)), LogEvent::Slot([6; 32]));
}

#[test]
fn ignores_bytes_behind_a_signal_event() {
    let mut log = signal_log(6);
    log.data.as_mut().unwrap().push(1);
    assert_eq!(read_log(&log), LogEvent::Slot([6; 32]));
}

#[test]
fn other_logs_are_no_events() {
    let logs = vec![
        CallLogFrame { topics: None, data: Some(vec![1]) },
        CallLogFrame { topics: Some(vec![]), data: Some(vec![1]) },
        CallLogFrame { topics: Some(vec![[5; 32]]), data: None },
        CallLogFrame { topics: Some(vec![[5; 32], keccak256(MESSAGE_SENT).0]), data: None },
    ];
    for event in read_logs(&logs) {
        assert_eq!(event, LogEvent::Other);
    }
}

#[test]
fn refuses_a_wrong_number_of_topics() {
    let mut log = message_log(&message(7));
    log.topics.as_mut().unwrap().pop();
    assert_eq!(read_log(&log), LogEvent::BadMessage("topic list length mismatch".to_string()));
    let mut log = signal_log(6);
    log.topics.as_mut().unwrap().push([1; 32]);
    assert_eq!(read_log(&log), LogEvent::BadSignal("topic list length mismatch".to_string()));
}

#[test]
fn refuses_data_that_is_cut_off() {
    let mut log = message_log(&message(7));
    log.data = None;
    assert_eq!(
        read_log(&log),
        LogEvent::BadMessage(
            "ABI decoding failed: buffer overrun while deserializing".to_string()
        )
    );
    let mut log = signal_log(6);
    log.data.as_mut().unwrap().pop();
    assert_eq!(
        read_log(&log),
        LogEvent::BadSignal("ABI decoding failed: buffer overrun while deserializing".to_string())
    );
    log.data = None;
    assert_eq!(
        read_log(&log),
        LogEvent::BadSignal("ABI decoding failed: buffer overrun while deserializing".to_string())
    );
}

#[test]
fn last_events_count() {
    let logs = vec![
        message_log(&message(1)),
        signal_log(1),
        message_log(&message(2)),
        signal_log(2),
        CallLogFrame { topics: None, data: None },
    ];
    assert_eq!(
        resolve_bridge(read_logs(&logs), &empty_frame()),
        Ok(Some((message(2), [2; 32])))
    );
}

#[test]
fn events_outrank_outputs() {
    let logs = vec![message_log(&message(1)), signal_log(1)];
    assert_eq!(
        resolve_bridge(read_logs(&logs), &output_frame()),
        Ok(Some((message(1), [1; 32])))
    );
}

#[test]
fn outputs_stand_in_for_missing_events() {
    for logs in [vec![], vec![message_log(&message(1))], vec![signal_log(1)]] {
        assert_eq!(
            resolve_bridge(read_logs(&logs), &output_frame()),
            Ok(Some((message(40), [8; 32])))
        );
        assert_eq!(resolve_bridge(read_logs(&logs), &empty_frame()), Ok(None));
    }
}

#[test]
fn first_bad_event_fails_the_search() {
    let mut bad_message = message_log(&message(1));
    bad_message.topics.as_mut().unwrap().pop();
    let mut bad_signal = signal_log(1);
    bad_signal.data = None;
    let logs = vec![message_log(&message(2)), signal_log(2), bad_signal, bad_message];
    let error = resolve_bridge(read_logs(&logs), &output_frame()).unwrap_err();
    assert_eq!(
        error.message(),
        "Failed to decode SignalSent event L1: \
         ABI decoding failed: buffer overrun while deserializing"
    );
    let error = resolve_bridge(
        vec![LogEvent::BadMessage("text".to_string())],
        &output_frame(),
    )
    .unwrap_err();
    assert_eq!(error, Error::DecodeMessageSent("text".to_string()));
    assert_eq!(error.message(), "Failed to decode MessageSent event L1: text");
}

#[test]
fn message_events_are_decoded_by_their_offsets() {
    // The message starts behind two words, and its data behind twelve of its own.
    let m = message(7);
    let mut data = vec![word(64), vec![0xff; 32], message_data(&m)[32..].to_vec()].concat();
    assert_eq!(
        read_log(&CallLogFrame {
            topics: Some(vec![keccak256(MESSAGE_SENT).0, [0; 32]]),
            data: Some(data.clone()),
        }),
        LogEvent::Message(message(7))
    );
    // Bytes that a field does not use may hold anything.
    data[64] = 0xff;
    data[64 + 3 * 32] = 0xff;
    assert_eq!(
        read_log(&CallLogFrame {
            topics: Some(vec![keccak256(MESSAGE_SENT).0, [0; 32]]),
            data: Some(data.clone()),
        }),
        LogEvent::Message(message(7))
    );
    // The padding behind the data may be missing, but not the data.
    data.truncate(data.len() - 30);
    assert_eq!(
        read_log(&CallLogFrame {
            topics: Some(vec![keccak256(MESSAGE_SENT).0, [0; 32]]),
            data: Some(data.clone()),
        }),
        LogEvent::Message(message(7))
    );
    data.pop();
    assert_eq!(
        read_log(&CallLogFrame {
            topics: Some(vec![keccak256(MESSAGE_SENT).0, [0; 32]]),
            data: Some(data),
        }),
        LogEvent::BadMessage(
            "ABI decoding failed: buffer overrun while deserializing".to_string()
        )
    );
}

/// What a `MessageSent` log is refused with.
fn refused(data: Vec<u8>) -> String {
    let topics = Some(vec![keccak256(MESSAGE_SENT).0, [0; 32]]);
    match read_log(&CallLogFrame { topics, data: Some(data) }) {
        LogEvent::BadMessage(text) => text,
        event => panic!("read as {:?}", event),
    }
}

#[test]
fn offsets_of_message_events_fit_the_machine() {
    let word_1 = format!("01{}20", "0".repeat(60));
    let mut data = message_data(&message(7));
    data[0] = 1;
    assert_eq!(
        refused(data),
        format!("type check failed for \"offset (usize)\" with data: {}", word_1)
    );
    // The offset of the data, then its length.
    for pos in [32 + 10 * 32, 32 + 11 * 32] {
        let mut data = message_data(&message(7));
        data[pos] = 0xab;
        let rest: Vec<String> =
            data[pos + 1..pos + 32].iter().map(|byte| format!("{:02x}", byte)).collect();
        assert_eq!(
            refused(data),
            format!(
                "type check failed for \"offset (usize)\" with data: ab{}",
                rest.concat()
            )
        );
    }
    // The first word that is wrong gives the error.
    let mut data = message_data(&message(7));
    data[0] = 1;
    data[32 + 10 * 32] = 0xab;
    assert_eq!(
        refused(data),
        format!("type check failed for \"offset (usize)\" with data: {}", word_1)
    );
}

#[test]
fn parts_of_message_events_lie_within_the_data() {
    let overrun = "ABI decoding failed: buffer overrun while deserializing";
    assert_eq!(refused(vec![]), overrun);
    assert_eq!(refused(vec![0; 31]), overrun);
    assert_eq!(refused(message_data(&message(7))[..32 + 351].to_vec()), overrun);
    // The offset of the message, of its data, and the length of the data.
    for pos in [0, 32 + 10 * 32, 32 + 11 * 32] {
        let mut data = message_data(&message(7));
        data[pos + 28] = 0x7f;
        assert_eq!(refused(data), overrun);
    }
}

#[test]
fn data_of_message_events_has_a_limit() {
    let head = &message_data(&message(7))[..32 + 11 * 32];
    let len: usize = (1 << 30) + 1;
    let mut data = vec![0u8; head.len() + 32 + len];
    data[..head.len()].copy_from_slice(head);
    data[head.len()..head.len() + 32].copy_from_slice(&word(len as u64));
    assert_eq!(
        refused(data),
        "ABI decoding failed: memory limit of 1073741824 bytes exceeded during decoding"
    );
}
