//! The bridge's events in the logs of a trace.
use vstd::prelude::*;

use crate::abi::{
    abi_message, decode_message_sent, decode_signal_sent, decoded_message, keccak256,
    keccak256_digest, law_message_decodes_back, overrun_text,
};
use crate::bytes::{address_word, bytes_equal, bytes_view, uint_word, Bytes32};
use crate::error::{Error, ErrorView};
use crate::message::{message_sized, Message, MessageView};
use crate::trace::{
    bridge_view, extract_bridge_from_call_outputs, frame_message, frame_slot, last_frame_message,
    last_frame_slot, lemma_last_of_concat, lemma_logs_of_concat, lemma_single_frame, log_views,
    logs_of, message_view, or_else, outputs_bridge, preorder, preorder_all, slot_view, CallFrame,
    CallLogFrame, LogView,
};

verus! {

/// The signature of the event `MessageSent`, of which the first parameter is indexed.
pub const MESSAGE_SENT: &'static str =
    "MessageSent(bytes32,(uint64,uint64,uint32,address,uint64,address,uint64,address,address,uint256,bytes))";

/// The signature of the event `SignalSent`, of which no parameter is indexed.
pub const SIGNAL_SENT: &'static str = "SignalSent(address,bytes32,bytes32,bytes32)";

/// The first topic of an event: the digest of its signature.
pub open spec fn event_topic(signature: Seq<char>) -> Seq<u8> {
    keccak256_digest(vstd::utf8::encode_utf8(signature))
}

/// What a log is to the bridge.
#[derive(Debug, PartialEq, Eq)]
pub enum LogEvent {
    /// A message was sent.
    Message(Message),
    /// A signal was sent to this slot.
    Slot(Bytes32),
    /// The log has the topic of `MessageSent` and cannot be decoded.
    BadMessage(String),
    /// The log has the topic of `SignalSent` and cannot be decoded.
    BadSignal(String),
    /// The log is no event of the bridge.
    Other,
}

/// What a `LogEvent` holds.
#[verifier::ext_equal]
pub enum EventView {
    Message(MessageView),
    Slot(Seq<u8>),
    BadMessage(Seq<char>),
    BadSignal(Seq<char>),
    Other,
}

impl View for LogEvent {
    type V = EventView;

    open spec fn view(&self) -> EventView {
        match *self {
            LogEvent::Message(message) => EventView::Message(message@),
            LogEvent::Slot(slot) => EventView::Slot(slot@),
            LogEvent::BadMessage(text) => EventView::BadMessage(text@),
            LogEvent::BadSignal(text) => EventView::BadSignal(text@),
            LogEvent::Other => EventView::Other,
        }
    }
}

/// What the events of a list hold.
pub open spec fn event_views(events: Seq<LogEvent>) -> Seq<EventView> {
    events.map_values(|event: LogEvent| event@)
}

/// Whether a log has the topic of one of the bridge's events.
pub open spec fn is_bridge_log(log: LogView) -> bool {
    log.topics matches Some(topics) && topics.len() > 0 && (topics[0]@ == event_topic(MESSAGE_SENT@)
        || topics[0]@ == event_topic(SIGNAL_SENT@))
}

/// What a log is to the bridge. The first topic tells which event it is; the number of topics and
/// the data have to fit. A log without data counts as one with empty data.
pub open spec fn log_event(log: LogView) -> EventView {
    let data = match log.data {
        Some(data) => data,
        None => Seq::empty(),
    };
    match log.topics {
        Some(topics) => if topics.len() == 0 {
            EventView::Other
        } else if topics[0]@ == event_topic(MESSAGE_SENT@) {
            if topics.len() != 2 {
                EventView::BadMessage("topic list length mismatch"@)
            } else {
                match decoded_message(data) {
                    Ok(message) => EventView::Message(message),
                    Err(text) => EventView::BadMessage(text),
                }
            }
        } else if topics[0]@ == event_topic(SIGNAL_SENT@) {
            if topics.len() != 1 {
                EventView::BadSignal("topic list length mismatch"@)
            } else if data.len() >= 128 {
                EventView::Slot(data.subrange(64, 96))
            } else {
                EventView::BadSignal(overrun_text())
            }
        } else {
            EventView::Other
        },
        None => EventView::Other,
    }
}

/// What logs are to the bridge, one for one.
pub open spec fn log_events(logs: Seq<LogView>) -> Seq<EventView> {
    logs.map_values(|log: LogView| log_event(log))
}

/// The error of an event that cannot be decoded.
pub open spec fn event_error(event: EventView) -> Option<ErrorView> {
    match event {
        EventView::BadMessage(text) => Some(ErrorView::DecodeMessageSent(text)),
        EventView::BadSignal(text) => Some(ErrorView::DecodeSignalSent(text)),
        _ => None,
    }
}

/// The error of the first event that cannot be decoded.
pub open spec fn first_error(events: Seq<EventView>) -> Option<ErrorView>
    decreases events.len(),
{
    if events.len() == 0 {
        None
    } else {
        or_else(first_error(events.drop_last()), event_error(events.last()))
    }
}

/// The last message that was sent.
pub open spec fn last_message(events: Seq<EventView>) -> Option<MessageView>
    decreases events.len(),
{
    if events.len() == 0 {
        None
    } else {
        match events.last() {
            EventView::Message(message) => Some(message),
            _ => last_message(events.drop_last()),
        }
    }
}

/// The last slot that a signal was sent to.
pub open spec fn last_slot(events: Seq<EventView>) -> Option<Seq<u8>>
    decreases events.len(),
{
    if events.len() == 0 {
        None
    } else {
        match events.last() {
            EventView::Slot(slot) => Some(slot),
            _ => last_slot(events.drop_last()),
        }
    }
}

/// The message and the slot that the events of a trace give; where they do not give both, what
/// the call outputs give. An event that cannot be decoded is an error.
pub open spec fn resolved(
    events: Seq<EventView>,
    outputs: Option<(MessageView, Seq<u8>)>,
) -> Result<Option<(MessageView, Seq<u8>)>, ErrorView> {
    match first_error(events) {
        Some(error) => Err(error),
        None => match (last_message(events), last_slot(events)) {
            (Some(message), Some(slot)) => Ok(Some((message, slot))),
            _ => Ok(outputs),
        },
    }
}

/// What the result of a search holds.
pub open spec fn search_view(found: Result<Option<(Message, Bytes32)>, Error>) -> Result<
    Option<(MessageView, Seq<u8>)>,
    ErrorView,
> {
    match found {
        Ok(found) => Ok(bridge_view(found)),
        Err(error) => Err(error@),
    }
}

/// Reads a log.
pub fn read_log(log: &CallLogFrame) -> (event: LogEvent)
    ensures
        event@ == log_event(log@),
{
    let empty: Vec<u8> = Vec::new();
    let data: &[u8] = match &log.data {
        Some(data) => data.as_slice(),
        None => empty.as_slice(),
    };
    assert(data@ == (match log@.data {
        Some(data) => data,
        None => Seq::<u8>::empty(),
    }));
    if let Some(topics) = &log.topics {
        if topics.len() > 0 {
            let message_topic: Bytes32 = keccak256(MESSAGE_SENT.as_bytes());
            let signal_topic: Bytes32 = keccak256(SIGNAL_SENT.as_bytes());
            if bytes_equal(topics[0].as_slice(), message_topic.as_slice()) {
                if topics.len() != 2 {
                    return LogEvent::BadMessage("topic list length mismatch".to_owned());
                }
                return match decode_message_sent(data) {
                    Ok(message) => LogEvent::Message(message),
                    Err(text) => LogEvent::BadMessage(text),
                };
            } else if bytes_equal(topics[0].as_slice(), signal_topic.as_slice()) {
                if topics.len() != 1 {
                    return LogEvent::BadSignal("topic list length mismatch".to_owned());
                }
                return match decode_signal_sent(data) {
                    Ok(event) => LogEvent::Slot(event.slot),
                    Err(text) => LogEvent::BadSignal(text),
                };
            }
        }
    }
    LogEvent::Other
}

/// Reads the logs of a list.
pub fn read_logs(logs: &Vec<CallLogFrame>) -> (events: Vec<LogEvent>)
    ensures
        event_views(events@) == log_events(log_views(logs@)),
{
    let mut events: Vec<LogEvent> = Vec::new();
    let mut i: usize = 0;
    while i < logs.len()
        invariant
            i <= logs@.len(),
            events@.len() == i,
            forall|j: int| 0 <= j < i ==> (#[trigger] events@[j])@ == log_event(logs@[j]@),
        decreases logs@.len() - i,
    {
        events.push(read_log(&logs[i]));
        i = i + 1;
    }
    assert(event_views(events@) =~= log_events(log_views(logs@)));
    events
}

proof fn lemma_first_error_stays(events: Seq<EventView>, k: int)
    requires
        0 <= k <= events.len(),
        first_error(events.take(k)) is Some,
    ensures
        first_error(events) == first_error(events.take(k)),
    decreases events.len(),
{
    if k == events.len() {
        assert(events.take(k) =~= events);
    } else {
        assert(events.drop_last().take(k) =~= events.take(k));
        lemma_first_error_stays(events.drop_last(), k);
    }
}

/// Chooses the message and the slot among the events and the call outputs of a trace.
pub fn resolve_bridge(events: Vec<LogEvent>, frame: &CallFrame) -> (found: Result<
    Option<(Message, Bytes32)>,
    Error,
>)
    ensures
        search_view(found) == resolved(event_views(events@), outputs_bridge(*frame)),
{
    let ghost all = event_views(events@);
    let mut message: Option<Message> = None;
    let mut slot: Option<Bytes32> = None;
    assert(all.take(0) =~= Seq::<EventView>::empty());
    for event in it: events
        invariant
            it.seq() == events@,
            all == event_views(events@),
            first_error(all.take(it.index() as int)) is None,
            message_view(message) == last_message(all.take(it.index() as int)),
            slot_view(slot) == last_slot(all.take(it.index() as int)),
    {
        proof {
            let k = it.index() as int;
            assert(all.take(k + 1).drop_last() =~= all.take(k));
            assert(all.take(k + 1).last() == event@);
            if first_error(all.take(k + 1)) is Some {
                lemma_first_error_stays(all, k + 1);
            }
        }
        match event {
            LogEvent::Message(sent) => {
                message = Some(sent);
            },
            LogEvent::Slot(sent) => {
                slot = Some(sent);
            },
            LogEvent::BadMessage(text) => {
                return Err(Error::DecodeMessageSent(text));
            },
            LogEvent::BadSignal(text) => {
                return Err(Error::DecodeSignalSent(text));
            },
            LogEvent::Other => {},
        }
    }
    assert(all.take(all.len() as int) =~= all);
    match (message, slot) {
        (Some(message), Some(slot)) => Ok(Some((message, slot))),
        _ => Ok(extract_bridge_from_call_outputs(frame)),
    }
}

/// A message event is read back: a log with the topic of `MessageSent`, the message hash as its
/// second topic and an encoded message as its data reads as that message.
pub proof fn law_message_event_reads_back(
    log: LogView,
    topics: Seq<Bytes32>,
    message: MessageView,
)
    requires
        message_sized(message),
        message.data.len() <= 0x4000_0000,
        log.topics == Some(topics),
        topics.len() == 2,
        topics[0]@ == event_topic(MESSAGE_SENT@),
        log.data == Some(uint_word(32) + abi_message(message)),
    ensures
        log_event(log) == EventView::Message(message),
{
    law_message_decodes_back(message);
}

/// A signal event is read back: a log with the topic of `SignalSent` alone and four words as its
/// data, the third of which is the slot, reads as that slot. This needs the two events to have
/// different topics.
pub proof fn law_signal_event_reads_back(
    log: LogView,
    topics: Seq<Bytes32>,
    app: Seq<u8>,
    signal: Seq<u8>,
    slot: Seq<u8>,
    value: Seq<u8>,
)
    requires
        event_topic(MESSAGE_SENT@) != event_topic(SIGNAL_SENT@),
        app.len() == 20,
        signal.len() == 32,
        slot.len() == 32,
        value.len() == 32,
        log.topics == Some(topics),
        topics.len() == 1,
        topics[0]@ == event_topic(SIGNAL_SENT@),
        log.data == Some(address_word(app) + signal + slot + value),
    ensures
        log_event(log) == EventView::Slot(slot),
{
    assert((address_word(app) + signal + slot + value).subrange(64, 96) =~= slot);
}

/// Events outrank call outputs: where every event can be decoded and the events give a message
/// and a slot, the call outputs do not matter.
pub proof fn law_events_outrank_outputs(
    events: Seq<EventView>,
    outputs: Option<(MessageView, Seq<u8>)>,
    message: MessageView,
    slot: Seq<u8>,
)
    requires
        first_error(events) is None,
        last_message(events) == Some(message),
        last_slot(events) == Some(slot),
    ensures
        resolved(events, outputs) == Ok::<_, ErrorView>(Some((message, slot))),
{
}

/// Call outputs stand in for missing events: where no event is a message, or none is a slot, as
/// when the proxy reverts, the call outputs alone decide.
pub proof fn law_outputs_stand_in_for_events(
    events: Seq<EventView>,
    outputs: Option<(MessageView, Seq<u8>)>,
)
    requires
        forall|i: int| 0 <= i < events.len() ==> event_error(#[trigger] events[i]) is None,
        (forall|i: int| 0 <= i < events.len() ==> !((#[trigger] events[i]) is Message)) || (forall|
            i: int,
        |
            0 <= i < events.len() ==> !((#[trigger] events[i]) is Slot)),
    ensures
        resolved(events, outputs) == Ok::<_, ErrorView>(outputs),
{
    lemma_no_error(events);
    if forall|i: int| 0 <= i < events.len() ==> !((#[trigger] events[i]) is Message) {
        lemma_no_message(events);
    } else {
        lemma_no_slot(events);
    }
}

/// An event of the bridge that cannot be decoded fails the search, and the first such event gives
/// the error, whatever else the trace holds.
pub proof fn law_first_bad_event_fails(
    events: Seq<EventView>,
    outputs: Option<(MessageView, Seq<u8>)>,
    k: int,
)
    requires
        0 <= k < events.len(),
        event_error(events[k]) is Some,
        forall|i: int| 0 <= i < k ==> event_error(#[trigger] events[i]) is None,
    ensures
        resolved(events, outputs) == Err::<Option<(MessageView, Seq<u8>)>, ErrorView>(
            event_error(events[k])->0,
        ),
{
    lemma_no_error(events.take(k));
    assert(events.take(k + 1).drop_last() =~= events.take(k));
    lemma_first_error_stays(events, k + 1);
}

/// The last message event counts: what was sent before it is not returned.
pub proof fn law_last_message_counts(events: Seq<EventView>, k: int, message: MessageView)
    requires
        0 <= k < events.len(),
        events[k] == EventView::Message(message),
        forall|i: int| k < i < events.len() ==> !((#[trigger] events[i]) is Message),
    ensures
        last_message(events) == Some(message),
    decreases events.len(),
{
    if k + 1 < events.len() {
        assert(!(events.last() is Message));
        law_last_message_counts(events.drop_last(), k, message);
    }
}

/// The last slot event counts: what was sent before it is not returned.
pub proof fn law_last_slot_counts(events: Seq<EventView>, k: int, slot: Seq<u8>)
    requires
        0 <= k < events.len(),
        events[k] == EventView::Slot(slot),
        forall|i: int| k < i < events.len() ==> !((#[trigger] events[i]) is Slot),
    ensures
        last_slot(events) == Some(slot),
    decreases events.len(),
{
    if k + 1 < events.len() {
        assert(!(events.last() is Slot));
        law_last_slot_counts(events.drop_last(), k, slot);
    }
}

/// The events that are the bridge's.
pub open spec fn bridge_events(events: Seq<EventView>) -> Seq<EventView> {
    events.filter(|event: EventView| !(event is Other))
}

/// The logs with the topic of one of the bridge's events.
pub open spec fn bridge_logs(logs: Seq<LogView>) -> Seq<LogView> {
    logs.filter(|log: LogView| is_bridge_log(log))
}

/// The events of the bridge alone decide.
proof fn lemma_bridge_events_decide(
    events: Seq<EventView>,
    outputs: Option<(MessageView, Seq<u8>)>,
)
    ensures
        first_error(bridge_events(events)) == first_error(events),
        last_message(bridge_events(events)) == last_message(events),
        last_slot(bridge_events(events)) == last_slot(events),
        resolved(bridge_events(events), outputs) == resolved(events, outputs),
    decreases events.len(),
{
    reveal(Seq::filter);
    if events.len() > 0 {
        let rest = bridge_events(events.drop_last());
        lemma_bridge_events_decide(events.drop_last(), outputs);
        assert(rest.push(events.last()).drop_last() =~= rest);
    }
}

/// The logs of the bridge read as its events.
proof fn lemma_bridge_logs_read_as_bridge_events(logs: Seq<LogView>)
    ensures
        bridge_events(log_events(logs)) == log_events(bridge_logs(logs)),
    decreases logs.len(),
{
    reveal(Seq::filter);
    if logs.len() == 0 {
        assert(bridge_events(log_events(logs)) =~= log_events(bridge_logs(logs)));
    } else {
        let rest = logs.drop_last();
        lemma_bridge_logs_read_as_bridge_events(rest);
        assert(log_events(logs).drop_last() =~= log_events(rest));
        assert(log_events(bridge_logs(rest).push(logs.last())) =~= log_events(
            bridge_logs(rest),
        ).push(log_event(logs.last())));
    }
}

/// Logs of other contracts do not count: taking one out of the events, or putting one among them,
/// does not change what is found.
pub proof fn law_other_logs_do_not_count(
    events: Seq<EventView>,
    k: int,
    outputs: Option<(MessageView, Seq<u8>)>,
)
    requires
        0 <= k < events.len(),
        events[k] is Other,
    ensures
        resolved(events.remove(k), outputs) == resolved(events, outputs),
{
    let before = events.take(k);
    let after = events.skip(k + 1);
    let one = seq![events[k]];
    let pred = |event: EventView| !(event is Other);
    assert(events =~= before + one + after);
    assert(events.remove(k) =~= before + after);
    Seq::filter_distributes_over_add(before, one, pred);
    Seq::filter_distributes_over_add(before + one, after, pred);
    Seq::filter_distributes_over_add(before, after, pred);
    assert(one.filter(pred) =~= Seq::<EventView>::empty()) by {
        reveal_with_fuel(Seq::filter, 2);
        assert(one.drop_last() =~= Seq::<EventView>::empty());
    }
    assert(bridge_events(events) =~= bridge_events(events.remove(k)));
    lemma_bridge_events_decide(events, outputs);
    lemma_bridge_events_decide(events.remove(k), outputs);
}

/// Whether two traces are the same call by call, except for logs that are none of the bridge's.
pub open spec fn same_but_other_logs(f: CallFrame, g: CallFrame) -> bool
    decreases f,
{
    &&& f.typ@ == g.typ@
    &&& f.input@ == g.input@
    &&& bytes_view(f.output) == bytes_view(g.output)
    &&& bridge_logs(log_views(f.logs@)) == bridge_logs(log_views(g.logs@))
    &&& all_same_but_other_logs(f.calls@, g.calls@)
}

/// Whether two lists of traces are the same in this way, one by one.
pub open spec fn all_same_but_other_logs(fs: Seq<CallFrame>, gs: Seq<CallFrame>) -> bool
    decreases fs,
{
    &&& fs.len() == gs.len()
    &&& fs.len() == 0 || {
        &&& all_same_but_other_logs(fs.drop_last(), gs.drop_last())
        &&& same_but_other_logs(fs.last(), gs.last())
    }
}

/// Whether two lists of frames give the same to the search.
spec fn search_alike(fs: Seq<CallFrame>, gs: Seq<CallFrame>) -> bool {
    &&& bridge_logs(logs_of(fs)) == bridge_logs(logs_of(gs))
    &&& last_frame_message(fs) == last_frame_message(gs)
    &&& last_frame_slot(fs) == last_frame_slot(gs)
}

proof fn lemma_search_alike_concat(
    a: Seq<CallFrame>,
    b: Seq<CallFrame>,
    c: Seq<CallFrame>,
    d: Seq<CallFrame>,
)
    requires
        search_alike(a, c),
        search_alike(b, d),
    ensures
        search_alike(a + b, c + d),
{
    let pred = |log: LogView| is_bridge_log(log);
    lemma_logs_of_concat(a, b);
    lemma_logs_of_concat(c, d);
    lemma_last_of_concat(a, b);
    lemma_last_of_concat(c, d);
    Seq::filter_distributes_over_add(logs_of(a), logs_of(b), pred);
    Seq::filter_distributes_over_add(logs_of(c), logs_of(d), pred);
}

proof fn lemma_same_traces_search_alike(f: CallFrame, g: CallFrame)
    requires
        same_but_other_logs(f, g),
    ensures
        search_alike(preorder(f), preorder(g)),
    decreases f,
{
    lemma_all_same_traces_search_alike(f.calls@, g.calls@);
    assert(frame_message(f) == frame_message(g));
    assert(frame_slot(f) == frame_slot(g));
    lemma_single_frame(f);
    lemma_single_frame(g);
    lemma_search_alike_concat(
        seq![f],
        preorder_all(f.calls@),
        seq![g],
        preorder_all(g.calls@),
    );
}

proof fn lemma_all_same_traces_search_alike(fs: Seq<CallFrame>, gs: Seq<CallFrame>)
    requires
        all_same_but_other_logs(fs, gs),
    ensures
        search_alike(preorder_all(fs), preorder_all(gs)),
    decreases fs,
{
    if fs.len() > 0 {
        lemma_all_same_traces_search_alike(fs.drop_last(), gs.drop_last());
        lemma_same_traces_search_alike(fs.last(), gs.last());
        lemma_search_alike_concat(
            preorder_all(fs.drop_last()),
            preorder(fs.last()),
            preorder_all(gs.drop_last()),
            preorder(gs.last()),
        );
    }
}

/// Two traces that differ only in logs that are none of the bridge's give the same.
pub proof fn lemma_other_logs_do_not_count(f: CallFrame, g: CallFrame)
    requires
        same_but_other_logs(f, g),
    ensures
        resolved(log_events(logs_of(preorder(f))), outputs_bridge(f)) == resolved(
            log_events(logs_of(preorder(g))),
            outputs_bridge(g),
        ),
{
    let f_logs = logs_of(preorder(f));
    let g_logs = logs_of(preorder(g));
    lemma_same_traces_search_alike(f, g);
    lemma_bridge_logs_read_as_bridge_events(f_logs);
    lemma_bridge_logs_read_as_bridge_events(g_logs);
    lemma_bridge_events_decide(log_events(f_logs), outputs_bridge(f));
    lemma_bridge_events_decide(log_events(g_logs), outputs_bridge(g));
}

proof fn lemma_no_error(events: Seq<EventView>)
    requires
        forall|i: int| 0 <= i < events.len() ==> event_error(#[trigger] events[i]) is None,
    ensures
        first_error(events) is None,
    decreases events.len(),
{
    if events.len() > 0 {
        lemma_no_error(events.drop_last());
    }
}

proof fn lemma_no_message(events: Seq<EventView>)
    requires
        forall|i: int| 0 <= i < events.len() ==> !((#[trigger] events[i]) is Message),
    ensures
        last_message(events) is None,
    decreases events.len(),
{
    if events.len() > 0 {
        lemma_no_message(events.drop_last());
    }
}

proof fn lemma_no_slot(events: Seq<EventView>)
    requires
        forall|i: int| 0 <= i < events.len() ==> !((#[trigger] events[i]) is Slot),
    ensures
        last_slot(events) is None,
    decreases events.len(),
{
    if events.len() > 0 {
        lemma_no_slot(events.drop_last());
    }
}

/// The data of a log, empty where there is none.
pub open spec fn log_data(log: LogView) -> Seq<u8> {
    match log.data {
        Some(data) => data,
        None => Seq::empty(),
    }
}

/// A log whose first topic is the digest of `MessageSent` is a message event with two topics,
/// whatever the second one is, if its data decodes; the message is what the data decodes to.
pub proof fn law_message_logs(log: LogView, topics: Seq<Bytes32>)
    requires
        log.topics == Some(topics),
        topics.len() > 0,
        topics[0]@ == keccak256_digest(
            vstd::utf8::encode_utf8(
                "MessageSent(bytes32,(uint64,uint64,uint32,address,uint64,address,uint64,address,address,uint256,bytes))"@,
            ),
        ),
    ensures
        topics.len() == 2 ==> match decoded_message(log_data(log)) {
            Ok(message) => log_event(log) == EventView::Message(message),
            Err(text) => log_event(log) == EventView::BadMessage(text),
        },
        topics.len() != 2 ==> log_event(log) == EventView::BadMessage(
            "topic list length mismatch"@,
        ),
{
}

/// A log whose first topic is the digest of `SignalSent` is a signal event with that topic alone,
/// if its data has four words; the slot is the third, whatever stands in the others and behind
/// them. This needs the two events to have different topics.
pub proof fn law_signal_logs(log: LogView, topics: Seq<Bytes32>)
    requires
        log.topics == Some(topics),
        topics.len() > 0,
        topics[0]@ == keccak256_digest(
            vstd::utf8::encode_utf8("SignalSent(address,bytes32,bytes32,bytes32)"@),
        ),
        topics[0]@ != event_topic(MESSAGE_SENT@),
    ensures
        topics.len() == 1 && log_data(log).len() >= 128 ==> log_event(log) == EventView::Slot(
            log_data(log).subrange(64, 96),
        ),
        topics.len() == 1 && log_data(log).len() < 128 ==> log_event(log) == EventView::BadSignal(
            "ABI decoding failed: buffer overrun while deserializing"@,
        ),
        topics.len() != 1 ==> log_event(log) == EventView::BadSignal(
            "topic list length mismatch"@,
        ),
{
}

/// A log is no event of the bridge exactly if it has no first topic, or one that is the digest of
/// neither event, whatever its other topics and its data are.
pub proof fn law_other_logs_are_no_events(log: LogView)
    ensures
        log_event(log) is Other <==> !is_bridge_log(log),
        log_event(log) is Other <==> match log.topics {
            Some(topics) => topics.len() == 0 || {
                &&& topics[0]@ != keccak256_digest(
                    vstd::utf8::encode_utf8(
                        "MessageSent(bytes32,(uint64,uint64,uint32,address,uint64,address,uint64,address,address,uint256,bytes))"@,
                    ),
                )
                &&& topics[0]@ != keccak256_digest(
                    vstd::utf8::encode_utf8("SignalSent(address,bytes32,bytes32,bytes32)"@),
                )
            },
            None => true,
        },
{
}

/// Logs are read one for one, and only events that cannot be decoded are errors, each with its own
/// text.
pub proof fn law_logs_are_read_one_by_one(
    logs: Seq<LogView>,
    message: MessageView,
    slot: Seq<u8>,
    text: Seq<char>,
)
    ensures
        log_events(logs).len() == logs.len(),
        forall|i: int| 0 <= i < logs.len() ==> log_events(logs)[i] == log_event(#[trigger] logs[i]),
        event_error(EventView::Message(message)) is None,
        event_error(EventView::Slot(slot)) is None,
        event_error(EventView::Other) is None,
        event_error(EventView::BadMessage(text)) == Some(ErrorView::DecodeMessageSent(text)),
        event_error(EventView::BadSignal(text)) == Some(ErrorView::DecodeSignalSent(text)),
{
}

/// Where every event can be decoded, the last message and the last slot among them are found,
/// wherever they stand, whatever came before them, and whatever the call outputs give.
pub proof fn law_last_events_are_found(
    events: Seq<EventView>,
    outputs: Option<(MessageView, Seq<u8>)>,
    i: int,
    j: int,
    message: MessageView,
    slot: Seq<u8>,
)
    requires
        0 <= i < events.len(),
        0 <= j < events.len(),
        events[i] == EventView::Message(message),
        events[j] == EventView::Slot(slot),
        forall|k: int| i < k < events.len() ==> !((#[trigger] events[k]) is Message),
        forall|k: int| j < k < events.len() ==> !((#[trigger] events[k]) is Slot),
        forall|k: int|
            0 <= k < events.len() ==> !((#[trigger] events[k]) is BadMessage)
                && !(events[k] is BadSignal),
    ensures
        resolved(events, outputs) == Ok::<_, ErrorView>(Some((message, slot))),
{
    lemma_no_error(events);
    law_last_message_counts(events, i, message);
    law_last_slot_counts(events, j, slot);
}

/// What is known of an event, and of the result of a search, is all that it holds.
pub proof fn law_views_of_events(
    message: Message,
    slot: Bytes32,
    text: String,
    error: Error,
    events: Seq<LogEvent>,
)
    ensures
        LogEvent::Message(message)@ == EventView::Message(message@),
        LogEvent::Slot(slot)@ == EventView::Slot(slot@),
        LogEvent::BadMessage(text)@ == EventView::BadMessage(text@),
        LogEvent::BadSignal(text)@ == EventView::BadSignal(text@),
        LogEvent::Other@ == EventView::Other,
        search_view(Ok(Some((message, slot)))) == Ok::<_, ErrorView>(Some((message@, slot@))),
        search_view(Ok(None)) == Ok::<Option<(MessageView, Seq<u8>)>, ErrorView>(None),
        search_view(Err(error)) == Err::<Option<(MessageView, Seq<u8>)>, _>(error@),
        event_views(events).len() == events.len(),
        forall|i: int| 0 <= i < events.len() ==> event_views(events)[i] == (#[trigger] events[i])@,
{
}

} // verus!
