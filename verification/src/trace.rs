//! Call traces: the logs and the call outputs of a simulated transaction.
use vstd::prelude::*;
use vstd::slice::slice_to_vec;

use crate::bytes::{
    be_nat, has_selector, law_length_prefixed_lies_within, lemma_be_bytes_zero,
    lemma_be_nat_bound, lemma_be_nat_split, lemma_low_uint_of_uint_word, lemma_pow256_values,
    length_prefixed, low_address, low_uint, pow256, read_array, read_length_prefixed, read_u32,
    read_u64, starts_with, uint_word, zeros, Address, Bytes32,
};
use crate::message::{
    lemma_message_of_words, message_of_words, message_sized, words_hold_message, Message,
    MessageView,
};
use crate::reading::{reads_message, uint_at};

verus! {

/// A log that a call emitted.
#[derive(Debug, PartialEq, Eq)]
pub struct CallLogFrame {
    pub topics: Option<Vec<Bytes32>>,
    pub data: Option<Vec<u8>>,
}

/// What a `CallLogFrame` holds.
#[verifier::ext_equal]
pub struct LogView {
    pub topics: Option<Seq<Bytes32>>,
    pub data: Option<Seq<u8>>,
}

impl View for CallLogFrame {
    type V = LogView;

    open spec fn view(&self) -> LogView {
        LogView {
            topics: match self.topics {
                Some(topics) => Some(topics@),
                None => None,
            },
            data: match self.data {
                Some(data) => Some(data@),
                None => None,
            },
        }
    }
}

impl Clone for CallLogFrame {
    fn clone(&self) -> (copy: Self)
        ensures
            copy@ == self@,
    {
        CallLogFrame {
            topics: match &self.topics {
                Some(topics) => Some(slice_to_vec(topics.as_slice())),
                None => None,
            },
            data: match &self.data {
                Some(data) => Some(slice_to_vec(data.as_slice())),
                None => None,
            },
        }
    }
}

/// One call of a trace, with the calls that it made.
#[derive(Debug, PartialEq, Eq)]
pub struct CallFrame {
    /// The kind of the call, such as `CALL` or `DELEGATECALL`.
    pub typ: String,
    pub input: Vec<u8>,
    pub output: Option<Vec<u8>>,
    pub logs: Vec<CallLogFrame>,
    pub calls: Vec<CallFrame>,
}

/// A frame and all frames below it, each before the frames that it called.
pub open spec fn preorder(frame: CallFrame) -> Seq<CallFrame>
    decreases frame,
{
    seq![frame] + preorder_all(frame.calls@)
}

/// The frames of several calls, call by call.
pub open spec fn preorder_all(frames: Seq<CallFrame>) -> Seq<CallFrame>
    decreases frames,
{
    if frames.len() == 0 {
        Seq::empty()
    } else {
        preorder_all(frames.drop_last()) + preorder(frames.last())
    }
}

/// What the logs of a list hold.
pub open spec fn log_views(logs: Seq<CallLogFrame>) -> Seq<LogView> {
    logs.map_values(|log: CallLogFrame| log@)
}

/// The logs of the frames, frame by frame.
pub open spec fn logs_of(frames: Seq<CallFrame>) -> Seq<LogView>
    decreases frames.len(),
{
    if frames.len() == 0 {
        Seq::empty()
    } else {
        logs_of(frames.drop_last()) + log_views(frames.last().logs@)
    }
}

/// The logs of two lists of frames are those of the first, then those of the second.
pub proof fn lemma_logs_of_concat(a: Seq<CallFrame>, b: Seq<CallFrame>)
    ensures
        logs_of(a + b) == logs_of(a) + logs_of(b),
    decreases b.len(),
{
    if b.len() == 0 {
        assert(a + b =~= a);
        assert(logs_of(a) + logs_of(b) =~= logs_of(a));
    } else {
        assert((a + b).drop_last() =~= a + b.drop_last());
        lemma_logs_of_concat(a, b.drop_last());
        assert(logs_of(a + b) =~= logs_of(a) + logs_of(b));
    }
}

/// Collects the logs of a frame and of all frames below it, each frame's own logs first.
pub fn collect_logs_recursive(frame: &CallFrame) -> (logs: Vec<CallLogFrame>)
    ensures
        log_views(logs@) == logs_of(preorder(*frame)),
    decreases frame,
{
    let mut logs: Vec<CallLogFrame> = Vec::new();
    let mut i: usize = 0;
    while i < frame.logs.len()
        invariant
            i <= frame.logs@.len(),
            log_views(logs@) == log_views(frame.logs@.take(i as int)),
        decreases frame.logs@.len() - i,
    {
        let ghost before = logs@;
        logs.push(frame.logs[i].clone());
        proof {
            assert(log_views(logs@) =~= log_views(before).push(frame.logs@[i as int]@));
            assert(log_views(frame.logs@.take(i + 1)) =~= log_views(
                frame.logs@.take(i as int),
            ).push(frame.logs@[i as int]@));
        }
        i = i + 1;
    }
    proof {
        assert(frame.logs@.take(frame.logs@.len() as int) =~= frame.logs@);
        let own = seq![*frame];
        lemma_single_frame(*frame);
        assert(frame.calls@.take(0) =~= Seq::<CallFrame>::empty());
        assert(own + preorder_all(frame.calls@.take(0)) =~= own);
    }
    let mut j: usize = 0;
    while j < frame.calls.len()
        invariant
            j <= frame.calls@.len(),
            log_views(logs@) == logs_of(seq![*frame] + preorder_all(frame.calls@.take(j as int))),
        decreases frame.calls@.len() - j,
    {
        let ghost before = logs@;
        let mut below: Vec<CallLogFrame> = collect_logs_recursive(&frame.calls[j]);
        let ghost added = below@;
        logs.append(&mut below);
        proof {
            let done = frame.calls@.take(j as int);
            let next = frame.calls@.take(j + 1);
            assert(next.drop_last() =~= done);
            assert(log_views(logs@) =~= log_views(before) + log_views(added));
            lemma_logs_of_concat(
                seq![*frame] + preorder_all(done),
                preorder(frame.calls@[j as int]),
            );
            assert(seq![*frame] + preorder_all(next) =~= seq![*frame] + preorder_all(done)
                + preorder(frame.calls@[j as int]));
        }
        j = j + 1;
    }
    proof {
        assert(frame.calls@.take(frame.calls@.len() as int) =~= frame.calls@);
    }
    logs
}

/// The selector of `sendMessage`.
pub open spec fn send_message_selector() -> Seq<u8> {
    seq![0x1bu8, 0xdb, 0x00, 0x37]
}

/// The selector of `sendSignal`.
pub open spec fn send_signal_selector() -> Seq<u8> {
    seq![0x66u8, 0xca, 0x2b, 0xc0]
}

/// Where the message stands in the output of `sendMessage`, behind the message hash and the
/// offset of the message.
pub const MESSAGE_START: usize = 64;

/// Word `i` of the message in the output of `sendMessage`; zero where the output ends early.
pub open spec fn message_word(out: Seq<u8>, i: int) -> Seq<u8> {
    let start = MESSAGE_START + i * 32;
    if start + 32 <= out.len() {
        out.subrange(start, start + 32)
    } else {
        zeros(32)
    }
}

/// The words of the message in the output of `sendMessage`: one for each field of fixed size and
/// the offset of the data.
pub open spec fn message_words(out: Seq<u8>) -> Seq<Seq<u8>> {
    Seq::new(11, |i: int| message_word(out, i))
}

/// The message in the output of `sendMessage`: its words, and the data at the offset that the
/// last word gives from where the message starts. Data that is not within the output is empty.
pub open spec fn output_message(out: Seq<u8>) -> MessageView {
    let data_start = MESSAGE_START + low_uint(message_word(out, 10), 8);
    message_of_words(
        message_words(out),
        match length_prefixed(out, data_start) {
            Some(data) => data,
            None => Seq::empty(),
        },
    )
}

/// The message that one frame sent: it is a plain call of `sendMessage` whose output is long
/// enough to hold a message.
pub open spec fn frame_message(frame: CallFrame) -> Option<MessageView> {
    match frame.output {
        Some(out) => if frame.typ@ == "CALL"@ && starts_with(frame.input@, send_message_selector())
            && out@.len() > 96 {
            Some(output_message(out@))
        } else {
            None
        },
        None => None,
    }
}

/// The signal slot that one frame sent: it calls `sendSignal` in any way, and its output
/// begins with the slot.
pub open spec fn frame_slot(frame: CallFrame) -> Option<Seq<u8>> {
    match frame.output {
        Some(out) => if starts_with(frame.input@, send_signal_selector()) && out@.len() >= 32 {
            Some(out@.subrange(0, 32))
        } else {
            None
        },
        None => None,
    }
}

/// The message of the last frame that sent one.
pub open spec fn last_frame_message(frames: Seq<CallFrame>) -> Option<MessageView>
    decreases frames.len(),
{
    if frames.len() == 0 {
        None
    } else if frame_message(frames.last()) is Some {
        frame_message(frames.last())
    } else {
        last_frame_message(frames.drop_last())
    }
}

/// The signal slot of the last frame that sent one.
pub open spec fn last_frame_slot(frames: Seq<CallFrame>) -> Option<Seq<u8>>
    decreases frames.len(),
{
    if frames.len() == 0 {
        None
    } else if frame_slot(frames.last()) is Some {
        frame_slot(frames.last())
    } else {
        last_frame_slot(frames.drop_last())
    }
}

/// The message and the slot that the call outputs of a trace give, if they give both.
pub open spec fn outputs_bridge(frame: CallFrame) -> Option<(MessageView, Seq<u8>)> {
    match (last_frame_message(preorder(frame)), last_frame_slot(preorder(frame))) {
        (Some(message), Some(slot)) => Some((message, slot)),
        _ => None,
    }
}

/// What an optional message holds.
pub open spec fn message_view(message: Option<Message>) -> Option<MessageView> {
    match message {
        Some(message) => Some(message@),
        None => None,
    }
}

/// What an optional slot holds.
pub open spec fn slot_view(slot: Option<Bytes32>) -> Option<Seq<u8>> {
    match slot {
        Some(slot) => Some(slot@),
        None => None,
    }
}

/// What an optional message with its slot holds.
pub open spec fn bridge_view(found: Option<(Message, Bytes32)>) -> Option<(MessageView, Seq<u8>)> {
    match found {
        Some((message, slot)) => Some((message@, slot@)),
        None => None,
    }
}

/// The first value, or else the second.
pub open spec fn or_else<T>(first: Option<T>, second: Option<T>) -> Option<T> {
    if first is Some {
        first
    } else {
        second
    }
}

/// Of two lists of frames the second counts where it gives something.
pub proof fn lemma_last_of_concat(a: Seq<CallFrame>, b: Seq<CallFrame>)
    ensures
        last_frame_message(a + b) == or_else(last_frame_message(b), last_frame_message(a)),
        last_frame_slot(a + b) == or_else(last_frame_slot(b), last_frame_slot(a)),
    decreases b.len(),
{
    if b.len() == 0 {
        assert(a + b =~= a);
    } else {
        assert((a + b).drop_last() =~= a + b.drop_last());
        lemma_last_of_concat(a, b.drop_last());
    }
}

/// What a single frame gives.
pub proof fn lemma_single_frame(frame: CallFrame)
    ensures
        logs_of(seq![frame]) == log_views(frame.logs@),
        last_frame_message(seq![frame]) == frame_message(frame),
        last_frame_slot(seq![frame]) == frame_slot(frame),
{
    let own = seq![frame];
    assert(own.drop_last() =~= Seq::<CallFrame>::empty());
    reveal_with_fuel(logs_of, 2);
    reveal_with_fuel(last_frame_message, 2);
    reveal_with_fuel(last_frame_slot, 2);
    assert(logs_of(own) =~= log_views(frame.logs@));
}

/// Copies word `i` of the message in the output of `sendMessage`.
fn read_message_word(out: &[u8], i: usize) -> (word: Bytes32)
    requires
        i <= 10,
    ensures
        word@ == message_word(out@, i as int),
{
    let start: usize = MESSAGE_START + i * 32;
    if start + 32 <= out.len() {
        read_array::<32>(out, start)
    } else {
        let word: Bytes32 = [0u8; 32];
        assert(word@ =~= zeros(32));
        word
    }
}

/// The integer in the last eight bytes of a word.
fn word_u64(word: &Bytes32) -> (value: u64)
    ensures
        value == low_uint(word@, 8),
{
    read_u64(word.as_slice(), 24)
}

/// The integer in the last four bytes of a word.
fn word_u32(word: &Bytes32) -> (value: u32)
    ensures
        value == low_uint(word@, 4),
{
    read_u32(word.as_slice(), 28)
}

/// The address in the last twenty bytes of a word.
fn word_address(word: &Bytes32) -> (address: Address)
    ensures
        address@ == low_address(word@),
{
    read_array::<20>(word.as_slice(), 12)
}

/// Reads the message in the output of `sendMessage`.
pub fn read_output_message(out: &[u8]) -> (message: Message)
    ensures
        message@ == output_message(out@),
{
    let data_offset: u64 = word_u64(&read_message_word(out, 10));
    let data: Vec<u8> = match read_length_prefixed(out, MESSAGE_START, data_offset) {
        Some(data) => data,
        None => Vec::new(),
    };
    Message {
        id: word_u64(&read_message_word(out, 0)),
        fee: word_u64(&read_message_word(out, 1)),
        gas_limit: word_u32(&read_message_word(out, 2)),
        from: word_address(&read_message_word(out, 3)),
        src_chain_id: word_u64(&read_message_word(out, 4)),
        src_owner: word_address(&read_message_word(out, 5)),
        dest_chain_id: word_u64(&read_message_word(out, 6)),
        dest_owner: word_address(&read_message_word(out, 7)),
        to: word_address(&read_message_word(out, 8)),
        value: read_message_word(out, 9),
        data,
    }
}

/// Walks a frame and all frames below it; a later frame replaces what an earlier one gave.
fn walk(frame: &CallFrame, message: &mut Option<Message>, slot: &mut Option<Bytes32>)
    ensures
        message_view(*final(message)) == or_else(
            last_frame_message(preorder(*frame)),
            message_view(*old(message)),
        ),
        slot_view(*final(slot)) == or_else(
            last_frame_slot(preorder(*frame)),
            slot_view(*old(slot)),
        ),
    decreases frame,
{
    let send_message: [u8; 4] = [0x1b, 0xdb, 0x00, 0x37];
    let send_signal: [u8; 4] = [0x66, 0xca, 0x2b, 0xc0];
    proof {
        assert(send_message@ =~= send_message_selector());
        assert(send_signal@ =~= send_signal_selector());
    }
    let call: String = "CALL".to_owned();
    if let Some(out) = &frame.output {
        if frame.typ == call && has_selector(frame.input.as_slice(), &send_message) && out.len()
            > 96 {
            *message = Some(read_output_message(out.as_slice()));
        }
        if has_selector(frame.input.as_slice(), &send_signal) && out.len() >= 32 {
            *slot = Some(read_array::<32>(out.as_slice(), 0));
        }
    }
    proof {
        let own = seq![*frame];
        lemma_single_frame(*frame);
        assert(frame.calls@.take(0) =~= Seq::<CallFrame>::empty());
        assert(own + preorder_all(frame.calls@.take(0)) =~= own);
    }
    let mut j: usize = 0;
    while j < frame.calls.len()
        invariant
            j <= frame.calls@.len(),
            message_view(*message) == or_else(
                last_frame_message(seq![*frame] + preorder_all(frame.calls@.take(j as int))),
                message_view(*old(message)),
            ),
            slot_view(*slot) == or_else(
                last_frame_slot(seq![*frame] + preorder_all(frame.calls@.take(j as int))),
                slot_view(*old(slot)),
            ),
        decreases frame.calls@.len() - j,
    {
        walk(&frame.calls[j], message, slot);
        proof {
            let done = frame.calls@.take(j as int);
            let next = frame.calls@.take(j + 1);
            assert(next.drop_last() =~= done);
            lemma_last_of_concat(
                seq![*frame] + preorder_all(done),
                preorder(frame.calls@[j as int]),
            );
            assert(seq![*frame] + preorder_all(next) =~= seq![*frame] + preorder_all(done)
                + preorder(frame.calls@[j as int]));
        }
        j = j + 1;
    }
    proof {
        assert(frame.calls@.take(frame.calls@.len() as int) =~= frame.calls@);
    }
}

/// Extracts the bridge message and the signal slot from the outputs of the calls in a trace,
/// for a trace without their events, such as that of a proxy that reverts.
pub fn extract_bridge_from_call_outputs(frame: &CallFrame) -> (found: Option<(Message, Bytes32)>)
    ensures
        bridge_view(found) == outputs_bridge(*frame),
{
    let mut message: Option<Message> = None;
    let mut slot: Option<Bytes32> = None;
    walk(frame, &mut message, &mut slot);
    match (message, slot) {
        (Some(message), Some(slot)) => Some((message, slot)),
        _ => None,
    }
}

/// Whether the output of `sendMessage` holds the message as the ABI lays it out: one word for
/// each field of fixed size, then the offset of the data, and at that offset the data behind
/// its length.
pub open spec fn holds_message(out: Seq<u8>, message: MessageView, offset: nat) -> bool {
    let data_start = MESSAGE_START + offset;
    let data_end = data_start + 32 + message.data.len();
    &&& out.len() >= MESSAGE_START + 11 * 32
    &&& out.len() >= data_end
    &&& words_hold_message(message_words(out), message)
    &&& message_word(out, 10) == uint_word(offset)
    &&& out.subrange(data_start, data_start + 32) == uint_word(message.data.len())
    &&& out.subrange(data_start + 32, data_end as int) == message.data
}

/// A message that the output of `sendMessage` holds is read back from it, field by field,
/// wherever its data stands.
pub proof fn law_output_message_reads_back(out: Seq<u8>, message: MessageView, offset: nat)
    requires
        holds_message(out, message, offset),
        message_sized(message),
        offset <= u64::MAX,
        message.data.len() <= u64::MAX,
    ensures
        output_message(out) == message,
{
    lemma_pow256_values();
    lemma_message_of_words(message_words(out), message);
    lemma_low_uint_of_uint_word(offset, 8);
    lemma_low_uint_of_uint_word(message.data.len(), 8);
    assert(output_message(out) =~= message);
}

/// The logs of a call come before those of the calls that it made, and these come call by call.
pub proof fn law_logs_in_call_order(frame: CallFrame)
    ensures
        logs_of(preorder(frame)) == log_views(frame.logs@) + logs_of(preorder_all(frame.calls@)),
{
    lemma_single_frame(frame);
    lemma_logs_of_concat(seq![frame], preorder_all(frame.calls@));
}

proof fn lemma_preorder_all_flattens(frames: Seq<CallFrame>)
    ensures
        preorder_all(frames) == Seq::new(frames.len(), |k: int| preorder(frames[k])).flatten(),
        logs_of(preorder_all(frames)) == Seq::new(
            frames.len(),
            |k: int| logs_of(preorder(frames[k])),
        ).flatten(),
    decreases frames.len(),
{
    let walks = Seq::new(frames.len(), |k: int| preorder(frames[k]));
    let logs = Seq::new(frames.len(), |k: int| logs_of(preorder(frames[k])));
    if frames.len() > 0 {
        let rest = frames.drop_last();
        let rest_walks = Seq::new(rest.len(), |k: int| preorder(rest[k]));
        let rest_logs = Seq::new(rest.len(), |k: int| logs_of(preorder(rest[k])));
        lemma_preorder_all_flattens(rest);
        assert(walks =~= rest_walks.push(preorder(frames.last())));
        assert(logs =~= rest_logs.push(logs_of(preorder(frames.last()))));
        rest_walks.lemma_flatten_push(preorder(frames.last()));
        rest_logs.lemma_flatten_push(logs_of(preorder(frames.last())));
        lemma_logs_of_concat(preorder_all(rest), preorder(frames.last()));
    }
}

/// Every call of every frame is walked, whatever its type: the walk of a frame is the frame itself
/// and then the walks of all its calls, one after the other, and the logs that are collected are
/// its own and then those that are collected from each of its calls.
pub proof fn law_every_call_is_walked(frame: CallFrame)
    ensures
        preorder(frame) == seq![frame] + Seq::new(
            frame.calls@.len(),
            |k: int| preorder(frame.calls@[k]),
        ).flatten(),
        logs_of(preorder(frame)) == frame.logs@.map_values(|log: CallLogFrame| log@) + Seq::new(
            frame.calls@.len(),
            |k: int| logs_of(preorder(frame.calls@[k])),
        ).flatten(),
{
    law_logs_in_call_order(frame);
    lemma_preorder_all_flattens(frame.calls@);
}

proof fn lemma_flatten_contains<A>(parts: Seq<Seq<A>>, k: int, i: int)
    requires
        0 <= k < parts.len(),
        0 <= i < parts[k].len(),
    ensures
        parts.flatten().contains(parts[k][i]),
    decreases parts.len(),
{
    let rest = parts.drop_first();
    if k == 0 {
        assert(parts.flatten()[i] == parts[k][i]);
    } else {
        lemma_flatten_contains(rest, k - 1, i);
        let j = choose|j: int|
            0 <= j < rest.flatten().len() && rest.flatten()[j] == rest[k - 1][i];
        assert(parts.flatten()[parts[0].len() + j] == parts[k][i]);
    }
}

/// What is collected from a call is collected from its caller too: every log of a call, and every
/// frame of its walk, is among those of the frame that made the call, whatever the call's type.
pub proof fn law_callers_hold_what_calls_hold(frame: CallFrame, k: int)
    requires
        0 <= k < frame.calls@.len(),
    ensures
        forall|log: LogView|
            logs_of(preorder(frame.calls@[k])).contains(log) ==> #[trigger] logs_of(
                preorder(frame),
            ).contains(log),
        forall|below: CallFrame|
            preorder(frame.calls@[k]).contains(below) ==> #[trigger] preorder(frame).contains(
                below,
            ),
        preorder(frame).len() >= 1 + preorder(frame.calls@[k]).len(),
{
    law_every_call_is_walked(frame);
    let n = frame.calls@.len();
    let walks = Seq::new(n, |j: int| preorder(frame.calls@[j]));
    let logs = Seq::new(n, |j: int| logs_of(preorder(frame.calls@[j])));
    let own = frame.logs@.map_values(|log: CallLogFrame| log@);
    assert forall|log: LogView|
        logs_of(preorder(frame.calls@[k])).contains(log) implies #[trigger] logs_of(
        preorder(frame),
    ).contains(log) by {
        let i = choose|i: int| 0 <= i < logs[k].len() && logs[k][i] == log;
        lemma_flatten_contains(logs, k, i);
        let j = choose|j: int| 0 <= j < logs.flatten().len() && logs.flatten()[j] == log;
        assert(logs_of(preorder(frame))[own.len() + j] == log);
    }
    assert forall|below: CallFrame|
        preorder(frame.calls@[k]).contains(below) implies #[trigger] preorder(frame).contains(
        below,
    ) by {
        let i = choose|i: int| 0 <= i < walks[k].len() && walks[k][i] == below;
        lemma_flatten_contains(walks, k, i);
        let j = choose|j: int| 0 <= j < walks.flatten().len() && walks.flatten()[j] == below;
        assert(preorder(frame)[1 + j] == below);
    }
    walks.lemma_flatten_length_ge_single_element_length(k);
    walks.lemma_flatten_and_flatten_alt_are_equivalent();
}

/// A frame gives a message exactly if it is of the type `CALL`, its input begins with the four
/// bytes of `sendMessage`, whatever follows them, and its output has more than three words. A
/// frame gives a slot exactly if its input begins with the four bytes of `sendSignal`, whatever
/// its type, and its output has a word; the slot is that word.
pub proof fn law_frames_are_known_by_their_first_bytes(frame: CallFrame)
    ensures
        frame_message(frame) is Some <==> {
            &&& frame.typ@ == "CALL"@
            &&& frame.input@.len() >= 4
            &&& frame.input@[0] == 0x1b
            &&& frame.input@[1] == 0xdb
            &&& frame.input@[2] == 0x00
            &&& frame.input@[3] == 0x37
            &&& frame.output is Some
            &&& frame.output->0@.len() > 96
        },
        frame_slot(frame) is Some <==> {
            &&& frame.input@.len() >= 4
            &&& frame.input@[0] == 0x66
            &&& frame.input@[1] == 0xca
            &&& frame.input@[2] == 0x2b
            &&& frame.input@[3] == 0xc0
            &&& frame.output is Some
            &&& frame.output->0@.len() >= 32
        },
        frame_slot(frame) matches Some(slot) ==> slot == frame.output->0@.take(32),
{
    let input = frame.input@;
    if input.len() >= 4 {
        let head = input.subrange(0, 4);
        assert(head[0] == input[0] && head[1] == input[1] && head[2] == input[2] && head[3]
            == input[3]);
        if input[0] == 0x1b && input[1] == 0xdb && input[2] == 0x00 && input[3] == 0x37 {
            assert(head =~= send_message_selector());
        }
        if input[0] == 0x66 && input[1] == 0xca && input[2] == 0x2b && input[3] == 0xc0 {
            assert(head =~= send_signal_selector());
        }
    }
    assert(send_message_selector().len() == 4 && send_signal_selector().len() == 4);
}

/// A message that `sendMessage` returned is recovered: a frame of the type `CALL` whose input is
/// the four bytes of `sendMessage` and anything behind them, and whose output is a hash, a word
/// and a message as the ABI lays it out, gives that message.
pub proof fn law_sent_message_is_recovered(
    frame: CallFrame,
    argument: Seq<u8>,
    out: Seq<u8>,
    message: MessageView,
)
    requires
        message_sized(message),
        frame.typ@ == "CALL"@,
        frame.input@ == seq![0x1bu8, 0xdb, 0x00, 0x37] + argument,
        frame.output matches Some(output) && output@ == out,
        reads_message(out, 64, message),
        out.len() <= u64::MAX,
    ensures
        frame_message(frame) == Some(message),
{
    law_frames_are_known_by_their_first_bytes(frame);
    law_output_is_read_by_its_bytes(out);
    lemma_pow256_values();
    lemma_last_bytes(out, 64, 8);
    lemma_last_bytes(out, 96, 8);
    lemma_last_bytes(out, 128, 4);
    lemma_last_bytes(out, 192, 8);
    lemma_last_bytes(out, 256, 8);
    lemma_last_bytes(out, 384, 8);
    lemma_last_bytes(out, 64 + uint_at(out, 384) as int, 8);
    assert(output_message(out) =~= message);
}

/// Where the first bytes of a word hold nothing, the last ones hold its value.
proof fn lemma_last_bytes(s: Seq<u8>, pos: int, len: nat)
    requires
        0 <= pos,
        pos + 32 <= s.len(),
        0 < len <= 32,
        uint_at(s, pos) < pow256(len),
    ensures
        be_nat(s.subrange(pos + 32 - len, pos + 32)) == uint_at(s, pos),
{
    let word = s.subrange(pos, pos + 32);
    lemma_be_nat_split(word, (32 - len) as nat);
    assert(word.subrange(32 - len, 32) =~= s.subrange(pos + 32 - len, pos + 32));
}

/// The output of `sendMessage` is read by its bytes: of each field the last bytes of its word
/// count, whatever stands before them, and a field whose word is cut off is zero. The data stands
/// where the last eight bytes of its offset say, and is empty where it is cut off.
pub proof fn law_output_is_read_by_its_bytes(out: Seq<u8>)
    ensures
        ({
            let m = output_message(out);
            let n = out.len();
            let no_address = Seq::new(20, |i: int| 0u8);
            let offset = if n >= 416 {
                be_nat(out.subrange(408, 416))
            } else {
                0
            };
            let at = 64int + offset;
            let len = be_nat(out.subrange(at + 24, at + 32));
            &&& m.id == (if n >= 96 { be_nat(out.subrange(88, 96)) } else { 0 })
            &&& m.fee == (if n >= 128 { be_nat(out.subrange(120, 128)) } else { 0 })
            &&& m.gas_limit == (if n >= 160 { be_nat(out.subrange(156, 160)) } else { 0 })
            &&& m.from == (if n >= 192 { out.subrange(172, 192) } else { no_address })
            &&& m.src_chain_id == (if n >= 224 { be_nat(out.subrange(216, 224)) } else { 0 })
            &&& m.src_owner == (if n >= 256 { out.subrange(236, 256) } else { no_address })
            &&& m.dest_chain_id == (if n >= 288 { be_nat(out.subrange(280, 288)) } else { 0 })
            &&& m.dest_owner == (if n >= 320 { out.subrange(300, 320) } else { no_address })
            &&& m.to == (if n >= 352 { out.subrange(332, 352) } else { no_address })
            &&& m.value == (if n >= 384 {
                out.subrange(352, 384)
            } else {
                Seq::new(32, |i: int| 0u8)
            })
            &&& m.data == (if at + 32 <= n && at + 32 + len <= n {
                out.subrange(at + 32, at + 32 + len)
            } else {
                Seq::empty()
            })
        }),
{
    lemma_message_word_ends(out, 0);
    lemma_message_word_ends(out, 1);
    lemma_message_word_ends(out, 2);
    lemma_message_word_ends(out, 3);
    lemma_message_word_ends(out, 4);
    lemma_message_word_ends(out, 5);
    lemma_message_word_ends(out, 6);
    lemma_message_word_ends(out, 7);
    lemma_message_word_ends(out, 8);
    lemma_message_word_ends(out, 10);
    let at = MESSAGE_START + low_uint(message_word(out, 10), 8);
    law_length_prefixed_lies_within(out, at);
    let no_address = Seq::new(20, |i: int| 0u8);
    let m = output_message(out);
    assert(zeros(32) =~= Seq::new(32, |i: int| 0u8));
    if let Some(data) = length_prefixed(out, at) {
        assert(data =~= out.subrange(at + 32, at + 32 + data.len()));
    }
}

/// The ends of a word of the message.
proof fn lemma_message_word_ends(out: Seq<u8>, i: int)
    requires
        0 <= i <= 10,
    ensures
        ({
            let end = 96 + 32 * i;
            let word = message_word(out, i);
            &&& low_uint(word, 8) <= u64::MAX
            &&& low_uint(word, 4) <= u32::MAX
            &&& end <= out.len() ==> low_uint(word, 8) == be_nat(out.subrange(end - 8, end))
            &&& end <= out.len() ==> low_uint(word, 4) == be_nat(out.subrange(end - 4, end))
            &&& end <= out.len() ==> low_address(word) == out.subrange(end - 20, end)
            &&& end > out.len() ==> low_uint(word, 8) == 0 && low_uint(word, 4) == 0
            &&& end > out.len() ==> low_address(word) == Seq::new(20, |k: int| 0u8)
        }),
{
    let end = 96 + 32 * i;
    let word = message_word(out, i);
    lemma_pow256_values();
    lemma_be_nat_bound(word.subrange(24, 32));
    lemma_be_nat_bound(word.subrange(28, 32));
    if end <= out.len() {
        assert(word.subrange(24, 32) =~= out.subrange(end - 8, end));
        assert(word.subrange(28, 32) =~= out.subrange(end - 4, end));
        assert(word.subrange(12, 32) =~= out.subrange(end - 20, end));
    } else {
        lemma_low_uint_of_uint_word(0, 8);
        lemma_low_uint_of_uint_word(0, 4);
        lemma_be_bytes_zero(32);
        assert(word.subrange(12, 32) =~= Seq::new(20, |k: int| 0u8));
    }
}

/// The call outputs of a trace give the message of the last frame that sent one and the slot of
/// the last frame that sent one, wherever in the trace these frames are.
pub proof fn law_outputs_give_the_last(frame: CallFrame, i: int, j: int)
    requires
        0 <= i < preorder(frame).len(),
        0 <= j < preorder(frame).len(),
        frame_message(preorder(frame)[i]) is Some,
        frame_slot(preorder(frame)[j]) is Some,
        forall|k: int|
            i < k < preorder(frame).len() ==> frame_message(#[trigger] preorder(frame)[k]) is None,
        forall|k: int|
            j < k < preorder(frame).len() ==> frame_slot(#[trigger] preorder(frame)[k]) is None,
    ensures
        outputs_bridge(frame) == Some(
            (
                frame_message(preorder(frame)[i])->0,
                frame_slot(preorder(frame)[j])->0,
            ),
        ),
{
    law_last_frame_message_counts(preorder(frame), i);
    law_last_frame_slot_counts(preorder(frame), j);
}

/// What is known of a log, and of a result of the search, is all that it holds.
pub proof fn law_views_of_traces(
    log: CallLogFrame,
    message: Message,
    slot: Bytes32,
)
    ensures
        log.topics matches Some(topics) ==> log@.topics == Some(topics@),
        log.topics is None ==> log@.topics is None,
        log.data matches Some(data) ==> log@.data == Some(data@),
        log.data is None ==> log@.data is None,
        message_view(Some(message)) == Some(message@),
        message_view(None) is None,
        slot_view(Some(slot)) == Some(slot@),
        slot_view(None) is None,
        bridge_view(Some((message, slot))) == Some((message@, slot@)),
        bridge_view(None) is None,
{
}

/// The last frame that sent a message counts.
pub proof fn law_last_frame_message_counts(frames: Seq<CallFrame>, k: int)
    requires
        0 <= k < frames.len(),
        frame_message(frames[k]) is Some,
        forall|i: int| k < i < frames.len() ==> frame_message(#[trigger] frames[i]) is None,
    ensures
        last_frame_message(frames) == frame_message(frames[k]),
    decreases frames.len(),
{
    if k + 1 < frames.len() {
        assert(frame_message(frames.last()) is None);
        law_last_frame_message_counts(frames.drop_last(), k);
    }
}

/// The last frame that sent a signal counts.
pub proof fn law_last_frame_slot_counts(frames: Seq<CallFrame>, k: int)
    requires
        0 <= k < frames.len(),
        frame_slot(frames[k]) is Some,
        forall|i: int| k < i < frames.len() ==> frame_slot(#[trigger] frames[i]) is None,
    ensures
        last_frame_slot(frames) == frame_slot(frames[k]),
    decreases frames.len(),
{
    if k + 1 < frames.len() {
        assert(frame_slot(frames.last()) is None);
        law_last_frame_slot_counts(frames.drop_last(), k);
    }
}

/// The call outputs give a result exactly if some call of the trace sent a message and some call
/// sent a signal, at whatever depth.
pub proof fn law_outputs_need_both(frame: CallFrame)
    ensures
        outputs_bridge(frame) is Some <==> {
            &&& exists|i: int|
                0 <= i < preorder(frame).len() && frame_message(
                    #[trigger] preorder(frame)[i],
                ) is Some
            &&& exists|i: int|
                0 <= i < preorder(frame).len() && frame_slot(#[trigger] preorder(frame)[i]) is Some
        },
{
    lemma_last_frame_message_exists(preorder(frame));
    lemma_last_frame_slot_exists(preorder(frame));
}

proof fn lemma_last_frame_message_exists(frames: Seq<CallFrame>)
    ensures
        last_frame_message(frames) is Some <==> exists|i: int|
            0 <= i < frames.len() && frame_message(#[trigger] frames[i]) is Some,
    decreases frames.len(),
{
    if frames.len() > 0 {
        let rest = frames.drop_last();
        lemma_last_frame_message_exists(rest);
        if exists|i: int| 0 <= i < rest.len() && frame_message(#[trigger] rest[i]) is Some {
            let i = choose|i: int| 0 <= i < rest.len() && frame_message(#[trigger] rest[i]) is Some;
            assert(frame_message(frames[i]) is Some);
        }
        if exists|i: int| 0 <= i < frames.len() && frame_message(#[trigger] frames[i]) is Some {
            let i = choose|i: int|
                0 <= i < frames.len() && frame_message(#[trigger] frames[i]) is Some;
            if i < rest.len() {
                assert(rest[i] == frames[i]);
            }
        }
        if frame_message(frames.last()) is Some {
            assert(frame_message(frames[frames.len() - 1]) is Some);
        }
    }
}

proof fn lemma_last_frame_slot_exists(frames: Seq<CallFrame>)
    ensures
        last_frame_slot(frames) is Some <==> exists|i: int|
            0 <= i < frames.len() && frame_slot(#[trigger] frames[i]) is Some,
    decreases frames.len(),
{
    if frames.len() > 0 {
        let rest = frames.drop_last();
        lemma_last_frame_slot_exists(rest);
        if exists|i: int| 0 <= i < rest.len() && frame_slot(#[trigger] rest[i]) is Some {
            let i = choose|i: int| 0 <= i < rest.len() && frame_slot(#[trigger] rest[i]) is Some;
            assert(frame_slot(frames[i]) is Some);
        }
        if exists|i: int| 0 <= i < frames.len() && frame_slot(#[trigger] frames[i]) is Some {
            let i = choose|i: int| 0 <= i < frames.len() && frame_slot(#[trigger] frames[i]) is Some;
            if i < rest.len() {
                assert(rest[i] == frames[i]);
            }
        }
        if frame_slot(frames.last()) is Some {
            assert(frame_slot(frames[frames.len() - 1]) is Some);
        }
    }
}

} // verus!
