//! Bridge messages.
use vstd::prelude::*;

use crate::bytes::{
    address_word, lemma_low_address_of_address_word, lemma_low_uint_of_uint_word,
    lemma_pow256_values, low_address, low_uint, uint_word, Address, Bytes32,
};

verus! {

/// A message that the bridge carries from one chain to the other.
#[derive(Debug, PartialEq, Eq)]
pub struct Message {
    pub id: u64,
    pub fee: u64,
    pub gas_limit: u32,
    pub from: Address,
    pub src_chain_id: u64,
    pub src_owner: Address,
    pub dest_chain_id: u64,
    pub dest_owner: Address,
    pub to: Address,
    /// The value, as a big-endian 256-bit integer.
    pub value: Bytes32,
    pub data: Vec<u8>,
}

/// What a `Message` holds.
#[verifier::ext_equal]
pub struct MessageView {
    pub id: u64,
    pub fee: u64,
    pub gas_limit: u32,
    pub from: Seq<u8>,
    pub src_chain_id: u64,
    pub src_owner: Seq<u8>,
    pub dest_chain_id: u64,
    pub dest_owner: Seq<u8>,
    pub to: Seq<u8>,
    pub value: Seq<u8>,
    pub data: Seq<u8>,
}

impl View for Message {
    type V = MessageView;

    open spec fn view(&self) -> MessageView {
        MessageView {
            id: self.id,
            fee: self.fee,
            gas_limit: self.gas_limit,
            from: self.from@,
            src_chain_id: self.src_chain_id,
            src_owner: self.src_owner@,
            dest_chain_id: self.dest_chain_id,
            dest_owner: self.dest_owner@,
            to: self.to@,
            value: self.value@,
            data: self.data@,
        }
    }
}

/// The message whose fields stand in words, in their order, with the data apart from them.
pub open spec fn message_of_words(words: Seq<Seq<u8>>, data: Seq<u8>) -> MessageView {
    MessageView {
        id: low_uint(words[0], 8) as u64,
        fee: low_uint(words[1], 8) as u64,
        gas_limit: low_uint(words[2], 4) as u32,
        from: low_address(words[3]),
        src_chain_id: low_uint(words[4], 8) as u64,
        src_owner: low_address(words[5]),
        dest_chain_id: low_uint(words[6], 8) as u64,
        dest_owner: low_address(words[7]),
        to: low_address(words[8]),
        value: words[9],
        data,
    }
}

/// The addresses have twenty bytes and the value has thirty-two.
pub open spec fn message_sized(message: MessageView) -> bool {
    &&& message.from.len() == 20
    &&& message.src_owner.len() == 20
    &&& message.dest_owner.len() == 20
    &&& message.to.len() == 20
    &&& message.value.len() == 32
}

/// Whether ten words hold the fields of a message, one for each field of fixed size.
pub open spec fn words_hold_message(words: Seq<Seq<u8>>, message: MessageView) -> bool {
    &&& words[0] == uint_word(message.id as nat)
    &&& words[1] == uint_word(message.fee as nat)
    &&& words[2] == uint_word(message.gas_limit as nat)
    &&& words[3] == address_word(message.from)
    &&& words[4] == uint_word(message.src_chain_id as nat)
    &&& words[5] == address_word(message.src_owner)
    &&& words[6] == uint_word(message.dest_chain_id as nat)
    &&& words[7] == address_word(message.dest_owner)
    &&& words[8] == address_word(message.to)
    &&& words[9] == message.value
}

/// A message is read back from the words that hold its fields.
pub proof fn lemma_message_of_words(words: Seq<Seq<u8>>, message: MessageView)
    requires
        message_sized(message),
        words_hold_message(words, message),
    ensures
        message_of_words(words, message.data) == message,
{
    lemma_pow256_values();
    lemma_low_uint_of_uint_word(message.id as nat, 8);
    lemma_low_uint_of_uint_word(message.fee as nat, 8);
    lemma_low_uint_of_uint_word(message.gas_limit as nat, 4);
    lemma_low_address_of_address_word(message.from);
    lemma_low_uint_of_uint_word(message.src_chain_id as nat, 8);
    lemma_low_address_of_address_word(message.src_owner);
    lemma_low_uint_of_uint_word(message.dest_chain_id as nat, 8);
    lemma_low_address_of_address_word(message.dest_owner);
    lemma_low_address_of_address_word(message.to);
    assert(message_of_words(words, message.data) =~= message);
}

/// What is known of a message is all that it holds: two messages of which the same is known hold
/// the same in every field.
pub proof fn law_views_of_messages_are_faithful(a: Message, b: Message)
    ensures
        a@ == b@ ==> {
            &&& a.id == b.id
            &&& a.fee == b.fee
            &&& a.gas_limit == b.gas_limit
            &&& a.from@ == b.from@
            &&& a.src_chain_id == b.src_chain_id
            &&& a.src_owner@ == b.src_owner@
            &&& a.dest_chain_id == b.dest_chain_id
            &&& a.dest_owner@ == b.dest_owner@
            &&& a.to@ == b.to@
            &&& a.value@ == b.value@
            &&& a.data@ == b.data@
        },
        message_sized(a@),
        a@.id == a.id,
        a@.to == a.to@,
        a@.data == a.data@,
{
}

} // verus!
