//! The errors of the library and their texts.
use vstd::prelude::*;
use vstd::string::*;

verus! {

/// Why a text is not a hex string of the expected length.
#[derive(Debug, PartialEq, Eq)]
pub enum HexError {
    /// The text has an odd number of bytes.
    OddLength,
    /// The text does not have the expected number of digits.
    InvalidStringLength,
    /// The byte at `index` behind the prefix is no hex digit.
    InvalidHexCharacter { c: char, index: usize },
}

/// What can go wrong when a proposal is sent or a bridge message is looked for.
///
/// A variant with a text carries the text of the error below it.
#[derive(Debug, PartialEq, Eq)]
pub enum Error {
    /// No execution RPC URL is configured.
    RpcUrlRequired,
    /// The transaction monitor could not be set up.
    CreateTransactionMonitor(String),
    /// The inbox did not answer `getConfig`.
    GetConfig(String),
    /// The inbox did not answer `getLastFinalizedBlockHash`.
    GetLastFinalizedBlockHash(String),
    /// The real-time execution layer has no handover window.
    NotImplemented,
    /// The transaction monitor refused the transaction.
    SendBatch(String),
    /// The node could not trace the call.
    TraceCall(String),
    /// A log with the topic of `MessageSent` is no such event.
    DecodeMessageSent(String),
    /// A log with the topic of `SignalSent` is no such event.
    DecodeSignalSent(String),
    /// The block manifest could not be encoded.
    EncodeManifest(String),
    /// The proposal has no proof.
    ZkProofNotSet,
    /// The number of blobs does not fit in sixteen bits.
    TooManyBlobs,
    /// The configured proof store is no address.
    InvalidProofStoreAddress(HexError),
    /// An error that is handed on as it is.
    Other(String),
}

/// What an `Error` holds.
#[verifier::ext_equal]
pub enum ErrorView {
    RpcUrlRequired,
    CreateTransactionMonitor(Seq<char>),
    GetConfig(Seq<char>),
    GetLastFinalizedBlockHash(Seq<char>),
    NotImplemented,
    SendBatch(Seq<char>),
    TraceCall(Seq<char>),
    DecodeMessageSent(Seq<char>),
    DecodeSignalSent(Seq<char>),
    EncodeManifest(Seq<char>),
    ZkProofNotSet,
    TooManyBlobs,
    InvalidProofStoreAddress(HexError),
    Other(Seq<char>),
}

impl View for Error {
    type V = ErrorView;

    open spec fn view(&self) -> ErrorView {
        match *self {
            Error::RpcUrlRequired => ErrorView::RpcUrlRequired,
            Error::CreateTransactionMonitor(e) => ErrorView::CreateTransactionMonitor(e@),
            Error::GetConfig(e) => ErrorView::GetConfig(e@),
            Error::GetLastFinalizedBlockHash(e) => ErrorView::GetLastFinalizedBlockHash(e@),
            Error::NotImplemented => ErrorView::NotImplemented,
            Error::SendBatch(e) => ErrorView::SendBatch(e@),
            Error::TraceCall(e) => ErrorView::TraceCall(e@),
            Error::DecodeMessageSent(e) => ErrorView::DecodeMessageSent(e@),
            Error::DecodeSignalSent(e) => ErrorView::DecodeSignalSent(e@),
            Error::EncodeManifest(e) => ErrorView::EncodeManifest(e@),
            Error::ZkProofNotSet => ErrorView::ZkProofNotSet,
            Error::TooManyBlobs => ErrorView::TooManyBlobs,
            Error::InvalidProofStoreAddress(e) => ErrorView::InvalidProofStoreAddress(e),
            Error::Other(e) => ErrorView::Other(e@),
        }
    }
}

/// The text of `FromHexError::InvalidHexCharacter` for a character and its position.
pub uninterp spec fn invalid_hex_character_text(c: char, index: usize) -> Seq<char>;

/// Formats `alloy::primitives::hex::FromHexError::InvalidHexCharacter` with its `Display`:
/// the text depends on the character and its position alone.
#[verifier::external_body]
fn format_invalid_hex_character(c: char, index: usize) -> (text: String)
    ensures
        text@ == invalid_hex_character_text(c, index),
{
    alloy::primitives::hex::FromHexError::InvalidHexCharacter { c, index }.to_string()
}

/// The text of a hex error.
pub open spec fn hex_error_text(error: HexError) -> Seq<char> {
    match error {
        HexError::OddLength => "odd number of digits"@,
        HexError::InvalidStringLength => "invalid string length"@,
        HexError::InvalidHexCharacter { c, index } => invalid_hex_character_text(c, index),
    }
}

/// The text of an error: what failed, then the text of the error below it.
pub open spec fn error_text(error: ErrorView) -> Seq<char> {
    match error {
        ErrorView::RpcUrlRequired => "L1 RPC URL is required"@,
        ErrorView::CreateTransactionMonitor(e) => "Failed to create TransactionMonitor: "@ + e,
        ErrorView::GetConfig(e) => "Failed to call getConfig for RealTimeInbox: "@ + e,
        ErrorView::GetLastFinalizedBlockHash(e) => "Failed to call getLastFinalizedBlockHash: "@
            + e,
        ErrorView::NotImplemented => "Not implemented for RealTime execution layer"@,
        ErrorView::SendBatch(e) => "Sending batch to L1 failed: "@ + e,
        ErrorView::TraceCall(e) => "Failed to simulate executeBatch on L1: "@ + e,
        ErrorView::DecodeMessageSent(e) => "Failed to decode MessageSent event L1: "@ + e,
        ErrorView::DecodeSignalSent(e) => "Failed to decode SignalSent event L1: "@ + e,
        ErrorView::EncodeManifest(e) => "Can't encode and compress manifest: "@ + e,
        ErrorView::ZkProofNotSet => "ZK proof not set on proposal"@,
        ErrorView::TooManyBlobs => "out of range integral type conversion attempted"@,
        ErrorView::InvalidProofStoreAddress(e) => "Invalid SYNC_PROOF_STORE_ADDRESS: "@
            + hex_error_text(e),
        ErrorView::Other(e) => e,
    }
}

/// A text with another one in front of it.
fn prefixed(prefix: &str, text: &String) -> (out: String)
    ensures
        out@ == prefix@ + text@,
{
    prefix.to_owned().concat(text.as_str())
}

impl HexError {
    /// The text of the error.
    pub fn message(&self) -> (text: String)
        ensures
            text@ == hex_error_text(*self),
    {
        match self {
            HexError::OddLength => "odd number of digits".to_owned(),
            HexError::InvalidStringLength => "invalid string length".to_owned(),
            HexError::InvalidHexCharacter { c, index } => format_invalid_hex_character(*c, *index),
        }
    }
}

impl Error {
    /// The text of the error.
    pub fn message(&self) -> (text: String)
        ensures
            text@ == error_text(self@),
    {
        match self {
            Error::RpcUrlRequired => "L1 RPC URL is required".to_owned(),
            Error::CreateTransactionMonitor(e) => prefixed(
                "Failed to create TransactionMonitor: ",
                e,
            ),
            Error::GetConfig(e) => prefixed("Failed to call getConfig for RealTimeInbox: ", e),
            Error::GetLastFinalizedBlockHash(e) => prefixed(
                "Failed to call getLastFinalizedBlockHash: ",
                e,
            ),
            Error::NotImplemented => "Not implemented for RealTime execution layer".to_owned(),
            Error::SendBatch(e) => prefixed("Sending batch to L1 failed: ", e),
            Error::TraceCall(e) => prefixed("Failed to simulate executeBatch on L1: ", e),
            Error::DecodeMessageSent(e) => prefixed("Failed to decode MessageSent event L1: ", e),
            Error::DecodeSignalSent(e) => prefixed("Failed to decode SignalSent event L1: ", e),
            Error::EncodeManifest(e) => prefixed("Can't encode and compress manifest: ", e),
            Error::ZkProofNotSet => "ZK proof not set on proposal".to_owned(),
            Error::TooManyBlobs => "out of range integral type conversion attempted".to_owned(),
            Error::InvalidProofStoreAddress(e) => prefixed(
                "Invalid SYNC_PROOF_STORE_ADDRESS: ",
                &e.message(),
            ),
            Error::Other(e) => e.clone(),
        }
    }
}

/// The text of an error that carries another one says what failed and ends in that one's text,
/// word for word.
pub proof fn law_error_texts(e: Seq<char>, hex: HexError)
    ensures
        error_text(ErrorView::RpcUrlRequired) == "L1 RPC URL is required"@,
        error_text(ErrorView::CreateTransactionMonitor(e))
            == "Failed to create TransactionMonitor: "@ + e,
        error_text(ErrorView::GetConfig(e)) == "Failed to call getConfig for RealTimeInbox: "@ + e,
        error_text(ErrorView::GetLastFinalizedBlockHash(e))
            == "Failed to call getLastFinalizedBlockHash: "@ + e,
        error_text(ErrorView::NotImplemented) == "Not implemented for RealTime execution layer"@,
        error_text(ErrorView::SendBatch(e)) == "Sending batch to L1 failed: "@ + e,
        error_text(ErrorView::TraceCall(e)) == "Failed to simulate executeBatch on L1: "@ + e,
        error_text(ErrorView::DecodeMessageSent(e)) == "Failed to decode MessageSent event L1: "@
            + e,
        error_text(ErrorView::DecodeSignalSent(e)) == "Failed to decode SignalSent event L1: "@ + e,
        error_text(ErrorView::EncodeManifest(e)) == "Can't encode and compress manifest: "@ + e,
        error_text(ErrorView::ZkProofNotSet) == "ZK proof not set on proposal"@,
        error_text(ErrorView::TooManyBlobs) == "out of range integral type conversion attempted"@,
        error_text(ErrorView::InvalidProofStoreAddress(hex))
            == "Invalid SYNC_PROOF_STORE_ADDRESS: "@ + hex_error_text(hex),
        error_text(ErrorView::Other(e)) == e,
        hex_error_text(HexError::OddLength) == "odd number of digits"@,
        hex_error_text(HexError::InvalidStringLength) == "invalid string length"@,
{
}

/// What is known of an error is all that it holds: the reason, and the text below it.
pub proof fn law_views_of_errors(text: String, hex: HexError)
    ensures
        Error::RpcUrlRequired@ == ErrorView::RpcUrlRequired,
        Error::CreateTransactionMonitor(text)@ == ErrorView::CreateTransactionMonitor(text@),
        Error::GetConfig(text)@ == ErrorView::GetConfig(text@),
        Error::GetLastFinalizedBlockHash(text)@ == ErrorView::GetLastFinalizedBlockHash(text@),
        Error::NotImplemented@ == ErrorView::NotImplemented,
        Error::SendBatch(text)@ == ErrorView::SendBatch(text@),
        Error::TraceCall(text)@ == ErrorView::TraceCall(text@),
        Error::DecodeMessageSent(text)@ == ErrorView::DecodeMessageSent(text@),
        Error::DecodeSignalSent(text)@ == ErrorView::DecodeSignalSent(text@),
        Error::EncodeManifest(text)@ == ErrorView::EncodeManifest(text@),
        Error::ZkProofNotSet@ == ErrorView::ZkProofNotSet,
        Error::TooManyBlobs@ == ErrorView::TooManyBlobs,
        Error::InvalidProofStoreAddress(hex)@ == ErrorView::InvalidProofStoreAddress(hex),
        Error::Other(text)@ == ErrorView::Other(text@),
{
}

} // verus!
