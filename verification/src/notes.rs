//! What the reactor says in the log of the program: each line with its level, its
//! fixed message and its values.

use crate::host::QueueResult;
use crate::subscribe_send::SubscribeSend;
use crate::types::{ChannelName, Key, SendResult, Symbol, TransportError, WsOp, WsUrl};
use vstd::prelude::*;

verus! {

/// How much a line matters.
#[derive(Clone, Copy, PartialEq, Eq, Structural, Debug)]
pub enum Level {
    Debug,
    Info,
    Warn,
    Error,
}

/// One line, by what it tells of.
#[allow(inconsistent_fields)]
#[derive(Debug)]
pub enum Note {
    /// A socket was closed in order.
    SocketClosed { url: WsUrl, code: u16, reason: String },
    /// A socket ended otherwise.
    ReceiveFailed { url: WsUrl, error: TransportError },
    /// A response names no request.
    ResponseWithoutReqId { url: WsUrl },
    /// A response does not say whether it is a success.
    ResponseWithoutSuccess { url: WsUrl, req_id: u64 },
    /// The error of an order is not known.
    OrderErrorUnknown { error: Option<String> },
    /// An acknowledgement does not say whether it is a success.
    AckWithoutSuccess { url: WsUrl },
    /// Data came on a channel that is not known.
    UnknownChannel { channel: String, is_snapshot: bool },
    /// The number of a frame shows that others were lost.
    SequenceGap { channel: ChannelName, seq: u64, dropped: u32 },
    /// The data of a frame is no list of rows.
    DataNotArray { channel: ChannelName, is_snapshot: bool },
    /// A book does not have the checksum that came with its row.
    BookMismatch { symbol: Symbol, expected: u32, computed: u32 },
    /// The same, once too often.
    BookBudgetExhausted { symbol: Symbol },
    /// A row that names no pair could not be decoded.
    DecodeFailedWithoutSymbol { channel: ChannelName },
    /// An event has no connection to go to.
    NoConnection { url: WsUrl },
    /// An order is turned away for want of a token.
    OrderWithoutToken { req_id: u64, op: WsOp },
    /// An order could not be sent.
    OrderUnsent { req_id: u64, op: WsOp, error: &'static str },
    /// Every connection was told to close.
    CloseFanned { request_id: u64 },
    /// A socket that is no longer in use was upgraded.
    StaleUpgrade { url: WsUrl, connection_id: u64 },
    /// The reactor's queue did not take a successful upgrade.
    UpgradeNotTaken { url: WsUrl, connection_id: u64, error: QueueResult },
    /// The reactor's queue did not take a failed upgrade.
    UpgradeFailureNotTaken { url: WsUrl, error: QueueResult },
    /// The unsubscribe of a subscription that ends was not taken.
    UnsubscribeUnsent { url: WsUrl, key: Key, error: &'static str },
    /// The unsubscribe of a book that is subscribed anew was not taken.
    ReseedUnsubscribeUnsent { url: WsUrl, key: Key, error: &'static str },
    /// A subscribe found the queue full.
    SubscribeBackpressured { url: WsUrl, key: Key, send: SubscribeSend },
    /// A subscribe found the writer gone.
    SubscribeWriterClosed { url: WsUrl, key: Key, send: SubscribeSend },
    /// What was to be subscribed again is no longer registered.
    ResendGone { url: WsUrl, key: Key },
    /// The same lacks a token.
    ResendWithoutToken { url: WsUrl, key: Key },
    /// The same lacks a socket.
    ResendWithoutSocket { url: WsUrl, key: Key },
    /// The same was sent.
    Resent { url: WsUrl, key: Key },
    /// The first signed subscribe lacks a token.
    FirstSignedWithoutToken { url: WsUrl },
    /// The same lacks a socket.
    FirstSignedWithoutSocket { url: WsUrl },
    /// There is no subscription to send first.
    NothingToSign { url: WsUrl },
    /// A public subscribe lacks a socket.
    PublicWithoutSocket { url: WsUrl, key: Key },
    /// A signed subscribe waits for the token refresh that it started.
    SignedDeferred { url: WsUrl, key: Key },
    /// A signed subscribe waits for a token refresh that was on its way.
    SignedDeferredToo { url: WsUrl, key: Key },
    /// A signed subscribe lacks a socket.
    SignedWithoutSocket { url: WsUrl, key: Key },
    /// Something that is said without values.
    Bare { message: &'static str },
}

/// The name of the error of a send that was not taken.
pub open spec fn send_error(sent: SendResult) -> &'static str {
    if sent == SendResult::Backpressure {
        "Backpressure"
    } else {
        "WriterClosed"
    }
}

pub fn send_error_of(sent: SendResult) -> (error: &'static str)
    requires
        sent != SendResult::Sent,
    ensures
        error == send_error(sent),
{
    if sent == SendResult::Backpressure {
        "Backpressure"
    } else {
        "WriterClosed"
    }
}

impl Note {
    pub open spec fn level_spec(self) -> Level {
        match self {
            Note::UnknownChannel { .. }
            | Note::CloseFanned { .. }
            | Note::StaleUpgrade { .. }
            | Note::ResendGone { .. }
            | Note::ResendWithoutToken { .. }
            | Note::ResendWithoutSocket { .. }
            | Note::Resent { .. }
            | Note::FirstSignedWithoutToken { .. }
            | Note::SignedDeferred { .. }
            | Note::SignedDeferredToo { .. } => Level::Debug,
            Note::SocketClosed { .. } => Level::Info,
            Note::NoConnection { .. }
            | Note::UpgradeNotTaken { .. }
            | Note::UpgradeFailureNotTaken { .. } => Level::Error,
            _ => Level::Warn,
        }
    }

    /// The level of a line.
    pub fn level(&self) -> (level: Level)
        ensures
            level == self.level_spec(),
    {
        match self {
            Note::UnknownChannel { .. }
            | Note::CloseFanned { .. }
            | Note::StaleUpgrade { .. }
            | Note::ResendGone { .. }
            | Note::ResendWithoutToken { .. }
            | Note::ResendWithoutSocket { .. }
            | Note::Resent { .. }
            | Note::FirstSignedWithoutToken { .. }
            | Note::SignedDeferred { .. }
            | Note::SignedDeferredToo { .. } => Level::Debug,
            Note::SocketClosed { .. } => Level::Info,
            Note::NoConnection { .. }
            | Note::UpgradeNotTaken { .. }
            | Note::UpgradeFailureNotTaken { .. } => Level::Error,
            _ => Level::Warn,
        }
    }

    pub open spec fn message_spec(self) -> &'static str {
        match self {
            Note::SocketClosed { .. } => "socket closed; driving FSM",
            Note::ReceiveFailed { .. } => "recv_frame error; driving FSM (abnormal close)",
            Note::ResponseWithoutReqId { .. } =>
                "request-response frame with no numeric req_id; consumed without resolve",
            Note::ResponseWithoutSuccess { .. } =>
                "request-response frame with absent/non-bool `success`; treating as failure",
            Note::OrderErrorUnknown { .. } =>
                "order-ack error not recognized as auth-class (non-`E*`-prefixed or absent); defaulting to Authenticated — novel auth string would slip through",
            Note::AckWithoutSuccess { .. } =>
                "subscribe-ack frame with absent/non-bool `success`; treating as failure",
            Note::UnknownChannel { .. } =>
                "unrecognized channel on a data frame; frame dropped (wire drift)",
            Note::SequenceGap { .. } =>
                "sequence gap on account channel; frames lost mid-connection",
            Note::DataNotArray { .. } =>
                "channel frame with non-array `data`; no routing symbol — frame dropped, gap event suppressed",
            Note::BookMismatch { .. } =>
                "order-book CRC32 mismatch; emitting gap + scheduling resubscribe-reseed",
            Note::BookBudgetExhausted { .. } =>
                "order-book CRC32 gap budget exhausted; maintenance dropped — on_book degraded to per-frame (un-validated)",
            Note::DecodeFailedWithoutSymbol { .. } =>
                "decode-failed frame with no routing symbol; gap event suppressed (symbol non-optional)",
            Note::NoConnection { .. } =>
                "FsmEvent dispatched but no ManagedConnection present (invariant violation)",
            Note::OrderWithoutToken { .. } =>
                "WsRequestFrame on Open auth conn but no valid cached token; force_refresh for NEXT order, rejecting THIS one retryable (NOT deferred — double-fill risk)",
            Note::OrderUnsent { .. } =>
                "WsRequestFrame send failed; failing the recorded pending immediately",
            Note::CloseFanned { .. } =>
                "client-close marker: fanned CallClose to all connections; awaiting all Closed",
            Note::StaleUpgrade { .. } =>
                "stale WsUpgradeOk (connection_id no longer live); dropping",
            Note::UpgradeNotTaken { .. } =>
                "WsUpgradeOk bridge channel full; falling back to synthetic transient error so FSM doesn't stick in Connecting",
            Note::UpgradeFailureNotTaken { .. } =>
                "WsUpgradeFailed bridge channel full; FSM may stick in Connecting",
            Note::UnsubscribeUnsent { .. } =>
                "unsubscribe frame send failed on refcount-0 teardown (queue full or closed)",
            Note::ReseedUnsubscribeUnsent { .. } =>
                "order-book gap-reseed unsubscribe send failed (queue full or closed); resubscribe still attempts",
            Note::SubscribeBackpressured { send, .. } => send.backpressure_msg_spec(),
            Note::SubscribeWriterClosed { send, .. } => send.writer_closed_msg_spec(),
            Note::ResendGone { .. } => "resend: entry deregistered before timer fired; no-op",
            Note::ResendWithoutToken { .. } =>
                "resend: no valid cached token on auth resend; deferring to BusTokenRefreshed",
            Note::ResendWithoutSocket { .. } =>
                "resend: socket not present; no-op (reconnect-replay will recover)",
            Note::Resent { .. } => "resend: subscribe re-issued successfully; ack timer re-armed",
            Note::FirstSignedWithoutToken { .. } =>
                "Authenticating: no valid cached token; force_refresh in flight (lazy first fetch)",
            Note::FirstSignedWithoutSocket { .. } =>
                "Authenticating entry: socket missing; cannot send first signed subscribe",
            Note::NothingToSign { .. } =>
                "Authenticating: no auth-URL entry to send as first signed subscribe (KeepaliveEntry is 3b)",
            Note::PublicWithoutSocket { .. } =>
                "Register: socket not open; wire subscribe dropped (reconnect-replay will recover from registry)",
            Note::SignedDeferred { .. } =>
                "Register-while-Open: no valid cached token; force_refresh in flight, tokenized subscribe deferred to BusTokenRefreshed re-issue",
            Note::SignedDeferredToo { .. } =>
                "Register-while-Open: force_refresh already in flight; subscribe deferred, skipping redundant spawn",
            Note::SignedWithoutSocket { .. } =>
                "Register-while-Open: socket not open; tokenized subscribe dropped",
            Note::Bare { message } => message,
        }
    }

    /// The message of a line.
    pub fn message(&self) -> (message: &'static str)
        ensures
            message == self.message_spec(),
    {
        match self {
            Note::SocketClosed { .. } => "socket closed; driving FSM",
            Note::ReceiveFailed { .. } => "recv_frame error; driving FSM (abnormal close)",
            Note::ResponseWithoutReqId { .. } =>
                "request-response frame with no numeric req_id; consumed without resolve",
            Note::ResponseWithoutSuccess { .. } =>
                "request-response frame with absent/non-bool `success`; treating as failure",
            Note::OrderErrorUnknown { .. } =>
                "order-ack error not recognized as auth-class (non-`E*`-prefixed or absent); defaulting to Authenticated — novel auth string would slip through",
            Note::AckWithoutSuccess { .. } =>
                "subscribe-ack frame with absent/non-bool `success`; treating as failure",
            Note::UnknownChannel { .. } =>
                "unrecognized channel on a data frame; frame dropped (wire drift)",
            Note::SequenceGap { .. } =>
                "sequence gap on account channel; frames lost mid-connection",
            Note::DataNotArray { .. } =>
                "channel frame with non-array `data`; no routing symbol — frame dropped, gap event suppressed",
            Note::BookMismatch { .. } =>
                "order-book CRC32 mismatch; emitting gap + scheduling resubscribe-reseed",
            Note::BookBudgetExhausted { .. } =>
                "order-book CRC32 gap budget exhausted; maintenance dropped — on_book degraded to per-frame (un-validated)",
            Note::DecodeFailedWithoutSymbol { .. } =>
                "decode-failed frame with no routing symbol; gap event suppressed (symbol non-optional)",
            Note::NoConnection { .. } =>
                "FsmEvent dispatched but no ManagedConnection present (invariant violation)",
            Note::OrderWithoutToken { .. } =>
                "WsRequestFrame on Open auth conn but no valid cached token; force_refresh for NEXT order, rejecting THIS one retryable (NOT deferred — double-fill risk)",
            Note::OrderUnsent { .. } =>
                "WsRequestFrame send failed; failing the recorded pending immediately",
            Note::CloseFanned { .. } =>
                "client-close marker: fanned CallClose to all connections; awaiting all Closed",
            Note::StaleUpgrade { .. } =>
                "stale WsUpgradeOk (connection_id no longer live); dropping",
            Note::UpgradeNotTaken { .. } =>
                "WsUpgradeOk bridge channel full; falling back to synthetic transient error so FSM doesn't stick in Connecting",
            Note::UpgradeFailureNotTaken { .. } =>
                "WsUpgradeFailed bridge channel full; FSM may stick in Connecting",
            Note::UnsubscribeUnsent { .. } =>
                "unsubscribe frame send failed on refcount-0 teardown (queue full or closed)",
            Note::ReseedUnsubscribeUnsent { .. } =>
                "order-book gap-reseed unsubscribe send failed (queue full or closed); resubscribe still attempts",
            Note::SubscribeBackpressured { send, .. } => send.backpressure_msg(),
            Note::SubscribeWriterClosed { send, .. } => send.writer_closed_msg(),
            Note::ResendGone { .. } => "resend: entry deregistered before timer fired; no-op",
            Note::ResendWithoutToken { .. } =>
                "resend: no valid cached token on auth resend; deferring to BusTokenRefreshed",
            Note::ResendWithoutSocket { .. } =>
                "resend: socket not present; no-op (reconnect-replay will recover)",
            Note::Resent { .. } => "resend: subscribe re-issued successfully; ack timer re-armed",
            Note::FirstSignedWithoutToken { .. } =>
                "Authenticating: no valid cached token; force_refresh in flight (lazy first fetch)",
            Note::FirstSignedWithoutSocket { .. } =>
                "Authenticating entry: socket missing; cannot send first signed subscribe",
            Note::NothingToSign { .. } =>
                "Authenticating: no auth-URL entry to send as first signed subscribe (KeepaliveEntry is 3b)",
            Note::PublicWithoutSocket { .. } =>
                "Register: socket not open; wire subscribe dropped (reconnect-replay will recover from registry)",
            Note::SignedDeferred { .. } =>
                "Register-while-Open: no valid cached token; force_refresh in flight, tokenized subscribe deferred to BusTokenRefreshed re-issue",
            Note::SignedDeferredToo { .. } =>
                "Register-while-Open: force_refresh already in flight; subscribe deferred, skipping redundant spawn",
            Note::SignedWithoutSocket { .. } =>
                "Register-while-Open: socket not open; tokenized subscribe dropped",
            Note::Bare { message } => message,
        }
    }
}

/// What keeps the reactor from doing its work is an error: a connection that is not
/// there, and an upgrade outcome that finds no room. The close of a socket in order is
/// said in passing. What is part of the work, and is only of use to whoever looks for
/// it, is said for debugging; all else is a warning.
pub proof fn a_line_is_as_loud_as_it_should_be(note: Note)
    ensures
        note.level_spec() == Level::Error <==> (note is NoConnection || note is UpgradeNotTaken
            || note is UpgradeFailureNotTaken),
        note.level_spec() == Level::Info <==> note is SocketClosed,
        note.level_spec() == Level::Debug <==> (note is UnknownChannel || note is CloseFanned
            || note is StaleUpgrade || note is ResendGone || note is ResendWithoutToken || note
            is ResendWithoutSocket || note is Resent || note is FirstSignedWithoutToken || note
            is SignedDeferred || note is SignedDeferredToo),
{
}

} // verus!
