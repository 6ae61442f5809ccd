//! The vocabulary of the reactor: connections, channels, events and the plain
//! values that pass between the reactor and what surrounds it.

use crate::text::same_text;
use std::sync::Arc;
use vstd::prelude::*;

verus! {

/// The two WebSocket connections.
#[derive(Clone, Copy, PartialEq, Eq, Structural, Debug, Hash)]
pub enum WsUrl {
    Public,
    Auth,
}

/// The channels that a subscription or a data handler can name.
#[derive(Clone, Copy, PartialEq, Eq, Structural, Debug, Hash)]
pub enum ChannelName {
    Ticker,
    Book,
    BookRaw,
    Ohlc,
    Trade,
    Executions,
    Balances,
    Status,
}

/// The states of one connection.
#[derive(Clone, Copy, PartialEq, Eq, Structural, Debug)]
pub enum ConnectionState {
    Idle,
    Connecting,
    Authenticating,
    Resubscribing,
    Open,
    BackingOff,
    Closing,
    Closed,
    Failed,
}

/// Why an authentication attempt failed.
#[derive(Clone, Copy, PartialEq, Eq, Structural, Debug)]
pub enum AuthErrorKind {
    TokenStale,
    BadCreds,
    PermissionDenied,
    Transient,
}

/// A text that is either fixed in the program or came from outside it.
#[derive(Debug)]
pub enum Text {
    Fixed(&'static str),
    Owned(String),
}

impl View for Text {
    type V = Seq<char>;

    open spec fn view(&self) -> Seq<char> {
        match self {
            Text::Fixed(text) => text@,
            Text::Owned(text) => text@,
        }
    }
}

impl Text {
    pub fn as_str(&self) -> (text: &str)
        ensures
            text@ == self@,
    {
        match self {
            Text::Fixed(text) => text,
            Text::Owned(text) => text.as_str(),
        }
    }
}

impl Clone for Text {
    fn clone(&self) -> (copy: Self)
        ensures
            copy == *self,
    {
        match self {
            Text::Fixed(text) => Text::Fixed(text),
            Text::Owned(text) => Text::Owned(text.clone()),
        }
    }
}

/// A trading pair such as `BTC/USD`.
#[derive(Debug)]
pub struct Symbol {
    pub name: String,
}

impl View for Symbol {
    type V = Seq<char>;

    open spec fn view(&self) -> Seq<char> {
        self.name@
    }
}

impl Clone for Symbol {
    fn clone(&self) -> (copy: Self)
        ensures
            copy == *self,
    {
        Symbol { name: self.name.clone() }
    }
}

/// What one subscription is about: a channel, and a pair unless it is
/// channel-wide.
#[derive(Debug)]
pub struct Key {
    pub channel: ChannelName,
    pub pair: Option<Symbol>,
}

impl View for Key {
    type V = (ChannelName, Option<Seq<char>>);

    open spec fn view(&self) -> (ChannelName, Option<Seq<char>>) {
        (
            self.channel,
            match self.pair {
                Some(pair) => Some(pair@),
                None => None,
            },
        )
    }
}

impl Clone for Key {
    fn clone(&self) -> (copy: Self)
        ensures
            copy == *self,
    {
        Key {
            channel: self.channel,
            pair: match &self.pair {
                Some(pair) => Some(pair.clone()),
                None => None,
            },
        }
    }
}

impl Key {
    /// Whether two keys name the same subscription.
    pub fn same(&self, other: &Key) -> (same: bool)
        ensures
            same == (self@ == other@),
    {
        self.channel == other.channel && match (&self.pair, &other.pair) {
            (Some(a), Some(b)) => a.name == b.name,
            (None, None) => true,
            _ => false,
        }
    }
}

/// The depth of a book subscription: the levels that the caller asked for, and
/// the deeper wire depth that keeps them complete while the book is maintained.
#[derive(Clone, Copy, PartialEq, Eq, Structural, Debug)]
pub struct BookDepth {
    pub levels: u32,
    pub maintained: u32,
}

impl BookDepth {
    /// Ten levels, maintained from twenty-five.
    pub fn d10() -> (depth: BookDepth)
        ensures
            depth == (BookDepth { levels: 10, maintained: 25 }),
    {
        BookDepth { levels: 10, maintained: 25 }
    }
}

/// What a ticker update is sent on.
#[derive(Clone, Copy, PartialEq, Eq, Structural, Debug)]
pub enum EventTrigger {
    Bbo,
    Trades,
}

/// What a subscription was asked for with.
#[derive(Clone, Copy, PartialEq, Eq, Structural, Debug)]
pub enum SubscribeParams {
    Ticker { snapshot: Option<bool>, event_trigger: Option<EventTrigger> },
    Book { depth: BookDepth },
    BookRaw { depth: BookDepth, snapshot: Option<bool> },
    Ohlc { interval_minutes: u32, snapshot: Option<bool> },
    Trade { snapshot: Option<bool> },
    Executions,
    Balances,
}

/// One subscription to register.
#[derive(Debug)]
pub struct SubscriptionEntry {
    pub key: Key,
    pub params: SubscribeParams,
}

impl Clone for SubscriptionEntry {
    fn clone(&self) -> (copy: Self)
        ensures
            copy == *self,
    {
        SubscriptionEntry { key: self.key.clone(), params: self.params }
    }
}

/// A subscription that the registry let go of: a tombstone is one whose terminal
/// event fired before.
#[derive(Debug)]
pub struct RemovedEntry {
    pub key: Key,
    pub params: SubscribeParams,
    pub tombstone: bool,
}

/// What went wrong on a socket.
#[derive(Debug)]
pub enum TransportErrorKind {
    HttpUpgradeRejected { status: u16 },
    TcpRefused,
    SocketReset,
    CloseFrame { code: u16, reason: String },
    AbnormalClose { context: Text },
}

impl Clone for TransportErrorKind {
    fn clone(&self) -> (copy: Self)
        ensures
            copy == *self,
    {
        match self {
            TransportErrorKind::HttpUpgradeRejected { status } =>
                TransportErrorKind::HttpUpgradeRejected { status: *status },
            TransportErrorKind::TcpRefused => TransportErrorKind::TcpRefused,
            TransportErrorKind::SocketReset => TransportErrorKind::SocketReset,
            TransportErrorKind::CloseFrame { code, reason } => TransportErrorKind::CloseFrame {
                code: *code,
                reason: reason.clone(),
            },
            TransportErrorKind::AbnormalClose { context } => TransportErrorKind::AbnormalClose {
                context: context.clone(),
            },
        }
    }
}

#[derive(Debug)]
pub struct TransportError {
    pub kind: TransportErrorKind,
    pub transient: bool,
}

impl Clone for TransportError {
    fn clone(&self) -> (copy: Self)
        ensures
            copy == *self,
    {
        TransportError { kind: self.kind.clone(), transient: self.transient }
    }
}

/// The kinds of WebSocket frames, as far as the reactor tells them apart.
#[derive(Clone, Copy, PartialEq, Eq, Structural, Debug)]
pub enum WsOpcode {
    Text,
    Other,
}

#[derive(Debug)]
pub struct WsFrame {
    pub opcode: WsOpcode,
    pub payload: Vec<u8>,
}

/// What the writer of a socket did with a frame.
#[derive(Clone, Copy, PartialEq, Eq, Structural, Debug)]
pub enum SendResult {
    Sent,
    Backpressure,
    WriterClosed,
}

/// The events of a connection's state machine.
#[allow(inconsistent_fields)]
#[derive(Debug)]
pub enum FsmEvent {
    CallStartConnect { request_id: u64 },
    CallClose { request_id: u64 },
    CallForceReconnect { request_id: u64 },
    WireUpgradeOk { connection_id: Option<u64> },
    WireUpgradeFailed { http_status: u16 },
    WireConnectError { kind: TransportErrorKind, transient: bool },
    WireAuthHandshakeOk,
    WireOrderAuthOk,
    WireAuthHandshakeFailed { kind: AuthErrorKind },
    WireOrderAckTokenStale,
    WireSubscribeAck { key: Key, last: bool },
    WireSubscribeFailed { key: Key, kraken_code: Text, transient: bool },
    WireCloseReceived { code: u16, reason: Option<String> },
    WireAbnormalClose { error: TransportError },
    BusTokenRefreshed { request_id: u64 },
    BusTokenRefreshFailed { request_id: u64, error: Text },
    TimerBackoffElapsed,
    TimerUpgradeTimeout,
    TimerStalenessElapsed,
    TimerCloseTimeout,
    TimerRateBudgetWindowAdvanced,
    TimerTokenRefreshDue,
    TimerSubscribeAckTimeout { key: Key },
    TimerSubscribeResendDue { key: Key },
    TimerBookReseedSnapshot { key: Key },
}

/// The single-shot timers of a connection.
#[derive(Debug)]
pub enum TimerId {
    Backoff,
    UpgradeTimeout,
    Staleness,
    CloseTimeout,
    RateBudgetWindow,
    TokenRefresh,
    SubscribeAck(Key),
    SubscribeResend(Key),
    BookReseedSnapshot(Key),
}

/// What a caller asks of one connection.
#[derive(Clone, Copy, PartialEq, Eq, Structural, Debug)]
pub enum CallerEvent {
    StartConnect { request_id: u64 },
    Close { request_id: u64 },
    ForceReconnect { request_id: u64 },
}

/// Why a subscription ended.
#[derive(Clone, Copy, PartialEq, Eq, Structural, Debug)]
pub enum TerminationCause {
    ClientClosed,
    NonTransientWireRejection,
}

/// Why data may be missing.
#[derive(Clone, Copy, PartialEq, Eq, Structural, Debug)]
pub enum GapCause {
    OrderBookCrcMismatch,
    SequenceGapDetected,
    MalformedFrame,
}

/// What a client was built to do.
#[derive(Debug)]
pub struct CapabilitySnapshot {
    pub declared_namespaces: Vec<String>,
    pub declared_ws_urls: Vec<WsUrl>,
    pub discovered_at_first_use: Vec<String>,
}

/// Request id and capability snapshot of the first event that a reactor emits.
#[derive(Debug)]
pub struct ReadySignal {
    pub request_id: u64,
    pub capability_snapshot: CapabilitySnapshot,
}

/// The events that the reactor puts on the bus.
#[allow(inconsistent_fields)]
#[derive(Debug)]
pub enum EventPayload {
    ClientReady { capability_snapshot: Arc<CapabilitySnapshot> },
    ClientClosedByUser { initiated_at: u64 },
    AuthHandshakeFailed { url: WsUrl, attempt: u32, transient: bool, kraken_error: Text },
    OrderBookGap { channel: ChannelName, symbol: Symbol, cause: GapCause },
    SubscriptionGap { channel: ChannelName, symbol: Symbol, dropped_count: u32, cause: GapCause },
    ChannelGap { channel: ChannelName, dropped_count: u32, cause: GapCause },
    HandlerPanicWarning { channel: ChannelName, handler_id: u64, panic_message: Text },
    MessageDroppedNoHandler { channel: ChannelName, count: u32, period_ns: u64 },
    SubscriptionTerminated {
        key: Key,
        cause: TerminationCause,
        last_error: Option<Text>,
        terminated_at: u64,
    },
    ConnectionSendReady { url: WsUrl, ready_at: u64 },
}

/// An event as the bus carries it; a correlated one names the request it answers.
#[derive(Debug)]
pub struct EventEnvelope {
    pub event_version: u32,
    pub timestamp: u64,
    pub request_id: Option<u64>,
    pub payload: EventPayload,
}

/// A WebSocket request method; an order method may serve as the authentication
/// probe.
#[derive(Clone, Copy, PartialEq, Eq, Structural, Debug)]
pub struct WsOp {
    pub code: u32,
    pub order_method: bool,
}

impl ChannelName {
    /// The name of the channel on the wire; both book views share one.
    pub open spec fn wire_str_spec(self) -> Seq<char> {
        match self {
            ChannelName::Ticker => "ticker"@,
            ChannelName::Book => "book"@,
            ChannelName::BookRaw => "book"@,
            ChannelName::Ohlc => "ohlc"@,
            ChannelName::Trade => "trade"@,
            ChannelName::Executions => "executions"@,
            ChannelName::Balances => "balances"@,
            ChannelName::Status => "status"@,
        }
    }

    pub fn wire_str(self) -> (name: &'static str)
        ensures
            name@ == self.wire_str_spec(),
    {
        match self {
            ChannelName::Ticker => "ticker",
            ChannelName::Book => "book",
            ChannelName::BookRaw => "book",
            ChannelName::Ohlc => "ohlc",
            ChannelName::Trade => "trade",
            ChannelName::Executions => "executions",
            ChannelName::Balances => "balances",
            ChannelName::Status => "status",
        }
    }

    /// The channel of a name on the wire.
    pub open spec fn of_wire_str(name: Seq<char>) -> Option<ChannelName> {
        if name == "ticker"@ {
            Some(ChannelName::Ticker)
        } else if name == "book"@ {
            Some(ChannelName::Book)
        } else if name == "ohlc"@ {
            Some(ChannelName::Ohlc)
        } else if name == "trade"@ {
            Some(ChannelName::Trade)
        } else if name == "executions"@ {
            Some(ChannelName::Executions)
        } else if name == "balances"@ {
            Some(ChannelName::Balances)
        } else if name == "status"@ {
            Some(ChannelName::Status)
        } else {
            None
        }
    }

    pub fn from_wire_str(name: &str) -> (channel: Option<ChannelName>)
        ensures
            channel == ChannelName::of_wire_str(name@),
    {
        if same_text(name, "ticker") {
            Some(ChannelName::Ticker)
        } else if same_text(name, "book") {
            Some(ChannelName::Book)
        } else if same_text(name, "ohlc") {
            Some(ChannelName::Ohlc)
        } else if same_text(name, "trade") {
            Some(ChannelName::Trade)
        } else if same_text(name, "executions") {
            Some(ChannelName::Executions)
        } else if same_text(name, "balances") {
            Some(ChannelName::Balances)
        } else if same_text(name, "status") {
            Some(ChannelName::Status)
        } else {
            None
        }
    }

    /// The channel whose entry on the wire serves `self`.
    pub open spec fn wire_channel_spec(self) -> ChannelName {
        if self == ChannelName::BookRaw {
            ChannelName::Book
        } else {
            self
        }
    }

    pub fn wire_channel(self) -> (wire: ChannelName)
        ensures
            wire == self.wire_channel_spec(),
    {
        match self {
            ChannelName::BookRaw => ChannelName::Book,
            other => other,
        }
    }
}

/// The wire name of a channel leads back to the channel that serves it.
pub proof fn wire_names_lead_back(channel: ChannelName)
    ensures
        ChannelName::of_wire_str(channel.wire_str_spec()) == Some(channel.wire_channel_spec()),
        channel.wire_channel_spec().wire_channel_spec() == channel.wire_channel_spec(),
        channel.wire_channel_spec().wire_str_spec() == channel.wire_str_spec(),
{
    reveal_strlit("ticker");
    reveal_strlit("book");
    reveal_strlit("ohlc");
    reveal_strlit("trade");
    reveal_strlit("executions");
    reveal_strlit("balances");
    reveal_strlit("status");
    assert("trade"@[1] == 'r' && "ticker"@[1] == 'i');
    assert("book"@[1] == 'o' && "balances"@[1] == 'a');
    assert("ohlc"@[0] == 'o' && "executions"@[0] == 'e' && "status"@[0] == 's');
    assert("ticker"@[0] == 't' && "trade"@[0] == 't' && "book"@[0] == 'b' && "balances"@[0]
        == 'b');
}

/// A name on the wire stands for the channel of that name, and for no other; the raw
/// view of a book has none of its own.
pub proof fn a_wire_name_is_the_channels_own(channel: ChannelName, name: Seq<char>)
    ensures
        ChannelName::of_wire_str(name) == Some(channel) <==> match channel {
            ChannelName::Ticker => name == "ticker"@,
            ChannelName::Book => name == "book"@,
            ChannelName::BookRaw => false,
            ChannelName::Ohlc => name == "ohlc"@,
            ChannelName::Trade => name == "trade"@,
            ChannelName::Executions => name == "executions"@,
            ChannelName::Balances => name == "balances"@,
            ChannelName::Status => name == "status"@,
        },
{
    wire_names_lead_back(ChannelName::Ticker);
    wire_names_lead_back(ChannelName::Book);
    wire_names_lead_back(ChannelName::Ohlc);
    wire_names_lead_back(ChannelName::Trade);
    wire_names_lead_back(ChannelName::Executions);
    wire_names_lead_back(ChannelName::Balances);
    wire_names_lead_back(ChannelName::Status);
}

} // verus!
