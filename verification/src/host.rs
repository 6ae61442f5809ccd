//! The link through which the reactor reaches what surrounds it: connection state
//! machines, the subscription registry, the token cache, the event bus, the data
//! handlers and the sockets.
//!
//! Everything the reactor wants from them is a [`Request`], answered by a
//! [`Reply`]. A [`Link`] keeps the sequence of both, so that the contract of a
//! reactor function says which requests it makes, in which order, for whatever
//! answers it gets.

use crate::notes::Note;
use crate::types::{
    ChannelName, ConnectionState, EventEnvelope, FsmEvent, Key, RemovedEntry, SendResult,
    SubscribeParams, SubscriptionEntry, Symbol, TerminationCause, Text, TimerId, TransportErrorKind,
    WsOp, WsUrl,
};
use serde_json::Value;
use vstd::prelude::*;

verus! {

/// Clock readings are nanoseconds and stay below this, which leaves room for
/// every timeout that is added to one.
pub const CLOCK_LIMIT: u64 = 0x7fff_ffff_ffff_ffff;

/// What the reactor reads of one connection.
#[derive(Clone, Copy, PartialEq, Eq, Structural, Debug)]
pub struct ConnView {
    pub state: ConnectionState,
    /// The id of the socket that the connection owns.
    pub socket: Option<u64>,
    /// Authenticating, with no probe on the wire.
    pub authenticating_nothing_in_flight: bool,
    pub has_been_open: bool,
    pub attempt_count: u32,
}

/// The cached WebSocket token.
#[derive(Debug)]
pub struct CachedToken {
    pub value: String,
    /// Whether it has expired at the instant that was asked about, if one was.
    pub expired: bool,
    pub refresh_due_at: u64,
}

/// The bus clock; without a bus, the system clock.
#[derive(Clone, Copy, PartialEq, Eq, Structural, Debug)]
pub struct BusClock {
    pub bus_alive: bool,
    pub now: u64,
}

/// What the registry made of one row of book data.
#[derive(Clone, Copy, PartialEq, Eq, Structural, Debug)]
pub enum BookDriveOutcome {
    /// The maintained book after the row, by its handle.
    Maintained(u64),
    Gap { expected: u32, computed: u32 },
    GapBudgetExhausted,
    AwaitingSnapshot,
    /// Not a maintained book.
    PassThrough,
}

/// What the registry decides when a fresh book snapshot is overdue.
#[derive(Clone, Copy, PartialEq, Eq, Structural, Debug)]
pub enum ReseedTimeoutOutcome {
    StaleNoOp,
    Retry,
    Exhausted,
}

/// What became of decoding one row for a channel's handlers.
#[derive(Debug)]
pub enum Decoded {
    /// The bus is gone; nothing was decoded.
    NoBus,
    /// The decoded payload, by its handle.
    Deliver(u64),
    DecodeFailed,
    Panicked(Text),
}

/// A response to a WebSocket request.
#[derive(Debug)]
pub struct WsResponse {
    pub req_id: u64,
    pub success: bool,
    pub result: Value,
    pub error: Option<String>,
}

/// Why a pending request is failed.
#[derive(Clone, Copy, PartialEq, Eq, Structural, Debug)]
pub enum RequestFailure {
    NotOpen,
    ResponseTimeout,
}

/// One upgrade outcome on its way to the reactor.
#[derive(Debug)]
pub enum UpgradeOutcome {
    Upgraded { url: WsUrl, connection_id: u64 },
    Failed { url: WsUrl, kind: TransportErrorKind, transient: bool },
}

/// What the reactor's queue did with an upgrade outcome.
#[derive(Clone, Copy, PartialEq, Eq, Structural, Debug)]
pub enum QueueResult {
    Taken,
    Full,
    Closed,
}

/// What the reactor can ask for. A request about one connection is made only where
/// [`Request::Conn`] found one.
#[derive(Debug)]
pub enum Request {
    /// The connection of a url, if there is one.
    Conn(WsUrl),
    /// The instant by the clock of a connection.
    ConnClock(WsUrl),
    /// Drive an event into the state machine; the connection after it.
    HandleEvent(WsUrl, FsmEvent),
    /// Something arrived on the socket.
    NoteInboundActivity(WsUrl),
    /// Leave `Resubscribing` for `Open` if nothing is waited for; the connection
    /// after it.
    CompleteResubscribeIfEmpty(WsUrl),
    /// A subscribe found the queue full, which counts against its budget; the
    /// connection after it.
    SubscribeFailure(WsUrl, Key),
    /// Wait for the acknowledgement of a subscribe until an instant.
    ArmSubscribeAck(WsUrl, Key, u64),
    /// Neither wait for an acknowledgement nor resend.
    DisarmSubscribeAck(WsUrl, Key),
    /// Whether an acknowledgement is waited for.
    IsSubscribeAckArmed(WsUrl, Key),
    /// How many acknowledgements are waited for.
    PendingSubscribeAckCount(WsUrl),
    /// A fresh id for a subscribe.
    NextSubscribeReqId(WsUrl),
    /// An id stands for a subscription.
    RecordSubscribeReqId(WsUrl, u64, Key),
    /// The subscription that an id stands for.
    ResolveSubscribeReqId(WsUrl, u64),
    /// Issue a signed subscribe when there is a token.
    DeferAuthSubscribe(WsUrl, Key, SubscribeParams),
    /// Forget such a subscribe.
    RemoveDeferredAuthSubscribe(WsUrl, Key),
    /// Take all such subscribes, in order.
    DrainDeferredAuthSubscribes(WsUrl),
    /// Whether a token refresh is awaited.
    IsAwaitingTokenRefresh(WsUrl),
    SetAwaitingTokenRefresh(WsUrl, bool),
    /// Wait for the fresh snapshot of a book until an instant.
    ArmBookReseedSnapshot(WsUrl, Key, u64),
    DisarmBookReseedSnapshot(WsUrl, Key),
    /// Refresh the token proactively at an instant.
    ArmTokenRefresh(WsUrl, u64),
    DisarmTokenRefresh(WsUrl),
    /// Take a fired timer out.
    PopTimer(WsUrl, TimerId),
    /// Fail one pending request so that it may be tried again.
    DrainOneRetryable(WsUrl, u64),
    /// Whether a request waits for its response.
    PendingRequestsContain(WsUrl, u64),
    /// Hand a response to whoever waits for it.
    ResolvePendingRequest(WsUrl, WsResponse),
    /// A request with an id was sent at an instant and waits for its response.
    RecordPendingRequest(WsUrl, u64, WsOp, u64),
    /// Fail a request that waits for its response.
    FailPendingRequest(WsUrl, u64, RequestFailure),
    /// Fail a request that was never recorded.
    RejectRequest(u64, RequestFailure),
    /// A fresh id for a call on a connection.
    NextConnectId,
    /// Register a subscription at an instant, held by a guard or not; how many
    /// subscribers it has now.
    Register(SubscriptionEntry, u64, bool),
    /// A guard holds a subscription.
    RecordGuardRef(u64, Key),
    /// Release a subscription; how many subscribers it has left. A key that is not
    /// registered has none.
    Release(Key),
    /// Release what a guard holds; how many subscribers are left.
    ReleaseGuardRef(u64, Key),
    /// Remove every subscription, or every one of a channel.
    DeregisterAll(Option<ChannelName>),
    /// What a subscription was registered with.
    ParamsFor(Key),
    /// Whether a subscription is kept only as the record of its end.
    IsTerminated(Key),
    /// Whether a connection has live subscriptions.
    HasUrlEntry(WsUrl),
    /// A subscription was acknowledged.
    NoteAcked(Key),
    /// A subscription has ended, with the last words of the exchange.
    NoteTerminated(Key, TerminationCause, Text),
    /// Whether a book waits for a fresh snapshot.
    IsBookResyncing(Key),
    /// Drop a book and wait for a fresh snapshot.
    BeginBookResync(Symbol),
    /// A fresh snapshot is overdue.
    NoteReseedTimeout(Symbol),
    /// The number of a frame, and whether it was a snapshot; how many frames were
    /// lost before it.
    NoteSequence(ChannelName, u64, bool),
    /// One row of data, and whether it came with a snapshot.
    HandleUpdate(ChannelName, Option<Symbol>, bool, Value),
    /// The subscribe frames of a connection, in order.
    ComposeSubscribeFrames(WsUrl),
    /// The same, signed with a token.
    ComposeSignedSubscribeFrames(WsUrl, String),
    /// The same, without one subscription.
    ComposeRemainingSignedSubscribes(WsUrl, String, Key),
    /// The first of them.
    ComposeFirstSignedSubscribe(WsUrl, String),
    /// The live subscriptions of a connection, without one.
    LiveSubscribeKeys(WsUrl, Option<Key>),
    /// A number that changes with the live subscriptions.
    LivenessEpoch,
    /// The cached token, and whether it has expired at an instant.
    CachedToken(Option<u64>),
    InvalidateCachedToken,
    /// Refresh the token now.
    ForceRefresh,
    /// Refresh the token ahead of its end.
    ProactiveRefresh,
    BusClock,
    /// The time allowed for an acknowledgement, if there is a bus to say so.
    SubscribeAckTimeoutMs,
    /// Put an event on the bus.
    Publish(EventEnvelope),
    /// Hand an event to the request that waits for it.
    DeliverCorrelated(EventEnvelope),
    /// Show the state of a connection.
    StoreMirror(WsUrl, ConnectionState),
    StoreAuthHasSubscriptions(bool),
    StoreAuthSendReady(bool),
    /// Say something in the log of the program.
    Say(Note),
    /// The handlers of a channel, by their ids.
    HandlersFor(ChannelName),
    /// Decode a row with the decoder of a handler.
    Decode(ChannelName, u64, Value),
    /// Hand a decoded payload to a handler.
    DeliverDecoded(ChannelName, u64, u64),
    /// Hand a maintained book to a handler.
    DeliverMaintained(ChannelName, u64, u64),
    /// Register a handler under an id, with its callback.
    RegisterHandler(ChannelName, u64, u64),
    DeregisterHandler(ChannelName, u64),
    /// Send a text frame on a socket.
    SendFrame(WsUrl, u64, String),
    /// Carry the upgrade outcome of a socket to the reactor from now on.
    WireUpgradeBridge(WsUrl, u64),
    /// Stop doing so.
    DropUpgradeBridge(WsUrl),
    /// Put an upgrade outcome into the reactor's queue; what the queue did with it.
    ForwardUpgrade(UpgradeOutcome),
    /// The pair that a name stands for.
    ParseSymbol(String),
    /// Whether a method is one of a request.
    IsRequestMethod(String),
}

/// An answer.
#[derive(Debug)]
pub enum Reply {
    Done,
    Flag(bool),
    Count(u64),
    Conn(Option<ConnView>),
    View(ConnView),
    Instant(u64),
    Clock(BusClock),
    Millis(Option<u32>),
    Key(Option<Key>),
    Params(Option<SubscribeParams>),
    Keys(Vec<(Key, SubscribeParams)>),
    Removed(Vec<RemovedEntry>),
    Frame(Option<(Key, Value)>),
    Frames(Vec<(Key, Value)>),
    Dropped(Option<u32>),
    Book(BookDriveOutcome),
    Reseed(ReseedTimeoutOutcome),
    Token(Option<CachedToken>),
    Handlers(Vec<u64>),
    Decoded(Decoded),
    Send(SendResult),
    Symbol(Option<Symbol>),
    Queue(QueueResult),
}

/// The shapes of answers.
pub enum Kind {
    Done,
    Flag,
    Count,
    Conn,
    View,
    Instant,
    Clock,
    Millis,
    Key,
    Params,
    Keys,
    Removed,
    Frame,
    Frames,
    Dropped,
    Book,
    Reseed,
    Token,
    Handlers,
    Decoded,
    Send,
    Symbol,
    Queue,
}

impl Request {
    /// The shape of the answer to a request.
    pub open spec fn kind(self) -> Kind {
        match self {
            Request::IsSubscribeAckArmed(..)
            | Request::PendingRequestsContain(..)
            | Request::IsTerminated(..)
            | Request::IsAwaitingTokenRefresh(..)
            | Request::HasUrlEntry(..)
            | Request::IsBookResyncing(..)
            | Request::IsRequestMethod(..) => Kind::Flag,
            Request::PendingSubscribeAckCount(..)
            | Request::NextSubscribeReqId(..)
            | Request::NextConnectId
            | Request::Register(..)
            | Request::Release(..)
            | Request::ReleaseGuardRef(..)
            | Request::LivenessEpoch => Kind::Count,
            Request::Conn(..) => Kind::Conn,
            Request::HandleEvent(..)
            | Request::CompleteResubscribeIfEmpty(..)
            | Request::SubscribeFailure(..) => Kind::View,
            Request::ConnClock(..) => Kind::Instant,
            Request::BusClock => Kind::Clock,
            Request::SubscribeAckTimeoutMs => Kind::Millis,
            Request::ResolveSubscribeReqId(..) => Kind::Key,
            Request::ParamsFor(..) => Kind::Params,
            Request::DrainDeferredAuthSubscribes(..) | Request::LiveSubscribeKeys(..) => Kind::Keys,
            Request::DeregisterAll(..) => Kind::Removed,
            Request::ComposeFirstSignedSubscribe(..) => Kind::Frame,
            Request::ComposeSubscribeFrames(..)
            | Request::ComposeSignedSubscribeFrames(..)
            | Request::ComposeRemainingSignedSubscribes(..) => Kind::Frames,
            Request::NoteSequence(..) => Kind::Dropped,
            Request::HandleUpdate(..) => Kind::Book,
            Request::NoteReseedTimeout(..) => Kind::Reseed,
            Request::CachedToken(..) => Kind::Token,
            Request::HandlersFor(..) => Kind::Handlers,
            Request::Decode(..) => Kind::Decoded,
            Request::SendFrame(..) => Kind::Send,
            Request::ParseSymbol(..) => Kind::Symbol,
            Request::ForwardUpgrade(..) => Kind::Queue,
            _ => Kind::Done,
        }
    }
}

impl Reply {
    pub open spec fn kind(self) -> Kind {
        match self {
            Reply::Done => Kind::Done,
            Reply::Flag(_) => Kind::Flag,
            Reply::Count(_) => Kind::Count,
            Reply::Conn(_) => Kind::Conn,
            Reply::View(_) => Kind::View,
            Reply::Instant(_) => Kind::Instant,
            Reply::Clock(_) => Kind::Clock,
            Reply::Millis(_) => Kind::Millis,
            Reply::Key(_) => Kind::Key,
            Reply::Params(_) => Kind::Params,
            Reply::Keys(_) => Kind::Keys,
            Reply::Removed(_) => Kind::Removed,
            Reply::Frame(_) => Kind::Frame,
            Reply::Frames(_) => Kind::Frames,
            Reply::Dropped(_) => Kind::Dropped,
            Reply::Book(_) => Kind::Book,
            Reply::Reseed(_) => Kind::Reseed,
            Reply::Token(_) => Kind::Token,
            Reply::Handlers(_) => Kind::Handlers,
            Reply::Decoded(_) => Kind::Decoded,
            Reply::Send(_) => Kind::Send,
            Reply::Symbol(_) => Kind::Symbol,
            Reply::Queue(_) => Kind::Queue,
        }
    }
}

/// Whether `reply` can answer `request`: it has the shape that the request asks
/// for, and an instant stays below [`CLOCK_LIMIT`].
pub open spec fn fits(request: Request, reply: Reply) -> bool {
    &&& reply.kind() == request.kind()
    &&& reply is Instant ==> reply->Instant_0 < CLOCK_LIMIT
}

/// Requests with their answers, the oldest first.
pub type Log = Seq<(Request, Reply)>;

/// The log after one more request.
pub open spec fn asked(log: Log, request: Request, reply: Reply) -> Log {
    log.push((request, reply))
}

/// The log after one more request that has no answer but its completion.
pub open spec fn told(log: Log, request: Request) -> Log {
    log.push((request, Reply::Done))
}

/// The log after one more line in the log of the program.
pub open spec fn said(log: Log, note: Note) -> Log {
    told(log, Request::Say(note))
}

/// The flags that the reactor sets.
pub enum Flag {
    /// A connection waits for a token refresh.
    AwaitingRefresh(WsUrl),
    /// The auth connection has subscriptions.
    AuthHasSubscriptions,
    /// A bare order may be sent.
    AuthSendReady,
}

/// What a request does to the world outside the collaborators' own books.
pub enum Effect {
    /// A frame goes to a socket.
    Send,
    /// An event goes into a state machine.
    Drive,
    /// An event goes to the bus.
    Announce,
    /// A token refresh is started.
    Refresh,
    /// A payload goes to a handler.
    Deliver,
    /// Whoever waits for a request gets its answer, or gets the request back.
    Settle,
    /// An acknowledgement is waited for.
    Await,
    /// A subscribe is put off until there is a token.
    Defer,
    /// None of these.
    Inward,
}

impl Request {
    /// What a request sets a flag to, if it sets it.
    pub open spec fn sets(self, flag: Flag) -> Option<bool> {
        match (self, flag) {
            (Request::SetAwaitingTokenRefresh(url, set), Flag::AwaitingRefresh(of)) => if url
                == of {
                Some(set)
            } else {
                None
            },
            (Request::StoreAuthHasSubscriptions(set), Flag::AuthHasSubscriptions) => Some(set),
            (Request::StoreAuthSendReady(set), Flag::AuthSendReady) => Some(set),
            _ => None,
        }
    }

    pub open spec fn effect(self) -> Effect {
        match self {
            Request::SendFrame(..) => Effect::Send,
            Request::HandleEvent(..) => Effect::Drive,
            Request::Publish(..) | Request::DeliverCorrelated(..) => Effect::Announce,
            Request::ForceRefresh | Request::ProactiveRefresh => Effect::Refresh,
            Request::DeliverDecoded(..) | Request::DeliverMaintained(..) => Effect::Deliver,
            Request::RejectRequest(..)
            | Request::FailPendingRequest(..)
            | Request::ResolvePendingRequest(..)
            | Request::DrainOneRetryable(..) => Effect::Settle,
            Request::ArmSubscribeAck(..) => Effect::Await,
            Request::DeferAuthSubscribe(..) => Effect::Defer,
            _ => Effect::Inward,
        }
    }
}

/// Whether `after` is `before` with more requests behind it.
pub open spec fn extends(before: Log, after: Log) -> bool {
    &&& before.len() <= after.len()
    &&& forall|i: int| 0 <= i < before.len() ==> #[trigger] after[i] == before[i]
}

/// Whether the log grew by requests of which none has `effect`.
pub open spec fn grew_without(before: Log, after: Log, effect: Effect) -> bool {
    &&& extends(before, after)
    &&& forall|i: int|
        before.len() <= i < after.len() ==> (#[trigger] after[i]).0.effect() != effect
}

/// What does not happen in two stretches of requests does not happen in both
/// together.
pub proof fn grew_without_together(before: Log, middle: Log, after: Log, effect: Effect)
    requires
        grew_without(before, middle, effect),
        grew_without(middle, after, effect),
    ensures
        grew_without(before, after, effect),
{
    assert forall|i: int| before.len() <= i < after.len() implies (
    #[trigger] after[i]).0.effect() != effect by {
        if i < middle.len() {
            assert(after[i] == middle[i]);
        }
    }
    assert forall|i: int| 0 <= i < before.len() implies #[trigger] after[i] == before[i] by {
        assert(after[i] == middle[i]);
        assert(middle[i] == before[i]);
    }
}

/// Whether `request` was made between two logs.
pub open spec fn made(before: Log, after: Log, request: Request) -> bool {
    exists|i: int| before.len() <= i < after.len() && (#[trigger] after[i]).0 == request
}

/// What was made stays made.
pub proof fn made_earlier(before: Log, middle: Log, after: Log, request: Request)
    requires
        made(before, middle, request),
        extends(middle, after),
    ensures
        made(before, after, request),
{
    let i = choose|i: int|
        before.len() <= i < middle.len() && (#[trigger] middle[i]).0 == request;
    assert(after[i] == middle[i]);
}

/// What was made in the last part was made in the whole.
pub proof fn made_later(before: Log, middle: Log, after: Log, request: Request)
    requires
        extends(before, middle),
        made(middle, after, request),
    ensures
        made(before, after, request),
{
    let i = choose|i: int| middle.len() <= i < after.len() && (#[trigger] after[i]).0 == request;
    assert(before.len() <= i);
}

/// The requests with `effect` that were made between two logs, in order.
pub open spec fn happened(before: Log, after: Log, effect: Effect) -> Seq<Request>
    decreases after.len(),
{
    if after.len() <= before.len() {
        Seq::empty()
    } else {
        let earlier = happened(before, after.drop_last(), effect);
        if after.last().0.effect() == effect {
            earlier.push(after.last().0)
        } else {
            earlier
        }
    }
}

/// What happened in two stretches is what happened in both together.
pub proof fn happened_together(before: Log, middle: Log, after: Log, effect: Effect)
    requires
        extends(before, middle),
        extends(middle, after),
    ensures
        extends(before, after),
        happened(before, after, effect) == happened(before, middle, effect) + happened(
            middle,
            after,
            effect,
        ),
    decreases after.len(),
{
    assert forall|i: int| 0 <= i < before.len() implies #[trigger] after[i] == before[i] by {
        assert(after[i] == middle[i]);
        assert(middle[i] == before[i]);
    }
    if after.len() == middle.len() {
        assert(after =~= middle);
        assert(happened(middle, after, effect) =~= Seq::empty());
    } else {
        let shorter = after.drop_last();
        assert forall|i: int| 0 <= i < middle.len() implies #[trigger] shorter[i] == middle[i] by {
            assert(after[i] == middle[i]);
        }
        happened_together(before, middle, shorter, effect);
    }
    assert(happened(before, after, effect) =~= happened(before, middle, effect) + happened(
        middle,
        after,
        effect,
    ));
}

/// Where a thing did not happen, nothing of it is found.
pub proof fn nothing_happened(before: Log, after: Log, effect: Effect)
    requires
        grew_without(before, after, effect),
    ensures
        happened(before, after, effect) == Seq::<Request>::empty(),
    decreases after.len(),
{
    if after.len() > before.len() {
        let shorter = after.drop_last();
        assert(after[after.len() - 1].0.effect() != effect);
        assert forall|i: int| 0 <= i < before.len() implies #[trigger] shorter[i] == before[i] by {
            assert(after[i] == before[i]);
        }
        assert forall|i: int| before.len() <= i < shorter.len() implies (
        #[trigger] shorter[i]).0.effect() != effect by {
            assert(shorter[i] == after[i]);
        }
        nothing_happened(before, shorter, effect);
    }
}

/// Where a thing happened at one place alone, it is all that is found.
pub proof fn happened_once(before: Log, after: Log, effect: Effect, at: int)
    requires
        before.len() <= at < after.len(),
        after[at].0.effect() == effect,
        forall|i: int|
            before.len() <= i < after.len() && i != at ==> (#[trigger] after[i]).0.effect()
                != effect,
    ensures
        happened(before, after, effect) == seq![after[at].0],
    decreases after.len(),
{
    let shorter = after.drop_last();
    if at == after.len() - 1 {
        assert(grew_without(shorter.take(before.len() as int), shorter, effect)) by {
            assert forall|i: int| before.len() <= i < shorter.len() implies (
            #[trigger] shorter[i]).0.effect() != effect by {
                assert(shorter[i] == after[i]);
            }
        }
        nothing_happened(shorter.take(before.len() as int), shorter, effect);
        happened_from(before, shorter.take(before.len() as int), shorter, effect);
        assert(happened(before, after, effect) =~= seq![after[at].0]);
    } else {
        assert(after[after.len() - 1].0.effect() != effect);
        assert forall|i: int| before.len() <= i < shorter.len() && i != at implies (
        #[trigger] shorter[i]).0.effect() != effect by {
            assert(shorter[i] == after[i]);
        }
        assert(shorter[at] == after[at]);
        happened_once(before, shorter, effect, at);
    }
}

/// What is found depends only on where the search begins.
proof fn happened_from(before: Log, other: Log, after: Log, effect: Effect)
    requires
        before.len() == other.len(),
    ensures
        happened(before, after, effect) == happened(other, after, effect),
    decreases after.len(),
{
    if after.len() > before.len() {
        happened_from(before, other, after.drop_last(), effect);
    }
}

/// Whether the log grew by requests that all obey a rule.
pub open spec fn each_obeys(before: Log, after: Log, rule: spec_fn(Request) -> bool) -> bool {
    &&& extends(before, after)
    &&& forall|i: int| before.len() <= i < after.len() ==> rule((#[trigger] after[i]).0)
}

/// A rule that is obeyed in two stretches of requests is obeyed in both together.
pub proof fn each_obeys_together(
    before: Log,
    middle: Log,
    after: Log,
    rule: spec_fn(Request) -> bool,
)
    requires
        each_obeys(before, middle, rule),
        each_obeys(middle, after, rule),
    ensures
        each_obeys(before, after, rule),
{
    assert forall|i: int| before.len() <= i < after.len() implies rule(
        (#[trigger] after[i]).0,
    ) by {
        if i < middle.len() {
            assert(after[i] == middle[i]);
            assert(rule(middle[i].0));
        }
    }
    assert forall|i: int| 0 <= i < before.len() implies #[trigger] after[i] == before[i] by {
        assert(after[i] == middle[i]);
        assert(middle[i] == before[i]);
    }
}

/// The requests of a kind that were made between two logs, with their answers, in
/// order.
pub open spec fn picked(before: Log, after: Log, kind: spec_fn(Request) -> bool) -> Log
    decreases after.len(),
{
    if after.len() <= before.len() {
        Seq::empty()
    } else {
        let earlier = picked(before, after.drop_last(), kind);
        if kind(after.last().0) {
            earlier.push(after.last())
        } else {
            earlier
        }
    }
}

/// Each request adds itself to what is picked, if it is of the kind.
pub proof fn picking(before: Log, kind: spec_fn(Request) -> bool)
    ensures
        picked(before, before, kind) == Log::empty(),
        forall|log: Log, entry: (Request, Reply)|
            before.len() <= log.len() ==> #[trigger] picked(before, log.push(entry), kind)
                == if kind(entry.0) {
                picked(before, log, kind).push(entry)
            } else {
                picked(before, log, kind)
            },
{
    assert forall|log: Log, entry: (Request, Reply)|
        before.len() <= log.len() implies #[trigger] picked(before, log.push(entry), kind)
        == if kind(entry.0) {
        picked(before, log, kind).push(entry)
    } else {
        picked(before, log, kind)
    } by {
        assert(log.push(entry).drop_last() =~= log);
    }
}

/// What is picked from two stretches is what is picked from both together.
pub proof fn picked_together(
    before: Log,
    middle: Log,
    after: Log,
    kind: spec_fn(Request) -> bool,
)
    requires
        extends(before, middle),
        extends(middle, after),
    ensures
        extends(before, after),
        picked(before, after, kind) == picked(before, middle, kind) + picked(middle, after, kind),
    decreases after.len(),
{
    assert forall|i: int| 0 <= i < before.len() implies #[trigger] after[i] == before[i] by {
        assert(after[i] == middle[i]);
        assert(middle[i] == before[i]);
    }
    if after.len() == middle.len() {
        assert(after =~= middle);
        assert(picked(middle, after, kind) =~= Seq::empty());
    } else {
        let shorter = after.drop_last();
        assert forall|i: int| 0 <= i < middle.len() implies #[trigger] shorter[i] == middle[i] by {
            assert(after[i] == middle[i]);
        }
        picked_together(before, middle, shorter, kind);
    }
    assert(picked(before, after, kind) =~= picked(before, middle, kind) + picked(
        middle,
        after,
        kind,
    ));
}

/// Where no request is of the kind, none is picked.
pub proof fn nothing_picked(before: Log, after: Log, kind: spec_fn(Request) -> bool)
    requires
        forall|i: int| before.len() <= i < after.len() ==> !kind((#[trigger] after[i]).0),
    ensures
        picked(before, after, kind) == Log::empty(),
    decreases after.len(),
{
    if after.len() > before.len() {
        let shorter = after.drop_last();
        assert(!kind(after[after.len() - 1].0));
        assert forall|i: int| before.len() <= i < shorter.len() implies !kind(
            (#[trigger] shorter[i]).0,
        ) by {
            assert(shorter[i] == after[i]);
        }
        nothing_picked(before, shorter, kind);
    }
}

/// What is picked is of the kind, and was made between the two logs.
pub proof fn picked_is_of_kind(before: Log, after: Log, kind: spec_fn(Request) -> bool, i: int)
    requires
        0 <= i < picked(before, after, kind).len(),
    ensures
        kind(picked(before, after, kind)[i].0),
        exists|k: int| before.len() <= k < after.len() && #[trigger] after[k] == picked(
            before,
            after,
            kind,
        )[i],
    decreases after.len(),
{
    let earlier = picked(before, after.drop_last(), kind);
    let at = picked(before, after, kind)[i];
    if i < earlier.len() {
        picked_is_of_kind(before, after.drop_last(), kind, i);
        let k = choose|k: int|
            before.len() <= k < after.drop_last().len() && #[trigger] after.drop_last()[k] == at;
        assert(after[k] == at);
    } else {
        assert(after[after.len() - 1] == at);
    }
}

/// The connection of `url`, where an answer tells what it is now.
pub open spec fn tells_conn(entry: (Request, Reply), url: WsUrl) -> Option<ConnView> {
    match entry {
        (Request::Conn(of), Reply::Conn(Some(conn))) => if of == url {
            Some(conn)
        } else {
            None
        },
        (
            Request::HandleEvent(of, _)
            | Request::CompleteResubscribeIfEmpty(of)
            | Request::SubscribeFailure(of, _),
            Reply::View(conn),
        ) => if of == url {
            Some(conn)
        } else {
            None
        },
        _ => None,
    }
}

/// A connection as it was last told, if it ever was.
pub open spec fn last_told(log: Log, url: WsUrl) -> Option<ConnView>
    decreases log.len(),
{
    if log.len() == 0 {
        None
    } else if tells_conn(log.last(), url) is Some {
        tells_conn(log.last(), url)
    } else {
        last_told(log.drop_last(), url)
    }
}

/// Whether everything that was shown of a connection between two logs was its state
/// as it was last told.
pub open spec fn shows_what_is(before: Log, after: Log) -> bool
    decreases after.len(),
{
    after.len() > before.len() ==> {
        &&& shows_what_is(before, after.drop_last())
        &&& match after.last().0 {
            Request::StoreMirror(url, state) => {
                &&& last_told(after.drop_last(), url) is Some
                &&& last_told(after.drop_last(), url)->Some_0.state == state
            },
            _ => true,
        }
    }
}

/// What each request adds to what is told and shown of a connection.
pub proof fn showing(before: Log)
    ensures
        shows_what_is(before, before),
        forall|log: Log, entry: (Request, Reply), url: WsUrl| #[trigger]
            last_told(log.push(entry), url) == if tells_conn(entry, url) is Some {
                tells_conn(entry, url)
            } else {
                last_told(log, url)
            },
        forall|log: Log, entry: (Request, Reply)|
            before.len() <= log.len() ==> #[trigger] shows_what_is(before, log.push(entry)) == (
            shows_what_is(before, log) && match entry.0 {
                Request::StoreMirror(url, state) => last_told(log, url) is Some && last_told(
                    log,
                    url,
                )->Some_0.state == state,
                _ => true,
            }),
{
    assert forall|log: Log, entry: (Request, Reply), url: WsUrl| #[trigger]
        last_told(log.push(entry), url) == if tells_conn(entry, url) is Some {
        tells_conn(entry, url)
    } else {
        last_told(log, url)
    } by {
        assert(log.push(entry).drop_last() =~= log);
    }
    assert forall|log: Log, entry: (Request, Reply)|
        before.len() <= log.len() implies #[trigger] shows_what_is(before, log.push(entry)) == (
    shows_what_is(before, log) && match entry.0 {
        Request::StoreMirror(url, state) => last_told(log, url) is Some && last_told(
                    log,
                    url,
                )->Some_0.state == state,
        _ => true,
    }) by {
        assert(log.push(entry).drop_last() =~= log);
    }
}

/// What is shown faithfully in two stretches is so in both together.
pub proof fn shows_together(before: Log, middle: Log, after: Log)
    requires
        shows_what_is(before, middle),
        extends(middle, after),
        shows_what_is(middle, after),
    ensures
        shows_what_is(before, after),
    decreases after.len(),
{
    if after.len() == middle.len() {
        assert(after =~= middle);
    } else {
        let shorter = after.drop_last();
        assert forall|i: int| 0 <= i < middle.len() implies #[trigger] shorter[i] == middle[i] by {
            assert(after[i] == middle[i]);
        }
        shows_together(before, middle, shorter);
    }
}

/// Where nothing is shown, nothing is shown amiss.
pub proof fn nothing_shown(before: Log, after: Log)
    requires
        forall|i: int|
            before.len() <= i < after.len() ==> !((#[trigger] after[i]).0 is StoreMirror),
    ensures
        shows_what_is(before, after),
    decreases after.len(),
{
    if after.len() > before.len() {
        let shorter = after.drop_last();
        assert(!(after[after.len() - 1].0 is StoreMirror));
        assert forall|i: int| before.len() <= i < shorter.len() implies !((
        #[trigger] shorter[i]).0 is StoreMirror) by {
            assert(shorter[i] == after[i]);
        }
        nothing_shown(before, shorter);
    }
}

/// What a flag was last set to, if it ever was.
pub open spec fn last_set(log: Log, flag: Flag) -> Option<bool>
    decreases log.len(),
{
    if log.len() == 0 {
        None
    } else if log.last().0.sets(flag) is Some {
        log.last().0.sets(flag)
    } else {
        last_set(log.drop_last(), flag)
    }
}

/// A flag that is not set again keeps its value.
pub proof fn last_set_stays(before: Log, after: Log, flag: Flag)
    requires
        extends(before, after),
        forall|i: int|
            before.len() <= i < after.len() ==> (#[trigger] after[i]).0.sets(flag) is None,
    ensures
        last_set(after, flag) == last_set(before, flag),
    decreases after.len(),
{
    if after.len() == before.len() {
        assert(after =~= before);
    } else {
        let shorter = after.drop_last();
        assert(after[after.len() - 1].0.sets(flag) is None);
        assert forall|i: int| 0 <= i < before.len() implies #[trigger] shorter[i] == before[i] by {
            assert(after[i] == before[i]);
        }
        assert forall|i: int| before.len() <= i < shorter.len() implies (
        #[trigger] shorter[i]).0.sets(flag) is None by {
            assert(shorter[i] == after[i]);
        }
        last_set_stays(before, shorter, flag);
    }
}

/// A flag has the value of the last request that set it.
pub proof fn last_set_at(log: Log, flag: Flag, at: int)
    requires
        0 <= at < log.len(),
        log[at].0.sets(flag) is Some,
        forall|i: int| at < i < log.len() ==> (#[trigger] log[i]).0.sets(flag) is None,
    ensures
        last_set(log, flag) == log[at].0.sets(flag),
{
    let before = log.take(at + 1);
    assert(before.last() == log[at]);
    last_set_stays(before, log, flag);
}

/// The link: a function that answers requests, and the log of what it was asked.
pub struct Link<F: Fn(Request) -> Reply> {
    answer: F,
    log: Ghost<Log>,
}

/// Whether a function answers every request, each with a reply that fits.
pub open spec fn answers_all<F: Fn(Request) -> Reply>(answer: F) -> bool {
    &&& forall|request: Request| #[trigger] answer.requires((request,))
    &&& forall|request: Request, reply: Reply| #[trigger]
        answer.ensures((request,), reply) ==> fits(request, reply)
}

impl<F: Fn(Request) -> Reply> Link<F> {
    #[verifier::type_invariant]
    spec fn sound(self) -> bool {
        answers_all(self.answer)
    }

    /// What was asked and answered so far.
    pub closed spec fn log(&self) -> Log {
        self.log@
    }

    pub fn new(answer: F) -> (link: Self)
        requires
            answers_all(answer),
        ensures
            link.log() == Log::empty(),
    {
        Link { answer, log: Ghost(Seq::empty()) }
    }

    fn call(&mut self, request: Request) -> (reply: Reply)
        ensures
            final(self).log() == asked(old(self).log(), request, reply),
            fits(request, reply),
    {
        proof {
            use_type_invariant(&*self);
        }
        let ghost asked_for = request;
        let reply = (self.answer)(request);
        self.log = Ghost(self.log@.push((asked_for, reply)));
        reply
    }

    /// Makes a request that has no answer but its completion.
    pub fn tell(&mut self, request: Request)
        requires
            request.kind() is Done,
        ensures
            final(self).log() == told(old(self).log(), request),
    {
        match self.call(request) {
            Reply::Done => {},
            _ => vstd::pervasive::unreached(),
        }
    }

    pub fn flag(&mut self, request: Request) -> (flag: bool)
        requires
            request.kind() is Flag,
        ensures
            final(self).log() == asked(old(self).log(), request, Reply::Flag(flag)),
    {
        match self.call(request) {
            Reply::Flag(flag) => flag,
            _ => vstd::pervasive::unreached(),
        }
    }

    pub fn count(&mut self, request: Request) -> (count: u64)
        requires
            request.kind() is Count,
        ensures
            final(self).log() == asked(old(self).log(), request, Reply::Count(count)),
    {
        match self.call(request) {
            Reply::Count(count) => count,
            _ => vstd::pervasive::unreached(),
        }
    }

    pub fn conn(&mut self, url: WsUrl) -> (conn: Option<ConnView>)
        ensures
            final(self).log() == asked(old(self).log(), Request::Conn(url), Reply::Conn(conn)),
    {
        match self.call(Request::Conn(url)) {
            Reply::Conn(conn) => conn,
            _ => vstd::pervasive::unreached(),
        }
    }

    pub fn view(&mut self, request: Request) -> (view: ConnView)
        requires
            request.kind() is View,
        ensures
            final(self).log() == asked(old(self).log(), request, Reply::View(view)),
    {
        match self.call(request) {
            Reply::View(view) => view,
            _ => vstd::pervasive::unreached(),
        }
    }

    pub fn conn_clock(&mut self, url: WsUrl) -> (now: u64)
        ensures
            final(self).log() == asked(
                old(self).log(),
                Request::ConnClock(url),
                Reply::Instant(now),
            ),
            now < CLOCK_LIMIT,
    {
        match self.call(Request::ConnClock(url)) {
            Reply::Instant(now) => now,
            _ => vstd::pervasive::unreached(),
        }
    }

    pub fn bus_clock(&mut self) -> (clock: BusClock)
        ensures
            final(self).log() == asked(old(self).log(), Request::BusClock, Reply::Clock(clock)),
    {
        match self.call(Request::BusClock) {
            Reply::Clock(clock) => clock,
            _ => vstd::pervasive::unreached(),
        }
    }

    pub fn millis(&mut self) -> (millis: Option<u32>)
        ensures
            final(self).log() == asked(
                old(self).log(),
                Request::SubscribeAckTimeoutMs,
                Reply::Millis(millis),
            ),
    {
        match self.call(Request::SubscribeAckTimeoutMs) {
            Reply::Millis(millis) => millis,
            _ => vstd::pervasive::unreached(),
        }
    }

    pub fn key(&mut self, request: Request) -> (key: Option<Key>)
        requires
            request.kind() is Key,
        ensures
            final(self).log() == asked(old(self).log(), request, Reply::Key(key)),
    {
        match self.call(request) {
            Reply::Key(key) => key,
            _ => vstd::pervasive::unreached(),
        }
    }

    pub fn params(&mut self, key: Key) -> (params: Option<SubscribeParams>)
        ensures
            final(self).log() == asked(
                old(self).log(),
                Request::ParamsFor(key),
                Reply::Params(params),
            ),
    {
        match self.call(Request::ParamsFor(key)) {
            Reply::Params(params) => params,
            _ => vstd::pervasive::unreached(),
        }
    }

    pub fn keys(&mut self, request: Request) -> (keys: Vec<(Key, SubscribeParams)>)
        requires
            request.kind() is Keys,
        ensures
            final(self).log() == asked(old(self).log(), request, Reply::Keys(keys)),
    {
        match self.call(request) {
            Reply::Keys(keys) => keys,
            _ => vstd::pervasive::unreached(),
        }
    }

    pub fn removed(&mut self, channel: Option<ChannelName>) -> (removed: Vec<RemovedEntry>)
        ensures
            final(self).log() == asked(
                old(self).log(),
                Request::DeregisterAll(channel),
                Reply::Removed(removed),
            ),
    {
        match self.call(Request::DeregisterAll(channel)) {
            Reply::Removed(removed) => removed,
            _ => vstd::pervasive::unreached(),
        }
    }

    pub fn first_frame(&mut self, url: WsUrl, token: String) -> (frame: Option<(Key, Value)>)
        ensures
            final(self).log() == asked(
                old(self).log(),
                Request::ComposeFirstSignedSubscribe(url, token),
                Reply::Frame(frame),
            ),
    {
        match self.call(Request::ComposeFirstSignedSubscribe(url, token)) {
            Reply::Frame(frame) => frame,
            _ => vstd::pervasive::unreached(),
        }
    }

    pub fn frames(&mut self, request: Request) -> (frames: Vec<(Key, Value)>)
        requires
            request.kind() is Frames,
        ensures
            final(self).log() == asked(old(self).log(), request, Reply::Frames(frames)),
    {
        match self.call(request) {
            Reply::Frames(frames) => frames,
            _ => vstd::pervasive::unreached(),
        }
    }

    pub fn dropped(&mut self, channel: ChannelName, sequence: u64, is_snapshot: bool) -> (dropped:
        Option<u32>)
        ensures
            final(self).log() == asked(
                old(self).log(),
                Request::NoteSequence(channel, sequence, is_snapshot),
                Reply::Dropped(dropped),
            ),
    {
        match self.call(Request::NoteSequence(channel, sequence, is_snapshot)) {
            Reply::Dropped(dropped) => dropped,
            _ => vstd::pervasive::unreached(),
        }
    }

    pub fn book(&mut self, request: Request) -> (outcome: BookDriveOutcome)
        requires
            request.kind() is Book,
        ensures
            final(self).log() == asked(old(self).log(), request, Reply::Book(outcome)),
    {
        match self.call(request) {
            Reply::Book(outcome) => outcome,
            _ => vstd::pervasive::unreached(),
        }
    }

    pub fn reseed(&mut self, symbol: Symbol) -> (outcome: ReseedTimeoutOutcome)
        ensures
            final(self).log() == asked(
                old(self).log(),
                Request::NoteReseedTimeout(symbol),
                Reply::Reseed(outcome),
            ),
    {
        match self.call(Request::NoteReseedTimeout(symbol)) {
            Reply::Reseed(outcome) => outcome,
            _ => vstd::pervasive::unreached(),
        }
    }

    pub fn token(&mut self, now: Option<u64>) -> (token: Option<CachedToken>)
        ensures
            final(self).log() == asked(
                old(self).log(),
                Request::CachedToken(now),
                Reply::Token(token),
            ),
    {
        match self.call(Request::CachedToken(now)) {
            Reply::Token(token) => token,
            _ => vstd::pervasive::unreached(),
        }
    }

    pub fn handlers(&mut self, channel: ChannelName) -> (handlers: Vec<u64>)
        ensures
            final(self).log() == asked(
                old(self).log(),
                Request::HandlersFor(channel),
                Reply::Handlers(handlers),
            ),
    {
        match self.call(Request::HandlersFor(channel)) {
            Reply::Handlers(handlers) => handlers,
            _ => vstd::pervasive::unreached(),
        }
    }

    pub fn decoded(&mut self, request: Request) -> (decoded: Decoded)
        requires
            request.kind() is Decoded,
        ensures
            final(self).log() == asked(old(self).log(), request, Reply::Decoded(decoded)),
    {
        match self.call(request) {
            Reply::Decoded(decoded) => decoded,
            _ => vstd::pervasive::unreached(),
        }
    }

    pub fn send(&mut self, url: WsUrl, socket: u64, text: String) -> (result: SendResult)
        ensures
            final(self).log() == asked(
                old(self).log(),
                Request::SendFrame(url, socket, text),
                Reply::Send(result),
            ),
    {
        match self.call(Request::SendFrame(url, socket, text)) {
            Reply::Send(result) => result,
            _ => vstd::pervasive::unreached(),
        }
    }

    pub fn symbol(&mut self, name: String) -> (symbol: Option<Symbol>)
        ensures
            final(self).log() == asked(
                old(self).log(),
                Request::ParseSymbol(name),
                Reply::Symbol(symbol),
            ),
    {
        match self.call(Request::ParseSymbol(name)) {
            Reply::Symbol(symbol) => symbol,
            _ => vstd::pervasive::unreached(),
        }
    }

    pub fn queue(&mut self, outcome: UpgradeOutcome) -> (result: QueueResult)
        ensures
            final(self).log() == asked(
                old(self).log(),
                Request::ForwardUpgrade(outcome),
                Reply::Queue(result),
            ),
    {
        match self.call(Request::ForwardUpgrade(outcome)) {
            Reply::Queue(result) => result,
            _ => vstd::pervasive::unreached(),
        }
    }

    /// Says something in the log of the program.
    pub fn say(&mut self, note: Note)
        ensures
            final(self).log() == said(old(self).log(), note),
    {
        self.tell(Request::Say(note));
    }
}

} // verus!
