use io_reactor::classify::{classify_order_ack_warned, OrderAckAuth};
use io_reactor::frame_routing::handle_frame;
use io_reactor::frames::{build_subscribe_frame, compose_unsubscribe_frame, SubscriptionMethod};
use io_reactor::gaps::{handle_book_reseed_timeout, recover_book_gap};
use io_reactor::host::{
    BookDriveOutcome, BusClock, CachedToken, ConnView, Decoded, Link, QueueResult, Reply, Request,
    RequestFailure, ReseedTimeoutOutcome, UpgradeOutcome,
};
use io_reactor::inbound_dispatch::{
    handle_inbound, handle_ws_request_frame, refresh_auth_send_ready_hint, CallerInbound,
    HandlerMutationOp, RegistryMutationOp,
};
use io_reactor::notes::{Level, Note};
use io_reactor::reactor::{
    announce_ready, complete_client_close, on_inbound, on_refresh_outcome, on_timer,
    on_upgrade_failed, on_upgrade_ok, rearm_token_refresh, sync_liveness, upgrade_failure_event,
    upgrade_ok_is_live, PendingClose, Reactor, Turn,
};
use io_reactor::request_response::handle_request_response;
use io_reactor::route::route_text_frame;
use io_reactor::send_ready::{refresh_send_ready, store_send_ready};
use io_reactor::socket_lifecycle::{
    bridge_upgrade_failed, bridge_upgrade_ok, channel_ws_url, project_socket_and_wire_bridge,
    write_mirror, Slots, SocketTable,
};
use io_reactor::sub_ack::handle_sub_ack;
use io_reactor::subscribe_send::{
    handle_subscribe_resend, register_one_and_emit, send_first_signed_subscribe,
    send_remaining_signed_subscribes, send_single_signed_subscribe, send_single_subscribe,
    SubscribeSend,
};
use io_reactor::throttle::{
    record_drop_and_maybe_emit, suppress_warn_throttled, DropTracker, SuppressWarnTracker,
    MESSAGE_DROPPED_PERIOD,
};
use io_reactor::types::{
    AuthErrorKind, BookDepth, CallerEvent, CapabilitySnapshot, ChannelName, ConnectionState,
    EventPayload, EventTrigger, FsmEvent, GapCause, Key, ReadySignal, RemovedEntry, SendResult,
    SubscribeParams, SubscriptionEntry, Symbol, TerminationCause, Text, TimerId, TransportError,
    TransportErrorKind, WsFrame, WsOp, WsOpcode, WsUrl,
};
use serde_json::Value;
use std::cell::{Cell, RefCell};

const TICKER: SubscribeParams = SubscribeParams::Ticker { snapshot: None, event_trigger: None };
const ADD_ORDER: WsOp = WsOp { code: 1, order_method: true };

fn view(state: ConnectionState) -> ConnView {
    ConnView {
        state,
        socket: Some(1),
        authenticating_nothing_in_flight: false,
        has_been_open: false,
        attempt_count: 3,
    }
}

fn sym(name: &str) -> Symbol {
    Symbol { name: name.to_string() }
}

fn key(channel: ChannelName, pair: Option<&str>) -> Key {
    Key { channel, pair: pair.map(sym) }
}

fn token(value: &str) -> Option<CachedToken> {
    Some(CachedToken { value: value.to_string(), expired: false, refresh_due_at: 900 })
}

fn parse(text: &str) -> Value {
    serde_json::from_str(text).expect("test JSON")
}

/// Both connections have a socket.
fn open_table() -> SocketTable {
    let mut table = SocketTable::new();
    table.sockets = Slots { public: Some(1), auth: Some(2) };
    table
}

fn default_reply(request: &Request) -> Reply {
    match request {
        Request::IsSubscribeAckArmed(..)
        | Request::PendingRequestsContain(..)
        | Request::IsTerminated(..)
        | Request::IsAwaitingTokenRefresh(..)
        | Request::HasUrlEntry(..)
        | Request::IsBookResyncing(..) => Reply::Flag(false),
        Request::IsRequestMethod(method) => Reply::Flag(method.as_str() == "add_order"),
        Request::ForwardUpgrade(..) => Reply::Queue(QueueResult::Taken),
        Request::PendingSubscribeAckCount(..)
        | Request::NextConnectId
        | Request::Register(..)
        | Request::Release(..)
        | Request::ReleaseGuardRef(..)
        | Request::LivenessEpoch => Reply::Count(0),
        Request::NextSubscribeReqId(..) => Reply::Count(41),
        Request::Conn(..) => Reply::Conn(Some(view(ConnectionState::Open))),
        Request::HandleEvent(..)
        | Request::CompleteResubscribeIfEmpty(..)
        | Request::SubscribeFailure(..) => Reply::View(view(ConnectionState::Open)),
        Request::ConnClock(..) => Reply::Instant(1_000),
        Request::BusClock => Reply::Clock(BusClock { bus_alive: true, now: 10_000_000_000 }),
        Request::SubscribeAckTimeoutMs => Reply::Millis(Some(50)),
        Request::ResolveSubscribeReqId(..) => Reply::Key(None),
        Request::ParamsFor(..) => Reply::Params(None),
        Request::DrainDeferredAuthSubscribes(..) | Request::LiveSubscribeKeys(..) => {
            Reply::Keys(Vec::new())
        }
        Request::DeregisterAll(..) => Reply::Removed(Vec::new()),
        Request::ComposeFirstSignedSubscribe(..) => Reply::Frame(None),
        Request::ComposeSubscribeFrames(..)
        | Request::ComposeSignedSubscribeFrames(..)
        | Request::ComposeRemainingSignedSubscribes(..) => Reply::Frames(Vec::new()),
        Request::NoteSequence(..) => Reply::Dropped(None),
        Request::HandleUpdate(..) => Reply::Book(BookDriveOutcome::PassThrough),
        Request::NoteReseedTimeout(..) => Reply::Reseed(ReseedTimeoutOutcome::StaleNoOp),
        Request::CachedToken(..) => Reply::Token(None),
        Request::HandlersFor(..) => Reply::Handlers(Vec::new()),
        Request::Decode(..) => Reply::Decoded(Decoded::DecodeFailed),
        Request::SendFrame(..) => Reply::Send(SendResult::Sent),
        Request::ParseSymbol(name) => Reply::Symbol(Some(sym(name))),
        _ => Reply::Done,
    }
}

type Host<'a> = Link<&'a dyn Fn(Request) -> Reply>;

/// Runs `act` against surroundings that answer with `answer`, or by default where
/// it has nothing to say; what was asked comes back beside the result.
fn with_host<R>(
    answer: impl Fn(&Request) -> Option<Reply>,
    act: impl FnOnce(&mut Host<'_>) -> R,
) -> (R, Vec<Request>) {
    let seen: RefCell<Vec<Request>> = RefCell::new(Vec::new());
    let reply = |request: Request| {
        let reply = answer(&request).unwrap_or_else(|| default_reply(&request));
        seen.borrow_mut().push(request);
        reply
    };
    let answers: &dyn Fn(Request) -> Reply = &reply;
    let result = {
        let mut host = Link::new(answers);
        act(&mut host)
    };
    (result, seen.into_inner())
}

fn notes(seen: &[Request]) -> Vec<&Note> {
    seen.iter()
        .filter_map(|request| match request {
            Request::Say(note) => Some(note),
            _ => None,
        })
        .collect()
}

fn warnings(seen: &[Request]) -> Vec<&'static str> {
    notes(seen)
        .iter()
        .filter(|note| note.level() == Level::Warn)
        .map(|note| note.message())
        .collect()
}

fn published(seen: &[Request]) -> Vec<&EventPayload> {
    seen.iter()
        .filter_map(|request| match request {
            Request::Publish(envelope) => Some(&envelope.payload),
            _ => None,
        })
        .collect()
}

fn sent(seen: &[Request]) -> Vec<Value> {
    seen.iter()
        .filter_map(|request| match request {
            Request::SendFrame(_, _, text) => Some(parse(text)),
            _ => None,
        })
        .collect()
}

fn driven(seen: &[Request]) -> Vec<&FsmEvent> {
    seen.iter()
        .filter_map(|request| match request {
            Request::HandleEvent(_, event) => Some(event),
            _ => None,
        })
        .collect()
}

fn made(seen: &[Request], what: impl Fn(&Request) -> bool) -> usize {
    seen.iter().filter(|request| what(request)).count()
}

#[test]
fn upgrade_failure_event_maps_http_rejection_to_wire_upgrade_failed() {
    assert!(matches!(
        upgrade_failure_event(TransportErrorKind::HttpUpgradeRejected { status: 429 }, true),
        FsmEvent::WireUpgradeFailed { http_status: 429 }
    ));
    assert!(matches!(
        upgrade_failure_event(TransportErrorKind::HttpUpgradeRejected { status: 401 }, false),
        FsmEvent::WireUpgradeFailed { http_status: 401 }
    ));
    assert!(matches!(
        upgrade_failure_event(TransportErrorKind::TcpRefused, true),
        FsmEvent::WireConnectError { kind: TransportErrorKind::TcpRefused, transient: true }
    ));
}

#[test]
fn upgrade_ok_is_live_matches_only_the_current_socket_cid() {
    let sockets = Slots { public: Some(17), auth: None };
    assert!(upgrade_ok_is_live(&sockets, WsUrl::Public, 17));
    assert!(!upgrade_ok_is_live(&sockets, WsUrl::Public, 18));
    assert!(!upgrade_ok_is_live(&sockets, WsUrl::Auth, 17));
}

#[test]
fn non_array_data_frame_warns_and_suppresses_event() {
    let frame = parse(
        r#"{"channel":"ticker","type":"update","data":{"symbol":"BTC/USD","bid":30000.0}}"#,
    );
    let mut drops = DropTracker::new();
    let mut warns = SuppressWarnTracker::new();
    let (gaps, seen) = with_host(
        |_| None,
        |host| route_text_frame(host, &frame, &mut drops, &mut warns),
    );
    assert!(gaps.is_empty(), "non-array data carries no book gaps");
    assert!(
        !published(&seen)
            .iter()
            .any(|e| matches!(e, EventPayload::MessageDroppedNoHandler { .. })),
        "non-array `data` must NOT emit MessageDroppedNoHandler; got {seen:?}"
    );
    assert!(
        !published(&seen)
            .iter()
            .any(|e| matches!(e, EventPayload::SubscriptionGap { .. })),
        "non-array `data` must NOT emit SubscriptionGapEvent; got {seen:?}"
    );
    assert!(
        warnings(&seen).iter().any(|w| w.contains("non-array `data`")),
        "non-array `data` must warn; got {seen:?}"
    );
}

#[test]
fn status_frame_with_no_handler_does_not_flood_message_dropped() {
    let frame = parse(
        r#"{"channel":"status","type":"update","data":[{"system":"online","api_version":"v2"}]}"#,
    );
    let mut drops = DropTracker::new();
    let mut warns = SuppressWarnTracker::new();
    for _ in 0..10 {
        let (gaps, seen) = with_host(
            |_| None,
            |host| route_text_frame(host, &frame, &mut drops, &mut warns),
        );
        assert!(gaps.is_empty(), "status frame carries no book gaps");
        assert!(
            !published(&seen)
                .iter()
                .any(|e| matches!(e, EventPayload::MessageDroppedNoHandler { .. })),
            "status frame without a handler must NOT emit MessageDroppedNoHandler; got {seen:?}"
        );
    }
}

/// Numbers the frames of one account channel: a snapshot starts the count, and an
/// update that skips numbers says how many.
struct Sequence {
    last: Cell<Option<u64>>,
}

impl Sequence {
    fn note(&self, sequence: u64, is_snapshot: bool) -> Option<u32> {
        let before = self.last.replace(Some(sequence));
        match before {
            Some(last) if !is_snapshot && sequence > last + 1 => Some((sequence - last - 1) as u32),
            _ => None,
        }
    }
}

fn route_seq_frames(frames: &[Value], sequence: &Sequence) -> Vec<Request> {
    let mut drops = DropTracker::new();
    let mut warns = SuppressWarnTracker::new();
    let (_, seen) = with_host(
        |request| match request {
            Request::NoteSequence(_, number, is_snapshot) => {
                Some(Reply::Dropped(sequence.note(*number, *is_snapshot)))
            }
            _ => None,
        },
        |host| {
            for frame in frames {
                let _ = route_text_frame(host, frame, &mut drops, &mut warns);
            }
        },
    );
    seen
}

#[test]
fn executions_sequence_jump_emits_channel_gap_event() {
    let sequence = Sequence { last: Cell::new(None) };
    let mk = |ty: &str, seq: u64| {
        parse(&format!(
            r#"{{"channel":"executions","type":"{ty}","sequence":{seq},"data":[{{"order_id":"X"}}]}}"#
        ))
    };
    let quiet = route_seq_frames(&[mk("snapshot", 1), mk("update", 2), mk("update", 3)], &sequence);
    assert!(
        !published(&quiet)
            .iter()
            .any(|e| matches!(e, EventPayload::ChannelGap { .. })),
        "contiguous frames must not gap; got {quiet:?}"
    );

    let events = route_seq_frames(&[mk("update", 7)], &sequence);
    let gap = events
        .iter()
        .find_map(|request| match request {
            Request::Publish(envelope)
                if matches!(envelope.payload, EventPayload::ChannelGap { .. }) =>
            {
                Some(envelope)
            }
            _ => None,
        })
        .expect("3→7 jump must emit ChannelGapEvent");
    assert_eq!(gap.event_version, 1);
    assert!(gap.request_id.is_none(), "broadcast event");
    assert!(
        matches!(
            gap.payload,
            EventPayload::ChannelGap {
                channel: ChannelName::Executions,
                dropped_count: 3,
                cause: GapCause::SequenceGapDetected,
            }
        ),
        "payload mismatch: {:?}",
        gap.payload
    );
}

#[test]
fn malformed_or_sequenceless_frames_do_not_false_gap() {
    let sequence = Sequence { last: Cell::new(None) };
    let events = route_seq_frames(
        &[
            parse(r#"{"channel":"balances","type":"snapshot","sequence":1,"data":[{"asset":"USD"}]}"#),
            parse(r#"{"channel":"balances","type":"update","sequence":2,"data":{"asset":"USD"}}"#),
            parse(r#"{"channel":"balances","type":"update","data":[{"asset":"USD"}]}"#),
            parse(r#"{"channel":"balances","type":"update","sequence":3,"data":[{"asset":"USD"}]}"#),
        ],
        &sequence,
    );
    assert!(
        !published(&events)
            .iter()
            .any(|e| matches!(e, EventPayload::ChannelGap { .. })),
        "no false gap across malformed/sequence-less frames; got {events:?}"
    );
    assert_eq!(sequence.last.get(), Some(3));
}

#[test]
fn suppress_warn_is_throttled_per_site_and_channel_per_window() {
    let clock = Cell::new(10_000_000_000u64);
    let warning = "no routing symbol — throttle probe";
    let mut tracker = SuppressWarnTracker::new();
    let mut probe = |site: &'static str, channel: ChannelName, times: usize| {
        let (_, seen) = with_host(
            |request| match request {
                Request::BusClock => {
                    Some(Reply::Clock(BusClock { bus_alive: true, now: clock.get() }))
                }
                _ => None,
            },
            |host| {
                for _ in 0..times {
                    let warning = Note::Bare { message: warning };
                    suppress_warn_throttled(host, site, Some(channel), &mut tracker, warning);
                }
            },
        );
        warnings(&seen).len()
    };

    assert_eq!(
        probe("t", ChannelName::Ticker, 2),
        1,
        "a second in-window frame must be throttled (one warn)"
    );
    clock.set(clock.get() + 2 * MESSAGE_DROPPED_PERIOD);
    assert_eq!(
        probe("t", ChannelName::Ticker, 1),
        1,
        "after the window the warn must re-fire"
    );
    assert_eq!(
        probe("t", ChannelName::Trade, 1),
        1,
        "a different channel warns independently"
    );
    assert_eq!(
        probe("u", ChannelName::Ticker, 2),
        1,
        "a distinct site gets its own window"
    );
}

#[test]
fn drops_are_told_at_once_and_then_together() {
    let clock = Cell::new(5u64);
    let mut tracker = DropTracker::new();
    let mut drop_one = || {
        let (_, seen) = with_host(
            |request| match request {
                Request::BusClock => {
                    Some(Reply::Clock(BusClock { bus_alive: true, now: clock.get() }))
                }
                _ => None,
            },
            |host| record_drop_and_maybe_emit(host, ChannelName::Trade, &mut tracker),
        );
        published(&seen).iter().find_map(|e| match e {
            EventPayload::MessageDroppedNoHandler { channel: ChannelName::Trade, count, period_ns } => {
                assert_eq!(*period_ns, 1_000_000_000);
                Some(*count)
            }
            _ => None,
        })
    };
    assert_eq!(drop_one(), Some(1));
    assert_eq!(drop_one(), None);
    assert_eq!(drop_one(), None);
    clock.set(5 + MESSAGE_DROPPED_PERIOD - 1);
    assert_eq!(drop_one(), None);
    clock.set(5 + MESSAGE_DROPPED_PERIOD);
    assert_eq!(drop_one(), Some(4));
    assert_eq!(drop_one(), None);
}

/// A connection gets an acknowledgement. Its state machine concludes the subscribe when
/// it is told of the end of it, and is then open; what is left armed comes back in the
/// middle.
fn acknowledged_in(
    state: ConnectionState,
    text: &str,
    armed: bool,
    resolved: Option<Key>,
) -> (bool, bool, Vec<Request>) {
    let frame = parse(text);
    let mut warns = SuppressWarnTracker::new();
    let table = SocketTable::new();
    let waiting = Cell::new(armed);
    let (consumed, seen) = with_host(
        |request| match request {
            Request::Conn(..) => Some(Reply::Conn(Some(view(state)))),
            Request::IsSubscribeAckArmed(..) => Some(Reply::Flag(waiting.get())),
            Request::PendingSubscribeAckCount(..) => {
                Some(Reply::Count(u64::from(waiting.get())))
            }
            Request::HandleEvent(
                _,
                FsmEvent::WireSubscribeAck { .. }
                | FsmEvent::WireSubscribeFailed { transient: false, .. },
            ) => {
                waiting.set(false);
                Some(Reply::View(view(ConnectionState::Open)))
            }
            Request::ResolveSubscribeReqId(..) => Some(Reply::Key(resolved.clone())),
            _ => None,
        },
        |host| handle_sub_ack(host, WsUrl::Public, &frame, &mut warns, &table),
    );
    (consumed, waiting.get(), seen)
}

fn acknowledged(text: &str, armed: bool, resolved: Option<Key>) -> (bool, bool, Vec<Request>) {
    acknowledged_in(ConnectionState::Open, text, armed, resolved)
}

fn reject_frame(text: &str, armed: bool, resolved: Option<Key>) -> (bool, Vec<Request>) {
    let (consumed, _, seen) = acknowledged(text, armed, resolved);
    (consumed, seen)
}

/// The subscription named was ended for good: with the words of the exchange, its
/// timers gone, nothing armed in their place, and the connection left open.
fn assert_concluded(seen: &[Request], channel: ChannelName, pair: &str, error: &str) {
    let about =
        |k: &Key| k.channel == channel && k.pair.as_ref().is_some_and(|p| p.name == pair);
    assert_eq!(
        made(seen, |r| matches!(
            r,
            Request::NoteTerminated(k, TerminationCause::NonTransientWireRejection, reason)
                if about(k) && reason.as_str() == error
        )),
        1,
        "the entry is ended with the reason, word for word"
    );
    assert_eq!(
        made(seen, |r| matches!(r, Request::DisarmBookReseedSnapshot(WsUrl::Public, k) if about(k))),
        1
    );
    assert!(matches!(
        driven(seen)[..],
        [FsmEvent::WireSubscribeFailed { key, kraken_code, transient: false }]
            if about(key) && kraken_code.as_str() == error
    ));
    assert_eq!(
        made(seen, |r| matches!(
            r,
            Request::ArmSubscribeAck(..)
                | Request::ArmBookReseedSnapshot(..)
                | Request::SubscribeFailure(..)
                | Request::DeferAuthSubscribe(..)
        )),
        0,
        "a rejection for good arms nothing"
    );
    assert!(matches!(
        seen.last(),
        Some(Request::StoreMirror(WsUrl::Public, ConnectionState::Open))
    ));
}

#[test]
fn sub_ack_missing_success_routes_as_failure() {
    let (consumed, waiting, seen) = acknowledged_in(
        ConnectionState::Resubscribing,
        r#"{"method":"subscribe","channel":"ticker","symbol":"BTC/USD","error":"subscribe rejected"}"#,
        true,
        None,
    );
    assert!(consumed, "a `subscribe` ack frame is always consumed");
    assert!(!waiting, "the end of the subscribe reaches the connection");
    assert_eq!(
        made(&seen, |request| matches!(
            request,
            Request::NoteTerminated(
                Key { channel: ChannelName::Ticker, .. },
                TerminationCause::NonTransientWireRejection,
                _
            )
        )),
        1,
        "missing-`success` subscribe ack must route as FAILURE; got {seen:?}"
    );
    assert!(driven(&seen)
        .iter()
        .any(|e| matches!(e, FsmEvent::WireSubscribeFailed { transient: false, .. })));
}

#[test]
fn sub_ack_missing_success_warns() {
    let (_, _, seen) = acknowledged_in(
        ConnectionState::Resubscribing,
        r#"{"method":"subscribe","channel":"ticker","symbol":"BTC/USD","error":"subscribe rejected"}"#,
        true,
        None,
    );
    assert!(
        warnings(&seen)
            .iter()
            .any(|w| w.contains("subscribe-ack frame with absent/non-bool `success`")),
        "absent-`success` subscribe ack must warn; got {seen:?}"
    );
    assert!(matches!(notes(&seen)[..], [Note::AckWithoutSuccess { url: WsUrl::Public }]));
}

#[test]
fn channelless_reject_correlates_via_req_id_and_terminates_entry() {
    let (consumed, waiting, seen) = acknowledged(
        r#"{"error":"Currency pair not supported FAKECOIN/USD","method":"subscribe","success":false,"symbol":"FAKECOIN/USD","req_id":77}"#,
        true,
        Some(key(ChannelName::Ticker, Some("FAKECOIN/USD"))),
    );
    assert!(consumed, "an ack frame is always consumed");
    assert!(!waiting, "the subscribe-ack timer is disarmed (entry concluded)");
    assert_eq!(
        made(&seen, |request| matches!(request, Request::ResolveSubscribeReqId(_, 77))),
        1
    );
    assert_concluded(
        &seen,
        ChannelName::Ticker,
        "FAKECOIN/USD",
        "Currency pair not supported FAKECOIN/USD",
    );
}

#[test]
fn bad_channel_reject_correlates_via_req_id_only() {
    let (consumed, waiting, seen) = acknowledged(
        r#"{"error":"Subscription name invalid","method":"subscribe","success":false,"req_id":91}"#,
        true,
        Some(key(ChannelName::Ticker, Some("FAKECOIN/USD"))),
    );
    assert!(consumed, "an ack frame is always consumed");
    assert!(!waiting, "the subscribe-ack timer is disarmed (entry concluded)");
    assert_eq!(
        made(&seen, |request| matches!(request, Request::ResolveSubscribeReqId(_, 91))),
        1
    );
    assert_concluded(&seen, ChannelName::Ticker, "FAKECOIN/USD", "Subscription name invalid");
    // Without a request id to go by, the frame is consumed and nothing happens.
    let (consumed, waiting, seen) = acknowledged(
        r#"{"error":"Subscription name invalid","method":"subscribe","success":false}"#,
        true,
        None,
    );
    assert!(consumed);
    assert!(waiting);
    assert!(driven(&seen).is_empty());
}

#[test]
fn status_channel_spurious_reject_completes_without_teardown() {
    let (consumed, waiting, seen) = acknowledged(
        r#"{"error":"Symbol(s) not found","method":"subscribe","success":false,"req_id":55}"#,
        true,
        Some(key(ChannelName::Status, None)),
    );
    assert!(consumed, "an ack frame is always consumed");
    assert!(!waiting, "the subscribe is completed (ack timer disarmed), not left armed");
    assert_eq!(
        made(&seen, |request| matches!(request, Request::ResolveSubscribeReqId(_, 55))),
        1
    );
    assert_eq!(
        made(&seen, |request| matches!(request, Request::NoteTerminated(..))),
        0
    );
    assert!(matches!(
        driven(&seen)[..],
        [FsmEvent::WireSubscribeAck {
            key: Key { channel: ChannelName::Status, pair: None },
            last: true
        }]
    ));
    assert_eq!(
        made(&seen, |r| matches!(
            r,
            Request::ArmSubscribeAck(..) | Request::SubscribeFailure(..)
        )),
        0,
        "nothing is sent again"
    );
    assert!(matches!(
        seen.last(),
        Some(Request::StoreMirror(WsUrl::Public, ConnectionState::Open))
    ));
}

#[test]
fn a_rate_limit_is_retried_and_ends_nothing() {
    let (_, seen) = reject_frame(
        r#"{"method":"subscribe","success":false,"channel":"ticker","symbol":"ETH/USD","error":"EGeneral:Too many requests"}"#,
        true,
        None,
    );
    assert_eq!(
        made(&seen, |request| matches!(request, Request::NoteTerminated(..))),
        0
    );
    assert!(driven(&seen)
        .iter()
        .any(|e| matches!(e, FsmEvent::WireSubscribeFailed { transient: true, .. })));
}

#[test]
fn an_unarmed_success_drops_the_retry_chain_and_moves_nothing() {
    let frame = r#"{"method":"subscribe","success":true,"result":{"channel":"ticker","symbol":"BTC/USD"}}"#;
    let (consumed, seen) = reject_frame(frame, false, None);
    assert!(consumed);
    assert!(driven(&seen).is_empty());
    assert_eq!(
        made(&seen, |r| matches!(r, Request::DisarmSubscribeAck(..))),
        1
    );
    assert_eq!(
        made(&seen, |r| matches!(r, Request::RemoveDeferredAuthSubscribe(..))),
        1
    );
    assert_eq!(made(&seen, |r| matches!(r, Request::NoteAcked(..))), 0);

    let (_, armed) = reject_frame(frame, true, None);
    assert!(driven(&armed).iter().any(|e| matches!(
        e,
        FsmEvent::WireSubscribeAck { key, last: true } if key.pair.is_some()
    )));
}

#[test]
fn an_unsubscribe_ack_and_a_foreign_method_are_told_apart() {
    let (consumed, seen) = reject_frame(r#"{"method":"unsubscribe","success":true}"#, true, None);
    assert!(consumed);
    assert!(seen.is_empty());
    let (consumed, seen) = reject_frame(r#"{"method":"pong"}"#, true, None);
    assert!(!consumed);
    assert!(seen.is_empty());
}

fn handshake_ack(text: &str, after: ConnectionState, awaiting: bool) -> Vec<Request> {
    let frame = parse(text);
    let mut warns = SuppressWarnTracker::new();
    let table = open_table();
    let (consumed, seen) = with_host(
        |request| match request {
            Request::Conn(..) => Some(Reply::Conn(Some(view(ConnectionState::Authenticating)))),
            Request::HandleEvent(..) => Some(Reply::View(view(after))),
            Request::IsAwaitingTokenRefresh(..) => Some(Reply::Flag(awaiting)),
            Request::CachedToken(..) => Some(Reply::Token(token("T"))),
            Request::ComposeRemainingSignedSubscribes(..) => Some(Reply::Frames(vec![(
                key(ChannelName::Executions, None),
                parse(r#"{"method":"subscribe","params":{"channel":"executions","token":"T"}}"#),
            )])),
            _ => None,
        },
        |host| handle_sub_ack(host, WsUrl::Auth, &frame, &mut warns, &table),
    );
    assert!(consumed);
    seen
}

#[test]
fn the_first_signed_ack_replays_the_rest() {
    let seen = handshake_ack(
        r#"{"method":"subscribe","success":true,"result":{"channel":"balances"}}"#,
        ConnectionState::Resubscribing,
        false,
    );
    assert!(matches!(driven(&seen)[0], FsmEvent::WireAuthHandshakeOk));
    assert_eq!(made(&seen, |r| matches!(r, Request::NoteAcked(..))), 1);
    let frames = sent(&seen);
    assert_eq!(frames.len(), 1);
    assert_eq!(frames[0]["params"]["channel"], Value::from("executions"));
    assert_eq!(frames[0]["req_id"], Value::from(41u64));
    assert_eq!(
        made(&seen, |r| matches!(
            r,
            Request::ArmSubscribeAck(WsUrl::Auth, _, due) if *due == 1_000 + 50 * 1_000_000
        )),
        1
    );
}

#[test]
fn a_stale_handshake_starts_a_refresh_and_is_announced() {
    let seen = handshake_ack(
        r#"{"method":"subscribe","success":false,"error":"EAPI:Invalid token","result":{"channel":"executions"}}"#,
        ConnectionState::Authenticating,
        true,
    );
    assert!(matches!(
        driven(&seen)[0],
        FsmEvent::WireAuthHandshakeFailed { kind: AuthErrorKind::TokenStale }
    ));
    assert_eq!(made(&seen, |r| matches!(r, Request::ForceRefresh)), 1);
    assert!(published(&seen).iter().any(|e| match e {
        EventPayload::AuthHandshakeFailed { url: WsUrl::Auth, attempt, transient, kraken_error } => {
            *attempt == 3 && !transient && kraken_error.as_str() == "EAPI:Invalid token"
        }
        _ => false,
    }));
    assert!(sent(&seen).is_empty());

    let silent = handshake_ack(
        r#"{"method":"subscribe","success":false,"result":{"channel":"executions"}}"#,
        ConnectionState::BackingOff,
        false,
    );
    assert_eq!(made(&silent, |r| matches!(r, Request::ForceRefresh)), 0);
    assert!(published(&silent).iter().any(|e| match e {
        EventPayload::AuthHandshakeFailed { transient, kraken_error, .. } => {
            *transient && kraken_error.as_str() == "auth handshake rejected"
        }
        _ => false,
    }));
}

fn respond(
    text: &str,
    state: ConnectionState,
    after: ConnectionState,
    pending: bool,
) -> (bool, Vec<Request>) {
    let frame = parse(text);
    let mut warns = SuppressWarnTracker::new();
    let table = open_table();
    with_host(
        |request| match request {
            Request::Conn(..) => Some(Reply::Conn(Some(view(state)))),
            Request::HandleEvent(..) => Some(Reply::View(view(after))),
            Request::PendingRequestsContain(..) => Some(Reply::Flag(pending)),
            _ => None,
        },
        |host| handle_request_response(host, WsUrl::Auth, &frame, &mut warns, &table),
    )
}

#[test]
fn request_response_missing_success_warns() {
    let (consumed, seen) = respond(
        r#"{"method":"add_order","req_id":7777,"error":"EGeneral:Internal error"}"#,
        ConnectionState::Open,
        ConnectionState::Open,
        false,
    );
    assert!(consumed, "a known-method reply with a req_id is consumed");
    assert!(
        warnings(&seen)
            .iter()
            .any(|w| w.contains("request-response frame with absent/non-bool `success`")),
        "absent-`success` request response must warn; got {seen:?}"
    );
}

#[test]
fn order_ack_novel_non_e_string_warns_on_default() {
    let (out, seen) = with_host(
        |_| None,
        |host| classify_order_ack_warned(host, false, Some("totally novel rejection text")),
    );
    assert!(matches!(out, OrderAckAuth::Authenticated));
    assert!(
        warnings(&seen)
            .iter()
            .any(|w| w.contains("not recognized as auth-class")),
        "novel non-`E*` order-ack error must warn on the inverted default"
    );

    let (out, seen) = with_host(
        |_| None,
        |host| classify_order_ack_warned(host, false, Some("EOrder:Insufficient funds")),
    );
    assert!(matches!(out, OrderAckAuth::Authenticated));
    assert!(
        warnings(&seen).is_empty(),
        "an `E*`-prefixed order error must NOT warn"
    );
}

#[test]
fn order_ack_no_error_string_warns_on_default() {
    let (out, seen) = with_host(|_| None, |host| classify_order_ack_warned(host, false, None));
    assert!(matches!(out, OrderAckAuth::Authenticated));
    assert!(
        warnings(&seen)
            .iter()
            .any(|w| w.contains("not recognized as auth-class")),
        "a success:false ack with no error string must warn on the inverted default"
    );
}

#[test]
fn order_ack_probe_to_open_warns_exactly_once() {
    let (consumed, seen) = respond(
        r#"{"method":"add_order","req_id":9191,"success":false,"error":"totally novel rejection text"}"#,
        ConnectionState::Authenticating,
        ConnectionState::Open,
        false,
    );
    assert!(consumed, "a known-method reply with a req_id is consumed");
    assert!(
        matches!(driven(&seen)[..], [FsmEvent::WireOrderAuthOk]),
        "the probe must drive Authenticating → Open; got {seen:?}"
    );
    assert_eq!(
        warnings(&seen)
            .iter()
            .filter(|w| w.contains("not recognized as auth-class"))
            .count(),
        1,
        "novel-string warn must fire exactly once per probe→Open frame; got {seen:?}"
    );
}

#[test]
fn order_reject_reply_resolves_pending_not_hung() {
    let (consumed, seen) = respond(
        r#"{"error":"EGeneral:Order type not supported","method":"add_order","req_id":4242,"success":false}"#,
        ConnectionState::Open,
        ConnectionState::Open,
        true,
    );
    assert!(consumed);
    let resp = seen
        .iter()
        .find_map(|request| match request {
            Request::ResolvePendingRequest(WsUrl::Auth, resp) => Some(resp),
            _ => None,
        })
        .expect("the pending request is resolved");
    assert_eq!(resp.req_id, 4242);
    assert!(!resp.success, "the reply carried success:false");
    assert_eq!(resp.error.as_deref(), Some("EGeneral:Order type not supported"));
    assert!(resp.result.is_null());
}

#[test]
fn a_stale_token_on_an_open_connection_is_renewed_and_the_order_is_given_back() {
    let (_, seen) = respond(
        r#"{"method":"add_order","req_id":5,"success":false,"error":"EAPI:Invalid token","result":{"a":1}}"#,
        ConnectionState::Open,
        ConnectionState::Open,
        false,
    );
    assert!(matches!(driven(&seen)[..], [FsmEvent::WireOrderAckTokenStale]));
    assert_eq!(made(&seen, |r| matches!(r, Request::InvalidateCachedToken)), 1);
    assert_eq!(made(&seen, |r| matches!(r, Request::ForceRefresh)), 1);
    assert_eq!(made(&seen, |r| matches!(r, Request::DrainOneRetryable(_, 5))), 1);
    assert!(sent(&seen).is_empty(), "an order is never sent again");

    let (_, quiet) = respond(
        r#"{"method":"add_order","req_id":5,"success":true,"error":"EAPI:Invalid token"}"#,
        ConnectionState::Open,
        ConnectionState::Open,
        false,
    );
    assert_eq!(made(&quiet, |r| matches!(r, Request::ForceRefresh)), 0);
}

#[test]
fn a_refused_probe_does_not_open_the_connection() {
    let (_, seen) = respond(
        r#"{"method":"add_order","req_id":6,"success":false,"error":"EAPI:Invalid key"}"#,
        ConnectionState::Authenticating,
        ConnectionState::Failed,
        true,
    );
    assert!(matches!(
        driven(&seen)[..],
        [FsmEvent::WireAuthHandshakeFailed { kind: AuthErrorKind::BadCreds }]
    ));
    assert_eq!(made(&seen, |r| matches!(r, Request::DrainOneRetryable(..))), 0);
}

#[test]
fn order_auth_ok_with_live_entries_is_not_stranded() {
    let frame = parse(r#"{"method":"add_order","req_id":7171,"success":true}"#);
    let mut warns = SuppressWarnTracker::new();
    let table = SocketTable::new();
    let (consumed, seen) = with_host(
        |request| match request {
            Request::Conn(..) => Some(Reply::Conn(Some(view(ConnectionState::Authenticating)))),
            Request::HasUrlEntry(..) => Some(Reply::Flag(true)),
            Request::HandleEvent(..) => Some(Reply::View(view(ConnectionState::Resubscribing))),
            Request::LiveSubscribeKeys(..) => Some(Reply::Keys(vec![(
                key(ChannelName::Executions, None),
                SubscribeParams::Executions,
            )])),
            _ => None,
        },
        |host| handle_request_response(host, WsUrl::Auth, &frame, &mut warns, &table),
    );
    assert!(consumed, "the probe ack is consumed");
    assert!(matches!(driven(&seen)[..], [FsmEvent::WireAuthHandshakeOk]));
    assert_eq!(
        made(&seen, |r| matches!(
            r,
            Request::DeferAuthSubscribe(
                WsUrl::Auth,
                Key { channel: ChannelName::Executions, pair: None },
                SubscribeParams::Executions
            )
        )),
        1,
        "token-miss replay defers exactly the composed batch"
    );
    assert_eq!(
        made(&seen, |r| matches!(r, Request::SetAwaitingTokenRefresh(WsUrl::Auth, true))),
        1,
        "token-miss replay must mark the refresh in flight"
    );
}

#[test]
fn responses_are_looked_for_on_the_auth_connection_only() {
    let frame = parse(r#"{"method":"add_order","req_id":1,"success":true}"#);
    let mut warns = SuppressWarnTracker::new();
    let table = open_table();
    let (consumed, seen) = with_host(
        |_| None,
        |host| handle_request_response(host, WsUrl::Public, &frame, &mut warns, &table),
    );
    assert!(!consumed);
    assert!(seen.is_empty());

    let (consumed, seen) = respond(
        r#"{"method":"add_order","success":true}"#,
        ConnectionState::Open,
        ConnectionState::Open,
        true,
    );
    assert!(consumed);
    assert!(warnings(&seen)[0].contains("no numeric req_id"));
    assert_eq!(made(&seen, |r| matches!(r, Request::ResolvePendingRequest(..))), 0);
}

#[test]
fn unsubscribe_frame_carries_matching_depth_and_no_snapshot() {
    let parse = |s: String| serde_json::from_str::<Value>(&s).unwrap();

    let book = parse(compose_unsubscribe_frame(
        &key(ChannelName::Book, Some("BTC/USD")),
        &Some(SubscribeParams::Book { depth: BookDepth::d10() }),
        &None,
    ));
    assert_eq!(book["method"], "unsubscribe");
    assert_eq!(book["params"]["channel"], "book");
    assert_eq!(book["params"]["symbol"], Value::from(vec!["BTC/USD"]));
    assert_eq!(
        book["params"]["depth"], 25,
        "book unsubscribe must carry the wire depth (D10→25)"
    );
    assert!(
        book["params"].get("snapshot").is_none(),
        "unsubscribe must never carry snapshot"
    );

    let raw = parse(compose_unsubscribe_frame(
        &key(ChannelName::Book, Some("BTC/USD")),
        &Some(SubscribeParams::BookRaw { depth: BookDepth::d10(), snapshot: None }),
        &None,
    ));
    assert_eq!(
        raw["params"]["depth"], 10,
        "book_raw unsubscribe is exact depth"
    );

    let ticker = parse(compose_unsubscribe_frame(
        &key(ChannelName::Ticker, Some("BTC/USD")),
        &Some(TICKER),
        &None,
    ));
    assert_eq!(ticker["method"], "unsubscribe");
    assert!(ticker["params"].get("depth").is_none());

    let ohlc = parse(compose_unsubscribe_frame(
        &key(ChannelName::Ohlc, Some("BTC/USD")),
        &Some(SubscribeParams::Ohlc { interval_minutes: 5, snapshot: Some(false) }),
        &None,
    ));
    assert_eq!(ohlc["method"], "unsubscribe");
    assert_eq!(
        ohlc["params"]["interval"], 5,
        "OHLC unsubscribe must echo the subscribed interval (keyed per-interval)"
    );
    assert!(
        ohlc["params"].get("snapshot").is_none(),
        "snapshot is subscribe-only"
    );

    let fallback = parse(compose_unsubscribe_frame(
        &key(ChannelName::Book, Some("BTC/USD")),
        &None,
        &None,
    ));
    assert_eq!(fallback["method"], "unsubscribe");
    assert_eq!(fallback["params"]["channel"], "book");
    assert!(fallback["params"].get("depth").is_none());
}

#[test]
fn auth_unsubscribe_frame_carries_token_public_does_not() {
    let parse = |s: String| serde_json::from_str::<Value>(&s).unwrap();

    let exec = parse(compose_unsubscribe_frame(
        &key(ChannelName::Executions, None),
        &Some(SubscribeParams::Executions),
        &Some("tok-XYZ".to_string()),
    ));
    assert_eq!(exec["method"], "unsubscribe");
    assert_eq!(exec["params"]["channel"], "executions");
    assert_eq!(
        exec["params"]["token"], "tok-XYZ",
        "auth unsubscribe must carry the token"
    );

    let ticker = parse(compose_unsubscribe_frame(
        &key(ChannelName::Ticker, Some("BTC/USD")),
        &None,
        &None,
    ));
    assert!(
        ticker["params"].get("token").is_none(),
        "public unsubscribe must not carry a token"
    );
}

#[test]
fn a_subscribe_frame_carries_what_shapes_the_stream() {
    let book = build_subscribe_frame(
        SubscriptionMethod::Subscribe,
        &key(ChannelName::Book, Some("BTC/USD")),
        &SubscribeParams::Book { depth: BookDepth::d10() },
        9,
    );
    assert_eq!(
        book.to_string(),
        r#"{"method":"subscribe","params":{"channel":"book","depth":25,"snapshot":true,"symbol":["BTC/USD"]},"req_id":9}"#
    );
    let ticker = build_subscribe_frame(
        SubscriptionMethod::Subscribe,
        &key(ChannelName::Ticker, None),
        &SubscribeParams::Ticker {
            snapshot: Some(false),
            event_trigger: Some(EventTrigger::Bbo),
        },
        0,
    );
    assert_eq!(
        ticker.to_string(),
        r#"{"method":"subscribe","params":{"channel":"ticker","event_trigger":"bbo","snapshot":false},"req_id":0}"#
    );
}

fn ready_reads(
    url: WsUrl,
    state: ConnectionState,
    cached: bool,
    registered: bool,
) -> Vec<Request> {
    let (_, seen) = with_host(
        |request| match request {
            Request::HasUrlEntry(..) => Some(Reply::Flag(registered)),
            Request::CachedToken(..) => {
                Some(Reply::Token(if cached { token("seeded") } else { None }))
            }
            _ => None,
        },
        |host| refresh_send_ready(host, url, state),
    );
    seen
}

#[test]
fn emits_on_cold_start_authenticating_empty_with_token() {
    let seen = ready_reads(WsUrl::Auth, ConnectionState::Authenticating, true, false);
    assert_eq!(made(&seen, |r| matches!(r, Request::StoreAuthSendReady(true))), 1);
    assert!(matches!(
        published(&seen)[..],
        [EventPayload::ConnectionSendReady { url: WsUrl::Auth, ready_at: 10_000_000_000 }]
    ));
}

#[test]
fn refresh_send_ready_negatives_do_not_emit() {
    for (url, state, cached, registered, label) in [
        (WsUrl::Auth, ConnectionState::Open, true, false, "Open path"),
        (WsUrl::Auth, ConnectionState::Authenticating, false, false, "no token cached"),
        (WsUrl::Public, ConnectionState::Authenticating, true, false, "non-auth url"),
        (WsUrl::Auth, ConnectionState::Authenticating, true, true, "non-empty auth registry"),
        (WsUrl::Auth, ConnectionState::Connecting, true, false, "Connecting"),
    ] {
        let seen = ready_reads(url, state, cached, registered);
        assert_eq!(
            made(&seen, |r| matches!(r, Request::StoreAuthSendReady(false))),
            1,
            "{label}: send-ready level flag must self-clear to false"
        );
        assert!(published(&seen).is_empty(), "{label}");
    }
}

#[test]
fn storing_the_flag_announces_nothing() {
    let (ready, seen) = with_host(
        |request| match request {
            Request::CachedToken(..) => Some(Reply::Token(token("seeded"))),
            _ => None,
        },
        |host| store_send_ready(host, WsUrl::Auth, ConnectionState::Authenticating),
    );
    assert!(ready);
    assert!(published(&seen).is_empty());
}

fn order(
    state: Option<ConnectionState>,
    registered: bool,
    cached: Option<CachedToken>,
    op: WsOp,
    params: &str,
    table: SocketTable,
    result: SendResult,
) -> Vec<Request> {
    order_under(99, state, registered, cached, op, params, table, result)
}

#[allow(clippy::too_many_arguments)]
fn order_under(
    req_id: u64,
    state: Option<ConnectionState>,
    registered: bool,
    cached: Option<CachedToken>,
    op: WsOp,
    params: &str,
    table: SocketTable,
    result: SendResult,
) -> Vec<Request> {
    let cached = RefCell::new(cached);
    let params = parse(params);
    let (_, seen) = with_host(
        |request| match request {
            Request::Conn(..) => Some(Reply::Conn(state.map(view))),
            Request::HasUrlEntry(..) => Some(Reply::Flag(registered)),
            Request::CachedToken(..) => Some(Reply::Token(cached.borrow_mut().take())),
            Request::SendFrame(..) => Some(Reply::Send(result)),
            _ => None,
        },
        |host| handle_ws_request_frame(host, req_id, "add_order", op, params, &table),
    );
    seen
}

#[test]
fn an_order_is_recorded_and_sent_with_the_token() {
    let seen = order(
        Some(ConnectionState::Open),
        true,
        token("seeded-token-C"),
        ADD_ORDER,
        r#"{"order_type":"limit","side":"buy","symbol":"BTC/USDC","limit_price":33512.0}"#,
        open_table(),
        SendResult::Sent,
    );
    let frames = sent(&seen);
    assert_eq!(frames.len(), 1);
    assert_eq!(frames[0]["method"], "add_order");
    assert_eq!(frames[0]["req_id"], 99);
    assert_eq!(frames[0]["params"]["token"], "seeded-token-C");
    assert_eq!(frames[0]["params"]["order_type"], "limit");
    assert_eq!(frames[0]["params"]["limit_price"], 33512.0);
    let recorded = seen
        .iter()
        .position(|r| matches!(r, Request::RecordPendingRequest(WsUrl::Auth, 99, ADD_ORDER, 1_000)))
        .expect("recorded");
    let sent_at = seen
        .iter()
        .position(|r| matches!(r, Request::SendFrame(WsUrl::Auth, 2, _)))
        .expect("sent");
    assert!(recorded < sent_at);
    assert_eq!(made(&seen, |r| matches!(r, Request::FailPendingRequest(..))), 0);
}

#[test]
fn params_that_are_no_object_are_replaced() {
    let seen = order(
        Some(ConnectionState::Open),
        false,
        token("T"),
        ADD_ORDER,
        "[1,2]",
        open_table(),
        SendResult::Sent,
    );
    assert_eq!(
        sent(&seen)[0].to_string(),
        r#"{"method":"add_order","params":{"token":"T"},"req_id":99}"#
    );
}

#[test]
fn an_order_is_rejected_where_it_is_not_taken() {
    let probe_only = WsOp { code: 2, order_method: false };
    for (state, registered, op, label) in [
        (None, false, ADD_ORDER, "no connection"),
        (Some(ConnectionState::Connecting), false, ADD_ORDER, "connecting"),
        (Some(ConnectionState::Authenticating), true, ADD_ORDER, "a subscription is the probe"),
        (Some(ConnectionState::Authenticating), false, probe_only, "no order method"),
    ] {
        let seen = order(state, registered, token("T"), op, "{}", open_table(), SendResult::Sent);
        assert_eq!(
            made(&seen, |r| matches!(r, Request::RejectRequest(99, RequestFailure::NotOpen))),
            1,
            "{label}"
        );
        assert!(sent(&seen).is_empty(), "{label}");
        assert_eq!(made(&seen, |r| matches!(r, Request::RecordPendingRequest(..))), 0);
    }
    let admitted = order(
        Some(ConnectionState::Authenticating),
        false,
        token("T"),
        ADD_ORDER,
        "{}",
        open_table(),
        SendResult::Sent,
    );
    assert_eq!(sent(&admitted).len(), 1, "a bare order is the probe");
}

#[test]
fn presend_no_token_at_open_rejects_retryable_and_refreshes_no_defer() {
    let limit_order = r#"{"order_type":"limit","side":"buy","order_qty":0.0001,"symbol":"BTC/USDC","limit_price":33512.0,"post_only":true,"cl_ord_id":"b2220000-0000-4000-8000-000000000002"}"#;
    let seen = order_under(
        71,
        Some(ConnectionState::Open),
        true,
        None,
        ADD_ORDER,
        limit_order,
        open_table(),
        SendResult::Sent,
    );
    assert_eq!(
        made(&seen, |r| matches!(r, Request::RejectRequest(71, RequestFailure::NotOpen))),
        1,
        "an order without a token is rejected retryable"
    );
    assert_eq!(made(&seen, |r| matches!(r, Request::InvalidateCachedToken)), 1);
    assert_eq!(made(&seen, |r| matches!(r, Request::ForceRefresh)), 1);
    assert_eq!(made(&seen, |r| matches!(r, Request::DeferAuthSubscribe(..))), 0);
    assert_eq!(
        made(&seen, |r| matches!(r, Request::RecordPendingRequest(..))),
        0,
        "nothing waits for its answer"
    );
    assert!(driven(&seen).is_empty(), "the open session stays as it is");
    assert!(sent(&seen).is_empty(), "no frame is sent for the rejected order");

    let expired = Some(CachedToken {
        value: "old".to_string(),
        expired: true,
        refresh_due_at: 0,
    });
    let seen = order(
        Some(ConnectionState::Open),
        false,
        expired,
        ADD_ORDER,
        limit_order,
        open_table(),
        SendResult::Sent,
    );
    assert!(sent(&seen).is_empty());
}

#[test]
fn an_order_that_cannot_be_sent_fails_at_once() {
    for (table, result) in [
        (SocketTable::new(), SendResult::Sent),
        (open_table(), SendResult::Backpressure),
        (open_table(), SendResult::WriterClosed),
    ] {
        let seen = order(
            Some(ConnectionState::Open),
            false,
            token("T"),
            ADD_ORDER,
            "{}",
            table,
            result,
        );
        assert_eq!(
            made(&seen, |r| matches!(
                r,
                Request::FailPendingRequest(WsUrl::Auth, 99, RequestFailure::NotOpen)
            )),
            1
        );
    }
}

fn register(
    url: WsUrl,
    state: ConnectionState,
    count: u64,
    result: SendResult,
) -> (SocketTable, Vec<Request>) {
    let mut table = open_table();
    let (channel, params) = match url {
        WsUrl::Public => (ChannelName::Ticker, TICKER),
        WsUrl::Auth => (ChannelName::Executions, SubscribeParams::Executions),
    };
    let entry = SubscriptionEntry { key: key(channel, None), params };
    let (_, seen) = with_host(
        |request| match request {
            Request::Conn(..) => Some(Reply::Conn(Some(view(state)))),
            Request::Register(..) => Some(Reply::Count(count)),
            Request::NextConnectId => Some(Reply::Count(700)),
            Request::CachedToken(..) => Some(Reply::Token(token("seeded"))),
            Request::SendFrame(..) => Some(Reply::Send(result)),
            Request::HandleEvent(_, FsmEvent::CallStartConnect { .. }) => {
                let mut started = view(ConnectionState::Connecting);
                started.socket = Some(88);
                Some(Reply::View(started))
            }
            Request::HandleEvent(_, FsmEvent::WireAbnormalClose { .. }) => {
                let mut dead = view(ConnectionState::BackingOff);
                dead.socket = None;
                Some(Reply::View(dead))
            }
            _ => None,
        },
        |host| {
            handle_inbound(
                host,
                CallerInbound::RegistryMutation {
                    url,
                    mutation: RegistryMutationOp::RegisterBatch {
                        entries: vec![entry],
                        ref_id: Some(7),
                    },
                },
                &mut table,
            )
        },
    );
    (table, seen)
}

#[test]
fn only_the_first_subscriber_sends() {
    let (_, first) = register(WsUrl::Public, ConnectionState::Open, 1, SendResult::Sent);
    assert_eq!(sent(&first).len(), 1);
    assert_eq!(
        made(&first, |r| matches!(r, Request::RecordGuardRef(7, _))),
        1,
        "the guard is recorded"
    );
    let (_, second) = register(WsUrl::Public, ConnectionState::Open, 2, SendResult::Sent);
    assert!(sent(&second).is_empty());
}

#[test]
fn a_registration_starts_an_idle_connection() {
    let (table, seen) = register(WsUrl::Public, ConnectionState::Idle, 1, SendResult::Sent);
    assert!(matches!(
        driven(&seen)[..],
        [FsmEvent::CallStartConnect { request_id: 700 }]
    ));
    assert_eq!(table.sockets.get(WsUrl::Public), Some(88));
    assert_eq!(table.bridges.get(WsUrl::Public), Some(88));
    assert_eq!(
        made(&seen, |r| matches!(r, Request::WireUpgradeBridge(WsUrl::Public, 88))),
        1
    );
    assert_eq!(
        made(&seen, |r| matches!(r, Request::SendFrame(WsUrl::Public, 88, _))),
        1
    );
}

#[test]
fn a_dead_writer_takes_the_socket_out_of_the_table() {
    let (table, seen) =
        register(WsUrl::Public, ConnectionState::Open, 1, SendResult::WriterClosed);
    assert_eq!(table.sockets.get(WsUrl::Public), None);
    assert_eq!(table.sockets.get(WsUrl::Auth), Some(2));
    match driven(&seen)[..] {
        [FsmEvent::WireAbnormalClose { error }] => {
            assert!(error.transient);
            match &error.kind {
                TransportErrorKind::AbnormalClose { context } => assert_eq!(
                    context.as_str(),
                    "outbound writer task terminated (Register public subscribe)"
                ),
                other => panic!("unexpected kind {other:?}"),
            }
        }
        ref other => panic!("unexpected events {other:?}"),
    }
    assert_eq!(made(&seen, |r| matches!(r, Request::ArmSubscribeAck(..))), 0);

    let (_, full) = register(WsUrl::Public, ConnectionState::Open, 1, SendResult::Backpressure);
    assert_eq!(made(&full, |r| matches!(r, Request::SubscribeFailure(..))), 1);
    assert!(warnings(&full)[0].contains("backpressure"));
}

#[test]
fn an_auth_registration_is_signed_or_waits() {
    let (_, open) = register(WsUrl::Auth, ConnectionState::Open, 1, SendResult::Sent);
    let frames = sent(&open);
    assert_eq!(frames.len(), 1);
    assert_eq!(frames[0]["params"]["token"], "seeded");
    assert_eq!(frames[0]["params"]["channel"], "executions");

    let (_, busy) = register(WsUrl::Auth, ConnectionState::Authenticating, 1, SendResult::Sent);
    assert!(sent(&busy).is_empty(), "a probe is on the wire already");
}

#[test]
fn the_texts_of_each_send_path() {
    assert_eq!(
        SubscribeSend::Resend.backpressure_msg(),
        "resend: still backpressure; decrementing budget via handle_subscribe_failure"
    );
    assert_eq!(
        SubscribeSend::FirstSigned.writer_closed_msg(),
        "first signed subscribe send failed (writer closed); synthesising WireAbnormalClose"
    );
    assert_eq!(
        SubscribeSend::ResubscribeReplay.writer_closed_context(),
        "outbound writer task terminated (resubscribe replay)"
    );
}

fn release(
    mutation: RegistryMutationOp,
    params: Option<SubscribeParams>,
    tombstone: bool,
    remaining: u64,
) -> Vec<Request> {
    let mut table = open_table();
    let (_, seen) = with_host(
        |request| match request {
            Request::ParamsFor(..) => Some(Reply::Params(params)),
            Request::IsTerminated(..) => Some(Reply::Flag(tombstone)),
            Request::Release(..) => Some(Reply::Count(remaining)),
            Request::CachedToken(..) => Some(Reply::Token(token("seeded"))),
            Request::DeregisterAll(..) => Some(Reply::Removed(vec![
                RemovedEntry {
                    key: key(ChannelName::Ticker, Some("BTC/USD")),
                    params: TICKER,
                    tombstone: false,
                },
                RemovedEntry {
                    key: key(ChannelName::Trade, Some("BTC/USD")),
                    params: SubscribeParams::Trade { snapshot: None },
                    tombstone: true,
                },
            ])),
            _ => None,
        },
        |host| {
            handle_inbound(
                host,
                CallerInbound::RegistryMutation { url: WsUrl::Public, mutation },
                &mut table,
            )
        },
    );
    seen
}

fn deregister_book() -> RegistryMutationOp {
    RegistryMutationOp::Deregister {
        channel: ChannelName::BookRaw,
        pair: Some(sym("BTC/USD")),
    }
}

const BOOK_D10: SubscribeParams =
    SubscribeParams::Book { depth: BookDepth { levels: 10, maintained: 25 } };

#[test]
fn the_last_release_unsubscribes_with_the_subscribed_depth() {
    let seen = release(deregister_book(), Some(BOOK_D10), false, 0);
    let frames = sent(&seen);
    assert_eq!(frames.len(), 1);
    assert_eq!(frames[0]["method"], "unsubscribe");
    assert_eq!(frames[0]["params"]["channel"], "book");
    assert_eq!(frames[0]["params"]["depth"], 25);
    assert!(published(&seen).iter().any(|e| matches!(
        e,
        EventPayload::SubscriptionTerminated {
            key: Key { channel: ChannelName::Book, .. },
            cause: TerminationCause::ClientClosed,
            last_error: None,
            ..
        }
    )));
    assert_eq!(
        made(&seen, |r| matches!(r, Request::CompleteResubscribeIfEmpty(WsUrl::Public))),
        1
    );
}

#[test]
fn a_release_that_is_not_the_last_is_silent() {
    for seen in [
        release(deregister_book(), Some(BOOK_D10), false, 1),
        release(deregister_book(), None, false, 0),
    ] {
        assert!(sent(&seen).is_empty());
        assert!(published(&seen).is_empty());
    }
    let tombstone = release(deregister_book(), Some(BOOK_D10), true, 0);
    assert!(sent(&tombstone).is_empty());
    assert!(published(&tombstone).is_empty());
    assert_eq!(made(&tombstone, |r| matches!(r, Request::DisarmSubscribeAck(..))), 1);
}

#[test]
fn deregister_all_skips_tombstones_silently() {
    let mut table = open_table();
    let (_, seen) = with_host(
        |request| match request {
            Request::DeregisterAll(None) => Some(Reply::Removed(vec![
                RemovedEntry {
                    key: key(ChannelName::Ticker, Some("BTC/USD")),
                    params: TICKER,
                    tombstone: false,
                },
                RemovedEntry {
                    key: key(ChannelName::Ticker, Some("ETH/USD")),
                    params: TICKER,
                    tombstone: true,
                },
            ])),
            _ => None,
        },
        |host| {
            handle_inbound(
                host,
                CallerInbound::RegistryMutation {
                    url: WsUrl::Public,
                    mutation: RegistryMutationOp::DeregisterAll { channel: None },
                },
                &mut table,
            )
        },
    );
    let unsubs = sent(&seen);
    assert_eq!(unsubs.len(), 1, "a tombstone has no teardown on the wire");
    assert_eq!(unsubs[0]["method"], "unsubscribe");
    assert_eq!(unsubs[0]["params"]["channel"], "ticker");
    assert_eq!(
        unsubs[0]["params"]["symbol"][0], "BTC/USD",
        "teardown targets the live entry"
    );
    match &published(&seen)[..] {
        [EventPayload::SubscriptionTerminated { key, cause: TerminationCause::ClientClosed, .. }] => {
            assert_eq!(key.pair.as_ref().map(|pair| pair.name.as_str()), Some("BTC/USD"));
        }
        other => panic!("only the live entry ends now; got {other:?}"),
    }
}

#[test]
fn deregistering_a_raw_book_removes_the_book() {
    let seen = release(
        RegistryMutationOp::DeregisterAll { channel: Some(ChannelName::BookRaw) },
        None,
        false,
        0,
    );
    assert_eq!(
        made(&seen, |r| matches!(r, Request::DeregisterAll(Some(ChannelName::Book)))),
        1
    );
    assert_eq!(sent(&seen).len(), 1);
    assert_eq!(published(&seen).len(), 1);
    assert_eq!(
        made(&seen, |r| matches!(r, Request::CompleteResubscribeIfEmpty(WsUrl::Public))),
        1
    );
    assert_eq!(
        made(&seen, |r| matches!(r, Request::CompleteResubscribeIfEmpty(WsUrl::Auth))),
        0
    );
}

#[test]
fn nothing_that_was_removed_comes_back() {
    let seen =
        release(RegistryMutationOp::DeregisterAll { channel: None }, None, false, 0);
    for channel in [ChannelName::Ticker, ChannelName::Trade] {
        let about = |k: &Key| {
            k.channel == channel && k.pair.as_ref().is_some_and(|pair| pair.name == "BTC/USD")
        };
        assert_eq!(
            made(&seen, |r| matches!(r, Request::DisarmSubscribeAck(WsUrl::Public, k) if about(k))),
            1
        );
        assert_eq!(
            made(&seen, |r| {
                matches!(r, Request::DisarmBookReseedSnapshot(WsUrl::Public, k) if about(k))
            }),
            1
        );
        assert_eq!(
            made(&seen, |r| {
                matches!(r, Request::RemoveDeferredAuthSubscribe(WsUrl::Public, k) if about(k))
            }),
            1
        );
    }
}

#[test]
fn a_batch_of_releases_goes_pair_by_pair() {
    let seen = release(
        RegistryMutationOp::DeregisterBatch {
            channel: ChannelName::Ticker,
            pairs: vec![sym("BTC/USD"), sym("ETH/USD")],
        },
        Some(TICKER),
        false,
        0,
    );
    let frames = sent(&seen);
    assert_eq!(frames.len(), 2);
    assert_eq!(frames[0]["params"]["symbol"][0], "BTC/USD");
    assert_eq!(frames[1]["params"]["symbol"][0], "ETH/USD");
}

fn drop_guard_of(
    handler_id: u64,
    symbols: Vec<Symbol>,
    channel: ChannelName,
    params: SubscribeParams,
    remaining: u64,
) -> Vec<Request> {
    let mut table = open_table();
    let (_, seen) = with_host(
        |request| match request {
            Request::ParamsFor(..) => Some(Reply::Params(Some(params))),
            Request::ReleaseGuardRef(..) => Some(Reply::Count(remaining)),
            Request::CachedToken(..) => Some(Reply::Token(token("seeded"))),
            _ => None,
        },
        |host| {
            handle_inbound(
                host,
                CallerInbound::SubscriptionGuardDrop { handler_id, channel, symbols },
                &mut table,
            )
        },
    );
    seen
}

#[test]
fn multi_pair_guard_drop_unsubscribes_every_pair() {
    let seen = drop_guard_of(
        1,
        vec![sym("BTC/USD"), sym("ETH/USD")],
        ChannelName::Book,
        BOOK_D10,
        0,
    );
    let unsubscribed: Vec<String> = sent(&seen)
        .iter()
        .filter(|frame| frame["method"] == "unsubscribe" && frame["params"]["channel"] == "book")
        .map(|frame| frame["params"]["symbol"][0].as_str().expect("a pair").to_string())
        .collect();
    assert!(
        unsubscribed.contains(&"BTC/USD".to_string())
            && unsubscribed.contains(&"ETH/USD".to_string()),
        "one multi-pair guard drop must unsubscribe every pair; got {unsubscribed:?}"
    );
    assert_eq!(unsubscribed.len(), 2);
    assert_eq!(
        made(&seen, |r| matches!(r, Request::DeregisterHandler(ChannelName::Book, 1))),
        1
    );
}

#[test]
fn a_raw_guard_holds_the_book() {
    let seen = drop_guard_of(
        5,
        vec![sym("BTC/USD"), sym("ETH/USD")],
        ChannelName::BookRaw,
        BOOK_D10,
        0,
    );
    assert_eq!(
        made(&seen, |r| matches!(r, Request::DeregisterHandler(ChannelName::BookRaw, 5))),
        1
    );
    assert_eq!(
        made(&seen, |r| matches!(
            r,
            Request::ReleaseGuardRef(5, Key { channel: ChannelName::Book, pair: Some(_) })
        )),
        2
    );
    assert_eq!(sent(&seen).len(), 2);
    assert_eq!(
        made(&seen, |r| matches!(r, Request::CompleteResubscribeIfEmpty(..))),
        1
    );
}

#[test]
fn an_empty_guard_is_channel_wide() {
    let seen = drop_guard_of(
        5,
        Vec::new(),
        ChannelName::Executions,
        SubscribeParams::Executions,
        0,
    );
    let frames = sent(&seen);
    assert_eq!(frames.len(), 1);
    assert!(frames[0]["params"].get("symbol").is_none());
    assert_eq!(frames[0]["params"]["token"], "seeded");
    let held = drop_guard_of(
        5,
        Vec::new(),
        ChannelName::Executions,
        SubscribeParams::Executions,
        1,
    );
    assert!(sent(&held).is_empty());
    assert_eq!(
        made(&held, |r| matches!(r, Request::CompleteResubscribeIfEmpty(..))),
        0
    );
}

#[test]
fn handlers_and_abandoned_requests_are_passed_on() {
    let mut table = open_table();
    let (_, seen) = with_host(
        |_| None,
        |host| {
            handle_inbound(
                host,
                CallerInbound::HandlerMutation {
                    channel: ChannelName::Trade,
                    op: HandlerMutationOp::Register { id: 3, callback: 30 },
                },
                &mut table,
            );
            handle_inbound(
                host,
                CallerInbound::HandlerMutation {
                    channel: ChannelName::Trade,
                    op: HandlerMutationOp::Deregister { id: 3 },
                },
                &mut table,
            );
            handle_inbound(host, CallerInbound::AbandonWsRequest { req_id: 8 }, &mut table);
        },
    );
    assert!(matches!(seen[0], Request::RegisterHandler(ChannelName::Trade, 3, 30)));
    assert!(matches!(seen[1], Request::DeregisterHandler(ChannelName::Trade, 3)));
    assert!(matches!(
        seen[3],
        Request::FailPendingRequest(WsUrl::Auth, 8, RequestFailure::ResponseTimeout)
    ));
}

#[test]
fn a_caller_event_is_driven_and_the_socket_follows() {
    let mut table = open_table();
    let (_, seen) = with_host(
        |request| match request {
            Request::HandleEvent(..) => {
                let mut after = view(ConnectionState::Closing);
                after.socket = None;
                Some(Reply::View(after))
            }
            _ => None,
        },
        |host| {
            handle_inbound(
                host,
                CallerInbound::FsmEvent {
                    url: WsUrl::Auth,
                    event: CallerEvent::ForceReconnect { request_id: 42 },
                },
                &mut table,
            )
        },
    );
    assert!(matches!(
        driven(&seen)[..],
        [FsmEvent::CallForceReconnect { request_id: 42 }]
    ));
    assert_eq!(
        made(&seen, |r| matches!(r, Request::StoreMirror(WsUrl::Auth, ConnectionState::Closing))),
        1
    );
    assert_eq!(table.sockets.get(WsUrl::Auth), None);
    assert_eq!(table.sockets.get(WsUrl::Public), Some(1));
}

fn text_frame(text: &str) -> Result<WsFrame, TransportError> {
    Ok(WsFrame { opcode: WsOpcode::Text, payload: text.as_bytes().to_vec() })
}

fn deliver(
    frame: Result<WsFrame, TransportError>,
    after: ConnView,
    answer: impl Fn(&Request) -> Option<Reply>,
) -> (SocketTable, Vec<Request>) {
    let mut table = open_table();
    let mut drops = DropTracker::new();
    let mut warns = SuppressWarnTracker::new();
    let (_, seen) = with_host(
        |request| match request {
            Request::HandleEvent(..) => Some(Reply::View(after)),
            other => answer(other),
        },
        |host| handle_frame(host, WsUrl::Public, frame, &mut drops, &mut warns, &mut table),
    );
    (table, seen)
}

#[test]
fn non_json_text_frame_drops_silently_and_routing_survives() {
    let (_, seen) = deliver(text_frame("not json{{"), view(ConnectionState::Open), |_| None);
    assert_eq!(made(&seen, |r| matches!(r, Request::NoteInboundActivity(..))), 1);
    assert_eq!(seen.len(), 2, "nothing but the note of activity; got {seen:?}");

    let (_, seen) = deliver(
        text_frame(r#"{"channel":"ticker","type":"update","data":[{"symbol":"BTC/USD"}]}"#),
        view(ConnectionState::Open),
        |request| match request {
            Request::HandlersFor(..) => Some(Reply::Handlers(vec![11, 12])),
            Request::Decode(..) => Some(Reply::Decoded(Decoded::Deliver(500))),
            _ => None,
        },
    );
    let delivered: Vec<u64> = seen
        .iter()
        .filter_map(|r| match r {
            Request::DeliverDecoded(ChannelName::Ticker, handler, 500) => Some(*handler),
            _ => None,
        })
        .collect();
    assert_eq!(delivered, vec![11, 12]);
    let envelope = seen
        .iter()
        .find_map(|r| match r {
            Request::Decode(ChannelName::Ticker, 11, envelope) => Some(envelope.to_string()),
            _ => None,
        })
        .expect("decoded by the first handler");
    assert_eq!(envelope, r#"{"data":{"symbol":"BTC/USD"},"type":"update"}"#);
}

#[test]
fn a_frame_that_is_no_text_is_activity() {
    let (_, seen) = deliver(
        Ok(WsFrame { opcode: WsOpcode::Other, payload: vec![1, 2] }),
        view(ConnectionState::Open),
        |_| None,
    );
    assert!(matches!(
        seen[..],
        [Request::Conn(WsUrl::Public), Request::NoteInboundActivity(WsUrl::Public)]
    ));
}

#[test]
fn an_ended_socket_leaves_and_only_a_new_one_comes_back() {
    let closed = || {
        Err(TransportError {
            kind: TransportErrorKind::CloseFrame { code: 1001, reason: "bye".to_string() },
            transient: true,
        })
    };
    // The connection passes the close over and still names the dead socket.
    let (table, seen) = deliver(closed(), view(ConnectionState::Open), |_| None);
    assert_eq!(table.sockets.get(WsUrl::Public), None);
    match driven(&seen)[..] {
        [FsmEvent::WireCloseReceived { code: 1001, reason: Some(reason) }] => {
            assert_eq!(reason.as_str(), "bye");
        }
        ref other => panic!("unexpected {other:?}"),
    }

    let mut fresh = view(ConnectionState::Connecting);
    fresh.socket = Some(9);
    let (table, seen) = deliver(
        Err(TransportError { kind: TransportErrorKind::SocketReset, transient: true }),
        fresh,
        |_| None,
    );
    assert_eq!(table.sockets.get(WsUrl::Public), Some(9));
    assert_eq!(table.bridges.get(WsUrl::Public), Some(9));
    assert!(matches!(driven(&seen)[..], [FsmEvent::WireAbnormalClose { .. }]));
}

fn book_row(outcome: BookDriveOutcome, book: Vec<u64>, raw: Vec<u64>) -> Vec<Request> {
    book_frame(
        r#"{"channel":"book","type":"update","data":[{"symbol":"BTC/USD","checksum":1}]}"#,
        outcome,
        book,
        raw,
    )
}

fn book_frame(
    text: &str,
    outcome: BookDriveOutcome,
    book: Vec<u64>,
    raw: Vec<u64>,
) -> Vec<Request> {
    let (_, seen) = deliver(
        text_frame(text),
        view(ConnectionState::Open),
        |request| match request {
            Request::HandleUpdate(..) => Some(Reply::Book(outcome)),
            Request::HandlersFor(ChannelName::Book) => Some(Reply::Handlers(book.clone())),
            Request::HandlersFor(ChannelName::BookRaw) => Some(Reply::Handlers(raw.clone())),
            Request::Decode(..) => Some(Reply::Decoded(Decoded::Deliver(77))),
            Request::ParamsFor(..) => Some(Reply::Params(Some(BOOK_D10))),
            _ => None,
        },
    );
    seen
}

#[test]
fn a_maintained_book_is_delivered_typed_and_raw_alongside() {
    let seen = book_row(BookDriveOutcome::Maintained(900), vec![1, 2], vec![3]);
    assert_eq!(
        made(&seen, |r| matches!(r, Request::DeliverMaintained(ChannelName::Book, _, 900))),
        2
    );
    assert_eq!(
        made(&seen, |r| matches!(r, Request::DeliverDecoded(ChannelName::BookRaw, 3, 77))),
        1
    );
}

#[test]
fn book_crc_gap_is_announced_and_reseeded_while_raw_streams_on() {
    let seen = book_row(
        BookDriveOutcome::Gap { expected: 1, computed: 2 },
        vec![1],
        vec![3],
    );
    assert_eq!(made(&seen, |r| matches!(r, Request::DeliverMaintained(..))), 0);
    assert_eq!(
        made(&seen, |r| matches!(r, Request::DeliverDecoded(ChannelName::BookRaw, 3, 77))),
        1
    );
    match &published(&seen)[..] {
        [EventPayload::OrderBookGap { channel: ChannelName::Book, symbol, cause: GapCause::OrderBookCrcMismatch }, EventPayload::SubscriptionGap { dropped_count: 0, cause: GapCause::OrderBookCrcMismatch, .. }] =>
        {
            assert_eq!(symbol.name, "BTC/USD");
        }
        other => panic!("unexpected events {other:?}"),
    }
    assert_eq!(made(&seen, |r| matches!(r, Request::BeginBookResync(..))), 1);
    let frames = sent(&seen);
    assert_eq!(frames.len(), 2);
    assert_eq!(frames[0]["method"], "unsubscribe");
    assert_eq!(frames[0]["params"]["depth"], 25);
    assert!(frames[0]["params"].get("snapshot").is_none());
    assert_eq!(frames[1]["method"], "subscribe");
    assert_eq!(frames[1]["params"]["depth"], 25);
    assert_eq!(frames[1]["params"]["snapshot"], true);
    assert_eq!(
        made(&seen, |r| matches!(
            r,
            Request::ArmBookReseedSnapshot(WsUrl::Public, _, due) if *due == 50_001_000
        )),
        1
    );

    let exhausted = book_row(BookDriveOutcome::GapBudgetExhausted, vec![1], vec![3]);
    assert_eq!(published(&exhausted).len(), 2);
    assert!(sent(&exhausted).is_empty(), "an exhausted book is not reseeded");
}

#[test]
fn raw_only_book_subscriber_emits_no_book_no_handler_drop() {
    let raw_only = book_frame(
        r#"{"channel":"book","type":"snapshot","data":[{"symbol":"BTC/USD","bids":[{"price":30000.0,"qty":1.0}],"asks":[{"price":30001.0,"qty":1.0}],"checksum":1748749925}]}"#,
        BookDriveOutcome::Maintained(900),
        Vec::new(),
        vec![5101],
    );
    assert_eq!(
        made(&raw_only, |r| matches!(r, Request::Decode(ChannelName::BookRaw, 5101, _))),
        1,
        "the book frame must fan to the registered BookRaw handler"
    );
    assert_eq!(
        made(&raw_only, |r| matches!(r, Request::DeliverDecoded(ChannelName::BookRaw, 5101, 77))),
        1
    );
    assert!(
        published(&raw_only).is_empty(),
        "a frame delivered to BookRaw must NOT emit MessageDroppedNoHandler; got {raw_only:?}"
    );
    let orphan = book_row(BookDriveOutcome::PassThrough, Vec::new(), Vec::new());
    assert!(matches!(
        published(&orphan)[..],
        [EventPayload::MessageDroppedNoHandler { channel: ChannelName::Book, count: 1, .. }]
    ));
}

#[test]
fn decode_failures_and_panics_are_announced() {
    let row = |text: &'static str, panics: bool| {
        let (_, seen) = deliver(text_frame(text), view(ConnectionState::Open), |request| {
            match request {
                Request::HandlersFor(..) => Some(Reply::Handlers(vec![21])),
                Request::Decode(..) if panics => {
                    Some(Reply::Decoded(Decoded::Panicked(Text::Fixed("boom"))))
                }
                _ => None,
            }
        });
        seen
    };
    let failed = row(
        r#"{"channel":"ticker","type":"snapshot","data":[{"symbol":"BTC/USD"}]}"#,
        false,
    );
    assert!(matches!(
        published(&failed)[..],
        [EventPayload::SubscriptionGap {
            channel: ChannelName::Ticker,
            cause: GapCause::MalformedFrame,
            ..
        }]
    ));
    let nameless = row(r#"{"channel":"ticker","type":"update","data":[{"bid":1}]}"#, false);
    assert!(published(&nameless).is_empty());
    assert!(warnings(&nameless)[0].contains("no routing symbol"));
    let panicked = row(r#"{"channel":"trade","type":"update","data":[{}]}"#, true);
    match &published(&panicked)[..] {
        [EventPayload::HandlerPanicWarning { channel: ChannelName::Trade, handler_id: 21, panic_message }] =>
        {
            assert_eq!(panic_message.as_str(), "boom");
        }
        other => panic!("unexpected {other:?}"),
    }
}

#[test]
fn a_gap_without_a_pair_is_only_warned_about() {
    let (_, seen) = deliver(
        text_frame(r#"{"channel":"book","type":"update","data":[{"checksum":1}]}"#),
        view(ConnectionState::Open),
        |request| match request {
            Request::HandleUpdate(..) => {
                Some(Reply::Book(BookDriveOutcome::Gap { expected: 1, computed: 2 }))
            }
            _ => None,
        },
    );
    assert!(published(&seen).is_empty());
    assert!(warnings(&seen)[0].contains("CRC32 gap with no routing symbol"));
    assert!(sent(&seen).is_empty());
}

#[test]
fn a_book_is_dropped_even_without_its_connection() {
    let (_, seen) = with_host(
        |request| match request {
            Request::ParamsFor(..) => Some(Reply::Params(Some(BOOK_D10))),
            Request::Conn(..) => Some(Reply::Conn(None)),
            _ => None,
        },
        |host| recover_book_gap(host, WsUrl::Public, &sym("BTC/USD"), &open_table()),
    );
    assert!(matches!(seen[0], Request::BeginBookResync(..)));
    assert!(sent(&seen).is_empty());
}

#[test]
fn an_overdue_snapshot_is_asked_for_again_until_it_is_given_up() {
    let overdue = |outcome: ReseedTimeoutOutcome, pair: Option<Symbol>| {
        let (_, seen) = with_host(
            |request| match request {
                Request::NoteReseedTimeout(..) => Some(Reply::Reseed(outcome)),
                Request::ParamsFor(..) => Some(Reply::Params(Some(BOOK_D10))),
                _ => None,
            },
            |host| handle_book_reseed_timeout(host, WsUrl::Public, &pair, &open_table()),
        );
        seen
    };
    let pair = || Some(sym("BTC/USD"));
    assert_eq!(sent(&overdue(ReseedTimeoutOutcome::Retry, pair())).len(), 2);
    let given_up = overdue(ReseedTimeoutOutcome::Exhausted, pair());
    assert!(sent(&given_up).is_empty());
    assert_eq!(published(&given_up).len(), 2);
    assert_eq!(overdue(ReseedTimeoutOutcome::StaleNoOp, pair()).len(), 1);
    assert!(overdue(ReseedTimeoutOutcome::Retry, None).is_empty());
}

#[test]
fn a_resend_goes_out_again_or_is_deferred() {
    let resend = |params: Option<SubscribeParams>, cached: bool, awaiting: bool| {
        let (_, seen) = with_host(
            |request| match request {
                Request::ParamsFor(..) => Some(Reply::Params(params)),
                Request::CachedToken(..) => {
                    Some(Reply::Token(if cached { token("fresh") } else { None }))
                }
                Request::IsAwaitingTokenRefresh(..) => Some(Reply::Flag(awaiting)),
                _ => None,
            },
            |host| {
                handle_subscribe_resend(
                    host,
                    WsUrl::Auth,
                    &key(ChannelName::Balances, None),
                    &open_table(),
                )
            },
        );
        seen
    };
    let again = resend(Some(SubscribeParams::Balances), true, false);
    assert_eq!(
        sent(&again)[0].to_string(),
        r#"{"method":"subscribe","params":{"channel":"balances","token":"fresh"},"req_id":41}"#
    );
    assert_eq!(
        made(&again, |r| matches!(r, Request::RecordSubscribeReqId(WsUrl::Auth, 41, _))),
        1
    );
    let deferred = resend(Some(SubscribeParams::Balances), false, false);
    assert!(sent(&deferred).is_empty());
    assert_eq!(made(&deferred, |r| matches!(r, Request::DeferAuthSubscribe(..))), 1);
    assert_eq!(
        made(&deferred, |r| matches!(r, Request::CompleteResubscribeIfEmpty(..))),
        1
    );
    assert_eq!(made(&deferred, |r| matches!(r, Request::ForceRefresh)), 1);
    let waiting = resend(Some(SubscribeParams::Balances), false, true);
    assert_eq!(made(&waiting, |r| matches!(r, Request::ForceRefresh)), 0);
    assert!(matches!(
        resend(None, true, false)[..],
        [Request::ParamsFor(_), Request::Say(Note::ResendGone { .. })]
    ));
}

#[test]
fn a_replay_stops_where_the_connection_is_lost() {
    let frames = || {
        vec![
            (key(ChannelName::Balances, None), parse(r#"{"params":{}}"#)),
            (key(ChannelName::Executions, None), parse(r#"{"params":{}}"#)),
        ]
    };
    let replay = |result: SendResult, left: ConnectionState| {
        let (_, seen) = with_host(
            |request| match request {
                Request::CachedToken(..) => Some(Reply::Token(token("T"))),
                Request::ComposeSignedSubscribeFrames(..) => Some(Reply::Frames(frames())),
                Request::SendFrame(..) => Some(Reply::Send(result)),
                Request::SubscribeFailure(..) | Request::HandleEvent(..) => {
                    Some(Reply::View(view(left)))
                }
                _ => None,
            },
            |host| send_remaining_signed_subscribes(host, WsUrl::Auth, &None, &open_table()),
        );
        sent(&seen).len()
    };
    assert_eq!(replay(SendResult::Sent, ConnectionState::Resubscribing), 2);
    assert_eq!(replay(SendResult::Backpressure, ConnectionState::Resubscribing), 2);
    assert_eq!(replay(SendResult::Backpressure, ConnectionState::BackingOff), 1);
    assert_eq!(replay(SendResult::WriterClosed, ConnectionState::Resubscribing), 1);
}

#[test]
fn a_public_subscribe_without_a_socket_is_left_to_the_replay() {
    let (left, seen) = with_host(
        |_| None,
        |host| {
            send_single_subscribe(
                host,
                WsUrl::Public,
                &key(ChannelName::Ticker, Some("BTC/USD")),
                TICKER,
                &SocketTable::new(),
            )
        },
    );
    assert_eq!(left, None);
    match &seen[..] {
        [Request::Say(note @ Note::PublicWithoutSocket { url: WsUrl::Public, key })] => {
            assert_eq!(key.channel, ChannelName::Ticker);
            assert_eq!(key.pair.as_ref().map(|pair| pair.name.as_str()), Some("BTC/USD"));
            assert_eq!(
                note.message(),
                "Register: socket not open; wire subscribe dropped (reconnect-replay will recover from registry)"
            );
        }
        other => panic!("unexpected {other:?}"),
    }
}

fn upgraded(connection_id: u64, after: ConnView, result: SendResult) -> (SocketTable, Vec<Request>) {
    let mut table = open_table();
    let (_, seen) = with_host(
        |request| match request {
            Request::HandleEvent(_, FsmEvent::WireUpgradeOk { .. }) => Some(Reply::View(after)),
            Request::ComposeSubscribeFrames(..) => Some(Reply::Frames(vec![
                (
                    key(ChannelName::Book, Some("BTC/USD")),
                    parse(r#"{"params":{"symbol":["BTC/USD"]}}"#),
                ),
                (
                    key(ChannelName::Ticker, Some("ETH/USD")),
                    parse(r#"{"params":{"symbol":["ETH/USD"]}}"#),
                ),
            ])),
            Request::IsBookResyncing(..) => Some(Reply::Flag(true)),
            Request::SendFrame(..) => Some(Reply::Send(result)),
            Request::CompleteResubscribeIfEmpty(..) => {
                let mut completed = view(ConnectionState::Resubscribing);
                completed.socket = if result == SendResult::Sent { Some(1) } else { None };
                Some(Reply::View(completed))
            }
            Request::CachedToken(..) => Some(Reply::Token(token("seeded"))),
            Request::ComposeFirstSignedSubscribe(..) => Some(Reply::Frame(Some((
                key(ChannelName::Executions, None),
                parse(r#"{"params":{"channel":"executions"}}"#),
            )))),
            _ => None,
        },
        |host| on_upgrade_ok(host, WsUrl::Public, connection_id, &mut table),
    );
    (table, seen)
}

#[test]
fn a_reconnect_replays_every_subscription() {
    let mut after = view(ConnectionState::Resubscribing);
    after.has_been_open = true;
    let (table, seen) = upgraded(1, after, SendResult::Sent);
    let frames = sent(&seen);
    assert_eq!(frames.len(), 2);
    assert_eq!(frames[0]["params"]["symbol"][0], "BTC/USD");
    assert_eq!(frames[1]["params"]["symbol"][0], "ETH/USD");
    assert_eq!(made(&seen, |r| matches!(r, Request::ArmSubscribeAck(..))), 2);
    assert_eq!(
        made(&seen, |r| matches!(r, Request::ArmBookReseedSnapshot(..))),
        1,
        "a book that still resyncs has its timer set again"
    );
    assert_eq!(table.sockets.get(WsUrl::Public), Some(1));

    let (table, seen) = upgraded(1, after, SendResult::WriterClosed);
    assert_eq!(sent(&seen).len(), 1);
    assert_eq!(table.sockets.get(WsUrl::Public), None);
}

#[test]
fn a_first_connect_replays_nothing_and_an_auth_one_signs_in() {
    let (_, first) = upgraded(1, view(ConnectionState::Resubscribing), SendResult::Sent);
    assert!(sent(&first).is_empty());
    let (_, auth) = upgraded(1, view(ConnectionState::Authenticating), SendResult::Sent);
    let frames = sent(&auth);
    assert_eq!(frames.len(), 1);
    assert_eq!(frames[0]["params"]["channel"], "executions");
    assert_eq!(frames[0]["req_id"], 41);
}

#[test]
fn a_stale_upgrade_is_dropped() {
    let (_, seen) = upgraded(5, view(ConnectionState::Open), SendResult::Sent);
    assert!(matches!(seen[..], [Request::Say(Note::StaleUpgrade { connection_id: 5, .. })]));
}

#[test]
fn a_failed_upgrade_is_driven_and_the_socket_goes_with_it() {
    let mut table = open_table();
    let (_, seen) = with_host(
        |request| match request {
            Request::HandleEvent(..) => {
                let mut after = view(ConnectionState::BackingOff);
                after.socket = None;
                Some(Reply::View(after))
            }
            _ => None,
        },
        |host| {
            on_upgrade_failed(
                host,
                WsUrl::Public,
                TransportErrorKind::HttpUpgradeRejected { status: 503 },
                true,
                &mut table,
            )
        },
    );
    assert!(matches!(
        driven(&seen)[..],
        [FsmEvent::WireUpgradeFailed { http_status: 503 }]
    ));
    assert_eq!(table.sockets.get(WsUrl::Public), None);
}

#[test]
fn upgrade_outcomes_are_bridged_with_a_fallback() {
    let (_, seen) = with_host(
        |request| match request {
            Request::ForwardUpgrade(UpgradeOutcome::Upgraded { .. }) => {
                Some(Reply::Queue(QueueResult::Full))
            }
            _ => None,
        },
        |host| bridge_upgrade_ok(host, WsUrl::Auth, 6),
    );
    match &seen[..] {
        [
            Request::ForwardUpgrade(UpgradeOutcome::Upgraded {
                url: WsUrl::Auth,
                connection_id: 6,
            }),
            Request::Say(
                note @ Note::UpgradeNotTaken {
                    url: WsUrl::Auth,
                    connection_id: 6,
                    error: QueueResult::Full,
                },
            ),
            Request::ForwardUpgrade(UpgradeOutcome::Failed {
                kind: TransportErrorKind::AbnormalClose { context },
                transient: true,
                ..
            }),
        ] => {
            assert_eq!(note.level(), Level::Error);
            assert!(note.message().starts_with("WsUpgradeOk bridge channel full"));
            assert_eq!(context.as_str(), "upgrade-bridge channel full");
        }
        other => panic!("unexpected {other:?}"),
    }
    let (taken, seen) = with_host(
        |_| None,
        |host| bridge_upgrade_failed(host, WsUrl::Public, TransportErrorKind::TcpRefused, false),
    );
    assert_eq!(taken, QueueResult::Taken);
    assert_eq!(seen.len(), 1);
    let (taken, seen) = with_host(
        |request| match request {
            Request::ForwardUpgrade(_) => Some(Reply::Queue(QueueResult::Closed)),
            _ => None,
        },
        |host| bridge_upgrade_failed(host, WsUrl::Public, TransportErrorKind::TcpRefused, false),
    );
    assert_eq!(taken, QueueResult::Closed);
    assert!(matches!(
        seen.last(),
        Some(Request::Say(Note::UpgradeFailureNotTaken {
            url: WsUrl::Public,
            error: QueueResult::Closed,
        }))
    ));
}

#[test]
fn a_socket_is_bridged_once() {
    let mut table = SocketTable::new();
    let (_, seen) = with_host(
        |_| None,
        |host| {
            let conn = view(ConnectionState::Connecting);
            project_socket_and_wire_bridge(host, &conn, WsUrl::Public, None, &mut table);
            project_socket_and_wire_bridge(host, &conn, WsUrl::Public, Some(1), &mut table);
            write_mirror(host, WsUrl::Public, ConnectionState::Connecting);
        },
    );
    assert_eq!(made(&seen, |r| matches!(r, Request::WireUpgradeBridge(WsUrl::Public, 1))), 1);
    assert_eq!(table.bridges.get(WsUrl::Public), Some(1));
    assert!(matches!(
        seen.last(),
        Some(Request::StoreMirror(WsUrl::Public, ConnectionState::Connecting))
    ));
    assert_eq!(channel_ws_url(ChannelName::Balances), WsUrl::Auth);
    assert_eq!(channel_ws_url(ChannelName::Status), WsUrl::Public);
}

fn refreshed(
    request_id: u64,
    result: Result<(), Text>,
    state: ConnectionState,
    cached: bool,
) -> (SocketTable, Vec<Request>) {
    let mut table = open_table();
    let (_, seen) = with_host(
        |request| match request {
            Request::Conn(..) => Some(Reply::Conn(Some(view(state)))),
            Request::HandleEvent(..) => Some(Reply::View(view(state))),
            Request::CachedToken(..) => {
                Some(Reply::Token(if cached { token("fresh") } else { None }))
            }
            Request::DrainDeferredAuthSubscribes(..) => Some(Reply::Keys(vec![
                (key(ChannelName::Balances, None), SubscribeParams::Balances),
                (key(ChannelName::Executions, None), SubscribeParams::Executions),
            ])),
            Request::ParamsFor(Key { channel: ChannelName::Balances, .. }) => {
                Some(Reply::Params(Some(SubscribeParams::Balances)))
            }
            _ => None,
        },
        |host| on_refresh_outcome(host, request_id, result, &mut table),
    );
    (table, seen)
}

#[test]
fn a_new_token_drains_what_was_deferred() {
    let (table, seen) = refreshed(4, Ok(()), ConnectionState::Open, true);
    assert!(matches!(
        driven(&seen)[0],
        FsmEvent::BusTokenRefreshed { request_id: 4 }
    ));
    let frames = sent(&seen);
    assert_eq!(frames.len(), 1, "a key that is gone is not revived");
    assert_eq!(frames[0]["params"]["channel"], "balances");
    assert_eq!(frames[0]["params"]["token"], "fresh");
    assert_eq!(
        made(&seen, |r| matches!(r, Request::ArmTokenRefresh(WsUrl::Auth, 900))),
        1
    );
    assert_eq!(table.sockets.get(WsUrl::Auth), Some(1));
}

#[test]
fn proactive_refresh_failure_mid_handshake_is_not_delivered() {
    let (_, seen) = refreshed(
        0,
        Err(Text::Fixed("EAPI:Invalid key")),
        ConnectionState::Authenticating,
        true,
    );
    assert!(driven(&seen).is_empty());
    assert_eq!(made(&seen, |r| matches!(r, Request::ArmTokenRefresh(..))), 0);

    let (_, reactive) = refreshed(
        3,
        Err(Text::Fixed("EAPI:Invalid key")),
        ConnectionState::Authenticating,
        false,
    );
    assert!(matches!(
        driven(&reactive)[..],
        [FsmEvent::BusTokenRefreshFailed { request_id: 3, .. }]
    ));
    assert_eq!(made(&reactive, |r| matches!(r, Request::DisarmTokenRefresh(..))), 1);
}

#[test]
fn the_next_refresh_is_set_by_the_token() {
    let (_, seen) = with_host(
        |request| match request {
            Request::CachedToken(None) => Some(Reply::Token(token("T"))),
            _ => None,
        },
        |host| rearm_token_refresh(host, WsUrl::Auth),
    );
    assert!(matches!(seen[1], Request::ArmTokenRefresh(WsUrl::Auth, 900)));
}

fn fired(url: WsUrl, event: FsmEvent, state: ConnectionState) -> (bool, Vec<Request>) {
    let mut table = open_table();
    with_host(
        |request| match request {
            Request::Conn(..) => Some(Reply::Conn(Some(view(state)))),
            Request::ParamsFor(..) => Some(Reply::Params(Some(TICKER))),
            _ => None,
        },
        |host| on_timer(host, url, event, 600, &mut table),
    )
}

#[test]
fn timers_are_popped_and_then_acted_on() {
    let (own, backoff) =
        fired(WsUrl::Public, FsmEvent::TimerBackoffElapsed, ConnectionState::BackingOff);
    assert!(!own);
    assert!(matches!(backoff[1], Request::PopTimer(WsUrl::Public, TimerId::Backoff)));
    assert!(matches!(driven(&backoff)[..], [FsmEvent::TimerBackoffElapsed]));

    let (own, resend) = fired(
        WsUrl::Public,
        FsmEvent::TimerSubscribeResendDue { key: key(ChannelName::Ticker, Some("BTC/USD")) },
        ConnectionState::Open,
    );
    assert!(matches!(
        resend[1],
        Request::PopTimer(WsUrl::Public, TimerId::SubscribeResend(_))
    ));
    assert!(own);
    assert!(driven(&resend).is_empty(), "the resend is the reactor's own");
    assert_eq!(sent(&resend).len(), 1);
    assert_eq!(made(&resend, |r| matches!(r, Request::StoreMirror(..))), 1);

    let (own, reseed) = fired(
        WsUrl::Public,
        FsmEvent::TimerBookReseedSnapshot { key: key(ChannelName::Book, Some("BTC/USD")) },
        ConnectionState::Open,
    );
    assert!(own);
    assert_eq!(made(&reseed, |r| matches!(r, Request::NoteReseedTimeout(..))), 1);

    let (own, due) = fired(WsUrl::Auth, FsmEvent::TimerTokenRefreshDue, ConnectionState::Open);
    assert!(own);
    assert_eq!(made(&due, |r| matches!(r, Request::ProactiveRefresh)), 1);
    assert!(matches!(due.last(), Some(Request::ArmTokenRefresh(WsUrl::Auth, 1_600))));
    let (_, over) = fired(WsUrl::Auth, FsmEvent::TimerTokenRefreshDue, ConnectionState::Closed);
    assert_eq!(made(&over, |r| matches!(r, Request::ProactiveRefresh)), 0);
}

#[test]
fn ready_is_told_to_the_waiter_and_then_to_everyone() {
    let (_, seen) = with_host(
        |_| None,
        |host| {
            announce_ready(
                host,
                ReadySignal {
                    request_id: 12,
                    capability_snapshot: CapabilitySnapshot {
                        declared_namespaces: vec!["market".to_string()],
                        declared_ws_urls: vec![WsUrl::Public],
                        discovered_at_first_use: Vec::new(),
                    },
                },
            )
        },
    );
    match &seen[1..] {
        [Request::DeliverCorrelated(first), Request::Publish(second)] => {
            assert_eq!(first.request_id, Some(12));
            assert_eq!(second.request_id, None);
            match &second.payload {
                EventPayload::ClientReady { capability_snapshot } => {
                    assert_eq!(capability_snapshot.declared_namespaces, vec!["market"]);
                }
                other => panic!("unexpected {other:?}"),
            }
        }
        other => panic!("unexpected {other:?}"),
    }
}

#[test]
fn hints_are_stored_when_the_subscriptions_changed() {
    let (epoch, seen) = with_host(
        |request| match request {
            Request::LivenessEpoch => Some(Reply::Count(2)),
            Request::HasUrlEntry(..) => Some(Reply::Flag(true)),
            _ => None,
        },
        |host| sync_liveness(host, 1),
    );
    assert_eq!(epoch, 2);
    assert_eq!(
        made(&seen, |r| matches!(r, Request::StoreAuthHasSubscriptions(true))),
        1
    );
    let (_, same) = with_host(
        |request| match request {
            Request::LivenessEpoch => Some(Reply::Count(2)),
            _ => None,
        },
        |host| sync_liveness(host, 2),
    );
    assert_eq!(same.len(), 1);
    let (_, hinted) = with_host(
        |request| match request {
            Request::Conn(..) => Some(Reply::Conn(None)),
            _ => None,
        },
        |host| refresh_auth_send_ready_hint(host),
    );
    assert_eq!(
        made(&hinted, |r| matches!(r, Request::StoreAuthHasSubscriptions(false))),
        1
    );
}

#[test]
fn client_close_marker_drives_all_conns_to_closed_and_self_exits() {
    let mut table = open_table();
    let ids = Cell::new(70u64);
    let (pending, seen) = with_host(
        |request| match request {
            Request::NextConnectId => {
                ids.set(ids.get() + 1);
                Some(Reply::Count(ids.get()))
            }
            _ => None,
        },
        |host| {
            on_inbound(
                host,
                CallerInbound::ClientClose { request_id: 77, initiated_at: 123 },
                None,
                &mut table,
            )
        },
    );
    let closes: Vec<(WsUrl, u64)> = seen
        .iter()
        .filter_map(|r| match r {
            Request::HandleEvent(url, FsmEvent::CallClose { request_id }) => {
                Some((*url, *request_id))
            }
            _ => None,
        })
        .collect();
    assert_eq!(closes, vec![(WsUrl::Public, 71), (WsUrl::Auth, 72)]);
    assert_eq!(pending, Some(PendingClose { request_id: 77, initiated_at: 123 }));

    let check = |auth: ConnectionState| {
        with_host(
            |request| match request {
                Request::Conn(WsUrl::Public) => {
                    Some(Reply::Conn(Some(view(ConnectionState::Closed))))
                }
                Request::Conn(WsUrl::Auth) => Some(Reply::Conn(Some(view(auth)))),
                _ => None,
            },
            |host| complete_client_close(host, pending),
        )
    };
    let (ends, waiting) = check(ConnectionState::Failed);
    assert!(!ends, "a failed connection is not a closed one");
    assert!(published(&waiting).is_empty());
    let (ends, closed) = check(ConnectionState::Closed);
    assert!(ends);
    match &closed[3..] {
        [Request::DeliverCorrelated(first), Request::Publish(second)] => {
            assert_eq!(first.request_id, Some(77));
            assert_eq!(second.request_id, None);
            assert!(matches!(
                second.payload,
                EventPayload::ClientClosedByUser { initiated_at: 123 }
            ));
        }
        other => panic!("unexpected {other:?}"),
    }
    let (ends, nothing) = with_host(|_| None, |host| complete_client_close(host, None));
    assert!(!ends);
    assert!(nothing.is_empty());
}

fn snapshot() -> CapabilitySnapshot {
    CapabilitySnapshot {
        declared_namespaces: vec!["trade".to_string()],
        declared_ws_urls: vec![WsUrl::Public, WsUrl::Auth],
        discovered_at_first_use: Vec::new(),
    }
}

/// Runs `turns` one after the other; whether the last one ended the reactor comes
/// back beside the reactor and what was asked after its start.
fn turns(
    answer: impl Fn(&Request) -> Option<Reply>,
    turns: Vec<Turn>,
) -> ((Reactor, bool), Vec<Request>) {
    let (result, mut seen) = with_host(answer, |host| {
        let ready = ReadySignal { request_id: 12, capability_snapshot: snapshot() };
        let mut reactor = Reactor::start(host, ready, 600);
        reactor.table.sockets = Slots { public: Some(1), auth: Some(2) };
        let mut ends = false;
        for turn in turns {
            reactor.prepare(host);
            ends = reactor.step(host, turn);
        }
        (reactor, ends)
    });
    let after_start = seen
        .iter()
        .position(|r| matches!(r, Request::LivenessEpoch))
        .expect("the start reads the epoch");
    let seen = seen.split_off(after_start + 1);
    (result, seen)
}

#[test]
fn a_start_says_ready_before_anything_else() {
    let (reactor, seen) = with_host(
        |request| match request {
            Request::LivenessEpoch => Some(Reply::Count(9)),
            _ => None,
        },
        |host| {
            let ready = ReadySignal { request_id: 12, capability_snapshot: snapshot() };
            Reactor::start(host, ready, 600)
        },
    );
    assert!(matches!(
        seen[..],
        [
            Request::BusClock,
            Request::DeliverCorrelated(_),
            Request::Publish(_),
            Request::LivenessEpoch
        ]
    ));
    assert_eq!(reactor.epoch, 9);
    assert_eq!(reactor.token_refresh_period, 600);
    assert_eq!(reactor.pending, None);
    assert_eq!(reactor.table.sockets.get(WsUrl::Public), None);
    assert_eq!(reactor.table.sockets.get(WsUrl::Auth), None);
}

#[test]
fn hints_are_stored_once_for_each_epoch() {
    let epoch = Cell::new(0u64);
    let ((reactor, _), seen) = turns(
        |request| match request {
            Request::LivenessEpoch => {
                let now = epoch.get();
                epoch.set(1);
                Some(Reply::Count(now))
            }
            _ => None,
        },
        vec![
            Turn::Frame(WsUrl::Public, text_frame("no json")),
            Turn::Frame(WsUrl::Public, text_frame("no json")),
        ],
    );
    assert_eq!(reactor.epoch, 1);
    assert_eq!(made(&seen, |r| matches!(r, Request::LivenessEpoch)), 2);
    assert_eq!(made(&seen, |r| matches!(r, Request::StoreAuthHasSubscriptions(_))), 1);
}

#[test]
fn a_turn_acts_on_what_happened() {
    let ((reactor, ends), seen) =
        turns(|_| None, vec![Turn::Frame(WsUrl::Public, text_frame("no json"))]);
    assert!(!ends);
    assert!(sent(&seen).is_empty());
    assert_eq!(reactor.table.sockets.get(WsUrl::Public), Some(1));

    let (_, seen) = turns(
        |_| None,
        vec![Turn::Upgrade(UpgradeOutcome::Upgraded { url: WsUrl::Public, connection_id: 5 })],
    );
    assert!(driven(&seen).is_empty(), "a stale upgrade");
    let (_, seen) = turns(
        |_| None,
        vec![Turn::Upgrade(UpgradeOutcome::Upgraded { url: WsUrl::Public, connection_id: 1 })],
    );
    assert!(matches!(driven(&seen)[..], [FsmEvent::WireUpgradeOk { .. }]));
    let (_, seen) = turns(
        |_| None,
        vec![Turn::Upgrade(UpgradeOutcome::Failed {
            url: WsUrl::Public,
            kind: TransportErrorKind::TcpRefused,
            transient: true,
        })],
    );
    assert!(matches!(
        driven(&seen)[..],
        [FsmEvent::WireConnectError { kind: TransportErrorKind::TcpRefused, transient: true }]
    ));

    let (_, seen) = turns(|_| None, vec![Turn::Refresh { request_id: 4, result: Ok(()) }]);
    assert!(matches!(driven(&seen)[..], [FsmEvent::BusTokenRefreshed { request_id: 4 }]));

    let (_, seen) =
        turns(|_| None, vec![Turn::Timer(WsUrl::Auth, FsmEvent::TimerTokenRefreshDue)]);
    assert!(matches!(seen.last(), Some(Request::ArmTokenRefresh(WsUrl::Auth, 1_600))));
}

/// A close, and then `turns`, before which both connections are closed if `closed`.
fn closing(closed: bool, later: Vec<Turn>) -> ((Reactor, bool), Vec<Request>) {
    let prepared = Cell::new(0u32);
    let mut all =
        vec![Turn::Inbound(CallerInbound::ClientClose { request_id: 77, initiated_at: 123 })];
    all.extend(later);
    turns(
        |request| match request {
            Request::LivenessEpoch => {
                prepared.set(prepared.get() + 1);
                Some(Reply::Count(0))
            }
            Request::Conn(..) if closed && prepared.get() > 2 => {
                Some(Reply::Conn(Some(view(ConnectionState::Closed))))
            }
            _ => None,
        },
        all,
    )
}

#[test]
fn a_close_is_remembered_until_both_connections_are_closed() {
    let frame = || Turn::Frame(WsUrl::Public, text_frame("no json"));
    let ((reactor, ends), waiting) = closing(false, vec![frame()]);
    assert!(!ends);
    assert_eq!(reactor.pending, Some(PendingClose { request_id: 77, initiated_at: 123 }));
    assert!(published(&waiting).is_empty());
    let ((_, ends), over) = closing(true, vec![frame()]);
    assert!(ends);
    assert!(matches!(
        published(&over)[..],
        [EventPayload::ClientClosedByUser { initiated_at: 123 }]
    ));
}

#[test]
fn a_timer_of_the_reactors_own_leaves_the_close_to_the_next_turn() {
    let own = || Turn::Timer(WsUrl::Auth, FsmEvent::TimerTokenRefreshDue);
    let ((reactor, ends), waiting) = closing(true, vec![own()]);
    assert!(!ends);
    assert!(reactor.pending.is_some());
    assert!(published(&waiting).is_empty());
    let ((_, ends), _) =
        closing(true, vec![own(), Turn::Timer(WsUrl::Auth, FsmEvent::TimerBackoffElapsed)]);
    assert!(ends);
}

#[test]
fn a_frame_goes_to_the_socket_in_use() {
    let ((reactor, _), seen) = turns(
        |request| match request {
            Request::Conn(..) => Some(Reply::Conn(Some(view(ConnectionState::Idle)))),
            Request::Register(..) => Some(Reply::Count(1)),
            Request::HandleEvent(_, FsmEvent::CallStartConnect { .. }) => {
                let mut started = view(ConnectionState::Connecting);
                started.socket = Some(88);
                Some(Reply::View(started))
            }
            _ => None,
        },
        vec![Turn::Inbound(CallerInbound::RegistryMutation {
            url: WsUrl::Public,
            mutation: RegistryMutationOp::RegisterBatch {
                entries: vec![SubscriptionEntry {
                    key: key(ChannelName::Ticker, Some("BTC/USD")),
                    params: TICKER,
                }],
                ref_id: None,
            },
        })],
    );
    assert_eq!(reactor.table.sockets.get(WsUrl::Public), Some(88));
    let sockets: Vec<u64> = seen
        .iter()
        .filter_map(|r| match r {
            Request::SendFrame(WsUrl::Public, socket, _) => Some(*socket),
            _ => None,
        })
        .collect();
    assert_eq!(sockets, vec![88]);
}

#[test]
fn a_signed_subscribe_without_a_socket_is_warned_about() {
    let with_token = |request: &Request| match request {
        Request::CachedToken(..) => Some(Reply::Token(token("T"))),
        _ => None,
    };
    let (left, seen) = with_host(with_token, |host| {
        send_single_signed_subscribe(
            host,
            WsUrl::Auth,
            &key(ChannelName::Balances, None),
            SubscribeParams::Balances,
            &SocketTable::new(),
        )
    });
    assert_eq!(left, None);
    assert_eq!(
        warnings(&seen),
        vec!["Register-while-Open: socket not open; tokenized subscribe dropped"]
    );
    let (left, seen) = with_host(with_token, |host| {
        send_first_signed_subscribe(
            host,
            WsUrl::Auth,
            ConnectionState::Authenticating,
            &SocketTable::new(),
        )
    });
    assert_eq!(left, None);
    assert_eq!(
        warnings(&seen),
        vec!["Authenticating entry: socket missing; cannot send first signed subscribe"]
    );
    let (left, seen) = with_host(with_token, |host| {
        send_first_signed_subscribe(
            host,
            WsUrl::Auth,
            ConnectionState::Authenticating,
            &open_table(),
        )
    });
    assert_eq!(left, None);
    assert_eq!(
        warnings(&seen),
        vec!["Authenticating: no auth-URL entry to send as first signed subscribe (KeepaliveEntry is 3b)"]
    );
}

#[test]
fn an_order_without_a_token_or_a_writer_is_warned_about() {
    let without_token = order(
        Some(ConnectionState::Open),
        false,
        None,
        ADD_ORDER,
        "{}",
        open_table(),
        SendResult::Sent,
    );
    assert_eq!(
        warnings(&without_token),
        vec!["WsRequestFrame on Open auth conn but no valid cached token; force_refresh for NEXT order, rejecting THIS one retryable (NOT deferred — double-fill risk)"]
    );
    assert_eq!(
        made(&without_token, |r| matches!(r, Request::HasUrlEntry(..))),
        0,
        "an open connection takes any request"
    );
    for (table, result) in [
        (open_table(), SendResult::WriterClosed),
        (open_table(), SendResult::Backpressure),
        (SocketTable::new(), SendResult::Sent),
    ] {
        let unsent = order(
            Some(ConnectionState::Open),
            false,
            token("T"),
            ADD_ORDER,
            "{}",
            table,
            result,
        );
        assert_eq!(
            warnings(&unsent),
            vec!["WsRequestFrame send failed; failing the recorded pending immediately"]
        );
    }
}

#[test]
fn an_event_for_a_missing_connection_is_an_error() {
    let mut table = open_table();
    let (_, seen) = with_host(
        |request| match request {
            Request::Conn(..) => Some(Reply::Conn(None)),
            _ => None,
        },
        |host| {
            handle_inbound(
                host,
                CallerInbound::FsmEvent {
                    url: WsUrl::Auth,
                    event: CallerEvent::StartConnect { request_id: 1 },
                },
                &mut table,
            )
        },
    );
    assert!(matches!(
        seen[..],
        [
            Request::Conn(WsUrl::Auth),
            Request::Say(Note::NoConnection { url: WsUrl::Auth })
        ]
    ));
}

#[test]
fn the_end_of_a_socket_is_logged_by_its_kind() {
    let (_, closed) = deliver(
        Err(TransportError {
            kind: TransportErrorKind::CloseFrame {
                code: 1000,
                reason: "bye".to_string(),
            },
            transient: false,
        }),
        view(ConnectionState::Closed),
        |_| None,
    );
    match &closed[0] {
        Request::Say(note @ Note::SocketClosed { url: WsUrl::Public, code: 1000, reason }) => {
            assert_eq!(reason.as_str(), "bye");
            assert_eq!(note.level(), Level::Info);
            assert_eq!(note.message(), "socket closed; driving FSM");
        }
        other => panic!("unexpected {other:?}"),
    }
    let (_, broken) = deliver(
        Err(TransportError { kind: TransportErrorKind::TcpRefused, transient: true }),
        view(ConnectionState::BackingOff),
        |_| None,
    );
    assert!(matches!(
        broken[0],
        Request::Say(Note::ReceiveFailed {
            url: WsUrl::Public,
            error: TransportError { kind: TransportErrorKind::TcpRefused, transient: true },
        })
    ));
}

#[test]
fn gaps_are_warned_about() {
    let gap = book_row(BookDriveOutcome::Gap { expected: 1, computed: 2 }, vec![1], vec![]);
    assert_eq!(
        warnings(&gap),
        vec!["order-book CRC32 mismatch; emitting gap + scheduling resubscribe-reseed"]
    );
    let exhausted = book_row(BookDriveOutcome::GapBudgetExhausted, vec![1], vec![]);
    assert_eq!(
        warnings(&exhausted),
        vec!["order-book CRC32 gap budget exhausted; maintenance dropped — on_book degraded to per-frame (un-validated)"]
    );
    let sequence = Sequence { last: Cell::new(None) };
    let frame = |seq: u64| {
        parse(&format!(
            r#"{{"channel":"balances","type":"update","sequence":{seq},"data":[]}}"#
        ))
    };
    assert!(warnings(&route_seq_frames(&[frame(1), frame(2)], &sequence)).is_empty());
    assert_eq!(
        warnings(&route_seq_frames(&[frame(9)], &sequence)),
        vec!["sequence gap on account channel; frames lost mid-connection"]
    );
}

#[test]
fn an_unsubscribe_that_is_not_taken_is_warned_about() {
    let mut table = open_table();
    let (_, seen) = with_host(
        |request| match request {
            Request::ParamsFor(..) => Some(Reply::Params(Some(TICKER))),
            Request::SendFrame(..) => Some(Reply::Send(SendResult::Backpressure)),
            _ => None,
        },
        |host| {
            handle_inbound(
                host,
                CallerInbound::RegistryMutation {
                    url: WsUrl::Public,
                    mutation: RegistryMutationOp::Deregister {
                        channel: ChannelName::Ticker,
                        pair: Some(sym("BTC/USD")),
                    },
                },
                &mut table,
            )
        },
    );
    assert_eq!(
        warnings(&seen),
        vec!["unsubscribe frame send failed on refcount-0 teardown (queue full or closed)"]
    );
    assert_eq!(published(&seen).len(), 1, "the end is announced all the same");
    let (_, reseed) = with_host(
        |request| match request {
            Request::ParamsFor(..) => Some(Reply::Params(Some(BOOK_D10))),
            Request::SendFrame(..) => Some(Reply::Send(SendResult::Backpressure)),
            _ => None,
        },
        |host| recover_book_gap(host, WsUrl::Public, &sym("BTC/USD"), &open_table()),
    );
    assert_eq!(
        warnings(&reseed)[0],
        "order-book gap-reseed unsubscribe send failed (queue full or closed); resubscribe still attempts"
    );
    assert_eq!(sent(&reseed).len(), 2);
}

#[test]
fn one_key_is_subscribed_once_until_it_is_revived() {
    let mut table = open_table();
    let count = Cell::new(0u64);
    let register_once = |table: &mut SocketTable| {
        let (_, seen) = with_host(
            |request| match request {
                Request::Register(..) => {
                    count.set(count.get() + 1);
                    Some(Reply::Count(count.get()))
                }
                _ => None,
            },
            |host| {
                register_one_and_emit(
                    host,
                    WsUrl::Public,
                    SubscriptionEntry {
                        key: key(ChannelName::Ticker, Some("BTC/USD")),
                        params: TICKER,
                    },
                    None,
                    table,
                )
            },
        );
        (sent(&seen).len(), made(&seen, |r| matches!(r, Request::ArmSubscribeAck(..))))
    };
    assert_eq!(register_once(&mut table), (1, 1));
    assert_eq!(register_once(&mut table), (0, 0));
    assert_eq!(register_once(&mut table), (0, 0));
    count.set(0);
    assert_eq!(register_once(&mut table), (1, 1), "a subscription that had ended");
}

#[test]
fn a_row_without_a_token_starts_one_refresh() {
    let awaiting = Cell::new(false);
    let (_, seen) = with_host(
        |request| match request {
            Request::IsAwaitingTokenRefresh(..) => Some(Reply::Flag(awaiting.get())),
            Request::SetAwaitingTokenRefresh(_, flag) => {
                awaiting.set(*flag);
                None
            }
            _ => None,
        },
        |host| {
            for (channel, params) in [
                (ChannelName::Balances, SubscribeParams::Balances),
                (ChannelName::Executions, SubscribeParams::Executions),
            ] {
                let _ = send_single_signed_subscribe(
                    host,
                    WsUrl::Auth,
                    &key(channel, None),
                    params,
                    &open_table(),
                );
            }
        },
    );
    assert!(sent(&seen).is_empty());
    let deferred: Vec<ChannelName> = seen
        .iter()
        .filter_map(|r| match r {
            Request::DeferAuthSubscribe(WsUrl::Auth, k, _) => Some(k.channel),
            _ => None,
        })
        .collect();
    assert_eq!(deferred, vec![ChannelName::Balances, ChannelName::Executions]);
    assert_eq!(made(&seen, |r| matches!(r, Request::ForceRefresh)), 1);
    assert!(awaiting.get());
}

#[test]
fn the_drops_of_two_channels_are_counted_apart() {
    let clock = Cell::new(0u64);
    let mut tracker = DropTracker::new();
    let mut drop_one = |channel: ChannelName, now: u64| {
        clock.set(now);
        let (_, seen) = with_host(
            |request| match request {
                Request::BusClock => {
                    Some(Reply::Clock(BusClock { bus_alive: true, now: clock.get() }))
                }
                _ => None,
            },
            |host| record_drop_and_maybe_emit(host, channel, &mut tracker),
        );
        published(&seen).iter().find_map(|e| match e {
            EventPayload::MessageDroppedNoHandler { channel: of, count, .. } => {
                assert_eq!(*of, channel);
                Some(*count)
            }
            _ => None,
        })
    };
    assert_eq!(drop_one(ChannelName::Trade, 0), Some(1));
    assert_eq!(drop_one(ChannelName::Ticker, 10), Some(1));
    assert_eq!(drop_one(ChannelName::Trade, 20), None);
    assert_eq!(drop_one(ChannelName::Ticker, 30), None);
    assert_eq!(drop_one(ChannelName::Trade, MESSAGE_DROPPED_PERIOD), Some(2));
    assert_eq!(drop_one(ChannelName::Ticker, MESSAGE_DROPPED_PERIOD), None);
    assert_eq!(drop_one(ChannelName::Ticker, MESSAGE_DROPPED_PERIOD + 10), Some(3));
}

#[test]
fn the_hints_never_both_hold() {
    for (state, registered) in [
        (ConnectionState::Authenticating, true),
        (ConnectionState::Authenticating, false),
        (ConnectionState::Open, true),
        (ConnectionState::Open, false),
    ] {
        let (_, seen) = with_host(
            |request| match request {
                Request::Conn(..) => Some(Reply::Conn(Some(view(state)))),
                Request::HasUrlEntry(..) => Some(Reply::Flag(registered)),
                Request::CachedToken(..) => Some(Reply::Token(token("T"))),
                _ => None,
            },
            |host| refresh_auth_send_ready_hint(host),
        );
        let ready = state == ConnectionState::Authenticating && !registered;
        assert_eq!(
            made(&seen, |r| matches!(r, Request::StoreAuthHasSubscriptions(f) if *f == registered)),
            1
        );
        assert_eq!(
            made(&seen, |r| matches!(r, Request::StoreAuthSendReady(f) if *f == ready)),
            1
        );
    }
}

#[test]
fn a_line_carries_its_values() {
    let gap = book_row(BookDriveOutcome::Gap { expected: 1, computed: 2 }, vec![1], vec![]);
    match notes(&gap)[..] {
        [Note::BookMismatch { symbol, expected: 1, computed: 2 }] => {
            assert_eq!(symbol.name, "BTC/USD");
        }
        ref other => panic!("unexpected {other:?}"),
    }
    let sequence = Sequence { last: Cell::new(Some(3)) };
    let lost = route_seq_frames(
        &[parse(r#"{"channel":"executions","type":"update","sequence":7,"data":[]}"#)],
        &sequence,
    );
    assert!(matches!(
        notes(&lost)[..],
        [Note::SequenceGap { channel: ChannelName::Executions, seq: 7, dropped: 3 }]
    ));
    let (_, unknown) = with_host(
        |_| None,
        |host| classify_order_ack_warned(host, false, Some("totally novel rejection text")),
    );
    match notes(&unknown)[..] {
        [Note::OrderErrorUnknown { error: Some(error) }] => {
            assert_eq!(error.as_str(), "totally novel rejection text");
        }
        ref other => panic!("unexpected {other:?}"),
    }
    for (table, result, cause) in [
        (open_table(), SendResult::WriterClosed, "WriterClosed"),
        (open_table(), SendResult::Backpressure, "Backpressure"),
        (SocketTable::new(), SendResult::Sent, "auth socket missing"),
    ] {
        let unsent = order(
            Some(ConnectionState::Open),
            false,
            token("T"),
            ADD_ORDER,
            "{}",
            table,
            result,
        );
        match notes(&unsent)[..] {
            [Note::OrderUnsent { req_id: 99, op: ADD_ORDER, error }] => assert_eq!(*error, cause),
            ref other => panic!("unexpected {other:?}"),
        }
    }
    let (_, no_id) = with_host(
        |_| None,
        |host| {
            handle_request_response(
                host,
                WsUrl::Auth,
                &parse(r#"{"method":"add_order","req_id":12}"#),
                &mut SuppressWarnTracker::new(),
                &SocketTable::new(),
            )
        },
    );
    assert!(matches!(
        notes(&no_id)[0],
        Note::ResponseWithoutSuccess { url: WsUrl::Auth, req_id: 12 }
    ));
}

#[test]
fn data_of_an_unknown_channel_is_noted_and_passed_over() {
    let route = |text: &str| {
        let (gaps, seen) = with_host(
            |_| None,
            |host| {
                route_text_frame(
                    host,
                    &parse(text),
                    &mut DropTracker::new(),
                    &mut SuppressWarnTracker::new(),
                )
            },
        );
        assert!(gaps.is_empty());
        seen
    };
    match &route(r#"{"channel":"level3","type":"snapshot","data":[{}]}"#)[..] {
        [Request::Say(note @ Note::UnknownChannel { channel, is_snapshot: true })] => {
            assert_eq!(channel.as_str(), "level3");
            assert_eq!(note.level(), Level::Debug);
        }
        other => panic!("unexpected {other:?}"),
    }
    assert!(route(r#"{"channel":"heartbeat"}"#).is_empty());
    assert!(route(r#"{"type":"update","data":[]}"#).is_empty());
}

#[test]
fn a_resend_says_what_became_of_it() {
    let resend = |url: WsUrl, registered: bool, cached: bool, table: SocketTable| {
        let (_, seen) = with_host(
            |request| match request {
                Request::ParamsFor(..) => Some(Reply::Params(registered.then_some(TICKER))),
                Request::CachedToken(..) if cached => Some(Reply::Token(token("T"))),
                _ => None,
            },
            |host| {
                handle_subscribe_resend(
                    host,
                    url,
                    &key(ChannelName::Ticker, Some("BTC/USD")),
                    &table,
                )
            },
        );
        seen
    };
    let gone = resend(WsUrl::Public, false, false, open_table());
    assert!(matches!(notes(&gone)[..], [Note::ResendGone { url: WsUrl::Public, .. }]));
    let tokenless = resend(WsUrl::Auth, true, false, open_table());
    assert!(matches!(
        notes(&tokenless)[..],
        [Note::ResendWithoutToken { url: WsUrl::Auth, .. }]
    ));
    let socketless = resend(WsUrl::Public, true, false, SocketTable::new());
    assert!(matches!(
        notes(&socketless)[..],
        [Note::ResendWithoutSocket { url: WsUrl::Public, .. }]
    ));
    let resent = resend(WsUrl::Auth, true, true, open_table());
    assert!(matches!(resent.last(), Some(Request::Say(Note::Resent { url: WsUrl::Auth, .. }))));
    assert_eq!(notes(&resent)[0].level(), Level::Debug);
}

#[test]
fn a_missing_token_is_noted_once_the_refresh_is_on_its_way() {
    let (_, first) = with_host(
        |_| None,
        |host| {
            send_first_signed_subscribe(
                host,
                WsUrl::Auth,
                ConnectionState::Authenticating,
                &open_table(),
            )
        },
    );
    assert!(matches!(
        first[first.len() - 2..],
        [
            Request::ForceRefresh,
            Request::Say(Note::FirstSignedWithoutToken { url: WsUrl::Auth })
        ]
    ));
    for awaiting in [false, true] {
        let (_, seen) = with_host(
            |request| match request {
                Request::IsAwaitingTokenRefresh(..) => Some(Reply::Flag(awaiting)),
                _ => None,
            },
            |host| {
                send_single_signed_subscribe(
                    host,
                    WsUrl::Auth,
                    &key(ChannelName::Balances, None),
                    SubscribeParams::Balances,
                    &open_table(),
                )
            },
        );
        match notes(&seen)[..] {
            [Note::SignedDeferred { .. }] => assert!(!awaiting),
            [Note::SignedDeferredToo { .. }] => assert!(awaiting),
            ref other => panic!("unexpected {other:?}"),
        }
    }
}

#[test]
fn stale_upgrades_and_client_closes_are_noted() {
    let mut table = open_table();
    let (_, stale) = with_host(
        |_| None,
        |host| on_upgrade_ok(host, WsUrl::Public, 77, &mut table),
    );
    assert!(matches!(
        stale[..],
        [Request::Say(Note::StaleUpgrade { url: WsUrl::Public, connection_id: 77 })]
    ));
    let (_, closing) = with_host(
        |_| None,
        |host| {
            on_inbound(
                host,
                CallerInbound::ClientClose { request_id: 8, initiated_at: 4 },
                None,
                &mut table,
            )
        },
    );
    assert!(matches!(
        closing.last(),
        Some(Request::Say(Note::CloseFanned { request_id: 8 }))
    ));
}
