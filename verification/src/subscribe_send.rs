//! Sending subscribe frames: signed and public ones, the registration of a
//! subscription, and the resend of one that was not taken or not acknowledged.

use crate::frames::{
    build_subscribe_frame, inject_token, stamp_req_id, stamped, subscription_json, tokened,
    SubscriptionMethod,
};
use crate::host::{
    asked, each_obeys, each_obeys_together, extends, grew_without, grew_without_together, happened,
    happened_once, happened_together, last_set, last_set_at, last_set_stays, last_told, made,
    nothing_happened, nothing_picked, picked, picked_together, picking, said, showing,
    shows_together, shows_what_is, told, BusClock, CachedToken, ConnView, Effect, Flag, Link, Log,
    Reply, Request, CLOCK_LIMIT,
};
use crate::json;
use crate::json::{json_of, json_text, Json};
use crate::notes::Note;
use crate::send_ready::{
    is_token_valid, only_a_ready_connection_is_announced, refresh_send_ready,
    refresh_send_ready_log, the_flag_says_whether_an_order_may_be_sent, token_valid, SendReadyReads,
};
use crate::socket_lifecycle::{
    project_log, project_socket_and_wire_bridge, projected, sends_in_use, sends_in_use_together,
    write_mirror, SocketTable,
};
use crate::types::{
    ConnectionState, FsmEvent, Key, SendResult, SubscribeParams, SubscriptionEntry, Text,
    TransportError, TransportErrorKind, WsUrl,
};
use serde_json::Value;
use vstd::prelude::*;

verus! {

/// The time allowed for a subscribe acknowledgement where no bus says otherwise.
pub const DEFAULT_ACK_TIMEOUT_MS: u32 = 5_000;

/// The instant `millis` after `now`, where `now` is within the range of the clock.
pub open spec fn ack_due(now: u64, millis: Option<u32>) -> u64 {
    (now + (match millis {
        Some(millis) => millis,
        None => DEFAULT_ACK_TIMEOUT_MS,
    }) * 1_000_000) as u64
}

/// The instant at which an acknowledgement is overdue.
pub fn ack_due_at(now: u64, millis: Option<u32>) -> (due: u64)
    requires
        now < CLOCK_LIMIT,
    ensures
        due == ack_due(now, millis),
        due as int == now + (match millis {
            Some(millis) => millis as int,
            None => 5_000,
        }) * 1_000_000,
{
    let millis: u32 = match millis {
        Some(millis) => millis,
        None => DEFAULT_ACK_TIMEOUT_MS,
    };
    now + (millis as u64) * 1_000_000
}

pub open spec fn arm_log(
    log: Log,
    url: WsUrl,
    key: Key,
    req_id: u64,
    millis: Option<u32>,
    now: u64,
) -> Log {
    let log = asked(log, Request::SubscribeAckTimeoutMs, Reply::Millis(millis));
    let log = asked(log, Request::ConnClock(url), Reply::Instant(now));
    let log = told(log, Request::RecordSubscribeReqId(url, req_id, key));
    told(log, Request::ArmSubscribeAck(url, key, ack_due(now, millis)))
}

/// Arms the acknowledgement timer of `key`, and records which request id stands
/// for it, so that a rejection that names no channel finds its way back.
pub fn arm_subscribe_ack_timer_with_req_id<F: Fn(Request) -> Reply>(
    host: &mut Link<F>,
    url: WsUrl,
    key: &Key,
    req_id: u64,
)
    ensures
        exists|millis: Option<u32>, now: u64|
            {
                &&& final(host).log() == #[trigger] arm_log(
                    old(host).log(),
                    url,
                    *key,
                    req_id,
                    millis,
                    now,
                )
                &&& now < CLOCK_LIMIT
            },
{
    let ghost before = host.log();
    let millis = host.millis();
    let now: u64 = host.conn_clock(url);
    let due: u64 = ack_due_at(now, millis);
    host.tell(Request::RecordSubscribeReqId(url, req_id, key.clone()));
    host.tell(Request::ArmSubscribeAck(url, key.clone(), due));
    proof {
        assert(host.log() == arm_log(before, url, *key, req_id, millis, now));
    }
}

/// The event of a socket whose writer has ended.
pub open spec fn writer_closed_event(context: &'static str) -> FsmEvent {
    FsmEvent::WireAbnormalClose {
        error: TransportError {
            kind: TransportErrorKind::AbnormalClose { context: Text::Fixed(context) },
            transient: true,
        },
    }
}

/// Drives a transient abnormal close into the connection, whose writer turned out
/// to have ended.
pub fn drive_writer_closed_abnormal<F: Fn(Request) -> Reply>(
    host: &mut Link<F>,
    url: WsUrl,
    context: &'static str,
) -> (conn: ConnView)
    ensures
        final(host).log() == asked(
            old(host).log(),
            Request::HandleEvent(url, writer_closed_event(context)),
            Reply::View(conn),
        ),
{
    host.view(
        Request::HandleEvent(
            url,
            FsmEvent::WireAbnormalClose {
                error: TransportError {
                    kind: TransportErrorKind::AbnormalClose { context: Text::Fixed(context) },
                    transient: true,
                },
            },
        ),
    )
}

/// What became of one subscribe frame; a failure comes with the connection as it
/// left it.
#[derive(Clone, Copy, PartialEq, Eq, Structural, Debug)]
pub enum SendOutcome {
    Sent,
    Backpressured(ConnView),
    WriterDead(ConnView),
}

/// The paths on which subscribe frames are sent.
#[derive(Clone, Copy, PartialEq, Eq, Structural, Debug)]
pub enum SubscribeSend {
    Resend,
    FirstSigned,
    RemainingSigned,
    RegisterPublic,
    RegisterWhileOpenAuth,
    ResubscribeReplay,
}

impl SubscribeSend {
    pub open spec fn backpressure_msg_spec(self) -> &'static str {
        match self {
            SubscribeSend::Resend =>
                "resend: still backpressure; decrementing budget via handle_subscribe_failure",
            SubscribeSend::FirstSigned =>
                "first signed subscribe send failed (backpressure); handle_subscribe_failure",
            SubscribeSend::RemainingSigned =>
                "remaining signed subscribe send failed (backpressure); handle_subscribe_failure",
            SubscribeSend::RegisterPublic =>
                "Register: wire subscribe send failed (backpressure); handle_subscribe_failure",
            SubscribeSend::RegisterWhileOpenAuth =>
                "Register-while-Open: tokenized subscribe send failed (backpressure); handle_subscribe_failure",
            SubscribeSend::ResubscribeReplay =>
                "resubscribe-replay send failed (backpressure); handle_subscribe_failure",
        }
    }

    /// The warning for a frame that found the queue full.
    pub fn backpressure_msg(self) -> (msg: &'static str)
        ensures
            msg == self.backpressure_msg_spec(),
    {
        match self {
            SubscribeSend::Resend =>
                "resend: still backpressure; decrementing budget via handle_subscribe_failure",
            SubscribeSend::FirstSigned =>
                "first signed subscribe send failed (backpressure); handle_subscribe_failure",
            SubscribeSend::RemainingSigned =>
                "remaining signed subscribe send failed (backpressure); handle_subscribe_failure",
            SubscribeSend::RegisterPublic =>
                "Register: wire subscribe send failed (backpressure); handle_subscribe_failure",
            SubscribeSend::RegisterWhileOpenAuth =>
                "Register-while-Open: tokenized subscribe send failed (backpressure); handle_subscribe_failure",
            SubscribeSend::ResubscribeReplay =>
                "resubscribe-replay send failed (backpressure); handle_subscribe_failure",
        }
    }

    pub open spec fn writer_closed_msg_spec(self) -> &'static str {
        match self {
            SubscribeSend::Resend => "resend: writer closed; synthesising WireAbnormalClose",
            SubscribeSend::FirstSigned =>
                "first signed subscribe send failed (writer closed); synthesising WireAbnormalClose",
            SubscribeSend::RemainingSigned =>
                "remaining signed subscribe send failed (writer closed); synthesising WireAbnormalClose",
            SubscribeSend::RegisterPublic =>
                "Register: wire subscribe send failed (writer closed); synthesising WireAbnormalClose",
            SubscribeSend::RegisterWhileOpenAuth =>
                "Register-while-Open: tokenized subscribe send failed (writer closed); synthesising WireAbnormalClose",
            SubscribeSend::ResubscribeReplay =>
                "resubscribe-replay send failed (writer closed); synthesising WireAbnormalClose",
        }
    }

    /// The warning for a frame that found the writer gone.
    pub fn writer_closed_msg(self) -> (msg: &'static str)
        ensures
            msg == self.writer_closed_msg_spec(),
    {
        match self {
            SubscribeSend::Resend => "resend: writer closed; synthesising WireAbnormalClose",
            SubscribeSend::FirstSigned =>
                "first signed subscribe send failed (writer closed); synthesising WireAbnormalClose",
            SubscribeSend::RemainingSigned =>
                "remaining signed subscribe send failed (writer closed); synthesising WireAbnormalClose",
            SubscribeSend::RegisterPublic =>
                "Register: wire subscribe send failed (writer closed); synthesising WireAbnormalClose",
            SubscribeSend::RegisterWhileOpenAuth =>
                "Register-while-Open: tokenized subscribe send failed (writer closed); synthesising WireAbnormalClose",
            SubscribeSend::ResubscribeReplay =>
                "resubscribe-replay send failed (writer closed); synthesising WireAbnormalClose",
        }
    }

    pub open spec fn writer_closed_context_spec(self) -> &'static str {
        match self {
            SubscribeSend::Resend =>
                "outbound writer task terminated (discovered on subscribe resend)",
            SubscribeSend::FirstSigned =>
                "outbound writer task terminated (first signed subscribe)",
            SubscribeSend::RemainingSigned =>
                "outbound writer task terminated (remaining signed subscribes)",
            SubscribeSend::RegisterPublic =>
                "outbound writer task terminated (Register public subscribe)",
            SubscribeSend::RegisterWhileOpenAuth =>
                "outbound writer task terminated (Register-while-Open auth subscribe)",
            SubscribeSend::ResubscribeReplay =>
                "outbound writer task terminated (resubscribe replay)",
        }
    }

    /// The context of the close that a dead writer is turned into.
    pub fn writer_closed_context(self) -> (context: &'static str)
        ensures
            context == self.writer_closed_context_spec(),
    {
        match self {
            SubscribeSend::Resend =>
                "outbound writer task terminated (discovered on subscribe resend)",
            SubscribeSend::FirstSigned =>
                "outbound writer task terminated (first signed subscribe)",
            SubscribeSend::RemainingSigned =>
                "outbound writer task terminated (remaining signed subscribes)",
            SubscribeSend::RegisterPublic =>
                "outbound writer task terminated (Register public subscribe)",
            SubscribeSend::RegisterWhileOpenAuth =>
                "outbound writer task terminated (Register-while-Open auth subscribe)",
            SubscribeSend::ResubscribeReplay =>
                "outbound writer task terminated (resubscribe replay)",
        }
    }
}

pub open spec fn send_frame_log(
    log: Log,
    url: WsUrl,
    socket: u64,
    text: String,
    key: Key,
    send: SubscribeSend,
    outcome: SendOutcome,
) -> Log {
    let frame = Request::SendFrame(url, socket, text);
    match outcome {
        SendOutcome::Sent => asked(log, frame, Reply::Send(SendResult::Sent)),
        SendOutcome::Backpressured(conn) => {
            let log = asked(log, frame, Reply::Send(SendResult::Backpressure));
            let log = said(log, Note::SubscribeBackpressured { url, key, send });
            asked(log, Request::SubscribeFailure(url, key), Reply::View(conn))
        },
        SendOutcome::WriterDead(conn) => {
            let log = asked(log, frame, Reply::Send(SendResult::WriterClosed));
            let log = said(log, Note::SubscribeWriterClosed { url, key, send });
            asked(
                log,
                Request::HandleEvent(
                    url,
                    writer_closed_event(send.writer_closed_context_spec()),
                ),
                Reply::View(conn),
            )
        },
    }
}

/// Sends one composed subscribe frame. A full queue counts against the budget of
/// the subscription; a dead writer takes the connection down.
pub fn send_subscribe_frame<F: Fn(Request) -> Reply>(
    host: &mut Link<F>,
    url: WsUrl,
    socket: u64,
    text: String,
    key: &Key,
    send: SubscribeSend,
) -> (outcome: SendOutcome)
    ensures
        final(host).log() == send_frame_log(
            old(host).log(),
            url,
            socket,
            text,
            *key,
            send,
            outcome,
        ),
{
    match host.send(url, socket, text) {
        SendResult::Sent => SendOutcome::Sent,
        SendResult::Backpressure => {
            host.say(Note::SubscribeBackpressured { url, key: key.clone(), send });
            let conn = host.view(Request::SubscribeFailure(url, key.clone()));
            SendOutcome::Backpressured(conn)
        },
        SendResult::WriterClosed => {
            host.say(Note::SubscribeWriterClosed { url, key: key.clone(), send });
            let conn = drive_writer_closed_abnormal(host, url, send.writer_closed_context());
            SendOutcome::WriterDead(conn)
        },
    }
}

/// What one subscribe frame met on its way.
pub struct IssueAnswers {
    pub req_id: u64,
    pub text: String,
    pub outcome: SendOutcome,
    pub millis: Option<u32>,
    pub now: u64,
}

impl IssueAnswers {
    /// Whether the clock was within its range when it was read.
    pub open spec fn clocked(self) -> bool {
        self.outcome is Sent ==> self.now < CLOCK_LIMIT
    }
}

pub open spec fn issue_log(
    log: Log,
    url: WsUrl,
    socket: u64,
    key: Key,
    send: SubscribeSend,
    a: IssueAnswers,
) -> Log {
    let log = asked(log, Request::NextSubscribeReqId(url), Reply::Count(a.req_id));
    let log = send_frame_log(log, url, socket, a.text, key, send, a.outcome);
    if a.outcome is Sent {
        arm_log(log, url, key, a.req_id, a.millis, a.now)
    } else {
        log
    }
}

/// Sends `frame` under a fresh request id, and waits for its acknowledgement only
/// if it was taken.
fn issue_frame<F: Fn(Request) -> Reply>(
    host: &mut Link<F>,
    url: WsUrl,
    socket: u64,
    key: &Key,
    frame: Value,
    send: SubscribeSend,
) -> (outcome: SendOutcome)
    ensures
        exists|a: IssueAnswers|
            {
                &&& final(host).log() == #[trigger] issue_log(
                    old(host).log(),
                    url,
                    socket,
                    *key,
                    send,
                    a,
                )
                &&& a.clocked() && a.text@ == json_text(stamped(json_of(frame), a.req_id))
                &&& a.outcome == outcome
            },
{
    let ghost before = host.log();
    let req_id: u64 = host.count(Request::NextSubscribeReqId(url));
    let stamped_frame = stamp_req_id(frame, req_id);
    let text = json::text_of(&stamped_frame);
    let ghost frame_text = text;
    let outcome = send_subscribe_frame(host, url, socket, text, key, send);
    let ghost sent = host.log();
    match outcome {
        SendOutcome::Sent => {
            arm_subscribe_ack_timer_with_req_id(host, url, key, req_id);
            proof {
                let (millis, now) = choose|millis: Option<u32>, now: u64|
                    {
                        &&& host.log() == #[trigger] arm_log(
                            sent,
                            url,
                            *key,
                            req_id,
                            millis,
                            now,
                        )
                        &&& now < CLOCK_LIMIT
                    };
                let a = IssueAnswers { req_id, text: frame_text, outcome, millis, now };
                assert(host.log() == issue_log(before, url, socket, *key, send, a));
            }
        },
        _ => {
            proof {
                let a = IssueAnswers { req_id, text: frame_text, outcome, millis: None, now: 0 };
                assert(host.log() == issue_log(before, url, socket, *key, send, a));
            }
        },
    }
    outcome
}

/// The subscribe frame for `key`, with the token if there is one.
pub open spec fn subscribe_json(
    key: Key,
    params: SubscribeParams,
    token: Option<Seq<char>>,
    req_id: u64,
) -> Json {
    let frame = subscription_json(SubscriptionMethod::Subscribe, key, params, req_id);
    match token {
        Some(token) => tokened(frame, token),
        None => frame,
    }
}

/// Stamping a composed subscribe frame gives the frame composed under that id.
proof fn stamped_subscribe_json(
    key: Key,
    params: SubscribeParams,
    token: Option<Seq<char>>,
    req_id: u64,
)
    ensures
        stamped(subscribe_json(key, params, token, 0), req_id) == subscribe_json(
            key,
            params,
            token,
            req_id,
        ),
{
    reveal_strlit("method");
    reveal_strlit("params");
    reveal_strlit("req_id");
    assert("params"@.len() != "method"@.len() || "params"@[0] != "method"@[0]);
    assert("params"@[0] != "req_id"@[0]);
    assert("method"@[0] != "req_id"@[0]);
    let a = stamped(subscribe_json(key, params, token, 0), req_id)->Object_0;
    let b = subscribe_json(key, params, token, req_id)->Object_0;
    assert(a =~= b);
}

/// Composes and sends the subscribe for `key`.
fn issue_subscribe<F: Fn(Request) -> Reply>(
    host: &mut Link<F>,
    url: WsUrl,
    socket: u64,
    key: &Key,
    params: &SubscribeParams,
    token: Option<&str>,
    send: SubscribeSend,
) -> (outcome: SendOutcome)
    ensures
        exists|a: IssueAnswers|
            {
                &&& final(host).log() == #[trigger] issue_log(
                    old(host).log(),
                    url,
                    socket,
                    *key,
                    send,
                    a,
                )
                &&& a.clocked() && a.text@ == json_text(
                    subscribe_json(
                        *key,
                        *params,
                        match token {
                            Some(token) => Some(token@),
                            None => None,
                        },
                        a.req_id,
                    ),
                )
                &&& a.outcome == outcome
            },
{
    let frame = build_subscribe_frame(SubscriptionMethod::Subscribe, key, params, 0);
    let frame = match token {
        Some(token) => inject_token(frame, token),
        None => frame,
    };
    let ghost before = host.log();
    let outcome = issue_frame(host, url, socket, key, frame, send);
    proof {
        let a = choose|a: IssueAnswers|
            {
                &&& host.log() == #[trigger] issue_log(before, url, socket, *key, send, a)
                &&& a.clocked() && a.text@ == json_text(stamped(json_of(frame), a.req_id))
                &&& a.outcome == outcome
            };
        let token_view = match token {
            Some(token) => Some(token@),
            None => None,
        };
        stamped_subscribe_json(*key, *params, token_view, a.req_id);
    }
    outcome
}

/// The requests that start a token refresh, unless one is on its way.
pub open spec fn single_flight_refresh_log(log: Log, url: WsUrl, awaiting: bool) -> Log {
    let log = asked(log, Request::IsAwaitingTokenRefresh(url), Reply::Flag(awaiting));
    if awaiting {
        log
    } else {
        told(told(log, Request::SetAwaitingTokenRefresh(url, true)), Request::ForceRefresh)
    }
}

/// Starts a token refresh, unless one is on its way; `true` if one was.
pub fn single_flight_refresh<F: Fn(Request) -> Reply>(host: &mut Link<F>, url: WsUrl) -> (awaiting:
    bool)
    ensures
        final(host).log() == single_flight_refresh_log(old(host).log(), url, awaiting),
{
    let awaiting = host.flag(Request::IsAwaitingTokenRefresh(url));
    if !awaiting {
        host.tell(Request::SetAwaitingTokenRefresh(url, true));
        host.tell(Request::ForceRefresh);
    }
    awaiting
}

/// What a resend met.
pub struct ResendAnswers {
    pub params: Option<SubscribeParams>,
    pub now: u64,
    pub token: Option<CachedToken>,
    pub completed: ConnView,
    pub awaiting: bool,
    pub issue: IssueAnswers,
}

/// The token that goes into a frame: only the auth connection has one.
pub open spec fn frame_token(url: WsUrl, token: Option<CachedToken>) -> Option<Seq<char>> {
    if url == WsUrl::Auth && token is Some {
        Some(token->Some_0.value@)
    } else {
        None
    }
}

pub open spec fn resend_log(
    log: Log,
    url: WsUrl,
    key: Key,
    table: SocketTable,
    a: ResendAnswers,
) -> Log {
    let log = asked(log, Request::ParamsFor(key), Reply::Params(a.params));
    if a.params is None {
        said(log, Note::ResendGone { url, key })
    } else {
        let log = if url == WsUrl::Auth {
            let log = asked(log, Request::ConnClock(url), Reply::Instant(a.now));
            asked(log, Request::CachedToken(Some(a.now)), Reply::Token(a.token))
        } else {
            log
        };
        if url == WsUrl::Auth && !token_valid(a.token) {
            let log = said(log, Note::ResendWithoutToken { url, key });
            let log = told(log, Request::DeferAuthSubscribe(url, key, a.params->Some_0));
            let log = asked(
                log,
                Request::CompleteResubscribeIfEmpty(url),
                Reply::View(a.completed),
            );
            single_flight_refresh_log(log, url, a.awaiting)
        } else {
            match table.sockets.at(url) {
                Some(socket) => {
                    let log = issue_log(log, url, socket, key, SubscribeSend::Resend, a.issue);
                    if a.issue.outcome is Sent {
                        said(log, Note::Resent { url, key })
                    } else {
                        log
                    }
                },
                None => said(log, Note::ResendWithoutSocket { url, key }),
            }
        }
    }
}

/// The text of a resend is the subscribe for the params that the registry holds.
pub open spec fn resend_text(url: WsUrl, key: Key, table: SocketTable, a: ResendAnswers) -> bool {
    let sends = a.params is Some && (url == WsUrl::Auth ==> token_valid(a.token))
        && table.sockets.at(url) is Some;
    sends ==> a.issue.clocked() && a.issue.text@ == json_text(
        subscribe_json(key, a.params->Some_0, frame_token(url, a.token), a.issue.req_id),
    )
}

/// The resend timer of `key` has fired: issues the subscribe again.
///
/// A key that is no longer registered is left alone. On the auth connection a
/// missing token defers the subscribe to the next token, starts a refresh, and
/// completes a resubscription that waited for nothing else.
pub fn handle_subscribe_resend<F: Fn(Request) -> Reply>(
    host: &mut Link<F>,
    url: WsUrl,
    key: &Key,
    table: &SocketTable,
)
    ensures
        exists|a: ResendAnswers|
            {
                &&& final(host).log() == #[trigger] resend_log(
                    old(host).log(),
                    url,
                    *key,
                    *table,
                    a,
                )
                &&& resend_text(url, *key, *table, a)
            },
{
    let ghost before = host.log();
    let ghost mut a: ResendAnswers = arbitrary();
    let found = host.params(key.clone());
    proof {
        a.params = found;
    }
    let params = match found {
        Some(params) => params,
        None => {
            host.say(Note::ResendGone { url, key: key.clone() });
            proof {
                assert(host.log() == resend_log(before, url, *key, *table, a));
            }
            return ;
        },
    };
    let mut token: Option<CachedToken> = None;
    if url == WsUrl::Auth {
        let now: u64 = host.conn_clock(url);
        token = host.token(Some(now));
        proof {
            a.now = now;
        }
    }
    proof {
        a.token = token;
    }
    if url == WsUrl::Auth && !is_token_valid(&token) {
        host.say(Note::ResendWithoutToken { url, key: key.clone() });
        host.tell(Request::DeferAuthSubscribe(url, key.clone(), params));
        let completed = host.view(Request::CompleteResubscribeIfEmpty(url));
        let awaiting = single_flight_refresh(host, url);
        proof {
            a.completed = completed;
            a.awaiting = awaiting;
            assert(host.log() == resend_log(before, url, *key, *table, a));
        }
        return ;
    }
    match table.sockets.get(url) {
        Some(socket) => {
            let ghost ready = host.log();
            let value: Option<&str> = match &token {
                Some(token) => Some(token.value.as_str()),
                None => None,
            };
            let outcome = issue_subscribe(
                host,
                url,
                socket,
                key,
                &params,
                value,
                SubscribeSend::Resend,
            );
            let ghost issued = host.log();
            match outcome {
                SendOutcome::Sent => {
                    host.say(Note::Resent { url, key: key.clone() });
                },
                _ => {},
            }
            proof {
                let issue = choose|issue: IssueAnswers|
                    {
                        &&& issued == #[trigger] issue_log(
                            ready,
                            url,
                            socket,
                            *key,
                            SubscribeSend::Resend,
                            issue,
                        )
                        &&& issue.clocked() && issue.text@ == json_text(
                            subscribe_json(
                                *key,
                                params,
                                frame_token(url, token),
                                issue.req_id,
                            ),
                        )
                        &&& issue.outcome == outcome
                    };
                a.issue = issue;
                assert(host.log() == resend_log(before, url, *key, *table, a));
            }
        },
        None => {
            host.say(Note::ResendWithoutSocket { url, key: key.clone() });
            proof {
                assert(host.log() == resend_log(before, url, *key, *table, a));
            }
        },
    }
}

/// What the first signed subscribe met.
pub struct FirstSignedAnswers {
    pub now: u64,
    pub token: Option<CachedToken>,
    pub first: Option<(Key, Value)>,
    pub issue: IssueAnswers,
    pub reads: SendReadyReads,
    pub clock: BusClock,
}

pub open spec fn first_signed_log(
    log: Log,
    url: WsUrl,
    state: ConnectionState,
    table: SocketTable,
    a: FirstSignedAnswers,
) -> Log {
    let log = asked(log, Request::ConnClock(url), Reply::Instant(a.now));
    let log = asked(log, Request::CachedToken(Some(a.now)), Reply::Token(a.token));
    if !token_valid(a.token) {
        let log = told(log, Request::SetAwaitingTokenRefresh(url, true));
        let log = told(log, Request::ForceRefresh);
        said(log, Note::FirstSignedWithoutToken { url })
    } else {
        match table.sockets.at(url) {
            None => said(log, Note::FirstSignedWithoutSocket { url }),
            Some(socket) => {
                let log = asked(
                    log,
                    Request::ComposeFirstSignedSubscribe(url, a.token->Some_0.value),
                    Reply::Frame(a.first),
                );
                match a.first {
                    Some((key, _)) => issue_log(
                        log,
                        url,
                        socket,
                        key,
                        SubscribeSend::FirstSigned,
                        a.issue,
                    ),
                    None => refresh_send_ready_log(
                        said(log, Note::NothingToSign { url }),
                        url,
                        state,
                        a.reads,
                        a.clock,
                    ),
                }
            },
        }
    }
}

/// The text of the first signed subscribe is the composed frame under a fresh
/// request id.
pub open spec fn first_signed_text(url: WsUrl, table: SocketTable, a: FirstSignedAnswers) -> bool {
    token_valid(a.token) && table.sockets.at(url) is Some && a.first is Some ==> {
        &&& a.issue.clocked()
        &&& a.issue.text@ == json_text(stamped(json_of(a.first->Some_0.1), a.issue.req_id))
    }
}

/// On entering `Authenticating`: sends the first signed subscribe, whose
/// acknowledgement moves the connection on.
///
/// Without a token nothing is sent and a refresh is started. Without a
/// subscription to send, which is warned about, the connection is ready for a bare
/// order.
pub fn send_first_signed_subscribe<F: Fn(Request) -> Reply>(
    host: &mut Link<F>,
    url: WsUrl,
    state: ConnectionState,
    table: &SocketTable,
) -> (after: Option<ConnView>)
    ensures
        exists|a: FirstSignedAnswers|
            {
                &&& final(host).log() == #[trigger] first_signed_log(
                    old(host).log(),
                    url,
                    state,
                    *table,
                    a,
                )
                &&& first_signed_text(url, *table, a)
                &&& after == (if token_valid(a.token) && table.sockets.at(url) is Some
                    && a.first is Some {
                    left_by(a.issue.outcome)
                } else {
                    None
                })
            },
{
    let ghost before = host.log();
    let ghost mut a: FirstSignedAnswers = arbitrary();
    let now: u64 = host.conn_clock(url);
    let token = host.token(Some(now));
    proof {
        a.now = now;
        a.token = token;
    }
    let value = match &token {
        Some(token) => if token.expired {
            None
        } else {
            Some(token.value.clone())
        },
        None => None,
    };
    let value = match value {
        Some(value) => value,
        None => {
            host.tell(Request::SetAwaitingTokenRefresh(url, true));
            host.tell(Request::ForceRefresh);
            host.say(Note::FirstSignedWithoutToken { url });
            proof {
                assert(host.log() == first_signed_log(before, url, state, *table, a));
            }
            return None;
        },
    };
    let socket = match table.sockets.get(url) {
        Some(socket) => socket,
        None => {
            host.say(Note::FirstSignedWithoutSocket { url });
            proof {
                assert(host.log() == first_signed_log(before, url, state, *table, a));
            }
            return None;
        },
    };
    let first = host.first_frame(url, value);
    let ghost composed = host.log();
    proof {
        a.first = first;
    }
    match first {
        Some((key, frame)) => {
            let outcome = issue_frame(
                host,
                url,
                socket,
                &key,
                frame,
                SubscribeSend::FirstSigned,
            );
            proof {
                a.issue = choose|issue: IssueAnswers|
                    {
                        &&& host.log() == #[trigger] issue_log(
                            composed,
                            url,
                            socket,
                            key,
                            SubscribeSend::FirstSigned,
                            issue,
                        )
                        &&& issue.clocked()
                        &&& issue.text@ == json_text(stamped(json_of(frame), issue.req_id))
                        &&& issue.outcome == outcome
                    };
                assert(host.log() == first_signed_log(before, url, state, *table, a));
            }
            after_send(outcome)
        },
        None => {
            host.say(Note::NothingToSign { url });
            let ghost warned = host.log();
            refresh_send_ready(host, url, state);
            proof {
                let (reads, clock) = choose|reads: SendReadyReads, clock: BusClock|
                    host.log() == #[trigger] refresh_send_ready_log(
                        warned,
                        url,
                        state,
                        reads,
                        clock,
                    );
                a.reads = reads;
                a.clock = clock;
                assert(host.log() == first_signed_log(before, url, state, *table, a));
            }
            None
        },
    }
}

/// The connection as a failed send left it; nothing where the frame was taken.
pub open spec fn left_by(outcome: SendOutcome) -> Option<ConnView> {
    match outcome {
        SendOutcome::Sent => None,
        SendOutcome::Backpressured(conn) => Some(conn),
        SendOutcome::WriterDead(conn) => Some(conn),
    }
}

fn after_send(outcome: SendOutcome) -> (after: Option<ConnView>)
    ensures
        after == left_by(outcome),
{
    match outcome {
        SendOutcome::Sent => None,
        SendOutcome::Backpressured(conn) => Some(conn),
        SendOutcome::WriterDead(conn) => Some(conn),
    }
}

/// Whether a failed send ends the replay of frames: the writer is gone, or the
/// connection has left `Resubscribing`.
pub open spec fn stops_replay(outcome: SendOutcome) -> bool {
    match outcome {
        SendOutcome::Sent => false,
        SendOutcome::Backpressured(conn) => conn.state != ConnectionState::Resubscribing,
        SendOutcome::WriterDead(_) => true,
    }
}

/// The log of the first frames of a replay, one for each of `issues`.
pub open spec fn frames_log(
    log: Log,
    url: WsUrl,
    socket: u64,
    frames: Seq<(Key, Value)>,
    issues: Seq<IssueAnswers>,
) -> Log
    decreases issues.len(),
{
    if issues.len() == 0 {
        log
    } else {
        issue_log(
            frames_log(log, url, socket, frames, issues.drop_last()),
            url,
            socket,
            frames[issues.len() - 1].0,
            SubscribeSend::RemainingSigned,
            issues.last(),
        )
    }
}

/// Whether `issues` are the sends of a whole replay of `frames`: in order, each
/// frame once under its own request id, up to the first that stops it.
pub open spec fn replay_of(frames: Seq<(Key, Value)>, issues: Seq<IssueAnswers>) -> bool {
    &&& issues.len() <= frames.len()
    &&& forall|i: int|
        0 <= i < issues.len() ==> (#[trigger] issues[i]).clocked() && issues[i].text@ == json_text(
            stamped(json_of(frames[i].1), issues[i].req_id),
        )
    &&& forall|i: int| 0 <= i < issues.len() - 1 ==> !stops_replay(#[trigger] issues[i].outcome)
    &&& issues.len() < frames.len() ==> issues.len() > 0 && stops_replay(issues.last().outcome)
}

/// The log of deferring every key of `keys`, in order.
pub open spec fn defer_all_log(
    log: Log,
    url: WsUrl,
    keys: Seq<(Key, SubscribeParams)>,
    count: nat,
) -> Log
    decreases count,
{
    if count == 0 {
        log
    } else {
        let last = keys[count - 1];
        told(
            defer_all_log(log, url, keys, (count - 1) as nat),
            Request::DeferAuthSubscribe(url, last.0, last.1),
        )
    }
}

/// What the replay after the handshake met.
pub struct RemainingAnswers {
    pub now: u64,
    pub token: Option<CachedToken>,
    pub keys: Vec<(Key, SubscribeParams)>,
    pub awaiting: bool,
    pub frames: Vec<(Key, Value)>,
    pub issues: Seq<IssueAnswers>,
}

/// The request for the frames that are still to be sent.
pub open spec fn remaining_request(
    url: WsUrl,
    token: String,
    already_sent: Option<Key>,
) -> Request {
    match already_sent {
        Some(key) => Request::ComposeRemainingSignedSubscribes(url, token, key),
        None => Request::ComposeSignedSubscribeFrames(url, token),
    }
}

pub open spec fn remaining_log(
    log: Log,
    url: WsUrl,
    already_sent: Option<Key>,
    table: SocketTable,
    a: RemainingAnswers,
) -> Log {
    let log = asked(log, Request::ConnClock(url), Reply::Instant(a.now));
    let log = asked(log, Request::CachedToken(Some(a.now)), Reply::Token(a.token));
    if !token_valid(a.token) {
        let log = asked(
            log,
            Request::LiveSubscribeKeys(url, already_sent),
            Reply::Keys(a.keys),
        );
        let log = defer_all_log(log, url, a.keys@, a.keys@.len());
        single_flight_refresh_log(log, url, a.awaiting)
    } else {
        match table.sockets.at(url) {
            None => log,
            Some(socket) => {
                let log = asked(
                    log,
                    remaining_request(url, a.token->Some_0.value, already_sent),
                    Reply::Frames(a.frames),
                );
                frames_log(log, url, socket, a.frames@, a.issues)
            },
        }
    }
}

fn clone_key(key: &Option<Key>) -> (copy: Option<Key>)
    ensures
        copy == *key,
{
    match key {
        Some(key) => Some(key.clone()),
        None => None,
    }
}

/// After the handshake: sends the remaining signed subscribes, all but
/// `already_sent`, each waiting for its own acknowledgement.
///
/// Without a token all of them are deferred to the next one, and a refresh is
/// started. The first send that costs the connection its socket ends the replay.
pub fn send_remaining_signed_subscribes<F: Fn(Request) -> Reply>(
    host: &mut Link<F>,
    url: WsUrl,
    already_sent: &Option<Key>,
    table: &SocketTable,
)
    ensures
        exists|a: RemainingAnswers|
            {
                &&& final(host).log() == #[trigger] remaining_log(
                    old(host).log(),
                    url,
                    *already_sent,
                    *table,
                    a,
                )
                &&& token_valid(a.token) && table.sockets.at(url) is Some ==> replay_of(
                    a.frames@,
                    a.issues,
                )
            },
{
    let ghost before = host.log();
    let ghost mut a: RemainingAnswers = arbitrary();
    let now: u64 = host.conn_clock(url);
    let token = host.token(Some(now));
    proof {
        a.now = now;
        a.token = token;
    }
    if !is_token_valid(&token) {
        let keys = host.keys(Request::LiveSubscribeKeys(url, clone_key(already_sent)));
        let ghost listed = host.log();
        let mut i: usize = 0;
        while i < keys.len()
            invariant
                i <= keys@.len(),
                host.log() == defer_all_log(listed, url, keys@, i as nat),
            decreases keys@.len() - i,
        {
            host.tell(Request::DeferAuthSubscribe(url, keys[i].0.clone(), keys[i].1));
            i += 1;
        }
        let awaiting = single_flight_refresh(host, url);
        proof {
            a.keys = keys;
            a.awaiting = awaiting;
            assert(host.log() == remaining_log(before, url, *already_sent, *table, a));
        }
        return ;
    }
    let socket = match table.sockets.get(url) {
        Some(socket) => socket,
        None => {
            proof {
                assert(host.log() == remaining_log(before, url, *already_sent, *table, a));
            }
            return ;
        },
    };
    let value = match token {
        Some(token) => token.value,
        None => String::new(),
    };
    let frames = match already_sent {
        Some(key) => host.frames(
            Request::ComposeRemainingSignedSubscribes(url, value, key.clone()),
        ),
        None => host.frames(Request::ComposeSignedSubscribeFrames(url, value)),
    };
    let ghost composed = host.log();
    let ghost mut issues: Seq<IssueAnswers> = Seq::empty();
    let mut i: usize = 0;
    let mut stopped = false;
    while i < frames.len() && !stopped
        invariant
            i <= frames@.len(),
            issues.len() == i,
            host.log() == frames_log(composed, url, socket, frames@, issues),
            forall|k: int|
                0 <= k < issues.len() ==> (#[trigger] issues[k]).clocked() && issues[k].text@
                    == json_text(stamped(json_of(frames@[k].1), issues[k].req_id)),
            forall|k: int|
                0 <= k < issues.len() - 1 ==> !stops_replay(#[trigger] issues[k].outcome),
            issues.len() > 0 ==> stopped == stops_replay(issues.last().outcome),
            issues.len() == 0 ==> !stopped,
        decreases frames@.len() - i,
    {
        let ghost sent = host.log();
        let key = &frames[i].0;
        let frame = json::copy_of(&frames[i].1);
        let outcome = issue_frame(
            host,
            url,
            socket,
            key,
            frame,
            SubscribeSend::RemainingSigned,
        );
        proof {
            let issue = choose|issue: IssueAnswers|
                {
                    &&& host.log() == #[trigger] issue_log(
                        sent,
                        url,
                        socket,
                        frames@[i as int].0,
                        SubscribeSend::RemainingSigned,
                        issue,
                    )
                    &&& issue.clocked() && issue.text@ == json_text(
                        stamped(json_of(frames@[i as int].1), issue.req_id),
                    )
                    &&& issue.outcome == outcome
                };
            let longer = issues.push(issue);
            assert(longer.drop_last() =~= issues);
            assert(host.log() == frames_log(composed, url, socket, frames@, longer));
            issues = longer;
        }
        stopped = match outcome {
            SendOutcome::Sent => false,
            SendOutcome::Backpressured(conn) => !(conn.state == ConnectionState::Resubscribing),
            SendOutcome::WriterDead(_) => true,
        };
        i += 1;
    }
    proof {
        a.frames = frames;
        a.issues = issues;
        assert(host.log() == remaining_log(before, url, *already_sent, *table, a));
    }
}

/// The requests of a public subscribe; without a socket, only a warning.
pub open spec fn single_subscribe_log(
    log: Log,
    url: WsUrl,
    key: Key,
    table: SocketTable,
    issue: IssueAnswers,
) -> Log {
    match table.sockets.at(url) {
        Some(socket) => issue_log(log, url, socket, key, SubscribeSend::RegisterPublic, issue),
        None => said(log, Note::PublicWithoutSocket { url, key }),
    }
}

/// Sends the public subscribe for `key`. Without a socket nothing is sent, which
/// is warned about: the replay on reconnect brings the subscription back.
pub fn send_single_subscribe<F: Fn(Request) -> Reply>(
    host: &mut Link<F>,
    url: WsUrl,
    key: &Key,
    params: SubscribeParams,
    table: &SocketTable,
) -> (after: Option<ConnView>)
    ensures
        exists|issue: IssueAnswers|
            {
                &&& final(host).log() == #[trigger] single_subscribe_log(
                    old(host).log(),
                    url,
                    *key,
                    *table,
                    issue,
                )
                &&& table.sockets.at(url) is Some ==> issue.clocked() && issue.text@ == json_text(
                    subscribe_json(*key, params, None, issue.req_id),
                )
                &&& after == (if table.sockets.at(url) is Some {
                    left_by(issue.outcome)
                } else {
                    None
                })
            },
{
    let ghost before = host.log();
    match table.sockets.get(url) {
        Some(socket) => {
            let outcome = issue_subscribe(
                host,
                url,
                socket,
                key,
                &params,
                None,
                SubscribeSend::RegisterPublic,
            );
            proof {
                let issue = choose|issue: IssueAnswers|
                    {
                        &&& host.log() == #[trigger] issue_log(
                            before,
                            url,
                            socket,
                            *key,
                            SubscribeSend::RegisterPublic,
                            issue,
                        )
                        &&& issue.clocked() && issue.text@ == json_text(
                            subscribe_json(*key, params, None, issue.req_id),
                        )
                        &&& issue.outcome == outcome
                    };
                assert(host.log() == single_subscribe_log(before, url, *key, *table, issue));
            }
            after_send(outcome)
        },
        None => {
            host.say(Note::PublicWithoutSocket { url, key: key.clone() });
            proof {
                let issue: IssueAnswers = arbitrary();
                assert(host.log() == single_subscribe_log(before, url, *key, *table, issue));
            }
            None
        },
    }
}

/// What a signed subscribe met.
pub struct SignedAnswers {
    pub now: u64,
    pub token: Option<CachedToken>,
    pub awaiting: bool,
    pub issue: IssueAnswers,
}

pub open spec fn single_signed_log(
    log: Log,
    url: WsUrl,
    key: Key,
    params: SubscribeParams,
    table: SocketTable,
    a: SignedAnswers,
) -> Log {
    let log = asked(log, Request::ConnClock(url), Reply::Instant(a.now));
    let log = asked(log, Request::CachedToken(Some(a.now)), Reply::Token(a.token));
    if !token_valid(a.token) {
        let log = told(log, Request::DeferAuthSubscribe(url, key, params));
        let log = single_flight_refresh_log(log, url, a.awaiting);
        said(
            log,
            if a.awaiting {
                Note::SignedDeferredToo { url, key }
            } else {
                Note::SignedDeferred { url, key }
            },
        )
    } else {
        match table.sockets.at(url) {
            Some(socket) => issue_log(
                log,
                url,
                socket,
                key,
                SubscribeSend::RegisterWhileOpenAuth,
                a.issue,
            ),
            None => said(log, Note::SignedWithoutSocket { url, key }),
        }
    }
}

/// Whether a signed subscribe reaches a socket.
pub open spec fn single_signed_sends(url: WsUrl, table: SocketTable, a: SignedAnswers) -> bool {
    token_valid(a.token) && table.sockets.at(url) is Some
}

pub open spec fn single_signed_done(
    before: Log,
    after: Log,
    url: WsUrl,
    key: Key,
    params: SubscribeParams,
    table: SocketTable,
    left: Option<ConnView>,
    a: SignedAnswers,
) -> bool {
    &&& after == single_signed_log(before, url, key, params, table, a)
    &&& single_signed_sends(url, table, a) ==> a.issue.clocked() && a.issue.text@ == json_text(
        subscribe_json(key, params, Some(a.token->Some_0.value@), a.issue.req_id),
    )
    &&& left == (if single_signed_sends(url, table, a) {
        left_by(a.issue.outcome)
    } else {
        None
    })
}

/// Sends the signed subscribe for `key` on a connection that takes one at once.
/// Without a token it is deferred to the next one, and a refresh is started;
/// without a socket it is dropped with a warning.
pub fn send_single_signed_subscribe<F: Fn(Request) -> Reply>(
    host: &mut Link<F>,
    url: WsUrl,
    key: &Key,
    params: SubscribeParams,
    table: &SocketTable,
) -> (after: Option<ConnView>)
    ensures
        exists|a: SignedAnswers| #[trigger]
            single_signed_done(
                old(host).log(),
                final(host).log(),
                url,
                *key,
                params,
                *table,
                after,
                a,
            ),
{
    let ghost before = host.log();
    let ghost mut a: SignedAnswers = arbitrary();
    let now: u64 = host.conn_clock(url);
    let token = host.token(Some(now));
    proof {
        a.now = now;
        a.token = token;
    }
    if !is_token_valid(&token) {
        host.tell(Request::DeferAuthSubscribe(url, key.clone(), params));
        let awaiting = single_flight_refresh(host, url);
        if awaiting {
            host.say(Note::SignedDeferredToo { url, key: key.clone() });
        } else {
            host.say(Note::SignedDeferred { url, key: key.clone() });
        }
        proof {
            a.awaiting = awaiting;
            assert(single_signed_done(
                before,
                host.log(),
                url,
                *key,
                params,
                *table,
                None,
                a,
            ));
        }
        return None;
    }
    let value = match &token {
        Some(token) => Some(token.value.as_str()),
        None => None,
    };
    match table.sockets.get(url) {
        Some(socket) => {
            let ghost ready = host.log();
            let outcome = issue_subscribe(
                host,
                url,
                socket,
                key,
                &params,
                value,
                SubscribeSend::RegisterWhileOpenAuth,
            );
            let left = after_send(outcome);
            proof {
                a.issue = choose|issue: IssueAnswers|
                    {
                        &&& host.log() == #[trigger] issue_log(
                            ready,
                            url,
                            socket,
                            *key,
                            SubscribeSend::RegisterWhileOpenAuth,
                            issue,
                        )
                        &&& issue.clocked() && issue.text@ == json_text(
                            subscribe_json(
                                *key,
                                params,
                                Some(token->Some_0.value@),
                                issue.req_id,
                            ),
                        )
                        &&& issue.outcome == outcome
                    };
                assert(single_signed_done(
                    before,
                    host.log(),
                    url,
                    *key,
                    params,
                    *table,
                    left,
                    a,
                ));
            }
            left
        },
        None => {
            host.say(Note::SignedWithoutSocket { url, key: key.clone() });
            proof {
                assert(single_signed_done(
                    before,
                    host.log(),
                    url,
                    *key,
                    params,
                    *table,
                    None,
                    a,
                ));
            }
            None
        },
    }
}

/// Whether the auth connection takes a signed subscribe at once: it is open or
/// resubscribing, or it authenticates with no probe on the wire, in which case the
/// subscribe is the probe.
pub open spec fn takes_signed_subscribe(conn: ConnView) -> bool {
    conn.state == ConnectionState::Open || conn.state == ConnectionState::Resubscribing
        || conn.authenticating_nothing_in_flight
}

/// What a registration met.
pub struct RegisterAnswers {
    pub clock: BusClock,
    pub count: u64,
    pub conn: Option<ConnView>,
    pub connect_id: u64,
    pub started: ConnView,
    pub start_clock: BusClock,
    pub signed: SignedAnswers,
    pub issue: IssueAnswers,
    pub reads: SendReadyReads,
    pub ready_clock: BusClock,
}

impl RegisterAnswers {
    /// Whether the registration starts an idle connection.
    pub open spec fn starts(self) -> bool {
        self.conn is Some && self.conn->Some_0.state == ConnectionState::Idle
    }

    /// The connection after that start.
    pub open spec fn current(self) -> ConnView {
        if self.starts() {
            self.started
        } else {
            self.conn->Some_0
        }
    }

    /// The sockets after that start.
    pub open spec fn table(self, url: WsUrl, table: SocketTable) -> SocketTable {
        if self.starts() {
            projected(
                table,
                url,
                self.started.socket,
                self.conn->Some_0.socket,
                self.start_clock.bus_alive,
            )
        } else {
            table
        }
    }

    /// Whether a wire subscribe is due: this is the first subscriber, and the
    /// connection takes it now.
    pub open spec fn subscribes(self, url: WsUrl) -> bool {
        self.count == 1 && (url == WsUrl::Auth ==> takes_signed_subscribe(self.current()))
    }

    /// How the wire subscribe left the connection, if it failed.
    pub open spec fn left(self, url: WsUrl, table: SocketTable) -> Option<ConnView> {
        let table = self.table(url, table);
        if !self.subscribes(url) || table.sockets.at(url) is None {
            None
        } else if url == WsUrl::Auth {
            if token_valid(self.signed.token) {
                left_by(self.signed.issue.outcome)
            } else {
                None
            }
        } else {
            left_by(self.issue.outcome)
        }
    }

    /// The connection at the end of the registration.
    pub open spec fn last(self, url: WsUrl, table: SocketTable) -> Option<ConnView> {
        match self.conn {
            None => None,
            Some(_) => match self.left(url, table) {
                Some(left) => Some(left),
                None => Some(self.current()),
            },
        }
    }
}

/// The requests of a registration up to its wire subscribe.
pub open spec fn register_opening_log(
    log: Log,
    url: WsUrl,
    entry: SubscriptionEntry,
    ref_id: Option<u64>,
    a: RegisterAnswers,
) -> Log {
    let log = asked(log, Request::BusClock, Reply::Clock(a.clock));
    let log = asked(
        log,
        Request::Register(entry, a.clock.now, ref_id is Some),
        Reply::Count(a.count),
    );
    let log = match ref_id {
        Some(id) => told(log, Request::RecordGuardRef(id, entry.key)),
        None => log,
    };
    let log = asked(log, Request::Conn(url), Reply::Conn(a.conn));
    if a.starts() {
        let log = asked(log, Request::NextConnectId, Reply::Count(a.connect_id));
        let log = asked(
            log,
            Request::HandleEvent(url, FsmEvent::CallStartConnect { request_id: a.connect_id }),
            Reply::View(a.started),
        );
        let log = told(log, Request::StoreMirror(url, a.started.state));
        project_log(log, url, a.started.socket, a.conn->Some_0.socket, a.start_clock)
    } else {
        log
    }
}

/// The requests of the wire subscribe of a registration.
pub open spec fn register_wire_log(
    log: Log,
    url: WsUrl,
    entry: SubscriptionEntry,
    table: SocketTable,
    a: RegisterAnswers,
) -> Log {
    if !a.subscribes(url) {
        log
    } else if url == WsUrl::Auth {
        single_signed_log(log, url, entry.key, entry.params, a.table(url, table), a.signed)
    } else {
        single_subscribe_log(log, url, entry.key, a.table(url, table), a.issue)
    }
}

pub open spec fn register_log(
    log: Log,
    url: WsUrl,
    entry: SubscriptionEntry,
    ref_id: Option<u64>,
    table: SocketTable,
    a: RegisterAnswers,
) -> Log {
    let log = register_opening_log(log, url, entry, ref_id, a);
    if a.conn is None {
        log
    } else {
        let log = register_wire_log(log, url, entry, table, a);
        if url == WsUrl::Auth {
            refresh_send_ready_log(
                log,
                url,
                a.last(url, table)->Some_0.state,
                a.reads,
                a.ready_clock,
            )
        } else {
            log
        }
    }
}

/// The texts of a registration are the subscribe for the registered params.
pub open spec fn register_text(
    url: WsUrl,
    entry: SubscriptionEntry,
    table: SocketTable,
    a: RegisterAnswers,
) -> bool {
    let table = a.table(url, table);
    a.conn is Some && a.subscribes(url) ==> if url == WsUrl::Auth {
        single_signed_sends(url, table, a.signed) ==> {
            &&& a.signed.issue.clocked()
            &&& a.signed.issue.text@ == json_text(
                subscribe_json(
                    entry.key,
                    entry.params,
                    Some(a.signed.token->Some_0.value@),
                    a.signed.issue.req_id,
                ),
            )
        }
    } else {
        table.sockets.at(url) is Some ==> a.issue.clocked() && a.issue.text@ == json_text(
            subscribe_json(entry.key, entry.params, None, a.issue.req_id),
        )
    }
}

/// Registers one subscription. The first subscriber of a key sends the wire
/// subscribe, any other sends nothing; an idle connection is started.
pub fn register_one_and_emit<F: Fn(Request) -> Reply>(
    host: &mut Link<F>,
    url: WsUrl,
    entry: SubscriptionEntry,
    ref_id: Option<u64>,
    table: &mut SocketTable,
) -> (last: Option<ConnView>)
    requires
        old(table).wf(),
    ensures
        final(table).wf(),
        exists|a: RegisterAnswers|
            {
                &&& final(host).log() == #[trigger] register_log(
                    old(host).log(),
                    url,
                    entry,
                    ref_id,
                    *old(table),
                    a,
                )
                &&& register_text(url, entry, *old(table), a)
                &&& *final(table) == a.table(url, *old(table))
                &&& last == a.last(url, *old(table))
            },
{
    let ghost before = host.log();
    let ghost registered = entry;
    let ghost table0 = *table;
    let ghost mut a: RegisterAnswers = arbitrary();
    let key = entry.key.clone();
    let params = entry.params;
    let clock = host.bus_clock();
    let guarded = match ref_id {
        Some(_) => true,
        None => false,
    };
    let count: u64 = host.count(Request::Register(entry, clock.now, guarded));
    match ref_id {
        Some(id) => {
            host.tell(Request::RecordGuardRef(id, key.clone()));
        },
        None => {},
    }
    let conn = host.conn(url);
    proof {
        a.clock = clock;
        a.count = count;
        a.conn = conn;
    }
    let mut current = match conn {
        Some(conn) => conn,
        None => {
            proof {
                assert(host.log() == register_log(before, url, registered, ref_id, table0, a));
            }
            return None;
        },
    };
    if current.state == ConnectionState::Idle {
        let prev_cid = current.socket;
        let connect_id: u64 = host.count(Request::NextConnectId);
        current =
        host.view(
            Request::HandleEvent(url, FsmEvent::CallStartConnect { request_id: connect_id }),
        );
        write_mirror(host, url, current.state);
        let ghost mirrored = host.log();
        project_socket_and_wire_bridge(host, &current, url, prev_cid, table);
        proof {
            a.connect_id = connect_id;
            a.started = current;
            a.start_clock = choose|clock: BusClock|
                {
                    &&& host.log() == #[trigger] project_log(
                        mirrored,
                        url,
                        current.socket,
                        prev_cid,
                        clock,
                    )
                    &&& *table == projected(
                        table0,
                        url,
                        current.socket,
                        prev_cid,
                        clock.bus_alive,
                    )
                };
        }
    }
    let ghost started = host.log();
    proof {
        assert(current == a.current());
        assert(*table == a.table(url, table0));
    }
    if count == 1 {
        match url {
            WsUrl::Auth => {
                if current.state == ConnectionState::Open || current.state
                    == ConnectionState::Resubscribing || current.authenticating_nothing_in_flight {
                    let left = send_single_signed_subscribe(host, url, &key, params, table);
                    proof {
                        a.signed = choose|signed: SignedAnswers| #[trigger]
                            single_signed_done(
                                started,
                                host.log(),
                                url,
                                key,
                                params,
                                *table,
                                left,
                                signed,
                            );
                    }
                    match left {
                        Some(conn) => {
                            current = conn;
                        },
                        None => {},
                    }
                }
            },
            WsUrl::Public => {
                let left = send_single_subscribe(host, url, &key, params, table);
                proof {
                    a.issue = choose|issue: IssueAnswers|
                        {
                            &&& host.log() == #[trigger] single_subscribe_log(
                                started,
                                url,
                                key,
                                *table,
                                issue,
                            )
                            &&& table.sockets.at(url) is Some ==> issue.clocked()
                                && issue.text@ == json_text(
                                subscribe_json(key, params, None, issue.req_id),
                            )
                            &&& left == (if table.sockets.at(url) is Some {
                                left_by(issue.outcome)
                            } else {
                                None
                            })
                        };
                }
                match left {
                    Some(conn) => {
                        current = conn;
                    },
                    None => {},
                }
            },
        }
    }
    proof {
        assert(Some(current) == a.last(url, table0));
    }
    let ghost subscribed = host.log();
    if url == WsUrl::Auth {
        refresh_send_ready(host, url, current.state);
        proof {
            let (reads, clock) = choose|reads: SendReadyReads, clock: BusClock|
                host.log() == #[trigger] refresh_send_ready_log(
                    subscribed,
                    url,
                    current.state,
                    reads,
                    clock,
                );
            a.reads = reads;
            a.ready_clock = clock;
        }
    }
    proof {
        assert(host.log() == register_log(before, url, registered, ref_id, table0, a));
    }
    Some(current)
}

/// Within the range of the clock, the instant at which an acknowledgement is
/// overdue is exactly the allowed time after the reading.
pub proof fn the_due_instant_is_exact(now: u64, millis: Option<u32>)
    requires
        now < CLOCK_LIMIT,
    ensures
        ack_due(now, millis) as int == now + (match millis {
            Some(millis) => millis as int,
            None => 5_000,
        }) * 1_000_000,
{
}

/// A frame that is not taken waits for no acknowledgement.
pub proof fn only_a_sent_frame_waits(
    log: Log,
    url: WsUrl,
    socket: u64,
    key: Key,
    send: SubscribeSend,
    a: IssueAnswers,
)
    ensures
        ({
            let after = issue_log(log, url, socket, key, send, a);
            &&& extends(log, after)
            &&& (exists|due: u64| #[trigger]
                made(log, after, Request::ArmSubscribeAck(url, key, due))) <==> a.outcome is Sent
        }),
{
    let after = issue_log(log, url, socket, key, send, a);
    if a.outcome is Sent {
        let due = ack_due(a.now, a.millis);
        assert(after.last().0 == Request::ArmSubscribeAck(url, key, due));
        assert(made(log, after, Request::ArmSubscribeAck(url, key, due)));
    }
}

/// Whatever a send on the way to the wire costs, it sends one frame, and it
/// announces nothing and starts no refresh.
pub proof fn one_issue_is_one_frame(
    log: Log,
    url: WsUrl,
    socket: u64,
    key: Key,
    send: SubscribeSend,
    a: IssueAnswers,
)
    ensures
        ({
            let after = issue_log(log, url, socket, key, send, a);
            &&& grew_without(log, after, Effect::Announce)
            &&& grew_without(log, after, Effect::Refresh)
            &&& after[log.len() as int + 1].0 == Request::SendFrame(url, socket, a.text)
            &&& forall|i: int|
                log.len() <= i < after.len() && (#[trigger] after[i]).0.effect() is Send ==> i
                    == log.len() + 1
        }),
{
}

/// While a refresh is awaited, no other one is started; where none is, exactly one
/// is, and it is awaited from then on.
pub proof fn one_refresh_at_a_time(log: Log, url: WsUrl, awaiting: bool)
    ensures
        ({
            let after = single_flight_refresh_log(log, url, awaiting);
            &&& grew_without(log, after, Effect::Refresh) <==> awaiting
            &&& !awaiting ==> after == told(
                told(
                    asked(log, Request::IsAwaitingTokenRefresh(url), Reply::Flag(false)),
                    Request::SetAwaitingTokenRefresh(url, true),
                ),
                Request::ForceRefresh,
            )
        }),
{
    let after = single_flight_refresh_log(log, url, awaiting);
    if !awaiting {
        assert(after.last().0.effect() is Refresh);
    }
}

/// Without a token a signed subscribe sends nothing: it is deferred, to be issued
/// when there is one.
pub proof fn no_token_defers(
    log: Log,
    url: WsUrl,
    key: Key,
    params: SubscribeParams,
    table: SocketTable,
    a: SignedAnswers,
)
    requires
        !token_valid(a.token),
    ensures
        ({
            let after = single_signed_log(log, url, key, params, table, a);
            &&& grew_without(log, after, Effect::Send)
            &&& made(log, after, Request::DeferAuthSubscribe(url, key, params))
        }),
{
    let after = single_signed_log(log, url, key, params, table, a);
    assert(after[log.len() as int + 2].0 == Request::DeferAuthSubscribe(url, key, params));
}

proof fn deferring_sends_nothing(
    log: Log,
    url: WsUrl,
    keys: Seq<(Key, SubscribeParams)>,
    count: nat,
)
    requires
        count <= keys.len(),
    ensures
        ({
            let after = defer_all_log(log, url, keys, count);
            &&& grew_without(log, after, Effect::Send)
            &&& grew_without(log, after, Effect::Settle)
            &&& after.len() == log.len() + count
            &&& forall|i: int|
                0 <= i < count ==> (#[trigger] after[log.len() + i]).0
                    == Request::DeferAuthSubscribe(url, keys[i].0, keys[i].1)
        }),
    decreases count,
{
    if count > 0 {
        deferring_sends_nothing(log, url, keys, (count - 1) as nat);
    }
}

/// A replay without a token strands no subscription: every live one is deferred,
/// and none is sent. Nor is any request answered.
pub proof fn no_token_defers_the_whole_replay(
    log: Log,
    url: WsUrl,
    already_sent: Option<Key>,
    table: SocketTable,
    a: RemainingAnswers,
)
    requires
        !token_valid(a.token),
    ensures
        ({
            let after = remaining_log(log, url, already_sent, table, a);
            &&& grew_without(log, after, Effect::Send)
            &&& grew_without(log, after, Effect::Settle)
            &&& forall|i: int|
                0 <= i < a.keys@.len() ==> made(
                    log,
                    after,
                    Request::DeferAuthSubscribe(
                        url,
                        (#[trigger] a.keys@[i]).0,
                        a.keys@[i].1,
                    ),
                )
        }),
{
    let after = remaining_log(log, url, already_sent, table, a);
    let listed = asked(
        asked(
            asked(log, Request::ConnClock(url), Reply::Instant(a.now)),
            Request::CachedToken(Some(a.now)),
            Reply::Token(a.token),
        ),
        Request::LiveSubscribeKeys(url, already_sent),
        Reply::Keys(a.keys),
    );
    deferring_sends_nothing(listed, url, a.keys@, a.keys@.len());
    assert forall|i: int| 0 <= i < a.keys@.len() implies made(
        log,
        after,
        Request::DeferAuthSubscribe(url, (#[trigger] a.keys@[i]).0, a.keys@[i].1),
    ) by {
        let deferred = defer_all_log(listed, url, a.keys@, a.keys@.len());
        assert(deferred[listed.len() + i].0 == Request::DeferAuthSubscribe(
            url,
            a.keys@[i].0,
            a.keys@[i].1,
        ));
        assert(after[listed.len() + i] == deferred[listed.len() + i]);
    }
}

/// Only the first subscriber of a key is seen on the wire: any other is registered,
/// sends nothing and waits for nothing.
pub proof fn only_the_first_subscriber_sends(
    log: Log,
    url: WsUrl,
    entry: SubscriptionEntry,
    ref_id: Option<u64>,
    table: SocketTable,
    a: RegisterAnswers,
)
    requires
        a.count != 1,
    ensures
        grew_without(
            log,
            register_log(log, url, entry, ref_id, table, a),
            Effect::Send,
        ),
        grew_without(
            log,
            register_log(log, url, entry, ref_id, table, a),
            Effect::Await,
        ),
{
}

/// Whether the log grew by requests of which none starts a connection.
pub open spec fn starts_nothing(before: Log, after: Log) -> bool {
    &&& extends(before, after)
    &&& forall|i: int|
        before.len() <= i < after.len() ==> match (#[trigger] after[i]).0 {
            Request::HandleEvent(_, event) => !(event is CallStartConnect),
            _ => true,
        }
}

proof fn a_wire_subscribe_starts_nothing(
    log: Log,
    url: WsUrl,
    entry: SubscriptionEntry,
    table: SocketTable,
    a: RegisterAnswers,
)
    ensures
        starts_nothing(log, register_wire_log(log, url, entry, table, a)),
{
}

proof fn a_flag_starts_nothing(
    log: Log,
    url: WsUrl,
    state: ConnectionState,
    reads: SendReadyReads,
    clock: BusClock,
)
    ensures
        starts_nothing(log, refresh_send_ready_log(log, url, state, reads, clock)),
{
}

/// A registration starts a connection exactly when that is idle.
pub proof fn only_an_idle_connection_is_started(
    log: Log,
    url: WsUrl,
    entry: SubscriptionEntry,
    ref_id: Option<u64>,
    table: SocketTable,
    a: RegisterAnswers,
)
    ensures
        ({
            let after = register_log(log, url, entry, ref_id, table, a);
            &&& a.starts() ==> made(
                log,
                after,
                Request::HandleEvent(
                    url,
                    FsmEvent::CallStartConnect { request_id: a.connect_id },
                ),
            )
            &&& !a.starts() ==> starts_nothing(log, after)
        }),
{
    let opened = register_opening_log(log, url, entry, ref_id, a);
    let sent = register_wire_log(opened, url, entry, table, a);
    let after = register_log(log, url, entry, ref_id, table, a);
    assert(extends(log, opened));
    a_wire_subscribe_starts_nothing(opened, url, entry, table, a);
    if a.conn is Some {
        if url == WsUrl::Auth {
            a_flag_starts_nothing(
                sent,
                url,
                a.last(url, table)->Some_0.state,
                a.reads,
                a.ready_clock,
            );
        }
        assert(starts_nothing(sent, after));
    }
    if a.starts() {
        let start = Request::HandleEvent(
            url,
            FsmEvent::CallStartConnect { request_id: a.connect_id },
        );
        let at: int = log.len() + if ref_id is Some {
            5int
        } else {
            4int
        };
        assert(opened[at].0 == start);
        assert(sent[at] == opened[at]);
        assert(after[at] == sent[at]);
    } else {
        assert(starts_nothing(log, opened));
        if a.conn is Some {
            assert forall|i: int| log.len() <= i < after.len() implies match (
            #[trigger] after[i]).0 {
                Request::HandleEvent(_, event) => !(event is CallStartConnect),
                _ => true,
            } by {
                if i < sent.len() {
                    assert(after[i] == sent[i]);
                }
                if i < opened.len() {
                    assert(sent[i] == opened[i]);
                }
            }
            assert(starts_nothing(log, after));
        }
    }
}

proof fn frames_are_sent_in_use(
    log: Log,
    url: WsUrl,
    socket: u64,
    frames: Seq<(Key, Value)>,
    issues: Seq<IssueAnswers>,
    table: SocketTable,
)
    requires
        table.sockets.at(url) == Some(socket),
    ensures
        sends_in_use(log, frames_log(log, url, socket, frames, issues), table),
        grew_without(log, frames_log(log, url, socket, frames, issues), Effect::Settle),
    decreases issues.len(),
{
    if issues.len() > 0 {
        let before = frames_log(log, url, socket, frames, issues.drop_last());
        frames_are_sent_in_use(log, url, socket, frames, issues.drop_last(), table);
        let after = issue_log(
            before,
            url,
            socket,
            frames[issues.len() - 1].0,
            SubscribeSend::RemainingSigned,
            issues.last(),
        );
        assert(sends_in_use(before, after, table));
        sends_in_use_together(log, before, after, table);
        assert(grew_without(before, after, Effect::Settle));
        grew_without_together(log, before, after, Effect::Settle);
    }
}

/// The replay after a handshake sends only on the socket in use, and answers no
/// request.
pub proof fn a_replay_sends_on_the_socket_in_use(
    log: Log,
    url: WsUrl,
    already_sent: Option<Key>,
    table: SocketTable,
    a: RemainingAnswers,
)
    ensures
        sends_in_use(log, remaining_log(log, url, already_sent, table, a), table),
        grew_without(log, remaining_log(log, url, already_sent, table, a), Effect::Settle),
{
    let after = remaining_log(log, url, already_sent, table, a);
    let asked_token = asked(
        asked(log, Request::ConnClock(url), Reply::Instant(a.now)),
        Request::CachedToken(Some(a.now)),
        Reply::Token(a.token),
    );
    if !token_valid(a.token) {
        no_token_defers_the_whole_replay(log, url, already_sent, table, a);
    } else if table.sockets.at(url) is Some {
        let composed = asked(
            asked_token,
            remaining_request(url, a.token->Some_0.value, already_sent),
            Reply::Frames(a.frames),
        );
        frames_are_sent_in_use(
            composed,
            url,
            table.sockets.at(url)->Some_0,
            a.frames@,
            a.issues,
            table,
        );
        assert(sends_in_use(log, composed, table));
        sends_in_use_together(log, composed, after, table);
        grew_without_together(log, composed, after, Effect::Settle);
    }
}

/// Without a socket, a registration that starts no connection sends nothing: its
/// subscription waits for the replay.
pub proof fn no_socket_no_frame(
    log: Log,
    url: WsUrl,
    entry: SubscriptionEntry,
    ref_id: Option<u64>,
    table: SocketTable,
    a: RegisterAnswers,
)
    requires
        table.sockets.at(url) is None,
        !a.starts(),
    ensures
        grew_without(
            log,
            register_log(log, url, entry, ref_id, table, a),
            Effect::Send,
        ),
{
}

/// A registration sends only on the socket that the connection has after it was
/// started.
pub proof fn a_registration_sends_on_the_socket_in_use(
    log: Log,
    url: WsUrl,
    entry: SubscriptionEntry,
    ref_id: Option<u64>,
    table: SocketTable,
    a: RegisterAnswers,
)
    ensures
        sends_in_use(
            log,
            register_log(log, url, entry, ref_id, table, a),
            a.table(url, table),
        ),
{
    let table_then = a.table(url, table);
    let opened = register_opening_log(log, url, entry, ref_id, a);
    opening_sends_nothing(log, url, entry, ref_id, a);
    if a.conn is Some {
        let sent = register_wire_log(opened, url, entry, table, a);
        wire_subscribe_in_use(opened, url, entry, table, a);
        sends_in_use_together(log, opened, sent, table_then);
        let after = register_log(log, url, entry, ref_id, table, a);
        if url == WsUrl::Auth {
            let state = a.last(url, table)->Some_0.state;
            only_a_ready_connection_is_announced(sent, url, state, a.reads, a.ready_clock);
        }
        assert(sends_in_use(sent, after, table_then));
        sends_in_use_together(log, sent, after, table_then);
    }
}

proof fn opening_sends_nothing(
    log: Log,
    url: WsUrl,
    entry: SubscriptionEntry,
    ref_id: Option<u64>,
    a: RegisterAnswers,
)
    ensures
        grew_without(log, register_opening_log(log, url, entry, ref_id, a), Effect::Send),
        grew_without(log, register_opening_log(log, url, entry, ref_id, a), Effect::Await),
{
}

proof fn wire_subscribe_in_use(
    log: Log,
    url: WsUrl,
    entry: SubscriptionEntry,
    table: SocketTable,
    a: RegisterAnswers,
)
    ensures
        sends_in_use(log, register_wire_log(log, url, entry, table, a), a.table(url, table)),
{
}

/// A registration that the registry counts as the first sends one frame on the
/// public socket, and waits for one acknowledgement. That holds of the first ever,
/// and of the one that revives a subscription after its end.
pub proof fn a_first_registration_sends_one_frame(
    log: Log,
    entry: SubscriptionEntry,
    ref_id: Option<u64>,
    table: SocketTable,
    socket: u64,
    a: RegisterAnswers,
)
    requires
        a.count == 1,
        a.conn is Some,
        a.table(WsUrl::Public, table).sockets.at(WsUrl::Public) == Some(socket),
        a.issue.outcome is Sent,
    ensures
        ({
            let url = WsUrl::Public;
            let after = register_log(log, url, entry, ref_id, table, a);
            let due = ack_due(a.issue.now, a.issue.millis);
            &&& extends(log, after)
            &&& happened(log, after, Effect::Send) == seq![
                Request::SendFrame(url, socket, a.issue.text),
            ]
            &&& happened(log, after, Effect::Await) == seq![
                Request::ArmSubscribeAck(url, entry.key, due),
            ]
        }),
{
    let url = WsUrl::Public;
    let opened = register_opening_log(log, url, entry, ref_id, a);
    let after = issue_log(
        opened,
        url,
        socket,
        entry.key,
        SubscribeSend::RegisterPublic,
        a.issue,
    );
    assert(after == register_log(log, url, entry, ref_id, table, a));
    opening_sends_nothing(log, url, entry, ref_id, a);
    nothing_happened(log, opened, Effect::Send);
    nothing_happened(log, opened, Effect::Await);
    assert(extends(opened, after));
    happened_together(log, opened, after, Effect::Send);
    happened_together(log, opened, after, Effect::Await);
    let n = opened.len() as int;
    happened_once(opened, after, Effect::Send, n + 1);
    happened_once(opened, after, Effect::Await, n + 5);
    assert(happened(log, after, Effect::Send) =~= seq![
        Request::SendFrame(url, socket, a.issue.text),
    ]);
    assert(happened(log, after, Effect::Await) =~= seq![
        Request::ArmSubscribeAck(url, entry.key, ack_due(a.issue.now, a.issue.millis)),
    ]);
}

/// One of several registrations.
pub struct Registration {
    pub entry: SubscriptionEntry,
    pub ref_id: Option<u64>,
    pub answers: RegisterAnswers,
}

/// The sockets after some registrations on a connection.
pub open spec fn registrations_table(
    url: WsUrl,
    table: SocketTable,
    calls: Seq<Registration>,
) -> SocketTable
    decreases calls.len(),
{
    if calls.len() == 0 {
        table
    } else {
        calls.last().answers.table(url, registrations_table(url, table, calls.drop_last()))
    }
}

/// The requests of some registrations on a connection, one after the other.
pub open spec fn registrations_log(
    log: Log,
    url: WsUrl,
    table: SocketTable,
    calls: Seq<Registration>,
) -> Log
    decreases calls.len(),
{
    if calls.len() == 0 {
        log
    } else {
        let call = calls.last();
        register_log(
            registrations_log(log, url, table, calls.drop_last()),
            url,
            call.entry,
            call.ref_id,
            registrations_table(url, table, calls.drop_last()),
            call.answers,
        )
    }
}

/// However often one key is registered on a connection, only the first of the
/// registrations is seen on the wire and waits for an acknowledgement, as long as
/// nothing is released in between and the registry counts them up.
pub proof fn later_registrations_change_nothing_on_the_wire(
    log: Log,
    url: WsUrl,
    table: SocketTable,
    key: Key,
    calls: Seq<Registration>,
)
    requires
        calls.len() >= 1,
        forall|i: int|
            0 <= i < calls.len() ==> (#[trigger] calls[i]).entry.key == key
                && calls[i].answers.count == i + 1,
    ensures
        ({
            let first = calls[0];
            let once = register_log(
                log,
                url,
                first.entry,
                first.ref_id,
                table,
                first.answers,
            );
            let after = registrations_log(log, url, table, calls);
            &&& extends(once, after)
            &&& happened(once, after, Effect::Send) == Seq::<Request>::empty()
            &&& happened(once, after, Effect::Await) == Seq::<Request>::empty()
        }),
    decreases calls.len(),
{
    let most = calls.drop_last();
    let first = calls[0];
    let once = register_log(log, url, first.entry, first.ref_id, table, first.answers);
    let after = registrations_log(log, url, table, calls);
    if calls.len() == 1 {
        assert(registrations_log(log, url, table, most) == log);
        assert(registrations_table(url, table, most) == table);
        assert(after == once);
    } else {
        assert forall|i: int| 0 <= i < most.len() implies (#[trigger] most[i]).entry.key == key
            && most[i].answers.count == i + 1 by {
            assert(most[i] == calls[i]);
        }
        assert(most[0] == calls[0]);
        later_registrations_change_nothing_on_the_wire(log, url, table, key, most);
        let before = registrations_log(log, url, table, most);
        let call = calls[calls.len() - 1];
        let then = registrations_table(url, table, most);
        only_the_first_subscriber_sends(
            before,
            url,
            call.entry,
            call.ref_id,
            then,
            call.answers,
        );
        nothing_happened(before, after, Effect::Send);
        nothing_happened(before, after, Effect::Await);
        happened_together(once, before, after, Effect::Send);
        happened_together(once, before, after, Effect::Await);
        assert(happened(once, after, Effect::Send) =~= Seq::<Request>::empty());
        assert(happened(once, after, Effect::Await) =~= Seq::<Request>::empty());
    }
}

/// Any number of registrations of one key on the public connection, with a socket
/// that takes the frame and nothing released in between, send one frame and wait
/// for one acknowledgement in all.
pub proof fn one_key_is_subscribed_once(
    log: Log,
    table: SocketTable,
    socket: u64,
    key: Key,
    calls: Seq<Registration>,
)
    requires
        calls.len() >= 1,
        forall|i: int|
            0 <= i < calls.len() ==> (#[trigger] calls[i]).entry.key == key
                && calls[i].answers.count == i + 1,
        calls[0].answers.conn is Some,
        calls[0].answers.table(WsUrl::Public, table).sockets.at(WsUrl::Public) == Some(socket),
        calls[0].answers.issue.outcome is Sent,
    ensures
        ({
            let url = WsUrl::Public;
            let after = registrations_log(log, url, table, calls);
            let issue = calls[0].answers.issue;
            &&& happened(log, after, Effect::Send) == seq![
                Request::SendFrame(url, socket, issue.text),
            ]
            &&& happened(log, after, Effect::Await) == seq![
                Request::ArmSubscribeAck(url, key, ack_due(issue.now, issue.millis)),
            ]
        }),
{
    let url = WsUrl::Public;
    let first = calls[0];
    let issue = first.answers.issue;
    let once = register_log(log, url, first.entry, first.ref_id, table, first.answers);
    let after = registrations_log(log, url, table, calls);
    assert(first.entry.key == key && first.answers.count == 1);
    a_first_registration_sends_one_frame(
        log,
        first.entry,
        first.ref_id,
        table,
        socket,
        first.answers,
    );
    later_registrations_change_nothing_on_the_wire(log, url, table, key, calls);
    happened_together(log, once, after, Effect::Send);
    happened_together(log, once, after, Effect::Await);
    assert(happened(log, after, Effect::Send) =~= seq![
        Request::SendFrame(url, socket, issue.text),
    ]);
    assert(happened(log, after, Effect::Await) =~= seq![
        Request::ArmSubscribeAck(url, key, ack_due(issue.now, issue.millis)),
    ]);
}

/// The requests of some signed subscribes, one after the other.
pub open spec fn signed_subscribes_log(
    log: Log,
    url: WsUrl,
    keys: Seq<(Key, SubscribeParams)>,
    table: SocketTable,
    answers: Seq<SignedAnswers>,
) -> Log
    decreases answers.len(),
{
    if answers.len() == 0 {
        log
    } else {
        let row = keys[answers.len() - 1];
        single_signed_log(
            signed_subscribes_log(log, url, keys, table, answers.drop_last()),
            url,
            row.0,
            row.1,
            table,
            answers.last(),
        )
    }
}

/// The deferrals of some subscribes, in order.
pub open spec fn deferrals(url: WsUrl, keys: Seq<(Key, SubscribeParams)>, count: nat) -> Seq<
    Request,
> {
    Seq::new(count, |i: int| Request::DeferAuthSubscribe(url, keys[i].0, keys[i].1))
}

/// One signed subscribe without a token: its deferral, and the refresh if none is
/// awaited, after which one is.
proof fn one_deferral(
    log: Log,
    url: WsUrl,
    key: Key,
    params: SubscribeParams,
    table: SocketTable,
    a: SignedAnswers,
)
    requires
        !token_valid(a.token),
        a.awaiting == (last_set(log, Flag::AwaitingRefresh(url)) == Some(true)),
    ensures
        ({
            let after = single_signed_log(log, url, key, params, table, a);
            &&& extends(log, after)
            &&& grew_without(log, after, Effect::Send)
            &&& happened(log, after, Effect::Defer) == seq![
                Request::DeferAuthSubscribe(url, key, params),
            ]
            &&& happened(log, after, Effect::Refresh) == if a.awaiting {
                Seq::<Request>::empty()
            } else {
                seq![Request::ForceRefresh]
            }
            &&& last_set(after, Flag::AwaitingRefresh(url)) == Some(true)
        }),
{
    let after = single_signed_log(log, url, key, params, table, a);
    let n = log.len() as int;
    happened_once(log, after, Effect::Defer, n + 2);
    if a.awaiting {
        nothing_happened(log, after, Effect::Refresh);
        last_set_stays(log, after, Flag::AwaitingRefresh(url));
    } else {
        happened_once(log, after, Effect::Refresh, n + 5);
        last_set_at(after, Flag::AwaitingRefresh(url), n + 4);
    }
}

/// Any number of signed subscribes in a row without a token send nothing, are all
/// deferred in order, and start one token refresh in all, which is awaited from
/// then on. The awaiting flag reads back what it was set to.
pub proof fn a_row_without_a_token_starts_one_refresh(
    log: Log,
    url: WsUrl,
    keys: Seq<(Key, SubscribeParams)>,
    table: SocketTable,
    answers: Seq<SignedAnswers>,
)
    requires
        1 <= answers.len() <= keys.len(),
        last_set(log, Flag::AwaitingRefresh(url)) != Some(true),
        forall|i: int|
            0 <= i < answers.len() ==> {
                &&& !token_valid((#[trigger] answers[i]).token)
                &&& answers[i].awaiting == (last_set(
                    signed_subscribes_log(log, url, keys, table, answers.take(i)),
                    Flag::AwaitingRefresh(url),
                ) == Some(true))
            },
    ensures
        ({
            let after = signed_subscribes_log(log, url, keys, table, answers);
            &&& extends(log, after)
            &&& happened(log, after, Effect::Send) == Seq::<Request>::empty()
            &&& happened(log, after, Effect::Defer) == deferrals(url, keys, answers.len())
            &&& happened(log, after, Effect::Refresh) == seq![Request::ForceRefresh]
            &&& last_set(after, Flag::AwaitingRefresh(url)) == Some(true)
        }),
    decreases answers.len(),
{
    let last = answers.len() - 1;
    let most = answers.drop_last();
    let before = signed_subscribes_log(log, url, keys, table, most);
    let after = signed_subscribes_log(log, url, keys, table, answers);
    assert(answers.take(last) =~= most);
    assert(!token_valid(answers[last].token));
    one_deferral(before, url, keys[last].0, keys[last].1, table, answers[last]);
    nothing_happened(before, after, Effect::Send);
    if last == 0 {
        assert(before == log);
        assert(happened(log, after, Effect::Defer) =~= deferrals(url, keys, answers.len()));
    } else {
        assert forall|i: int| 0 <= i < most.len() implies {
            &&& !token_valid((#[trigger] most[i]).token)
            &&& most[i].awaiting == (last_set(
                signed_subscribes_log(log, url, keys, table, most.take(i)),
                Flag::AwaitingRefresh(url),
            ) == Some(true))
        } by {
            assert(most[i] == answers[i]);
            assert(most.take(i) =~= answers.take(i));
        }
        a_row_without_a_token_starts_one_refresh(log, url, keys, table, most);
        happened_together(log, before, after, Effect::Send);
        happened_together(log, before, after, Effect::Defer);
        happened_together(log, before, after, Effect::Refresh);
        assert(happened(log, after, Effect::Send) =~= Seq::<Request>::empty());
        assert(happened(log, after, Effect::Defer) =~= deferrals(url, keys, answers.len()));
        assert(happened(log, after, Effect::Refresh) =~= seq![Request::ForceRefresh]);
    }
}

/// Whether a request puts a frame on a socket or waits for what comes of one.
pub open spec fn is_of_the_wire(request: Request) -> bool {
    ||| request is SendFrame
    ||| request is RecordSubscribeReqId
    ||| request is ArmSubscribeAck
    ||| request is SubscribeFailure
    ||| request is HandleEvent
}

/// A frame that is taken is waited for under the id that it was sent with, for
/// exactly the allowed time from when it was sent. One that found the queue full
/// counts against its subscription, and one that found the writer gone is a
/// transient abnormal close of the connection; neither is waited for.
pub proof fn a_frame_is_waited_for_under_its_id(
    log: Log,
    url: WsUrl,
    socket: u64,
    key: Key,
    send: SubscribeSend,
    a: IssueAnswers,
)
    requires
        a.clocked(),
    ensures
        ({
            let after = issue_log(log, url, socket, key, send, a);
            let wire = picked(log, after, |request: Request| is_of_the_wire(request));
            let n = log.len() as int;
            &&& extends(log, after)
            &&& after[n] == (Request::NextSubscribeReqId(url), Reply::Count(a.req_id))
            &&& wire.len() > 0 && wire[0].0 == Request::SendFrame(url, socket, a.text)
            &&& match a.outcome {
                SendOutcome::Sent => {
                    &&& wire.len() == 3
                    &&& wire[0].1 == Reply::Send(SendResult::Sent)
                    &&& wire[1].0 == Request::RecordSubscribeReqId(url, a.req_id, key)
                    &&& wire[2].0 is ArmSubscribeAck
                    &&& wire[2].0->ArmSubscribeAck_0 == url
                    &&& wire[2].0->ArmSubscribeAck_1 == key
                    &&& wire[2].0->ArmSubscribeAck_2 == a.now + (match a.millis {
                        Some(millis) => millis as int,
                        None => 5_000,
                    }) * 1_000_000
                    &&& after[n + 2] == (Request::SubscribeAckTimeoutMs, Reply::Millis(a.millis))
                    &&& after[n + 3] == (Request::ConnClock(url), Reply::Instant(a.now))
                },
                SendOutcome::Backpressured(conn) => {
                    &&& wire.len() == 2
                    &&& wire[0].1 == Reply::Send(SendResult::Backpressure)
                    &&& wire[1] == (Request::SubscribeFailure(url, key), Reply::View(conn))
                },
                SendOutcome::WriterDead(conn) => {
                    &&& wire.len() == 2
                    &&& wire[0].1 == Reply::Send(SendResult::WriterClosed)
                    &&& wire[1].1 == Reply::View(conn)
                    &&& wire[1].0 is HandleEvent
                    &&& wire[1].0->HandleEvent_0 == url
                    &&& wire[1].0->HandleEvent_1 is WireAbnormalClose
                    &&& wire[1].0->HandleEvent_1->WireAbnormalClose_error.transient
                    &&& wire[1].0->HandleEvent_1->WireAbnormalClose_error.kind is AbnormalClose
                },
            }
        }),
{
    picking(log, |request: Request| is_of_the_wire(request));
}

/// A signed frame goes out only with a token that has not expired by the clock of
/// its connection, only on a socket, and carries that token; nothing else of the
/// connection is touched.
pub proof fn a_signed_subscribe_is_sent_with_its_token(
    log: Log,
    url: WsUrl,
    key: Key,
    params: SubscribeParams,
    table: SocketTable,
    left: Option<ConnView>,
    a: SignedAnswers,
)
    requires
        single_signed_done(
            log,
            single_signed_log(log, url, key, params, table, a),
            url,
            key,
            params,
            table,
            left,
            a,
        ),
    ensures
        ({
            let after = single_signed_log(log, url, key, params, table, a);
            let sent = happened(log, after, Effect::Send);
            let deferred = happened(log, after, Effect::Defer);
            let valid = a.token is Some && !a.token->Some_0.expired;
            let n = log.len() as int;
            &&& extends(log, after)
            &&& after[n] == (Request::ConnClock(url), Reply::Instant(a.now))
            &&& after[n + 1] == (Request::CachedToken(Some(a.now)), Reply::Token(a.token))
            &&& match (valid, table.sockets.at(url)) {
                (true, Some(socket)) => {
                    &&& sent == seq![Request::SendFrame(url, socket, a.issue.text)]
                    &&& deferred == Seq::<Request>::empty()
                    &&& a.issue.text@ == json_text(
                        tokened(
                            subscription_json(
                                SubscriptionMethod::Subscribe,
                                key,
                                params,
                                a.issue.req_id,
                            ),
                            a.token->Some_0.value@,
                        ),
                    )
                    &&& after[n + 2] == (
                        Request::NextSubscribeReqId(url),
                        Reply::Count(a.issue.req_id),
                    )
                    &&& left == match a.issue.outcome {
                        SendOutcome::Sent => None,
                        SendOutcome::Backpressured(conn) => Some(conn),
                        SendOutcome::WriterDead(conn) => Some(conn),
                    }
                },
                (true, None) => {
                    &&& sent == Seq::<Request>::empty()
                    &&& deferred == Seq::<Request>::empty()
                    &&& left is None
                },
                (false, _) => {
                    &&& sent == Seq::<Request>::empty()
                    &&& deferred == seq![Request::DeferAuthSubscribe(url, key, params)]
                    &&& left is None
                },
            }
        }),
{
    let after = single_signed_log(log, url, key, params, table, a);
    let n = log.len() as int;
    if token_valid(a.token) {
        assert(grew_without(log, after, Effect::Defer));
        nothing_happened(log, after, Effect::Defer);
        if table.sockets.at(url) is Some {
            happened_once(log, after, Effect::Send, n + 3);
        } else {
            nothing_happened(log, after, Effect::Send);
        }
    } else {
        assert(grew_without(log, after, Effect::Send));
        nothing_happened(log, after, Effect::Send);
        happened_once(log, after, Effect::Defer, n + 2);
    }
}

/// Signing in sends one frame: the first signed subscribe of the connection,
/// composed with a token that has not expired and stamped with a fresh id. Without
/// a token nothing is sent, and a refresh is started and awaited; without a
/// subscription nothing is sent, and the connection is looked at for a bare order.
pub proof fn signing_in_sends_one_frame(
    log: Log,
    url: WsUrl,
    state: ConnectionState,
    table: SocketTable,
    a: FirstSignedAnswers,
)
    requires
        first_signed_text(url, table, a),
    ensures
        ({
            let after = first_signed_log(log, url, state, table, a);
            let sent = happened(log, after, Effect::Send);
            let refreshed = happened(log, after, Effect::Refresh);
            let valid = a.token is Some && !a.token->Some_0.expired;
            let n = log.len() as int;
            &&& extends(log, after)
            &&& after[n] == (Request::ConnClock(url), Reply::Instant(a.now))
            &&& after[n + 1] == (Request::CachedToken(Some(a.now)), Reply::Token(a.token))
            &&& !valid ==> {
                &&& sent == Seq::<Request>::empty()
                &&& refreshed == seq![Request::ForceRefresh]
                &&& last_set(after, Flag::AwaitingRefresh(url)) == Some(true)
            }
            &&& valid ==> refreshed == Seq::<Request>::empty()
            &&& valid && table.sockets.at(url) is None ==> sent == Seq::<Request>::empty()
            &&& valid && table.sockets.at(url) is Some ==> {
                &&& after[n + 2] == (
                    Request::ComposeFirstSignedSubscribe(url, a.token->Some_0.value),
                    Reply::Frame(a.first),
                )
                &&& a.first is None ==> sent == Seq::<Request>::empty() && last_set(
                    after,
                    Flag::AuthSendReady,
                ) is Some
                &&& a.first is Some ==> {
                    &&& sent == seq![
                        Request::SendFrame(url, table.sockets.at(url)->Some_0, a.issue.text),
                    ]
                    &&& after[n + 3] == (
                        Request::NextSubscribeReqId(url),
                        Reply::Count(a.issue.req_id),
                    )
                    &&& a.issue.text@ == json_text(
                        stamped(json_of(a.first->Some_0.1), a.issue.req_id),
                    )
                    &&& a.issue.outcome is Sent ==> happened(log, after, Effect::Await) == seq![
                        Request::ArmSubscribeAck(
                            url,
                            a.first->Some_0.0,
                            ack_due(a.issue.now, a.issue.millis),
                        ),
                    ]
                }
            }
        }),
{
    let after = first_signed_log(log, url, state, table, a);
    let n = log.len() as int;
    if !token_valid(a.token) {
        nothing_happened(log, after, Effect::Send);
        happened_once(log, after, Effect::Refresh, n + 3);
        last_set_at(after, Flag::AwaitingRefresh(url), n + 2);
    } else {
        assert(grew_without(log, after, Effect::Refresh));
        nothing_happened(log, after, Effect::Refresh);
        if table.sockets.at(url) is None {
            nothing_happened(log, after, Effect::Send);
        } else if a.first is None {
            assert(grew_without(log, after, Effect::Send));
            nothing_happened(log, after, Effect::Send);
            let stored: int = n + 5 + if url == WsUrl::Auth && state
                == ConnectionState::Authenticating {
                if a.reads.auth_has_entry {
                    1int
                } else {
                    2int
                }
            } else {
                0int
            };
            assert(after[stored].0 is StoreAuthSendReady);
            last_set_at(after, Flag::AuthSendReady, stored);
        } else {
            happened_once(log, after, Effect::Send, n + 4);
            if a.issue.outcome is Sent {
                happened_once(log, after, Effect::Await, n + 8);
            }
        }
    }
}

/// A resend is the subscribe of what the registry holds now. A key that is gone is
/// left alone. Without a token on the auth connection the subscribe is deferred
/// with those params, the resubscription may come to its end without it, and one
/// refresh is on its way; otherwise one frame goes out on the socket, signed on the
/// auth connection and bare on the public one.
pub proof fn a_resend_issues_the_subscribe_anew(
    log: Log,
    url: WsUrl,
    key: Key,
    table: SocketTable,
    a: ResendAnswers,
)
    requires
        resend_text(url, key, table, a),
    ensures
        ({
            let after = resend_log(log, url, key, table, a);
            let sent = happened(log, after, Effect::Send);
            let deferred = happened(log, after, Effect::Defer);
            let refreshed = happened(log, after, Effect::Refresh);
            let valid = a.token is Some && !a.token->Some_0.expired;
            let completes = made(log, after, Request::CompleteResubscribeIfEmpty(url));
            let nothing = Seq::<Request>::empty();
            let n = log.len() as int;
            &&& extends(log, after)
            &&& after[n] == (Request::ParamsFor(key), Reply::Params(a.params))
            &&& a.params is Some && url == WsUrl::Auth ==> {
                &&& after[n + 1] == (Request::ConnClock(url), Reply::Instant(a.now))
                &&& after[n + 2] == (Request::CachedToken(Some(a.now)), Reply::Token(a.token))
            }
            &&& match a.params {
                None => sent == nothing && deferred == nothing && refreshed == nothing
                    && !completes,
                Some(params) => if url == WsUrl::Auth && !valid {
                    &&& sent == nothing
                    &&& deferred == seq![Request::DeferAuthSubscribe(url, key, params)]
                    &&& completes
                    &&& refreshed == if a.awaiting {
                        nothing
                    } else {
                        seq![Request::ForceRefresh]
                    }
                } else {
                    &&& deferred == nothing && refreshed == nothing && !completes
                    &&& match table.sockets.at(url) {
                        None => sent == nothing,
                        Some(socket) => {
                            let frame = subscription_json(
                                SubscriptionMethod::Subscribe,
                                key,
                                params,
                                a.issue.req_id,
                            );
                            &&& sent == seq![Request::SendFrame(url, socket, a.issue.text)]
                            &&& a.issue.text@ == json_text(
                                if url == WsUrl::Auth {
                                    tokened(frame, a.token->Some_0.value@)
                                } else {
                                    frame
                                },
                            )
                            &&& a.issue.outcome is Sent ==> happened(log, after, Effect::Await)
                                == seq![
                                Request::ArmSubscribeAck(
                                    url,
                                    key,
                                    ack_due(a.issue.now, a.issue.millis),
                                ),
                            ]
                        },
                    }
                },
            }
        }),
{
    let after = resend_log(log, url, key, table, a);
    let n = log.len() as int;
    let at: int = n + if url == WsUrl::Auth {
        3int
    } else {
        1int
    };
    if a.params is None {
        nothing_happened(log, after, Effect::Send);
        nothing_happened(log, after, Effect::Defer);
        nothing_happened(log, after, Effect::Refresh);
    } else if url == WsUrl::Auth && !token_valid(a.token) {
        nothing_happened(log, after, Effect::Send);
        happened_once(log, after, Effect::Defer, at + 1);
        assert(after[at + 2].0 == Request::CompleteResubscribeIfEmpty(url));
        if a.awaiting {
            nothing_happened(log, after, Effect::Refresh);
        } else {
            happened_once(log, after, Effect::Refresh, at + 5);
        }
    } else {
        assert(grew_without(log, after, Effect::Defer));
        assert(grew_without(log, after, Effect::Refresh));
        nothing_happened(log, after, Effect::Defer);
        nothing_happened(log, after, Effect::Refresh);
        if table.sockets.at(url) is Some {
            happened_once(log, after, Effect::Send, at + 1);
            if a.issue.outcome is Sent {
                happened_once(log, after, Effect::Await, at + 5);
            }
        } else {
            nothing_happened(log, after, Effect::Send);
        }
    }
}

proof fn frames_are_sent_in_order(
    log: Log,
    url: WsUrl,
    socket: u64,
    frames: Seq<(Key, Value)>,
    issues: Seq<IssueAnswers>,
)
    requires
        issues.len() <= frames.len(),
    ensures
        ({
            let after = frames_log(log, url, socket, frames, issues);
            &&& extends(log, after)
            &&& happened(log, after, Effect::Send) == Seq::new(
                issues.len(),
                |i: int| Request::SendFrame(url, socket, issues[i].text),
            )
            &&& (forall|i: int| 0 <= i < issues.len() ==> (#[trigger] issues[i]).outcome is Sent)
                ==> happened(log, after, Effect::Await) == Seq::new(
                issues.len(),
                |i: int|
                    Request::ArmSubscribeAck(
                        url,
                        frames[i].0,
                        ack_due(issues[i].now, issues[i].millis),
                    ),
            )
        }),
    decreases issues.len(),
{
    let after = frames_log(log, url, socket, frames, issues);
    if issues.len() > 0 {
        let last = issues.len() - 1;
        let most = issues.drop_last();
        let before = frames_log(log, url, socket, frames, most);
        frames_are_sent_in_order(log, url, socket, frames, most);
        happened_once(before, after, Effect::Send, before.len() as int + 1);
        happened_together(log, before, after, Effect::Send);
        happened_together(log, before, after, Effect::Await);
        if forall|i: int| 0 <= i < issues.len() ==> (#[trigger] issues[i]).outcome is Sent {
            assert forall|i: int| 0 <= i < most.len() implies (
            #[trigger] most[i]).outcome is Sent by {
                assert(most[i] == issues[i]);
            }
            assert(issues[last].outcome is Sent);
            happened_once(before, after, Effect::Await, before.len() as int + 5);
        }
    }
    assert(happened(log, after, Effect::Send) =~= Seq::new(
        issues.len(),
        |i: int| Request::SendFrame(url, socket, issues[i].text),
    ));
    if forall|i: int| 0 <= i < issues.len() ==> (#[trigger] issues[i]).outcome is Sent {
        assert(happened(log, after, Effect::Await) =~= Seq::new(
            issues.len(),
            |i: int|
                Request::ArmSubscribeAck(
                    url,
                    frames[i].0,
                    ack_due(issues[i].now, issues[i].millis),
                ),
        ));
    }
}

/// The replay after a handshake composes the frames of all subscriptions but the
/// one that was sent already, signed with the token, and sends them in order, each
/// once under an id of its own. It goes to the end, unless the writer is gone or
/// the connection has left `Resubscribing`; where every frame is taken, every
/// acknowledgement is waited for.
pub proof fn a_replay_sends_every_frame_once(
    log: Log,
    url: WsUrl,
    already_sent: Option<Key>,
    table: SocketTable,
    socket: u64,
    a: RemainingAnswers,
)
    requires
        a.token is Some,
        !a.token->Some_0.expired,
        table.sockets.at(url) == Some(socket),
        replay_of(a.frames@, a.issues),
    ensures
        ({
            let after = remaining_log(log, url, already_sent, table, a);
            let token = a.token->Some_0.value;
            let n = log.len() as int;
            let all = forall|i: int|
                0 <= i < a.issues.len() ==> (#[trigger] a.issues[i]).outcome is Sent;
            &&& extends(log, after)
            &&& after[n] == (Request::ConnClock(url), Reply::Instant(a.now))
            &&& after[n + 1] == (Request::CachedToken(Some(a.now)), Reply::Token(a.token))
            &&& after[n + 2].1 == Reply::Frames(a.frames)
            &&& after[n + 2].0 == match already_sent {
                Some(key) => Request::ComposeRemainingSignedSubscribes(url, token, key),
                None => Request::ComposeSignedSubscribeFrames(url, token),
            }
            &&& happened(log, after, Effect::Send) == Seq::new(
                a.issues.len(),
                |i: int| Request::SendFrame(url, socket, a.issues[i].text),
            )
            &&& forall|i: int|
                0 <= i < a.issues.len() ==> (#[trigger] a.issues[i]).text@ == json_text(
                    stamped(json_of(a.frames@[i].1), a.issues[i].req_id),
                )
            &&& a.issues.len() != a.frames@.len() ==> a.issues.len() > 0
                && match a.issues.last().outcome {
                SendOutcome::Sent => false,
                SendOutcome::Backpressured(conn) => conn.state != ConnectionState::Resubscribing,
                SendOutcome::WriterDead(_) => true,
            }
            &&& all ==> a.issues.len() == a.frames@.len() && happened(log, after, Effect::Await)
                == Seq::new(
                a.frames@.len(),
                |i: int|
                    Request::ArmSubscribeAck(
                        url,
                        a.frames@[i].0,
                        ack_due(a.issues[i].now, a.issues[i].millis),
                    ),
            )
        }),
{
    let after = remaining_log(log, url, already_sent, table, a);
    let composed = asked(
        asked(
            asked(log, Request::ConnClock(url), Reply::Instant(a.now)),
            Request::CachedToken(Some(a.now)),
            Reply::Token(a.token),
        ),
        remaining_request(url, a.token->Some_0.value, already_sent),
        Reply::Frames(a.frames),
    );
    let n = log.len() as int;
    frames_are_sent_in_order(composed, url, socket, a.frames@, a.issues);
    nothing_happened(log, composed, Effect::Send);
    nothing_happened(log, composed, Effect::Await);
    happened_together(log, composed, after, Effect::Send);
    happened_together(log, composed, after, Effect::Await);
    assert(happened(log, after, Effect::Send) =~= happened(composed, after, Effect::Send));
    assert(happened(log, after, Effect::Await) =~= happened(composed, after, Effect::Await));
    assert(after[n] == composed[n] && after[n + 1] == composed[n + 1] && after[n + 2]
        == composed[n + 2]);
    if a.issues.len() > 0 {
        let last = a.issues.len() - 1;
        assert(a.issues[last] == a.issues.last());
    }
}

/// A registration is recorded at the instant of the bus, as held by a guard exactly
/// when there is one, and then that guard is noted as the holder, before anything
/// is asked of the connection.
pub proof fn a_registration_is_recorded(
    log: Log,
    url: WsUrl,
    entry: SubscriptionEntry,
    ref_id: Option<u64>,
    table: SocketTable,
    a: RegisterAnswers,
)
    ensures
        ({
            let after = register_log(log, url, entry, ref_id, table, a);
            let n = log.len() as int;
            &&& extends(register_opening_log(log, url, entry, ref_id, a), after)
            &&& extends(log, after)
            &&& after[n] == (Request::BusClock, Reply::Clock(a.clock))
            &&& after[n + 1] == (
                Request::Register(entry, a.clock.now, ref_id is Some),
                Reply::Count(a.count),
            )
            &&& match ref_id {
                Some(id) => after[n + 2].0 == Request::RecordGuardRef(id, entry.key) && after[n
                    + 3] == (Request::Conn(url), Reply::Conn(a.conn)),
                None => after[n + 2] == (Request::Conn(url), Reply::Conn(a.conn)),
            }
        }),
{
    let after = register_log(log, url, entry, ref_id, table, a);
    let opened = register_opening_log(log, url, entry, ref_id, a);
    let n = log.len() as int;
    if a.conn is Some {
        let sent = register_wire_log(opened, url, entry, table, a);
        assert(extends(opened, sent));
        assert(extends(sent, after));
        assert forall|i: int| 0 <= i < opened.len() implies #[trigger] after[i] == opened[i] by {
            assert(sent[i] == opened[i]);
        }
    }
    opening_sends_nothing(log, url, entry, ref_id, a);
    assert(after[n] == opened[n] && after[n + 1] == opened[n + 1] && after[n + 2] == opened[n
        + 2]);
    if ref_id is Some {
        assert(after[n + 3] == opened[n + 3]);
    }
}

proof fn a_registration_acts_by_its_subscribe(
    log: Log,
    url: WsUrl,
    entry: SubscriptionEntry,
    ref_id: Option<u64>,
    table: SocketTable,
    a: RegisterAnswers,
)
    requires
        a.conn is Some,
    ensures
        ({
            let opened = register_opening_log(log, url, entry, ref_id, a);
            let sent = register_wire_log(opened, url, entry, table, a);
            let after = register_log(log, url, entry, ref_id, table, a);
            &&& extends(opened, sent)
            &&& happened(log, after, Effect::Send) == happened(opened, sent, Effect::Send)
            &&& happened(log, after, Effect::Defer) == happened(opened, sent, Effect::Defer)
        }),
{
    let after = register_log(log, url, entry, ref_id, table, a);
    let opened = register_opening_log(log, url, entry, ref_id, a);
    let sent = register_wire_log(opened, url, entry, table, a);
    opening_sends_nothing(log, url, entry, ref_id, a);
    nothing_happened(log, opened, Effect::Send);
    assert(grew_without(log, opened, Effect::Defer));
    nothing_happened(log, opened, Effect::Defer);
    assert(extends(opened, sent));
    assert(grew_without(sent, after, Effect::Send));
    assert(grew_without(sent, after, Effect::Defer));
    nothing_happened(sent, after, Effect::Send);
    nothing_happened(sent, after, Effect::Defer);
    happened_together(log, opened, sent, Effect::Send);
    happened_together(log, opened, sent, Effect::Defer);
    happened_together(log, sent, after, Effect::Send);
    happened_together(log, sent, after, Effect::Defer);
    assert(happened(log, after, Effect::Send) =~= happened(opened, sent, Effect::Send));
    assert(happened(log, after, Effect::Defer) =~= happened(opened, sent, Effect::Defer));
}

/// The first subscriber of a key on the auth connection is signed and sent where the
/// connection is open, resubscribes, or authenticates with nothing on the wire;
/// without a token it is deferred there with its params. On any other connection it
/// waits for the handshake, and is neither sent nor deferred.
pub proof fn a_first_registration_is_signed(
    log: Log,
    entry: SubscriptionEntry,
    ref_id: Option<u64>,
    table: SocketTable,
    a: RegisterAnswers,
)
    requires
        register_text(WsUrl::Auth, entry, table, a),
        a.conn is Some,
        a.count == 1,
    ensures
        ({
            let url = WsUrl::Auth;
            let after = register_log(log, url, entry, ref_id, table, a);
            let sent = happened(log, after, Effect::Send);
            let deferred = happened(log, after, Effect::Defer);
            let started = a.conn->Some_0.state == ConnectionState::Idle;
            let current = if started {
                a.started
            } else {
                a.conn->Some_0
            };
            let takes = current.state == ConnectionState::Open || current.state
                == ConnectionState::Resubscribing || current.authenticating_nothing_in_flight;
            let valid = a.signed.token is Some && !a.signed.token->Some_0.expired;
            let socket = if started {
                current.socket
            } else {
                table.sockets.at(url)
            };
            let nothing = Seq::<Request>::empty();
            &&& takes && !valid ==> sent == nothing && deferred == seq![
                Request::DeferAuthSubscribe(url, entry.key, entry.params),
            ]
            &&& takes && valid ==> deferred == nothing && sent == match socket {
                Some(socket) => seq![Request::SendFrame(url, socket, a.signed.issue.text)],
                None => nothing,
            }
            &&& takes && valid && socket is Some ==> a.signed.issue.text@ == json_text(
                tokened(
                    subscription_json(
                        SubscriptionMethod::Subscribe,
                        entry.key,
                        entry.params,
                        a.signed.issue.req_id,
                    ),
                    a.signed.token->Some_0.value@,
                ),
            )
            &&& !takes ==> sent == nothing && deferred == nothing
        }),
{
    let url = WsUrl::Auth;
    let opened = register_opening_log(log, url, entry, ref_id, a);
    let sent = register_wire_log(opened, url, entry, table, a);
    let then = a.table(url, table);
    a_registration_acts_by_its_subscribe(log, url, entry, ref_id, table, a);
    if !a.subscribes(url) {
        nothing_happened(opened, sent, Effect::Send);
        nothing_happened(opened, sent, Effect::Defer);
    } else {
        let left = if single_signed_sends(url, then, a.signed) {
            left_by(a.signed.issue.outcome)
        } else {
            None
        };
        a_signed_subscribe_is_sent_with_its_token(
            opened,
            url,
            entry.key,
            entry.params,
            then,
            left,
            a.signed,
        );
    }
}

/// The first subscriber of a key on the public connection is sent bare, on whatever
/// socket the connection has, and never deferred.
pub proof fn a_first_public_registration_is_sent_bare(
    log: Log,
    entry: SubscriptionEntry,
    ref_id: Option<u64>,
    table: SocketTable,
    a: RegisterAnswers,
)
    requires
        register_text(WsUrl::Public, entry, table, a),
        a.conn is Some,
        a.count == 1,
    ensures
        ({
            let url = WsUrl::Public;
            let after = register_log(log, url, entry, ref_id, table, a);
            let socket = if a.conn->Some_0.state == ConnectionState::Idle {
                a.started.socket
            } else {
                table.sockets.at(url)
            };
            &&& happened(log, after, Effect::Defer) == Seq::<Request>::empty()
            &&& happened(log, after, Effect::Send) == match socket {
                Some(socket) => seq![Request::SendFrame(url, socket, a.issue.text)],
                None => Seq::empty(),
            }
            &&& socket is Some ==> a.issue.text@ == json_text(
                subscription_json(
                    SubscriptionMethod::Subscribe,
                    entry.key,
                    entry.params,
                    a.issue.req_id,
                ),
            )
        }),
{
    let url = WsUrl::Public;
    let opened = register_opening_log(log, url, entry, ref_id, a);
    let sent = register_wire_log(opened, url, entry, table, a);
    let then = a.table(url, table);
    a_registration_acts_by_its_subscribe(log, url, entry, ref_id, table, a);
    assert(grew_without(opened, sent, Effect::Defer));
    nothing_happened(opened, sent, Effect::Defer);
    if then.sockets.at(url) is Some {
        happened_once(opened, sent, Effect::Send, opened.len() as int + 1);
    } else {
        nothing_happened(opened, sent, Effect::Send);
    }
}

/// What sending subscribes on a connection may ask for: reading the clock and the
/// token, the frames of that connection and what comes of sending them, and deferring
/// or refreshing where there is no token.
pub open spec fn is_of_subscribing(request: Request, url: WsUrl) -> bool {
    match request {
        Request::ConnClock(of)
        | Request::LiveSubscribeKeys(of, _)
        | Request::ComposeSubscribeFrames(of)
        | Request::ComposeSignedSubscribeFrames(of, _)
        | Request::ComposeRemainingSignedSubscribes(of, _, _)
        | Request::ComposeFirstSignedSubscribe(of, _)
        | Request::NextSubscribeReqId(of)
        | Request::RecordSubscribeReqId(of, _, _)
        | Request::ArmSubscribeAck(of, _, _)
        | Request::SubscribeFailure(of, _)
        | Request::DeferAuthSubscribe(of, _, _)
        | Request::IsAwaitingTokenRefresh(of)
        | Request::SendFrame(of, _, _) => of == url,
        Request::SetAwaitingTokenRefresh(of, awaiting) => of == url && awaiting,
        Request::HandleEvent(of, event) => of == url && event is WireAbnormalClose,
        Request::Say(
            Note::SubscribeBackpressured { url: of, .. }
            | Note::SubscribeWriterClosed { url: of, .. },
        ) => of == url,
        Request::CachedToken(_) | Request::SubscribeAckTimeoutMs | Request::ForceRefresh => true,
        _ => false,
    }
}

proof fn deferring_stays(log: Log, url: WsUrl, keys: Seq<(Key, SubscribeParams)>, count: nat)
    ensures
        each_obeys(
            log,
            defer_all_log(log, url, keys, count),
            |request: Request| is_of_subscribing(request, url),
        ),
    decreases count,
{
    if count > 0 {
        deferring_stays(log, url, keys, (count - 1) as nat);
    }
}

proof fn frames_stay(
    log: Log,
    url: WsUrl,
    socket: u64,
    frames: Seq<(Key, Value)>,
    issues: Seq<IssueAnswers>,
)
    ensures
        each_obeys(
            log,
            frames_log(log, url, socket, frames, issues),
            |request: Request| is_of_subscribing(request, url),
        ),
    decreases issues.len(),
{
    if issues.len() > 0 {
        frames_stay(log, url, socket, frames, issues.drop_last());
        let rule = |request: Request| is_of_subscribing(request, url);
        let before = frames_log(log, url, socket, frames, issues.drop_last());
        let after = frames_log(log, url, socket, frames, issues);
        assert(each_obeys(before, after, rule));
        each_obeys_together(log, before, after, rule);
    }
}

/// A replay touches nothing but its own connection, shows and decides nothing, and
/// the only event that it can cost the connection is that of a dead writer.
pub proof fn a_replay_stays_on_its_connection(
    log: Log,
    url: WsUrl,
    already_sent: Option<Key>,
    table: SocketTable,
    a: RemainingAnswers,
)
    ensures
        each_obeys(
            log,
            remaining_log(log, url, already_sent, table, a),
            |request: Request| is_of_subscribing(request, url),
        ),
{
    let rule = |request: Request| is_of_subscribing(request, url);
    let after = remaining_log(log, url, already_sent, table, a);
    let read = asked(
        asked(log, Request::ConnClock(url), Reply::Instant(a.now)),
        Request::CachedToken(Some(a.now)),
        Reply::Token(a.token),
    );
    if !token_valid(a.token) {
        let listed = asked(
            read,
            Request::LiveSubscribeKeys(url, already_sent),
            Reply::Keys(a.keys),
        );
        let deferred = defer_all_log(listed, url, a.keys@, a.keys@.len());
        deferring_stays(listed, url, a.keys@, a.keys@.len());
        assert(each_obeys(log, listed, rule));
        each_obeys_together(log, listed, deferred, rule);
        assert(each_obeys(deferred, after, rule));
        each_obeys_together(log, deferred, after, rule);
    } else if table.sockets.at(url) is Some {
        let composed = asked(
            read,
            remaining_request(url, a.token->Some_0.value, already_sent),
            Reply::Frames(a.frames),
        );
        frames_stay(composed, url, table.sockets.at(url)->Some_0, a.frames@, a.issues);
        assert(each_obeys(log, composed, rule));
        each_obeys_together(log, composed, after, rule);
    }
}

/// What a send leaves of a connection is what the connection said: after a frame that
/// was taken it is as it was, and after one that was not it is as the failure left
/// it. Sending shows nothing by itself.
pub proof fn a_send_leaves_what_was_told(
    log: Log,
    url: WsUrl,
    socket: u64,
    key: Key,
    send: SubscribeSend,
    a: IssueAnswers,
)
    ensures
        ({
            let after = issue_log(log, url, socket, key, send, a);
            &&& extends(log, after)
            &&& shows_what_is(log, after)
            &&& last_told(after, url) == match left_by(a.outcome) {
                Some(left) => Some(left),
                None => last_told(log, url),
            }
        }),
{
    showing(log);
}

/// Signing in leaves the connection as it was last told, and shows nothing of it.
pub proof fn signing_in_leaves_what_was_told(
    log: Log,
    url: WsUrl,
    state: ConnectionState,
    table: SocketTable,
    a: FirstSignedAnswers,
)
    ensures
        ({
            let after = first_signed_log(log, url, state, table, a);
            let sends = token_valid(a.token) && table.sockets.at(url) is Some && a.first is Some;
            &&& extends(log, after)
            &&& shows_what_is(log, after)
            &&& last_told(after, url) == if sends && left_by(a.issue.outcome) is Some {
                left_by(a.issue.outcome)
            } else {
                last_told(log, url)
            }
        }),
{
    showing(log);
}

/// A signed subscribe leaves the connection as it was last told.
pub proof fn a_signed_subscribe_leaves_what_was_told(
    log: Log,
    url: WsUrl,
    key: Key,
    params: SubscribeParams,
    table: SocketTable,
    a: SignedAnswers,
)
    ensures
        ({
            let after = single_signed_log(log, url, key, params, table, a);
            &&& extends(log, after)
            &&& shows_what_is(log, after)
            &&& last_told(after, url) == if single_signed_sends(url, table, a) && left_by(
                a.issue.outcome,
            ) is Some {
                left_by(a.issue.outcome)
            } else {
                last_told(log, url)
            }
        }),
{
    showing(log);
}

/// What a registration hands back is the connection as it was last told, and whatever
/// it shows is what the connection said. The socket that the connection had after its
/// start is the one in the table.
pub proof fn a_registration_hands_back_what_was_told(
    log: Log,
    url: WsUrl,
    entry: SubscriptionEntry,
    ref_id: Option<u64>,
    table: SocketTable,
    a: RegisterAnswers,
)
    ensures
        ({
            let after = register_log(log, url, entry, ref_id, table, a);
            let started = a.conn is Some && a.conn->Some_0.state == ConnectionState::Idle;
            &&& shows_what_is(log, after)
            &&& a.conn is Some ==> a.last(url, table) == last_told(after, url)
            &&& a.conn is None ==> a.last(url, table) is None
            &&& a.conn is Some && url == WsUrl::Auth ==> last_set(after, Flag::AuthSendReady) == Some(
                last_told(after, url)->Some_0.state == ConnectionState::Authenticating
                    && !a.reads.auth_has_entry && a.reads.token is Some
                    && !a.reads.token->Some_0.expired,
            )
            &&& started ==> {
                let fresh = a.started.socket is Some && a.started.socket
                    != a.conn->Some_0.socket && a.start_clock.bus_alive;
                let end = a.table(url, table);
                &&& made(log, after, Request::StoreMirror(url, a.started.state))
                &&& end.sockets.at(url) == a.started.socket
                &&& fresh ==> end.bridges.at(url) == a.started.socket && made(
                    log,
                    after,
                    Request::WireUpgradeBridge(url, a.started.socket->Some_0),
                )
                &&& !fresh && a.started.socket is Some ==> end.bridges.at(url)
                    == table.bridges.at(url)
                &&& a.started.socket is None ==> end.bridges.at(url) is None && made(
                    log,
                    after,
                    Request::DropUpgradeBridge(url),
                )
            }
            &&& !started ==> a.table(url, table) == table
        }),
{
    let after = register_log(log, url, entry, ref_id, table, a);
    let opened = register_opening_log(log, url, entry, ref_id, a);
    a_registration_is_recorded(log, url, entry, ref_id, table, a);
    an_opening_tells(log, url, entry, ref_id, a);
    if a.conn is Some {
        let sent = register_wire_log(opened, url, entry, table, a);
        a_wire_subscribe_leaves_what_was_told(opened, url, entry, table, a);
        shows_together(log, opened, sent);
        if url == WsUrl::Auth {
            a_flag_shows_nothing(
                sent,
                url,
                a.last(url, table)->Some_0.state,
                a.reads,
                a.ready_clock,
            );
        } else {
            showing(sent);
        }
        shows_together(log, sent, after);
        if a.starts() {
            let at: int = log.len() + if ref_id is Some {
                6int
            } else {
                5int
            };
            assert(after[at] == opened[at]);
            if a.started.socket is None {
                assert(after[at + 1] == opened[at + 1]);
            } else if a.started.socket != a.conn->Some_0.socket && a.start_clock.bus_alive {
                assert(after[at + 2] == opened[at + 2]);
            }
        }
    }
}

proof fn an_opening_tells(
    log: Log,
    url: WsUrl,
    entry: SubscriptionEntry,
    ref_id: Option<u64>,
    a: RegisterAnswers,
)
    ensures
        ({
            let opened = register_opening_log(log, url, entry, ref_id, a);
            let at: int = log.len() + if ref_id is Some {
                6int
            } else {
                5int
            };
            &&& shows_what_is(log, opened)
            &&& a.conn is Some ==> last_told(opened, url) == Some(a.current())
            &&& a.starts() ==> {
                &&& at < opened.len()
                &&& opened[at].0 == Request::StoreMirror(url, a.started.state)
                &&& a.started.socket is None ==> at + 1 < opened.len() && opened[at + 1].0
                    == Request::DropUpgradeBridge(url)
                &&& a.started.socket is Some && a.started.socket != a.conn->Some_0.socket
                    && a.start_clock.bus_alive ==> at + 2 < opened.len() && opened[at + 2].0
                    == Request::WireUpgradeBridge(url, a.started.socket->Some_0)
            }
        }),
{
    showing(log);
}

proof fn a_wire_subscribe_leaves_what_was_told(
    log: Log,
    url: WsUrl,
    entry: SubscriptionEntry,
    table: SocketTable,
    a: RegisterAnswers,
)
    requires
        a.conn is Some,
        last_told(log, url) == Some(a.current()),
    ensures
        ({
            let sent = register_wire_log(log, url, entry, table, a);
            &&& extends(log, sent)
            &&& shows_what_is(log, sent)
            &&& last_told(sent, url) == a.last(url, table)
        }),
{
    let then = a.table(url, table);
    if !a.subscribes(url) {
    } else if url == WsUrl::Auth {
        a_signed_subscribe_leaves_what_was_told(
            log,
            url,
            entry.key,
            entry.params,
            then,
            a.signed,
        );
    } else if then.sockets.at(url) is Some {
        a_send_leaves_what_was_told(
            log,
            url,
            then.sockets.at(url)->Some_0,
            entry.key,
            SubscribeSend::RegisterPublic,
            a.issue,
        );
    } else {
        showing(log);
    }
}

/// Refreshing the send-ready flag shows and changes nothing of a connection.
pub proof fn a_flag_shows_nothing(
    log: Log,
    url: WsUrl,
    state: ConnectionState,
    reads: SendReadyReads,
    clock: BusClock,
)
    ensures
        ({
            let after = refresh_send_ready_log(log, url, state, reads, clock);
            &&& extends(log, after)
            &&& shows_what_is(log, after)
            &&& last_told(after, WsUrl::Public) == last_told(log, WsUrl::Public)
            &&& last_told(after, WsUrl::Auth) == last_told(log, WsUrl::Auth)
            &&& last_set(after, Flag::AuthSendReady) == Some(
                url == WsUrl::Auth && state == ConnectionState::Authenticating
                    && !reads.auth_has_entry && reads.token is Some
                    && !reads.token->Some_0.expired,
            )
        }),
{
    showing(log);
    the_flag_says_whether_an_order_may_be_sent(log, url, state, reads, clock);
}

/// A resend leaves the connection as it was last told, and shows nothing of it.
pub proof fn a_resend_shows_nothing(
    log: Log,
    url: WsUrl,
    key: Key,
    table: SocketTable,
    a: ResendAnswers,
)
    ensures
        extends(log, resend_log(log, url, key, table, a)),
        shows_what_is(log, resend_log(log, url, key, table, a)),
{
    showing(log);
}

/// A registration is one: the registry is asked once, for its own entry.
pub proof fn a_registration_is_one(
    log: Log,
    url: WsUrl,
    entry: SubscriptionEntry,
    ref_id: Option<u64>,
    table: SocketTable,
    a: RegisterAnswers,
)
    ensures
        picked(
            log,
            register_log(log, url, entry, ref_id, table, a),
            |request: Request| request is Register,
        ) == seq![
            (Request::Register(entry, a.clock.now, ref_id is Some), Reply::Count(a.count)),
        ],
{
    let kind = |request: Request| request is Register;
    let opened = register_opening_log(log, url, entry, ref_id, a);
    let after = register_log(log, url, entry, ref_id, table, a);
    picking(log, kind);
    a_registration_is_recorded(log, url, entry, ref_id, table, a);
    opening_sends_nothing(log, url, entry, ref_id, a);
    assert(picked(log, opened, kind) =~= seq![
        (Request::Register(entry, a.clock.now, ref_id is Some), Reply::Count(a.count)),
    ]);
    if a.conn is Some {
        let sent = register_wire_log(opened, url, entry, table, a);
        a_wire_subscribe_registers_nothing(opened, url, entry, table, a);
        assert(extends(sent, after));
        assert forall|i: int| opened.len() <= i < after.len() implies !kind(
            (#[trigger] after[i]).0,
        ) by {
            if i < sent.len() {
                assert(after[i] == sent[i]);
            }
        }
    }
    nothing_picked(opened, after, kind);
    picked_together(log, opened, after, kind);
    assert(picked(log, after, kind) =~= picked(log, opened, kind));
}

proof fn a_wire_subscribe_registers_nothing(
    log: Log,
    url: WsUrl,
    entry: SubscriptionEntry,
    table: SocketTable,
    a: RegisterAnswers,
)
    ensures
        ({
            let after = register_wire_log(log, url, entry, table, a);
            &&& extends(log, after)
            &&& forall|i: int|
                log.len() <= i < after.len() ==> !((#[trigger] after[i]).0 is Register)
        }),
{
}

/// A replay without a token defers every live subscription but the one that was sent
/// already, each once, in order and with its own params, and sees to it that one refresh
/// is on its way and awaited.
pub proof fn a_replay_without_a_token_waits_for_one(
    log: Log,
    url: WsUrl,
    already_sent: Option<Key>,
    table: SocketTable,
    a: RemainingAnswers,
)
    requires
        a.token is None || a.token->Some_0.expired,
    ensures
        ({
            let after = remaining_log(log, url, already_sent, table, a);
            let n = log.len() as int;
            &&& extends(log, after)
            &&& after[n + 1] == (Request::CachedToken(Some(a.now)), Reply::Token(a.token))
            &&& after[n + 2] == (
                Request::LiveSubscribeKeys(url, already_sent),
                Reply::Keys(a.keys),
            )
            &&& happened(log, after, Effect::Send) == Seq::<Request>::empty()
            &&& happened(log, after, Effect::Defer) == Seq::new(
                a.keys@.len(),
                |i: int| Request::DeferAuthSubscribe(url, a.keys@[i].0, a.keys@[i].1),
            )
            &&& happened(log, after, Effect::Refresh) == if a.awaiting {
                Seq::empty()
            } else {
                seq![Request::ForceRefresh]
            }
            &&& !a.awaiting ==> last_set(after, Flag::AwaitingRefresh(url)) == Some(true)
        }),
{
    let after = remaining_log(log, url, already_sent, table, a);
    let n = log.len() as int;
    let listed = asked(
        asked(
            asked(log, Request::ConnClock(url), Reply::Instant(a.now)),
            Request::CachedToken(Some(a.now)),
            Reply::Token(a.token),
        ),
        Request::LiveSubscribeKeys(url, already_sent),
        Reply::Keys(a.keys),
    );
    let deferred = defer_all_log(listed, url, a.keys@, a.keys@.len());
    deferrals_are_in_order(listed, url, a.keys@, a.keys@.len());
    deferring_sends_nothing(listed, url, a.keys@, a.keys@.len());
    no_token_defers_the_whole_replay(log, url, already_sent, table, a);
    nothing_happened(log, after, Effect::Send);
    nothing_happened(log, listed, Effect::Defer);
    nothing_happened(log, listed, Effect::Refresh);
    happened_together(log, listed, deferred, Effect::Defer);
    happened_together(log, listed, deferred, Effect::Refresh);
    assert(extends(deferred, after));
    assert(grew_without(deferred, after, Effect::Defer));
    nothing_happened(deferred, after, Effect::Defer);
    happened_together(log, deferred, after, Effect::Defer);
    happened_together(log, deferred, after, Effect::Refresh);
    assert(happened(log, after, Effect::Defer) =~= happened(listed, deferred, Effect::Defer));
    let m = deferred.len() as int;
    if a.awaiting {
        nothing_happened(deferred, after, Effect::Refresh);
    } else {
        happened_once(deferred, after, Effect::Refresh, m + 2);
        last_set_at(after, Flag::AwaitingRefresh(url), m + 1);
    }
    assert(after[n + 1] == deferred[n + 1] && deferred[n + 1] == listed[n + 1]);
    assert(after[n + 2] == deferred[n + 2] && deferred[n + 2] == listed[n + 2]);
}

proof fn deferrals_are_in_order(
    log: Log,
    url: WsUrl,
    keys: Seq<(Key, SubscribeParams)>,
    count: nat,
)
    requires
        count <= keys.len(),
    ensures
        ({
            let after = defer_all_log(log, url, keys, count);
            &&& extends(log, after)
            &&& happened(log, after, Effect::Defer) == Seq::new(
                count,
                |i: int| Request::DeferAuthSubscribe(url, keys[i].0, keys[i].1),
            )
            &&& happened(log, after, Effect::Refresh) == Seq::<Request>::empty()
        }),
    decreases count,
{
    let after = defer_all_log(log, url, keys, count);
    if count > 0 {
        let fewer = defer_all_log(log, url, keys, (count - 1) as nat);
        deferrals_are_in_order(log, url, keys, (count - 1) as nat);
        assert(after.drop_last() =~= fewer);
    }
    assert(happened(log, after, Effect::Defer) =~= Seq::new(
        count,
        |i: int| Request::DeferAuthSubscribe(url, keys[i].0, keys[i].1),
    ));
    assert(happened(log, after, Effect::Refresh) =~= Seq::<Request>::empty());
}

/// Whether the requests from `at` on say that a frame was not taken, and on which path:
/// a full queue in a warning, and a dead writer in a warning and in the close that it
/// is turned into.
pub open spec fn fails_on_path(
    log: Log,
    at: int,
    url: WsUrl,
    key: Key,
    send: SubscribeSend,
    outcome: SendOutcome,
) -> bool {
    match outcome {
        SendOutcome::Sent => true,
        SendOutcome::Backpressured(conn) => {
            &&& log.len() > at + 1
            &&& log[at].0 == Request::Say(Note::SubscribeBackpressured { url, key, send })
            &&& log[at + 1] == (Request::SubscribeFailure(url, key), Reply::View(conn))
        },
        SendOutcome::WriterDead(conn) => {
            &&& log.len() > at + 1
            &&& log[at].0 == Request::Say(Note::SubscribeWriterClosed { url, key, send })
            &&& log[at + 1].1 == Reply::View(conn)
            &&& match log[at + 1].0 {
                Request::HandleEvent(on, FsmEvent::WireAbnormalClose { error }) => on == url
                    && error.transient && match error.kind {
                    TransportErrorKind::AbnormalClose { context } => context == Text::Fixed(
                        send.writer_closed_context_spec(),
                    ),
                    _ => false,
                },
                _ => false,
            }
        },
    }
}

/// Each path on which a subscribe is sent says by its own name where it failed: a
/// resend, signing in, a registration on the open auth connection, and one on the
/// public connection.
pub proof fn each_path_says_where_it_failed(
    log: Log,
    url: WsUrl,
    state: ConnectionState,
    key: Key,
    params: SubscribeParams,
    table: SocketTable,
    resend: ResendAnswers,
    first: FirstSignedAnswers,
    signed: SignedAnswers,
    issue: IssueAnswers,
)
    requires
        table.sockets.at(url) is Some,
    ensures
        ({
            let valid = |token: Option<CachedToken>| token is Some && !token->Some_0.expired;
            let n = log.len() as int;
            &&& resend.params is Some && (url == WsUrl::Public || valid(resend.token))
                ==> fails_on_path(
                resend_log(log, url, key, table, resend),
                if url == WsUrl::Public {
                    n + 3
                } else {
                    n + 5
                },
                url,
                key,
                SubscribeSend::Resend,
                resend.issue.outcome,
            )
            &&& valid(first.token) && first.first is Some ==> fails_on_path(
                first_signed_log(log, url, state, table, first),
                n + 5,
                url,
                first.first->Some_0.0,
                SubscribeSend::FirstSigned,
                first.issue.outcome,
            )
            &&& valid(signed.token) ==> fails_on_path(
                single_signed_log(log, url, key, params, table, signed),
                n + 4,
                url,
                key,
                SubscribeSend::RegisterWhileOpenAuth,
                signed.issue.outcome,
            )
            &&& fails_on_path(
                single_subscribe_log(log, url, key, table, issue),
                n + 2,
                url,
                key,
                SubscribeSend::RegisterPublic,
                issue.outcome,
            )
        }),
{
}

} // verus!
