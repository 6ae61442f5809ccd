//! The reactor itself: what it does on each thing that can happen to it, from the
//! first event it emits to the close of the client.

use crate::frame_routing::{
    frame_handled, handle_frame, what_a_socket_delivers_is_acted_on, TextEnd,
};
use crate::frames::{stamp_req_id, stamped, subscription_json, tokened, SubscriptionMethod};
use crate::gaps::{
    book_reseed_text, handle_book_reseed_timeout, reseed_left, reseed_timeout_log, reseeds_again,
    ReseedTimeoutAnswers,
};
use crate::host::{
    asked, extends, grew_without, grew_without_together, happened, happened_once, happened_together,
    last_set, last_set_stays, last_told, made, made_earlier, made_later, nothing_happened,
    nothing_picked, nothing_shown, picked, picked_together, picking, said, showing, shows_together,
    shows_what_is, told, BusClock, CachedToken, ConnView, Effect, Flag, Link, Log, Reply, Request,
    UpgradeOutcome, CLOCK_LIMIT,
};
use crate::inbound_dispatch::{
    a_driven_event_is_shown, dispatched, drive_event, drive_log, drive_table, driven,
    handle_inbound, hint_log, refresh_auth_send_ready_hint, the_hints_say_what_was_read,
    CallerInbound, DriveAnswers, HintAnswers,
};
use crate::json;
use crate::json::{json_of, json_text};
use crate::notes::Note;
use crate::send_ready::{
    refresh_send_ready, refresh_send_ready_log, the_flag_says_whether_an_order_may_be_sent,
    token_valid, SendReadyReads,
};
use crate::socket_lifecycle::{
    drop_socket, other_url, project_log, project_socket_and_wire_bridge, projected, write_mirror,
    Slots, SocketTable,
};
use crate::subscribe_send::{
    a_flag_shows_nothing, a_resend_shows_nothing, a_signed_subscribe_is_sent_with_its_token,
    a_signed_subscribe_leaves_what_was_told, ack_due, ack_due_at, first_signed_log,
    first_signed_text, handle_subscribe_resend, left_by, resend_log, resend_text,
    send_first_signed_subscribe, send_frame_log, send_single_signed_subscribe, send_subscribe_frame,
    signing_in_leaves_what_was_told, signing_in_sends_one_frame, single_signed_done,
    single_signed_log, single_signed_sends, stops_replay, subscribe_json, FirstSignedAnswers,
    ResendAnswers, SendOutcome, SignedAnswers, SubscribeSend,
};
use crate::throttle::{DropCounts, DropTracker, SuppressWarnTracker, WarnTimes};
use crate::timer::{timer_id, timer_of};
use crate::types::{
    CapabilitySnapshot, ChannelName, ConnectionState, EventEnvelope, EventPayload, FsmEvent, Key,
    ReadySignal, SubscribeParams, Symbol, Text, TransportError, TransportErrorKind, WsFrame, WsUrl,
};
use serde_json::Value;
use std::sync::Arc;
use vstd::prelude::*;

verus! {

/// The event of a failed upgrade.
pub open spec fn upgrade_failure(kind: TransportErrorKind, transient: bool) -> FsmEvent {
    match kind {
        TransportErrorKind::HttpUpgradeRejected { status } => FsmEvent::WireUpgradeFailed {
            http_status: status,
        },
        _ => FsmEvent::WireConnectError { kind, transient },
    }
}

/// The event of a failed upgrade: a refusal by the server keeps its status, all
/// else is a connect error.
pub fn upgrade_failure_event(kind: TransportErrorKind, transient: bool) -> (event: FsmEvent)
    ensures
        event == upgrade_failure(kind, transient),
{
    match kind {
        TransportErrorKind::HttpUpgradeRejected { status } => FsmEvent::WireUpgradeFailed {
            http_status: status,
        },
        kind => FsmEvent::WireConnectError { kind, transient },
    }
}

/// Whether a successful upgrade is that of the socket in use. One that outlived
/// its socket must not open the connection.
pub fn upgrade_ok_is_live(sockets: &Slots, url: WsUrl, connection_id: u64) -> (live: bool)
    ensures
        live == (sockets.at(url) == Some(connection_id)),
{
    match sockets.get(url) {
        Some(cid) => cid == connection_id,
        None => false,
    }
}

/// The event that a request waits for, under its id; and the same for everyone.
pub open spec fn correlated_event(
    payload: EventPayload,
    request_id: Option<u64>,
    now: u64,
) -> EventEnvelope {
    EventEnvelope { event_version: 1, timestamp: now, request_id, payload }
}

pub open spec fn announce_log(
    log: Log,
    payload: EventPayload,
    request_id: u64,
    clock: BusClock,
) -> Log {
    let log = asked(log, Request::BusClock, Reply::Clock(clock));
    if clock.bus_alive {
        let log = told(
            log,
            Request::DeliverCorrelated(correlated_event(payload, Some(request_id), clock.now)),
        );
        told(log, Request::Publish(correlated_event(payload, None, clock.now)))
    } else {
        log
    }
}

/// The first thing a reactor does: it tells whoever waits for it, and then
/// everyone, that the client is ready. The waiter is told directly, so that it does
/// not depend on the bus being drained.
pub fn announce_ready<F: Fn(Request) -> Reply>(host: &mut Link<F>, ready: ReadySignal)
    ensures
        exists|clock: BusClock, snapshot: Arc<CapabilitySnapshot>|
            {
                &&& final(host).log() == #[trigger] announce_log(
                    old(host).log(),
                    EventPayload::ClientReady { capability_snapshot: snapshot },
                    ready.request_id,
                    clock,
                )
                &&& *snapshot == ready.capability_snapshot
            },
{
    let ghost before = host.log();
    let request_id: u64 = ready.request_id;
    let snapshot = Arc::new(ready.capability_snapshot);
    let clock = host.bus_clock();
    if clock.bus_alive {
        host.tell(
            Request::DeliverCorrelated(
                EventEnvelope {
                    event_version: 1,
                    timestamp: clock.now,
                    request_id: Some(request_id),
                    payload: EventPayload::ClientReady { capability_snapshot: snapshot.clone() },
                },
            ),
        );
        host.tell(
            Request::Publish(
                EventEnvelope {
                    event_version: 1,
                    timestamp: clock.now,
                    request_id: None,
                    payload: EventPayload::ClientReady { capability_snapshot: snapshot.clone() },
                },
            ),
        );
    }
    proof {
        assert(host.log() == announce_log(
            before,
            EventPayload::ClientReady { capability_snapshot: snapshot },
            request_id,
            clock,
        ));
    }
}

/// What the look at the registry before each turn met.
pub open spec fn sync_log(log: Log, last_epoch: u64, epoch: u64, hint: HintAnswers) -> Log {
    let log = asked(log, Request::LivenessEpoch, Reply::Count(epoch));
    if epoch == last_epoch {
        log
    } else {
        hint_log(log, hint)
    }
}

/// Before each turn: stores the hints about the auth connection anew, once after
/// any change to the subscriptions. The result is the epoch that was seen.
pub fn sync_liveness<F: Fn(Request) -> Reply>(host: &mut Link<F>, last_epoch: u64) -> (epoch: u64)
    ensures
        exists|hint: HintAnswers|
            final(host).log() == #[trigger] sync_log(old(host).log(), last_epoch, epoch, hint),
{
    let ghost before = host.log();
    let ghost mut hint: HintAnswers = arbitrary();
    let epoch: u64 = host.count(Request::LivenessEpoch);
    let ghost counted = host.log();
    if epoch != last_epoch {
        refresh_auth_send_ready_hint(host);
        proof {
            hint = choose|a: HintAnswers| host.log() == #[trigger] hint_log(counted, a);
        }
    }
    proof {
        assert(host.log() == sync_log(before, last_epoch, epoch, hint));
    }
    epoch
}

/// Whether one connection was closed under an id of its own.
pub open spec fn closed_one(
    before: Log,
    after: Log,
    url: WsUrl,
    id: u64,
    table: SocketTable,
    end: SocketTable,
) -> bool {
    driven(
        asked(before, Request::NextConnectId, Reply::Count(id)),
        after,
        url,
        FsmEvent::CallClose { request_id: id },
        table,
        end,
    )
}

/// Whether both connections were closed, the public one first.
pub open spec fn closed_both(
    before: Log,
    after: Log,
    table: SocketTable,
    end: SocketTable,
) -> bool {
    exists|public_id: u64, auth_id: u64, between: Log, middle: SocketTable|
        {
            &&& #[trigger] closed_one(before, between, WsUrl::Public, public_id, table, middle)
            &&& #[trigger] closed_one(between, after, WsUrl::Auth, auth_id, middle, end)
        }
}

/// Closes both connections. One wish of the caller is enough for both, so that no
/// client is left half closed.
pub fn close_all_connections<F: Fn(Request) -> Reply>(host: &mut Link<F>, table: &mut SocketTable)
    requires
        old(table).wf(),
    ensures
        final(table).wf(),
        closed_both(old(host).log(), final(host).log(), *old(table), *final(table)),
{
    let ghost before = host.log();
    let ghost table0 = *table;
    let public_id: u64 = host.count(Request::NextConnectId);
    drive_event(host, WsUrl::Public, FsmEvent::CallClose { request_id: public_id }, table);
    let ghost between = host.log();
    let ghost middle = *table;
    let auth_id: u64 = host.count(Request::NextConnectId);
    drive_event(host, WsUrl::Auth, FsmEvent::CallClose { request_id: auth_id }, table);
    proof {
        assert(closed_one(before, between, WsUrl::Public, public_id, table0, middle));
        assert(closed_one(between, host.log(), WsUrl::Auth, auth_id, middle, *table));
    }
}

/// Whether the client was closed: both connections were, and then it was noted.
pub open spec fn closed_client(
    before: Log,
    after: Log,
    request_id: u64,
    table: SocketTable,
    end: SocketTable,
) -> bool {
    exists|closed: Log|
        {
            &&& #[trigger] closed_both(before, closed, table, end)
            &&& after == said(closed, Note::CloseFanned { request_id })
        }
}

/// A close of the client that waits for its connections.
#[derive(Clone, Copy, PartialEq, Eq, Structural, Debug)]
pub struct PendingClose {
    pub request_id: u64,
    pub initiated_at: u64,
}

/// Carries out what a caller posted; the close of the client is remembered until
/// its connections are closed.
pub fn on_inbound<F: Fn(Request) -> Reply>(
    host: &mut Link<F>,
    msg: CallerInbound,
    pending: Option<PendingClose>,
    table: &mut SocketTable,
) -> (now_pending: Option<PendingClose>)
    requires
        old(table).wf(),
    ensures
        final(table).wf(),
        match msg {
            CallerInbound::ClientClose { request_id, initiated_at } => {
                &&& now_pending == Some(PendingClose { request_id, initiated_at })
                &&& closed_client(
                    old(host).log(),
                    final(host).log(),
                    request_id,
                    *old(table),
                    *final(table),
                )
            },
            _ => {
                &&& now_pending == pending
                &&& dispatched(
                    old(host).log(),
                    final(host).log(),
                    msg,
                    *old(table),
                    *final(table),
                )
            },
        },
{
    match msg {
        CallerInbound::ClientClose { request_id, initiated_at } => {
            let ghost before = host.log();
            let ghost table0 = *table;
            close_all_connections(host, table);
            let ghost closed = host.log();
            host.say(Note::CloseFanned { request_id });
            proof {
                assert(closed_both(before, closed, table0, *table));
            }
            Some(PendingClose { request_id, initiated_at })
        },
        msg => {
            handle_inbound(host, msg, table);
            pending
        },
    }
}

/// What one replayed frame met.
pub struct ReplayAnswers {
    pub req_id: u64,
    pub text: String,
    pub outcome: SendOutcome,
    pub now: u64,
    pub resyncing: bool,
}

impl ReplayAnswers {
    /// Whether the clock was within its range when it was read.
    pub open spec fn clocked(self) -> bool {
        self.outcome is Sent ==> self.now < CLOCK_LIMIT
    }
}

/// One replayed frame. A book that still waits for a snapshot has its timer set
/// again along with the acknowledgement.
pub open spec fn replay_frame_log(
    log: Log,
    url: WsUrl,
    socket: u64,
    key: Key,
    millis: Option<u32>,
    a: ReplayAnswers,
) -> Log {
    let log = asked(log, Request::NextSubscribeReqId(url), Reply::Count(a.req_id));
    let log = send_frame_log(
        log,
        url,
        socket,
        a.text,
        key,
        SubscribeSend::ResubscribeReplay,
        a.outcome,
    );
    if a.outcome is Sent {
        let due = ack_due(a.now, millis);
        let log = asked(log, Request::ConnClock(url), Reply::Instant(a.now));
        let log = if key.channel == ChannelName::Book {
            asked(log, Request::IsBookResyncing(key), Reply::Flag(a.resyncing))
        } else {
            log
        };
        let log = told(log, Request::RecordSubscribeReqId(url, a.req_id, key));
        let log = told(log, Request::ArmSubscribeAck(url, key, due));
        if key.channel == ChannelName::Book && a.resyncing {
            told(log, Request::ArmBookReseedSnapshot(url, key, due))
        } else {
            log
        }
    } else {
        log
    }
}

pub open spec fn replay_frames_log(
    log: Log,
    url: WsUrl,
    socket: u64,
    frames: Seq<(Key, Value)>,
    millis: Option<u32>,
    answers: Seq<ReplayAnswers>,
) -> Log
    decreases answers.len(),
{
    if answers.len() == 0 {
        log
    } else {
        replay_frame_log(
            replay_frames_log(log, url, socket, frames, millis, answers.drop_last()),
            url,
            socket,
            frames[answers.len() - 1].0,
            millis,
            answers.last(),
        )
    }
}

/// Whether the answers are those of a whole replay: each frame once, in order,
/// under its own request id, up to the first that stops it.
pub open spec fn replays_frames(frames: Seq<(Key, Value)>, answers: Seq<ReplayAnswers>) -> bool {
    &&& answers.len() <= frames.len()
    &&& forall|i: int|
        0 <= i < answers.len() ==> (#[trigger] answers[i]).clocked() && answers[i].text@
            == json_text(stamped(json_of(frames[i].1), answers[i].req_id))
    &&& forall|i: int| 0 <= i < answers.len() - 1 ==> !stops_replay(#[trigger] answers[i].outcome)
    &&& answers.len() < frames.len() ==> answers.len() > 0 && stops_replay(
        answers.last().outcome,
    )
}

fn replay_frame<F: Fn(Request) -> Reply>(
    host: &mut Link<F>,
    url: WsUrl,
    socket: u64,
    key: &Key,
    frame: &Value,
    millis: Option<u32>,
) -> (outcome: SendOutcome)
    ensures
        exists|a: ReplayAnswers|
            {
                &&& final(host).log() == #[trigger] replay_frame_log(
                    old(host).log(),
                    url,
                    socket,
                    *key,
                    millis,
                    a,
                )
                &&& a.clocked()
                &&& a.text@ == json_text(stamped(json_of(*frame), a.req_id))
                &&& a.outcome == outcome
            },
{
    let ghost before = host.log();
    let ghost mut a: ReplayAnswers = arbitrary();
    let req_id: u64 = host.count(Request::NextSubscribeReqId(url));
    let stamped_frame = stamp_req_id(json::copy_of(frame), req_id);
    let text = json::text_of(&stamped_frame);
    proof {
        a.req_id = req_id;
        a.text = text;
    }
    let outcome = send_subscribe_frame(
        host,
        url,
        socket,
        text,
        key,
        SubscribeSend::ResubscribeReplay,
    );
    proof {
        a.outcome = outcome;
    }
    match outcome {
        SendOutcome::Sent => {
            let now: u64 = host.conn_clock(url);
            let due: u64 = ack_due_at(now, millis);
            proof {
                a.now = now;
            }
            let mut resyncing = false;
            if key.channel == ChannelName::Book {
                resyncing = host.flag(Request::IsBookResyncing(key.clone()));
            }
            proof {
                a.resyncing = resyncing;
            }
            host.tell(Request::RecordSubscribeReqId(url, req_id, key.clone()));
            host.tell(Request::ArmSubscribeAck(url, key.clone(), due));
            if resyncing {
                host.tell(Request::ArmBookReseedSnapshot(url, key.clone(), due));
            }
        },
        _ => {},
    }
    proof {
        assert(host.log() == replay_frame_log(before, url, socket, *key, millis, a));
    }
    outcome
}

fn replay_frames<F: Fn(Request) -> Reply>(
    host: &mut Link<F>,
    url: WsUrl,
    socket: u64,
    frames: &Vec<(Key, Value)>,
    millis: Option<u32>,
)
    ensures
        exists|answers: Seq<ReplayAnswers>|
            {
                &&& final(host).log() == #[trigger] replay_frames_log(
                    old(host).log(),
                    url,
                    socket,
                    frames@,
                    millis,
                    answers,
                )
                &&& replays_frames(frames@, answers)
            },
{
    let ghost before = host.log();
    let ghost mut answers: Seq<ReplayAnswers> = Seq::empty();
    let mut i: usize = 0;
    let mut stopped = false;
    while i < frames.len() && !stopped
        invariant
            i <= frames@.len(),
            answers.len() == i,
            host.log() == replay_frames_log(before, url, socket, frames@, millis, answers),
            forall|k: int|
                0 <= k < answers.len() ==> (#[trigger] answers[k]).clocked() && answers[k].text@
                    == json_text(stamped(json_of(frames@[k].1), answers[k].req_id)),
            forall|k: int|
                0 <= k < answers.len() - 1 ==> !stops_replay(#[trigger] answers[k].outcome),
            answers.len() > 0 ==> stopped == stops_replay(answers.last().outcome),
            answers.len() == 0 ==> !stopped,
        decreases frames@.len() - i,
    {
        let ghost here = host.log();
        let outcome = replay_frame(host, url, socket, &frames[i].0, &frames[i].1, millis);
        proof {
            let a = choose|a: ReplayAnswers|
                {
                    &&& host.log() == #[trigger] replay_frame_log(
                        here,
                        url,
                        socket,
                        frames@[i as int].0,
                        millis,
                        a,
                    )
                    &&& a.clocked()
                    &&& a.text@ == json_text(stamped(json_of(frames@[i as int].1), a.req_id))
                    &&& a.outcome == outcome
                };
            let longer = answers.push(a);
            assert(longer.drop_last() =~= answers);
            assert(host.log() == replay_frames_log(
                before,
                url,
                socket,
                frames@,
                millis,
                longer,
            ));
            answers = longer;
        }
        stopped = match outcome {
            SendOutcome::Sent => false,
            SendOutcome::Backpressured(conn) => !(conn.state == ConnectionState::Resubscribing),
            SendOutcome::WriterDead(_) => true,
        };
        i += 1;
    }
    proof {
        assert(replays_frames(frames@, answers));
    }
}

/// What the replay of all subscriptions met.
pub struct ResubscribeAnswers {
    pub frames: Vec<(Key, Value)>,
    pub millis: Option<u32>,
    pub replay: Seq<ReplayAnswers>,
    pub completed: ConnView,
    pub clock: BusClock,
}

pub open spec fn resubscribe_log(
    log: Log,
    url: WsUrl,
    table: SocketTable,
    a: ResubscribeAnswers,
) -> Log {
    let log = asked(log, Request::ComposeSubscribeFrames(url), Reply::Frames(a.frames));
    let log = match table.sockets.at(url) {
        Some(socket) => {
            let log = asked(log, Request::SubscribeAckTimeoutMs, Reply::Millis(a.millis));
            replay_frames_log(log, url, socket, a.frames@, a.millis, a.replay)
        },
        None => log,
    };
    let log = asked(log, Request::CompleteResubscribeIfEmpty(url), Reply::View(a.completed));
    let log = told(log, Request::StoreMirror(url, a.completed.state));
    project_log(log, url, a.completed.socket, a.completed.socket, a.clock)
}

/// The table after a replay; a dead writer may have cost the connection its
/// socket.
pub open spec fn resubscribe_table(
    url: WsUrl,
    table: SocketTable,
    a: ResubscribeAnswers,
) -> SocketTable {
    projected(table, url, a.completed.socket, a.completed.socket, a.clock.bus_alive)
}

fn resubscribe<F: Fn(Request) -> Reply>(
    host: &mut Link<F>,
    url: WsUrl,
    table: &mut SocketTable,
) -> (completed: ConnView)
    requires
        old(table).wf(),
    ensures
        final(table).wf(),
        exists|a: ResubscribeAnswers|
            {
                &&& final(host).log() == #[trigger] resubscribe_log(
                    old(host).log(),
                    url,
                    *old(table),
                    a,
                )
                &&& *final(table) == resubscribe_table(url, *old(table), a)
                &&& old(table).sockets.at(url) is Some ==> replays_frames(a.frames@, a.replay)
                &&& completed == a.completed
            },
{
    let ghost before = host.log();
    let ghost table0 = *table;
    let ghost mut a: ResubscribeAnswers = arbitrary();
    let frames = host.frames(Request::ComposeSubscribeFrames(url));
    proof {
        a.frames = frames;
    }
    match table.sockets.get(url) {
        Some(socket) => {
            let millis = host.millis();
            let ghost ready = host.log();
            replay_frames(host, url, socket, &frames, millis);
            proof {
                a.millis = millis;
                a.replay = choose|answers: Seq<ReplayAnswers>|
                    {
                        &&& host.log() == #[trigger] replay_frames_log(
                            ready,
                            url,
                            socket,
                            frames@,
                            millis,
                            answers,
                        )
                        &&& replays_frames(frames@, answers)
                    };
            }
        },
        None => {},
    }
    let completed = host.view(Request::CompleteResubscribeIfEmpty(url));
    write_mirror(host, url, completed.state);
    let ghost mirrored = host.log();
    project_socket_and_wire_bridge(host, &completed, url, completed.socket, table);
    proof {
        a.completed = completed;
        a.clock = choose|clock: BusClock|
            {
                &&& host.log() == #[trigger] project_log(
                    mirrored,
                    url,
                    completed.socket,
                    completed.socket,
                    clock,
                )
                &&& *table == projected(
                    table0,
                    url,
                    completed.socket,
                    completed.socket,
                    clock.bus_alive,
                )
            };
        assert(host.log() == resubscribe_log(before, url, table0, a));
    }
    completed
}

/// Whether the first signed subscribe went out, and the state is shown.
pub struct SignInAnswers {
    pub first: FirstSignedAnswers,
    pub after: Option<ConnView>,
}

/// The connection after the first signed subscribe.
pub open spec fn signed_in(conn: ConnView, after: Option<ConnView>) -> ConnView {
    match after {
        Some(after) => after,
        None => conn,
    }
}

pub open spec fn sign_in_log(
    log: Log,
    url: WsUrl,
    conn: ConnView,
    table: SocketTable,
    a: SignInAnswers,
) -> Log {
    let log = first_signed_log(log, url, conn.state, table, a.first);
    told(log, Request::StoreMirror(url, signed_in(conn, a.after).state))
}

/// Whether the answers of a first signed subscribe belong together.
pub open spec fn sign_in_whole(url: WsUrl, table: SocketTable, a: SignInAnswers) -> bool {
    &&& first_signed_text(url, table, a.first)
    &&& a.after == (if token_valid(a.first.token) && table.sockets.at(url) is Some
        && a.first.first is Some {
        left_by(a.first.issue.outcome)
    } else {
        None
    })
}

fn sign_in<F: Fn(Request) -> Reply>(
    host: &mut Link<F>,
    url: WsUrl,
    conn: ConnView,
    table: &SocketTable,
) -> (last: ConnView)
    ensures
        exists|a: SignInAnswers|
            {
                &&& final(host).log() == #[trigger] sign_in_log(
                    old(host).log(),
                    url,
                    conn,
                    *table,
                    a,
                )
                &&& sign_in_whole(url, *table, a)
                &&& last == signed_in(conn, a.after)
            },
{
    let ghost before = host.log();
    let after = send_first_signed_subscribe(host, url, conn.state, table);
    let ghost sent = host.log();
    let last = match after {
        Some(after) => after,
        None => conn,
    };
    write_mirror(host, url, last.state);
    proof {
        let first = choose|f: FirstSignedAnswers|
            {
                &&& sent == #[trigger] first_signed_log(before, url, conn.state, *table, f)
                &&& first_signed_text(url, *table, f)
                &&& after == (if token_valid(f.token) && table.sockets.at(url) is Some
                    && f.first is Some {
                    left_by(f.issue.outcome)
                } else {
                    None
                })
            };
        let a = SignInAnswers { first, after };
        assert(host.log() == sign_in_log(before, url, conn, *table, a));
    }
    last
}

/// What an upgrade outcome met.
pub struct UpgradeAnswers {
    pub conn: Option<ConnView>,
    pub after: ConnView,
    pub resubscribe: ResubscribeAnswers,
    pub sign_in: SignInAnswers,
}

/// Whether an upgrade is followed by the replay of all subscriptions: the
/// connection was open before. On the first connect the registrations have sent
/// their own subscribes.
pub open spec fn resubscribes(conn: ConnView) -> bool {
    conn.state == ConnectionState::Resubscribing && conn.has_been_open
}

impl UpgradeAnswers {
    /// The connection after the replay, if there is one.
    pub open spec fn current(self) -> ConnView {
        if resubscribes(self.after) {
            self.resubscribe.completed
        } else {
            self.after
        }
    }

    /// The sockets after that.
    pub open spec fn table(self, url: WsUrl, table: SocketTable) -> SocketTable {
        if resubscribes(self.after) {
            resubscribe_table(url, table, self.resubscribe)
        } else {
            table
        }
    }
}

pub open spec fn upgrade_ok_log(
    log: Log,
    url: WsUrl,
    connection_id: u64,
    table: SocketTable,
    a: UpgradeAnswers,
) -> Log {
    if table.sockets.at(url) != Some(connection_id) {
        said(log, Note::StaleUpgrade { url, connection_id })
    } else {
        let log = asked(log, Request::Conn(url), Reply::Conn(a.conn));
        if a.conn is None {
            log
        } else {
            let log = asked(
                log,
                Request::HandleEvent(
                    url,
                    FsmEvent::WireUpgradeOk { connection_id: Some(connection_id) },
                ),
                Reply::View(a.after),
            );
            let log = told(log, Request::StoreMirror(url, a.after.state));
            let log = if resubscribes(a.after) {
                resubscribe_log(log, url, table, a.resubscribe)
            } else {
                log
            };
            if a.current().state == ConnectionState::Authenticating {
                sign_in_log(log, url, a.current(), a.table(url, table), a.sign_in)
            } else {
                log
            }
        }
    }
}

/// The table after a successful upgrade.
pub open spec fn upgrade_ok_table(
    url: WsUrl,
    connection_id: u64,
    table: SocketTable,
    a: UpgradeAnswers,
) -> SocketTable {
    if table.sockets.at(url) == Some(connection_id) && a.conn is Some {
        a.table(url, table)
    } else {
        table
    }
}

/// Whether the answers to a successful upgrade belong together.
pub open spec fn upgrade_ok_whole(
    url: WsUrl,
    connection_id: u64,
    table: SocketTable,
    a: UpgradeAnswers,
) -> bool {
    table.sockets.at(url) == Some(connection_id) && a.conn is Some ==> {
        &&& resubscribes(a.after) ==> replays_frames(a.resubscribe.frames@, a.resubscribe.replay)
        &&& a.current().state == ConnectionState::Authenticating ==> sign_in_whole(
            url,
            a.table(url, table),
            a.sign_in,
        )
    }
}

/// A socket was upgraded: the connection moves on, and what it needs is sent. An
/// upgrade of a socket that is no longer in use is dropped.
pub fn on_upgrade_ok<F: Fn(Request) -> Reply>(
    host: &mut Link<F>,
    url: WsUrl,
    connection_id: u64,
    table: &mut SocketTable,
)
    requires
        old(table).wf(),
    ensures
        final(table).wf(),
        exists|a: UpgradeAnswers|
            {
                &&& final(host).log() == #[trigger] upgrade_ok_log(
                    old(host).log(),
                    url,
                    connection_id,
                    *old(table),
                    a,
                )
                &&& *final(table) == upgrade_ok_table(url, connection_id, *old(table), a)
                &&& upgrade_ok_whole(url, connection_id, *old(table), a)
            },
{
    let ghost before = host.log();
    let ghost table0 = *table;
    let ghost mut a: UpgradeAnswers = arbitrary();
    if !upgrade_ok_is_live(&table.sockets, url, connection_id) {
        host.say(Note::StaleUpgrade { url, connection_id });
        proof {
            assert(host.log() == upgrade_ok_log(before, url, connection_id, table0, a));
        }
        return ;
    }
    let conn = host.conn(url);
    proof {
        a.conn = conn;
    }
    if conn.is_none() {
        proof {
            assert(host.log() == upgrade_ok_log(before, url, connection_id, table0, a));
        }
        return ;
    }
    let mut current = host.view(
        Request::HandleEvent(
            url,
            FsmEvent::WireUpgradeOk { connection_id: Some(connection_id) },
        ),
    );
    proof {
        a.after = current;
    }
    write_mirror(host, url, current.state);
    let ghost mirrored = host.log();
    if current.state == ConnectionState::Resubscribing && current.has_been_open {
        current = resubscribe(host, url, table);
        proof {
            a.resubscribe = choose|r: ResubscribeAnswers|
                {
                    &&& host.log() == #[trigger] resubscribe_log(mirrored, url, table0, r)
                    &&& *table == resubscribe_table(url, table0, r)
                    &&& table0.sockets.at(url) is Some ==> replays_frames(r.frames@, r.replay)
                    &&& current == r.completed
                };
        }
    }
    let ghost replayed = host.log();
    proof {
        assert(current == a.current());
        assert(*table == a.table(url, table0));
    }
    if current.state == ConnectionState::Authenticating {
        let last = sign_in(host, url, current, table);
        proof {
            a.sign_in = choose|s: SignInAnswers|
                {
                    &&& host.log() == #[trigger] sign_in_log(replayed, url, current, *table, s)
                    &&& sign_in_whole(url, *table, s)
                    &&& last == signed_in(current, s.after)
                };
        }
    }
    proof {
        assert(host.log() == upgrade_ok_log(before, url, connection_id, table0, a));
    }
}

/// What a failed upgrade met.
pub struct UpgradeFailedAnswers {
    pub conn: Option<ConnView>,
    pub after: ConnView,
}

pub open spec fn upgrade_failed_log(
    log: Log,
    url: WsUrl,
    event: FsmEvent,
    a: UpgradeFailedAnswers,
) -> Log {
    let log = asked(log, Request::Conn(url), Reply::Conn(a.conn));
    if a.conn is None {
        log
    } else {
        let log = asked(log, Request::HandleEvent(url, event), Reply::View(a.after));
        let log = told(log, Request::StoreMirror(url, a.after.state));
        if a.after.socket is None {
            told(log, Request::DropUpgradeBridge(url))
        } else {
            log
        }
    }
}

/// The table after a failed upgrade.
pub open spec fn upgrade_failed_table(
    url: WsUrl,
    table: SocketTable,
    a: UpgradeFailedAnswers,
) -> SocketTable {
    if a.conn is Some && a.after.socket is None {
        table.without(url)
    } else {
        table
    }
}

/// A socket could not be upgraded: the connection is told, and the socket leaves
/// the table if the connection gave it up.
pub fn on_upgrade_failed<F: Fn(Request) -> Reply>(
    host: &mut Link<F>,
    url: WsUrl,
    kind: TransportErrorKind,
    transient: bool,
    table: &mut SocketTable,
)
    requires
        old(table).wf(),
    ensures
        final(table).wf(),
        exists|a: UpgradeFailedAnswers|
            {
                &&& final(host).log() == #[trigger] upgrade_failed_log(
                    old(host).log(),
                    url,
                    upgrade_failure(kind, transient),
                    a,
                )
                &&& *final(table) == upgrade_failed_table(url, *old(table), a)
            },
{
    let ghost before = host.log();
    let ghost failure = upgrade_failure(kind, transient);
    let ghost mut a: UpgradeFailedAnswers = arbitrary();
    let conn = host.conn(url);
    proof {
        a.conn = conn;
    }
    if conn.is_some() {
        let after = host.view(
            Request::HandleEvent(url, upgrade_failure_event(kind, transient)),
        );
        proof {
            a.after = after;
        }
        write_mirror(host, url, after.state);
        if after.socket.is_none() {
            drop_socket(host, url, table);
        }
    }
    proof {
        assert(host.log() == upgrade_failed_log(before, url, failure, a));
    }
}

pub open spec fn rearm_log(log: Log, url: WsUrl, token: Option<CachedToken>) -> Log {
    let log = asked(log, Request::CachedToken(None), Reply::Token(token));
    match token {
        Some(token) => told(log, Request::ArmTokenRefresh(url, token.refresh_due_at)),
        None => told(log, Request::DisarmTokenRefresh(url)),
    }
}

/// Sets the proactive refresh to when the cached token is due for it, or clears it
/// where there is no token.
pub fn rearm_token_refresh<F: Fn(Request) -> Reply>(host: &mut Link<F>, url: WsUrl)
    ensures
        exists|token: Option<CachedToken>|
            final(host).log() == #[trigger] rearm_log(old(host).log(), url, token),
{
    let ghost before = host.log();
    let token = host.token(None);
    let ghost cached = token;
    match &token {
        Some(token) => {
            host.tell(Request::ArmTokenRefresh(url, token.refresh_due_at));
        },
        None => {
            host.tell(Request::DisarmTokenRefresh(url));
        },
    }
    proof {
        assert(host.log() == rearm_log(before, url, cached));
    }
}

/// Whether a connection takes deferred subscribes.
pub open spec fn drains(state: ConnectionState) -> bool {
    state == ConnectionState::Open || state == ConnectionState::Resubscribing
}

fn is_drainable(state: ConnectionState) -> (drainable: bool)
    ensures
        drainable == drains(state),
{
    state == ConnectionState::Open || state == ConnectionState::Resubscribing
}

/// What one deferred subscribe met.
pub struct DrainAnswers {
    pub params: Option<SubscribeParams>,
    pub terminated: bool,
    pub armed: bool,
    pub signed: SignedAnswers,
}

impl DrainAnswers {
    /// Whether the subscribe is issued: the key is registered and live, and no
    /// subscribe for it is on the wire.
    pub open spec fn issues(self) -> bool {
        self.params is Some && !self.terminated && !self.armed
    }
}

/// One deferred subscribe. One that was acknowledged on an earlier socket is issued
/// again: its subscription ended with that socket.
pub open spec fn drain_row_log(
    log: Log,
    url: WsUrl,
    key: Key,
    params: SubscribeParams,
    table: SocketTable,
    a: DrainAnswers,
) -> Log {
    let log = asked(log, Request::ParamsFor(key), Reply::Params(a.params));
    let log = asked(log, Request::IsTerminated(key), Reply::Flag(a.terminated));
    let log = asked(log, Request::IsSubscribeAckArmed(url, key), Reply::Flag(a.armed));
    if a.issues() {
        single_signed_log(log, url, key, params, table, a.signed)
    } else {
        log
    }
}

/// The connection after one deferred subscribe.
pub open spec fn drained(
    conn: ConnView,
    url: WsUrl,
    table: SocketTable,
    a: DrainAnswers,
) -> ConnView {
    if a.issues() && single_signed_sends(url, table, a.signed) {
        match left_by(a.signed.issue.outcome) {
            Some(left) => left,
            None => conn,
        }
    } else {
        conn
    }
}

/// The connection after the first deferred subscribes.
pub open spec fn drained_all(
    conn: ConnView,
    url: WsUrl,
    table: SocketTable,
    answers: Seq<DrainAnswers>,
) -> ConnView
    decreases answers.len(),
{
    if answers.len() == 0 {
        conn
    } else {
        drained(drained_all(conn, url, table, answers.drop_last()), url, table, answers.last())
    }
}

pub open spec fn drain_rows_log(
    log: Log,
    url: WsUrl,
    deferred: Seq<(Key, SubscribeParams)>,
    table: SocketTable,
    answers: Seq<DrainAnswers>,
) -> Log
    decreases answers.len(),
{
    if answers.len() == 0 {
        log
    } else {
        let row = deferred[answers.len() - 1];
        drain_row_log(
            drain_rows_log(log, url, deferred, table, answers.drop_last()),
            url,
            row.0,
            row.1,
            table,
            answers.last(),
        )
    }
}

/// The text of a deferred subscribe that is issued.
pub open spec fn drain_text(
    url: WsUrl,
    row: (Key, SubscribeParams),
    table: SocketTable,
    a: DrainAnswers,
) -> bool {
    a.issues() && single_signed_sends(url, table, a.signed) ==> {
        &&& a.signed.issue.clocked()
        &&& a.signed.issue.text@ == json_text(
            subscribe_json(
                row.0,
                row.1,
                Some(a.signed.token->Some_0.value@),
                a.signed.issue.req_id,
            ),
        )
    }
}

/// Whether the answers are those of a whole drain: in order, until the connection
/// no longer takes them.
pub open spec fn drains_all(
    conn: ConnView,
    url: WsUrl,
    deferred: Seq<(Key, SubscribeParams)>,
    table: SocketTable,
    answers: Seq<DrainAnswers>,
) -> bool {
    &&& answers.len() <= deferred.len()
    &&& forall|i: int|
        0 <= i < answers.len() ==> drain_text(url, deferred[i], table, #[trigger] answers[i])
    &&& forall|i: int|
        0 <= i < answers.len() ==> drains(
            (#[trigger] drained_all(conn, url, table, answers.take(i))).state,
        )
    &&& answers.len() < deferred.len() ==> !drains(
        drained_all(conn, url, table, answers).state,
    )
}

fn drain_row<F: Fn(Request) -> Reply>(
    host: &mut Link<F>,
    url: WsUrl,
    key: &Key,
    params: SubscribeParams,
    conn: ConnView,
    table: &SocketTable,
) -> (after: ConnView)
    ensures
        exists|a: DrainAnswers|
            {
                &&& final(host).log() == #[trigger] drain_row_log(
                    old(host).log(),
                    url,
                    *key,
                    params,
                    *table,
                    a,
                )
                &&& drain_text(url, (*key, params), *table, a)
                &&& after == drained(conn, url, *table, a)
            },
{
    let ghost before = host.log();
    let ghost mut a: DrainAnswers = arbitrary();
    let registered = host.params(key.clone());
    let terminated = host.flag(Request::IsTerminated(key.clone()));
    let armed = host.flag(Request::IsSubscribeAckArmed(url, key.clone()));
    proof {
        a.params = registered;
        a.terminated = terminated;
        a.armed = armed;
    }
    let ghost looked = host.log();
    let mut after = conn;
    if registered.is_some() && !terminated && !armed {
        let left = send_single_signed_subscribe(host, url, key, params, table);
        proof {
            a.signed = choose|s: SignedAnswers| #[trigger]
                single_signed_done(
                    looked,
                    host.log(),
                    url,
                    *key,
                    params,
                    *table,
                    left,
                    s,
                );
        }
        match left {
            Some(left) => {
                after = left;
            },
            None => {},
        }
    }
    proof {
        assert(host.log() == drain_row_log(before, url, *key, params, *table, a));
    }
    after
}

fn drain_deferred<F: Fn(Request) -> Reply>(
    host: &mut Link<F>,
    url: WsUrl,
    deferred: &Vec<(Key, SubscribeParams)>,
    conn: ConnView,
    table: &SocketTable,
) -> (after: ConnView)
    requires
        drains(conn.state),
    ensures
        exists|answers: Seq<DrainAnswers>|
            {
                &&& final(host).log() == #[trigger] drain_rows_log(
                    old(host).log(),
                    url,
                    deferred@,
                    *table,
                    answers,
                )
                &&& drains_all(conn, url, deferred@, *table, answers)
                &&& after == drained_all(conn, url, *table, answers)
            },
{
    let ghost before = host.log();
    let ghost mut answers: Seq<DrainAnswers> = Seq::empty();
    let mut current = conn;
    let mut i: usize = 0;
    while i < deferred.len() && is_drainable(current.state)
        invariant
            i <= deferred@.len(),
            answers.len() == i,
            host.log() == drain_rows_log(before, url, deferred@, *table, answers),
            current == drained_all(conn, url, *table, answers),
            forall|k: int|
                0 <= k < answers.len() ==> drain_text(
                    url,
                    deferred@[k],
                    *table,
                    #[trigger] answers[k],
                ),
            forall|k: int|
                0 <= k < answers.len() ==> drains(
                    (#[trigger] drained_all(conn, url, *table, answers.take(k))).state,
                ),
        decreases deferred@.len() - i,
    {
        let ghost here = host.log();
        let ghost was = current;
        current = drain_row(host, url, &deferred[i].0, deferred[i].1, current, table);
        proof {
            let a = choose|a: DrainAnswers|
                {
                    &&& host.log() == #[trigger] drain_row_log(
                        here,
                        url,
                        deferred@[i as int].0,
                        deferred@[i as int].1,
                        *table,
                        a,
                    )
                    &&& drain_text(
                        url,
                        (deferred@[i as int].0, deferred@[i as int].1),
                        *table,
                        a,
                    )
                    &&& current == drained(was, url, *table, a)
                };
            let longer = answers.push(a);
            assert(longer.drop_last() =~= answers);
            assert(host.log() == drain_rows_log(before, url, deferred@, *table, longer));
            assert forall|k: int| 0 <= k < longer.len() implies drains(
                (#[trigger] drained_all(conn, url, *table, longer.take(k))).state,
            ) by {
                if k < i {
                    assert(longer.take(k) =~= answers.take(k));
                } else {
                    assert(longer.take(k) =~= answers);
                }
            }
            assert forall|k: int| 0 <= k < longer.len() implies drain_text(
                url,
                deferred@[k],
                *table,
                #[trigger] longer[k],
            ) by {
                if k < i {
                    assert(longer[k] == answers[k]);
                }
            }
            answers = longer;
        }
        i += 1;
    }
    proof {
        assert(drains_all(conn, url, deferred@, *table, answers));
    }
    current
}

/// What the outcome of a token refresh met.
pub struct RefreshAnswers {
    pub conn: Option<ConnView>,
    pub after: ConnView,
    pub sign_in: SignInAnswers,
    pub awaiting: bool,
    pub deferred: Vec<(Key, SubscribeParams)>,
    pub drain: Seq<DrainAnswers>,
    pub reads: SendReadyReads,
    pub clock: BusClock,
    pub cached: Option<CachedToken>,
    pub rearmed: Option<CachedToken>,
}

/// Whether an outcome reaches the state machine. One of a proactive refresh, which
/// has no request id, does so only where it can drain, and never decides a
/// handshake.
pub open spec fn delivers(request_id: u64, conn: ConnView) -> bool {
    request_id != 0 || drains(conn.state)
}

/// The event of a refresh outcome.
pub open spec fn refresh_event(request_id: u64, result: Result<(), Text>) -> FsmEvent {
    match result {
        Ok(_) => FsmEvent::BusTokenRefreshed { request_id },
        Err(error) => FsmEvent::BusTokenRefreshFailed { request_id, error },
    }
}

impl RefreshAnswers {
    pub open spec fn signs_in(self, request_id: u64, ok: bool) -> bool {
        delivers(request_id, self.conn->Some_0) && ok
            && self.after.authenticating_nothing_in_flight
    }

    /// The connection once the outcome was delivered.
    pub open spec fn current(self, request_id: u64, ok: bool) -> ConnView {
        if !delivers(request_id, self.conn->Some_0) {
            self.conn->Some_0
        } else if self.signs_in(request_id, ok) {
            signed_in(self.after, self.sign_in.after)
        } else {
            self.after
        }
    }

    /// Whether the deferred subscribes are looked at.
    pub open spec fn may_drain(self, request_id: u64, ok: bool) -> bool {
        ok && drains(self.current(request_id, ok).state)
    }

    /// The connection at the end.
    pub open spec fn last(self, request_id: u64, ok: bool, table: SocketTable) -> ConnView {
        if self.may_drain(request_id, ok) && !self.awaiting {
            drained_all(self.current(request_id, ok), WsUrl::Auth, table, self.drain)
        } else {
            self.current(request_id, ok)
        }
    }
}

/// The delivery of a refresh outcome to the connection.
pub open spec fn deliver_refresh_log(
    log: Log,
    request_id: u64,
    result: Result<(), Text>,
    table: SocketTable,
    a: RefreshAnswers,
) -> Log {
    let url = WsUrl::Auth;
    if delivers(request_id, a.conn->Some_0) {
        let log = asked(
            log,
            Request::HandleEvent(url, refresh_event(request_id, result)),
            Reply::View(a.after),
        );
        let log = told(log, Request::StoreMirror(url, a.after.state));
        if a.signs_in(request_id, result is Ok) {
            sign_in_log(log, url, a.after, table, a.sign_in)
        } else {
            log
        }
    } else {
        log
    }
}

/// The drain of the deferred subscribes.
pub open spec fn drain_log(
    log: Log,
    request_id: u64,
    ok: bool,
    table: SocketTable,
    a: RefreshAnswers,
) -> Log {
    let url = WsUrl::Auth;
    if a.may_drain(request_id, ok) {
        let log = asked(log, Request::IsAwaitingTokenRefresh(url), Reply::Flag(a.awaiting));
        if a.awaiting {
            log
        } else {
            let log = asked(
                log,
                Request::DrainDeferredAuthSubscribes(url),
                Reply::Keys(a.deferred),
            );
            let log = drain_rows_log(log, url, a.deferred@, table, a.drain);
            told(log, Request::StoreMirror(url, a.last(request_id, ok, table).state))
        }
    } else {
        log
    }
}

/// The end of a refresh outcome: the send-ready flag, the next refresh, the socket.
/// Only a new token sets the next refresh; a failure would set it in the past.
pub open spec fn settle_refresh_log(
    log: Log,
    ok: bool,
    last: ConnView,
    a: RefreshAnswers,
) -> Log {
    let url = WsUrl::Auth;
    let log = refresh_send_ready_log(log, url, last.state, a.reads, a.clock);
    let log = if ok {
        log
    } else {
        asked(log, Request::CachedToken(None), Reply::Token(a.cached))
    };
    let log = if ok || a.cached is None {
        rearm_log(log, url, a.rearmed)
    } else {
        log
    };
    if last.socket is None {
        told(log, Request::DropUpgradeBridge(url))
    } else {
        log
    }
}

pub open spec fn refresh_outcome_log(
    log: Log,
    request_id: u64,
    result: Result<(), Text>,
    table: SocketTable,
    a: RefreshAnswers,
) -> Log {
    let log = asked(log, Request::Conn(WsUrl::Auth), Reply::Conn(a.conn));
    if a.conn is None {
        log
    } else {
        let log = deliver_refresh_log(log, request_id, result, table, a);
        let log = drain_log(log, request_id, result is Ok, table, a);
        settle_refresh_log(log, result is Ok, a.last(request_id, result is Ok, table), a)
    }
}

/// The table after a refresh outcome.
pub open spec fn refresh_outcome_table(
    request_id: u64,
    ok: bool,
    table: SocketTable,
    a: RefreshAnswers,
) -> SocketTable {
    if a.conn is None {
        table
    } else {
        let socket = a.last(request_id, ok, table).socket;
        if socket is None {
            table.without(WsUrl::Auth)
        } else {
            SocketTable { sockets: table.sockets.with(WsUrl::Auth, socket), ..table }
        }
    }
}

/// Whether the answers to a refresh outcome belong together.
pub open spec fn refresh_whole(
    request_id: u64,
    ok: bool,
    table: SocketTable,
    a: RefreshAnswers,
) -> bool {
    a.conn is Some ==> {
        &&& a.signs_in(request_id, ok) ==> sign_in_whole(WsUrl::Auth, table, a.sign_in)
        &&& a.may_drain(request_id, ok) && !a.awaiting ==> drains_all(
            a.current(request_id, ok),
            WsUrl::Auth,
            a.deferred@,
            table,
            a.drain,
        )
    }
}

/// A token refresh has ended. The connection is told, deferred subscribes are
/// issued if there is a new token, and the next refresh is set.
pub fn on_refresh_outcome<F: Fn(Request) -> Reply>(
    host: &mut Link<F>,
    request_id: u64,
    result: Result<(), Text>,
    table: &mut SocketTable,
)
    requires
        old(table).wf(),
    ensures
        final(table).wf(),
        exists|a: RefreshAnswers|
            {
                &&& final(host).log() == #[trigger] refresh_outcome_log(
                    old(host).log(),
                    request_id,
                    result,
                    *old(table),
                    a,
                )
                &&& *final(table) == refresh_outcome_table(
                    request_id,
                    result is Ok,
                    *old(table),
                    a,
                )
                &&& refresh_whole(request_id, result is Ok, *old(table), a)
            },
{
    let ghost before = host.log();
    let ghost table0 = *table;
    let ghost outcome = result;
    let ghost mut a: RefreshAnswers = arbitrary();
    let url = WsUrl::Auth;
    let ok = result.is_ok();
    let found = host.conn(url);
    let ghost looked = host.log();
    proof {
        a.conn = found;
    }
    let mut current = match found {
        Some(conn) => conn,
        None => {
            proof {
                assert(host.log() == refresh_outcome_log(
                    before,
                    request_id,
                    outcome,
                    table0,
                    a,
                ));
            }
            return ;
        },
    };
    if request_id != 0 || is_drainable(current.state) {
        let event = match result {
            Ok(_) => FsmEvent::BusTokenRefreshed { request_id },
            Err(error) => FsmEvent::BusTokenRefreshFailed { request_id, error },
        };
        current = host.view(Request::HandleEvent(url, event));
        proof {
            a.after = current;
        }
        write_mirror(host, url, current.state);
        let ghost mirrored = host.log();
        if ok && current.authenticating_nothing_in_flight {
            let ghost was = current;
            current = sign_in(host, url, current, table);
            proof {
                a.sign_in = choose|s: SignInAnswers|
                    {
                        &&& host.log() == #[trigger] sign_in_log(mirrored, url, was, *table, s)
                        &&& sign_in_whole(url, *table, s)
                        &&& current == signed_in(was, s.after)
                    };
            }
        }
    }
    let ghost delivered = host.log();
    proof {
        assert(current == a.current(request_id, ok));
        assert(delivered == deliver_refresh_log(looked, request_id, outcome, table0, a));
    }
    if ok && is_drainable(current.state) {
        let awaiting = host.flag(Request::IsAwaitingTokenRefresh(url));
        proof {
            a.awaiting = awaiting;
        }
        if !awaiting {
            let deferred = host.keys(Request::DrainDeferredAuthSubscribes(url));
            let ghost listed = host.log();
            let ghost was = current;
            current = drain_deferred(host, url, &deferred, current, table);
            proof {
                a.deferred = deferred;
                a.drain = choose|answers: Seq<DrainAnswers>|
                    {
                        &&& host.log() == #[trigger] drain_rows_log(
                            listed,
                            url,
                            deferred@,
                            *table,
                            answers,
                        )
                        &&& drains_all(was, url, deferred@, *table, answers)
                        &&& current == drained_all(was, url, *table, answers)
                    };
            }
            write_mirror(host, url, current.state);
        }
    }
    let ghost drained_log = host.log();
    proof {
        assert(current == a.last(request_id, ok, table0));
        assert(drained_log == drain_log(delivered, request_id, ok, table0, a));
    }
    refresh_send_ready(host, url, current.state);
    let ghost ready = host.log();
    proof {
        let (reads, clock) = choose|reads: SendReadyReads, clock: BusClock|
            ready == #[trigger] refresh_send_ready_log(
                drained_log,
                url,
                current.state,
                reads,
                clock,
            );
        a.reads = reads;
        a.clock = clock;
    }
    let mut rearms = ok;
    if !ok {
        let cached = host.token(None);
        proof {
            a.cached = cached;
        }
        rearms = cached.is_none();
    }
    let ghost peeked = host.log();
    if rearms {
        rearm_token_refresh(host, url);
        proof {
            a.rearmed = choose|token: Option<CachedToken>|
                host.log() == #[trigger] rearm_log(peeked, url, token);
        }
    }
    match current.socket {
        Some(cid) => {
            table.sockets.set(url, Some(cid));
        },
        None => {
            drop_socket(host, url, table);
        },
    }
    proof {
        assert(host.log() == settle_refresh_log(drained_log, ok, current, a));
        assert(host.log() == refresh_outcome_log(before, request_id, outcome, table0, a));
    }
}

/// The connection as it is shown after a timer was handled beside the state
/// machine.
pub struct ShowAnswers {
    pub conn: Option<ConnView>,
    pub clock: BusClock,
}

pub open spec fn show_log(log: Log, url: WsUrl, a: ShowAnswers) -> Log {
    let log = asked(log, Request::Conn(url), Reply::Conn(a.conn));
    match a.conn {
        Some(conn) => {
            let log = told(log, Request::StoreMirror(url, conn.state));
            project_log(log, url, conn.socket, conn.socket, a.clock)
        },
        None => log,
    }
}

pub open spec fn show_table(url: WsUrl, table: SocketTable, a: ShowAnswers) -> SocketTable {
    match a.conn {
        Some(conn) => projected(table, url, conn.socket, conn.socket, a.clock.bus_alive),
        None => table,
    }
}

fn show_connection<F: Fn(Request) -> Reply>(
    host: &mut Link<F>,
    url: WsUrl,
    table: &mut SocketTable,
)
    requires
        old(table).wf(),
    ensures
        final(table).wf(),
        exists|a: ShowAnswers|
            {
                &&& final(host).log() == #[trigger] show_log(old(host).log(), url, a)
                &&& *final(table) == show_table(url, *old(table), a)
            },
{
    let ghost before = host.log();
    let ghost table0 = *table;
    let ghost mut a: ShowAnswers = arbitrary();
    let found = host.conn(url);
    proof {
        a.conn = found;
    }
    match found {
        Some(conn) => {
            write_mirror(host, url, conn.state);
            let ghost mirrored = host.log();
            project_socket_and_wire_bridge(host, &conn, url, conn.socket, table);
            proof {
                a.clock = choose|clock: BusClock|
                    {
                        &&& host.log() == #[trigger] project_log(
                            mirrored,
                            url,
                            conn.socket,
                            conn.socket,
                            clock,
                        )
                        &&& *table == projected(
                            table0,
                            url,
                            conn.socket,
                            conn.socket,
                            clock.bus_alive,
                        )
                    };
            }
        },
        None => {},
    }
    proof {
        assert(host.log() == show_log(before, url, a));
    }
}

/// What a fired timer met.
pub struct TimerAnswers {
    pub conn: Option<ConnView>,
    pub resend: ResendAnswers,
    pub reseed: ReseedTimeoutAnswers,
    pub show: ShowAnswers,
    pub now: u64,
}

/// The timer is taken out before anything else, so that one that nothing acts on
/// does not fire again and again.
pub open spec fn popped_log(log: Log, url: WsUrl, event: FsmEvent, conn: Option<ConnView>) -> Log {
    let log = asked(log, Request::Conn(url), Reply::Conn(conn));
    if conn is Some && timer_of(event) is Some {
        told(log, Request::PopTimer(url, timer_of(event)->Some_0))
    } else {
        log
    }
}

/// Whether a connection is to have its token refreshed: it has not ended.
pub open spec fn refreshes(conn: ConnView) -> bool {
    conn.state != ConnectionState::Closed && conn.state != ConnectionState::Failed
}

/// The proactive refresh of the token, set again from now and not from the token,
/// whose own instant is over.
pub open spec fn token_refresh_log(
    log: Log,
    url: WsUrl,
    conn: ConnView,
    period: u64,
    now: u64,
) -> Log {
    if refreshes(conn) {
        let log = told(log, Request::ProactiveRefresh);
        let log = asked(log, Request::ConnClock(url), Reply::Instant(now));
        told(log, Request::ArmTokenRefresh(url, (now + period) as u64))
    } else {
        log
    }
}

/// Whether the reactor acts on a timer itself, in place of the state machine.
pub open spec fn own_timer(event: FsmEvent) -> bool {
    event is TimerSubscribeResendDue || event is TimerBookReseedSnapshot
        || event is TimerTokenRefreshDue
}

/// Whether a fired timer was handled.
pub open spec fn timer_handled(
    before: Log,
    after: Log,
    url: WsUrl,
    event: FsmEvent,
    period: u64,
    table: SocketTable,
    end: SocketTable,
    a: TimerAnswers,
) -> bool {
    let log = popped_log(before, url, event, a.conn);
    if a.conn is None {
        after == log && end == table
    } else {
        match event {
            FsmEvent::TimerSubscribeResendDue { key } => {
                &&& after == show_log(resend_log(log, url, key, table, a.resend), url, a.show)
                &&& end == show_table(url, table, a.show)
                &&& resend_text(url, key, table, a.resend)
            },
            FsmEvent::TimerBookReseedSnapshot { key } => {
                &&& after == show_log(
                    reseed_timeout_log(log, url, key.pair, table, a.reseed),
                    url,
                    a.show,
                )
                &&& end == show_table(url, table, a.show)
                &&& reseeds_again(key.pair, a.reseed) ==> book_reseed_text(
                    url,
                    key.pair->Some_0,
                    a.reseed.params->Some_0,
                    table,
                    a.reseed.reseed,
                )
            },
            FsmEvent::TimerTokenRefreshDue => {
                &&& after == token_refresh_log(log, url, a.conn->Some_0, period, a.now)
                &&& end == table
                &&& refreshes(a.conn->Some_0) ==> a.now < CLOCK_LIMIT
            },
            _ => driven(log, after, url, event, table, end),
        }
    }
}

/// A timer of a connection has fired. The resend of a subscribe, the overdue
/// snapshot of a book and the refresh of the token are the reactor's own; all
/// other timers go to the state machine. `true` if the timer was the reactor's own.
pub fn on_timer<F: Fn(Request) -> Reply>(
    host: &mut Link<F>,
    url: WsUrl,
    event: FsmEvent,
    token_refresh_period: u64,
    table: &mut SocketTable,
) -> (own: bool)
    requires
        old(table).wf(),
        token_refresh_period <= CLOCK_LIMIT,
    ensures
        final(table).wf(),
        exists|a: TimerAnswers|
            {
                &&& #[trigger] timer_handled(
                    old(host).log(),
                    final(host).log(),
                    url,
                    event,
                    token_refresh_period,
                    *old(table),
                    *final(table),
                    a,
                )
                &&& own == (a.conn is Some && own_timer(event))
            },
{
    let ghost before = host.log();
    let ghost table0 = *table;
    let ghost fired = event;
    let ghost mut a: TimerAnswers = arbitrary();
    let found = host.conn(url);
    proof {
        a.conn = found;
    }
    let conn = match found {
        Some(conn) => conn,
        None => {
            proof {
                assert(timer_handled(
                    before,
                    host.log(),
                    url,
                    fired,
                    token_refresh_period,
                    table0,
                    *table,
                    a,
                ));
            }
            return false;
        },
    };
    match timer_id(&event) {
        Some(timer) => {
            host.tell(Request::PopTimer(url, timer));
        },
        None => {},
    }
    let ghost popped = host.log();
    proof {
        assert(popped == popped_log(before, url, fired, a.conn));
    }
    let own = match event {
        FsmEvent::TimerSubscribeResendDue { key } => {
            handle_subscribe_resend(host, url, &key, table);
            let ghost resent = host.log();
            proof {
                a.resend = choose|r: ResendAnswers|
                    {
                        &&& resent == #[trigger] resend_log(popped, url, key, table0, r)
                        &&& resend_text(url, key, table0, r)
                    };
            }
            show_connection(host, url, table);
            proof {
                a.show = choose|s: ShowAnswers|
                    {
                        &&& host.log() == #[trigger] show_log(resent, url, s)
                        &&& *table == show_table(url, table0, s)
                    };
            }
            true
        },
        FsmEvent::TimerBookReseedSnapshot { key } => {
            let left = handle_book_reseed_timeout(host, url, &key.pair, table);
            let ghost reseeded = host.log();
            proof {
                a.reseed = choose|r: ReseedTimeoutAnswers|
                    {
                        &&& reseeded == #[trigger] reseed_timeout_log(
                            popped,
                            url,
                            key.pair,
                            table0,
                            r,
                        )
                        &&& reseeds_again(key.pair, r) ==> book_reseed_text(
                            url,
                            key.pair->Some_0,
                            r.params->Some_0,
                            table0,
                            r.reseed,
                        )
                        &&& left == (if reseeds_again(key.pair, r) {
                            reseed_left(url, table0, r.reseed)
                        } else {
                            None
                        })
                    };
            }
            show_connection(host, url, table);
            proof {
                a.show = choose|s: ShowAnswers|
                    {
                        &&& host.log() == #[trigger] show_log(reseeded, url, s)
                        &&& *table == show_table(url, table0, s)
                    };
            }
            true
        },
        FsmEvent::TimerTokenRefreshDue => {
            let over = conn.state == ConnectionState::Closed || conn.state
                == ConnectionState::Failed;
            if !over {
                host.tell(Request::ProactiveRefresh);
                let now: u64 = host.conn_clock(url);
                host.tell(Request::ArmTokenRefresh(url, now + token_refresh_period));
                proof {
                    a.now = now;
                }
            }
            true
        },
        event => {
            drive_event(host, url, event, table);
            false
        },
    };
    proof {
        assert(timer_handled(
            before,
            host.log(),
            url,
            fired,
            token_refresh_period,
            table0,
            *table,
            a,
        ));
    }
    own
}

/// What the look at a pending close met.
pub struct CloseCheck {
    pub public: Option<ConnView>,
    pub auth: Option<ConnView>,
    pub clock: BusClock,
}

/// Whether a connection is closed, or there is none; a failed or idle one is not
/// closed.
pub open spec fn is_closed(conn: Option<ConnView>) -> bool {
    conn is Some ==> conn->Some_0.state == ConnectionState::Closed
}

pub open spec fn close_check_log(log: Log, pending: Option<PendingClose>, a: CloseCheck) -> Log {
    match pending {
        None => log,
        Some(close) => {
            let log = asked(log, Request::Conn(WsUrl::Public), Reply::Conn(a.public));
            let log = asked(log, Request::Conn(WsUrl::Auth), Reply::Conn(a.auth));
            if is_closed(a.public) && is_closed(a.auth) {
                announce_log(
                    log,
                    EventPayload::ClientClosedByUser { initiated_at: close.initiated_at },
                    close.request_id,
                    a.clock,
                )
            } else {
                log
            }
        },
    }
}

fn has_closed(conn: Option<ConnView>) -> (closed: bool)
    ensures
        closed == is_closed(conn),
{
    match conn {
        Some(conn) => conn.state == ConnectionState::Closed,
        None => true,
    }
}

/// After each turn: once a close was asked for and every connection is closed, says
/// so, to the waiter first. `true` if the reactor is to end.
pub fn complete_client_close<F: Fn(Request) -> Reply>(
    host: &mut Link<F>,
    pending: Option<PendingClose>,
) -> (ends: bool)
    ensures
        exists|a: CloseCheck|
            {
                &&& final(host).log() == #[trigger] close_check_log(
                    old(host).log(),
                    pending,
                    a,
                )
                &&& ends == (pending is Some && is_closed(a.public) && is_closed(a.auth))
            },
{
    let ghost before = host.log();
    let ghost mut a: CloseCheck = arbitrary();
    let close = match pending {
        Some(close) => close,
        None => {
            proof {
                assert(host.log() == close_check_log(before, pending, a));
            }
            return false;
        },
    };
    let public = host.conn(WsUrl::Public);
    let auth = host.conn(WsUrl::Auth);
    proof {
        a.public = public;
        a.auth = auth;
    }
    if !has_closed(public) || !has_closed(auth) {
        proof {
            assert(host.log() == close_check_log(before, pending, a));
        }
        return false;
    }
    let clock = host.bus_clock();
    proof {
        a.clock = clock;
    }
    if clock.bus_alive {
        host.tell(
            Request::DeliverCorrelated(
                EventEnvelope {
                    event_version: 1,
                    timestamp: clock.now,
                    request_id: Some(close.request_id),
                    payload: EventPayload::ClientClosedByUser {
                        initiated_at: close.initiated_at,
                    },
                },
            ),
        );
        host.tell(
            Request::Publish(
                EventEnvelope {
                    event_version: 1,
                    timestamp: clock.now,
                    request_id: None,
                    payload: EventPayload::ClientClosedByUser {
                        initiated_at: close.initiated_at,
                    },
                },
            ),
        );
    }
    proof {
        assert(host.log() == close_check_log(before, pending, a));
    }
    true
}

/// What the reactor keeps from one turn to the next.
pub struct Reactor {
    pub table: SocketTable,
    pub drops: DropTracker,
    pub warns: SuppressWarnTracker,
    pub pending: Option<PendingClose>,
    /// The epoch of the subscriptions for which the hints were stored.
    pub epoch: u64,
    /// How long after a proactive refresh the next one is due.
    pub token_refresh_period: u64,
}

/// The reactor between two turns, with what it has asked so far.
pub struct ReactorState {
    pub log: Log,
    pub table: SocketTable,
    pub drops: DropCounts,
    pub warns: WarnTimes,
    pub pending: Option<PendingClose>,
    pub token_refresh_period: u64,
}

/// What can happen to the reactor.
#[derive(Debug)]
pub enum Turn {
    Inbound(CallerInbound),
    Upgrade(UpgradeOutcome),
    /// A token refresh has ended; a proactive one has no request id.
    Refresh { request_id: u64, result: Result<(), Text> },
    Frame(WsUrl, Result<WsFrame, TransportError>),
    Timer(WsUrl, FsmEvent),
}

/// Whether an upgrade outcome was acted on.
pub open spec fn upgrade_handled(
    before: Log,
    after: Log,
    outcome: UpgradeOutcome,
    table: SocketTable,
    end: SocketTable,
) -> bool {
    match outcome {
        UpgradeOutcome::Upgraded { url, connection_id } => exists|a: UpgradeAnswers|
            {
                &&& after == #[trigger] upgrade_ok_log(before, url, connection_id, table, a)
                &&& end == upgrade_ok_table(url, connection_id, table, a)
                &&& upgrade_ok_whole(url, connection_id, table, a)
            },
        UpgradeOutcome::Failed { url, kind, transient } => exists|a: UpgradeFailedAnswers|
            {
                &&& after == #[trigger] upgrade_failed_log(
                    before,
                    url,
                    upgrade_failure(kind, transient),
                    a,
                )
                &&& end == upgrade_failed_table(url, table, a)
            },
    }
}

/// Whether the outcome of a token refresh was acted on.
pub open spec fn refresh_handled(
    before: Log,
    after: Log,
    request_id: u64,
    result: Result<(), Text>,
    table: SocketTable,
    end: SocketTable,
) -> bool {
    exists|a: RefreshAnswers|
        {
            &&& after == #[trigger] refresh_outcome_log(before, request_id, result, table, a)
            &&& end == refresh_outcome_table(request_id, result is Ok, table, a)
            &&& refresh_whole(request_id, result is Ok, table, a)
        }
}

/// Whether one thing that happened was acted on. `whole` says whether the turn goes
/// on to look at a pending close, which a timer of the reactor's own leaves to the
/// next turn.
pub open spec fn turn_handled(
    s: ReactorState,
    end: ReactorState,
    turn: Turn,
    whole: bool,
) -> bool {
    let quiet = end.drops == s.drops && end.warns == s.warns;
    let pending = end.pending == s.pending;
    &&& end.token_refresh_period == s.token_refresh_period
    &&& !(turn is Timer) ==> whole
    &&& match turn {
        Turn::Inbound(CallerInbound::ClientClose { request_id, initiated_at }) => {
            &&& quiet
            &&& end.pending == Some(PendingClose { request_id, initiated_at })
            &&& closed_client(s.log, end.log, request_id, s.table, end.table)
        },
        Turn::Inbound(msg) => quiet && pending && dispatched(
            s.log,
            end.log,
            msg,
            s.table,
            end.table,
        ),
        Turn::Upgrade(outcome) => quiet && pending && upgrade_handled(
            s.log,
            end.log,
            outcome,
            s.table,
            end.table,
        ),
        Turn::Refresh { request_id, result } => quiet && pending && refresh_handled(
            s.log,
            end.log,
            request_id,
            result,
            s.table,
            end.table,
        ),
        Turn::Frame(url, frame_result) => pending && frame_handled(
            TextEnd { log: s.log, warns: s.warns, drops: s.drops },
            TextEnd { log: end.log, warns: end.warns, drops: end.drops },
            url,
            frame_result,
            s.table,
            end.table,
        ),
        Turn::Timer(url, event) => quiet && pending && exists|a: TimerAnswers|
            {
                &&& #[trigger] timer_handled(
                    s.log,
                    end.log,
                    url,
                    event,
                    s.token_refresh_period,
                    s.table,
                    end.table,
                    a,
                )
                &&& whole == !(a.conn is Some && own_timer(event))
            },
    }
}

impl Reactor {
    /// A bridge stands only beside a socket, and a period can be added to any
    /// instant.
    pub open spec fn wf(self) -> bool {
        self.table.wf() && self.token_refresh_period <= CLOCK_LIMIT
    }

    /// The reactor, with what was asked so far.
    pub open spec fn at(self, log: Log) -> ReactorState {
        ReactorState {
            log,
            table: self.table,
            drops: self.drops@,
            warns: self.warns@,
            pending: self.pending,
            token_refresh_period: self.token_refresh_period,
        }
    }

    /// Starts a reactor, which has no sockets yet. The first thing that it asks for
    /// is to say that the client is ready.
    pub fn start<F: Fn(Request) -> Reply>(
        host: &mut Link<F>,
        ready: ReadySignal,
        token_refresh_period: u64,
    ) -> (reactor: Self)
        requires
            token_refresh_period <= CLOCK_LIMIT,
        ensures
            reactor.wf(),
            reactor.token_refresh_period == token_refresh_period,
            reactor.pending is None,
            reactor.drops@ == DropCounts::empty(),
            reactor.warns@ == WarnTimes::empty(),
            forall|url: WsUrl| reactor.table.sockets.at(url) is None,
            exists|clock: BusClock, snapshot: Arc<CapabilitySnapshot>|
                {
                    &&& final(host).log() == asked(
                        #[trigger] announce_log(
                            old(host).log(),
                            EventPayload::ClientReady { capability_snapshot: snapshot },
                            ready.request_id,
                            clock,
                        ),
                        Request::LivenessEpoch,
                        Reply::Count(reactor.epoch),
                    )
                    &&& *snapshot == ready.capability_snapshot
                },
    {
        announce_ready(host, ready);
        let epoch: u64 = host.count(Request::LivenessEpoch);
        Reactor {
            table: SocketTable::new(),
            drops: DropTracker::new(),
            warns: SuppressWarnTracker::new(),
            pending: None,
            epoch,
            token_refresh_period,
        }
    }

    /// Before each turn: brings the hints about the auth connection up to date.
    pub fn prepare<F: Fn(Request) -> Reply>(&mut self, host: &mut Link<F>)
        requires
            old(self).wf(),
        ensures
            final(self).wf(),
            exists|hint: HintAnswers|
                final(self).at(final(host).log()) == (ReactorState {
                    log: #[trigger] sync_log(
                        old(host).log(),
                        old(self).epoch,
                        final(self).epoch,
                        hint,
                    ),
                    ..old(self).at(old(host).log())
                }),
    {
        let ghost before = host.log();
        let ghost start = self.at(before);
        let last_epoch: u64 = self.epoch;
        self.epoch = sync_liveness(host, last_epoch);
        proof {
            let hint = choose|hint: HintAnswers|
                host.log() == #[trigger] sync_log(before, last_epoch, self.epoch, hint);
            assert(self.at(host.log()) == (ReactorState {
                log: sync_log(before, last_epoch, self.epoch, hint),
                ..start
            }));
        }
    }

    fn act<F: Fn(Request) -> Reply>(&mut self, host: &mut Link<F>, turn: Turn) -> (whole: bool)
        requires
            old(self).wf(),
        ensures
            final(self).wf(),
            final(self).epoch == old(self).epoch,
            turn_handled(
                old(self).at(old(host).log()),
                final(self).at(final(host).log()),
                turn,
                whole,
            ),
    {
        let ghost start = self.at(host.log());
        match turn {
            Turn::Inbound(msg) => {
                let pending = on_inbound(host, msg, self.pending, &mut self.table);
                self.pending = pending;
                true
            },
            Turn::Upgrade(outcome) => {
                match outcome {
                    UpgradeOutcome::Upgraded { url, connection_id } => {
                        on_upgrade_ok(host, url, connection_id, &mut self.table);
                    },
                    UpgradeOutcome::Failed { url, kind, transient } => {
                        on_upgrade_failed(host, url, kind, transient, &mut self.table);
                    },
                }
                true
            },
            Turn::Refresh { request_id, result } => {
                on_refresh_outcome(host, request_id, result, &mut self.table);
                true
            },
            Turn::Frame(url, frame_result) => {
                handle_frame(
                    host,
                    url,
                    frame_result,
                    &mut self.drops,
                    &mut self.warns,
                    &mut self.table,
                );
                true
            },
            Turn::Timer(url, event) => {
                let ghost fired = event;
                let period: u64 = self.token_refresh_period;
                let own = on_timer(host, url, event, period, &mut self.table);
                proof {
                    let end = self.at(host.log());
                    let a = choose|a: TimerAnswers|
                        {
                            &&& #[trigger] timer_handled(
                                start.log,
                                end.log,
                                url,
                                fired,
                                period,
                                start.table,
                                end.table,
                                a,
                            )
                            &&& own == (a.conn is Some && own_timer(fired))
                        };
                    assert(timer_handled(
                        start.log,
                        end.log,
                        url,
                        fired,
                        start.token_refresh_period,
                        start.table,
                        end.table,
                        a,
                    ));
                }
                !own
            },
        }
    }

    /// One turn of the reactor: acts on what happened, and then ends the client if
    /// its close is complete. A timer of the reactor's own leaves the look at a
    /// pending close to the next turn. `true` if the reactor is to end.
    pub fn step<F: Fn(Request) -> Reply>(&mut self, host: &mut Link<F>, turn: Turn) -> (ends: bool)
        requires
            old(self).wf(),
        ensures
            final(self).wf(),
            final(self).epoch == old(self).epoch,
            exists|acted: Log, whole: bool, a: CloseCheck|
                {
                    &&& #[trigger] turn_handled(
                        old(self).at(old(host).log()),
                        final(self).at(acted),
                        turn,
                        whole,
                    )
                    &&& whole ==> final(host).log() == #[trigger] close_check_log(
                        acted,
                        final(self).pending,
                        a,
                    )
                    &&& !whole ==> final(host).log() == acted
                    &&& ends == (whole && final(self).pending is Some && is_closed(a.public)
                        && is_closed(a.auth))
                },
    {
        let ghost start = self.at(host.log());
        let ghost happened = turn;
        let whole = self.act(host, turn);
        let ghost acted = host.log();
        if whole {
            complete_client_close(host, self.pending)
        } else {
            let ghost a: CloseCheck = arbitrary();
            proof {
                let checked = close_check_log(acted, self.pending, a);
                assert(turn_handled(start, self.at(acted), happened, whole));
            }
            false
        }
    }
}

/// An upgrade of a socket that is no longer in use does nothing but leave a line in
/// the log of the program.
pub proof fn a_stale_upgrade_is_dropped(
    log: Log,
    url: WsUrl,
    connection_id: u64,
    table: SocketTable,
    a: UpgradeAnswers,
)
    requires
        table.sockets.at(url) != Some(connection_id),
    ensures
        upgrade_ok_log(log, url, connection_id, table, a) == said(
            log,
            Note::StaleUpgrade { url, connection_id },
        ),
        upgrade_ok_table(url, connection_id, table, a) == table,
{
}

/// The outcome of a proactive refresh never decides a handshake: it drives nothing
/// into a connection that is not open or resubscribing.
pub proof fn a_proactive_refresh_decides_no_handshake(
    log: Log,
    result: Result<(), Text>,
    table: SocketTable,
    a: RefreshAnswers,
)
    requires
        a.conn is Some,
        !drains(a.conn->Some_0.state),
    ensures
        ({
            let after = refresh_outcome_log(log, 0, result, table, a);
            &&& grew_without(log, after, Effect::Drive)
            &&& grew_without(log, after, Effect::Send)
            &&& grew_without(log, after, Effect::Refresh)
        }),
{
}

/// A failed refresh sends nothing: neither the first subscribe nor a deferred one.
pub proof fn a_failed_refresh_sends_nothing(
    log: Log,
    request_id: u64,
    error: Text,
    table: SocketTable,
    a: RefreshAnswers,
)
    ensures
        grew_without(
            log,
            refresh_outcome_log(log, request_id, Err(error), table, a),
            Effect::Send,
        ),
{
}

/// A failed refresh leaves the proactive timer as it is while there is a token,
/// whose own instant may be over.
pub proof fn a_failed_refresh_keeps_the_timer(
    log: Log,
    request_id: u64,
    error: Text,
    table: SocketTable,
    a: RefreshAnswers,
)
    requires
        a.cached is Some,
    ensures
        ({
            let after = refresh_outcome_log(log, request_id, Err(error), table, a);
            forall|i: int|
                log.len() <= i < after.len() ==> !((#[trigger] after[i]).0 is ArmTokenRefresh) && !(
                after[i].0 is DisarmTokenRefresh)
        }),
{
}

/// The end of the client is announced exactly when a close was asked for and every
/// connection is closed: once to the waiter under its id, then once to everyone
/// under none.
pub proof fn the_end_is_announced_once(log: Log, pending: Option<PendingClose>, a: CloseCheck)
    ensures
        ({
            let after = close_check_log(log, pending, a);
            let n = log.len() as int;
            let ends = pending is Some && is_closed(a.public) && is_closed(a.auth)
                && a.clock.bus_alive;
            &&& extends(log, after)
            &&& !ends ==> grew_without(log, after, Effect::Announce)
            &&& ends ==> {
                &&& after.len() == n + 5
                &&& after[n + 3].0 is DeliverCorrelated
                &&& after[n + 3].0->DeliverCorrelated_0.request_id == Some(
                    pending->Some_0.request_id,
                )
                &&& after[n + 4].0 is Publish
                &&& after[n + 4].0->Publish_0.request_id is None
                &&& after[n + 3].0->DeliverCorrelated_0.payload == after[n + 4].0->Publish_0.payload
                &&& forall|i: int|
                    n <= i < n + 3 ==> !((#[trigger] after[i]).0.effect()
                        is Announce)
            }
        }),
{
}

/// The hints about the auth connection are stored anew exactly when the
/// subscriptions changed.
pub proof fn hints_follow_the_subscriptions(
    log: Log,
    last_epoch: u64,
    epoch: u64,
    hint: HintAnswers,
)
    ensures
        ({
            let after = sync_log(log, last_epoch, epoch, hint);
            made(
                log,
                after,
                Request::StoreAuthHasSubscriptions(hint.auth_has_entry),
            ) <==> epoch != last_epoch
        }),
{
    let after = sync_log(log, last_epoch, epoch, hint);
    if epoch != last_epoch {
        assert(after[log.len() as int + 2].0 == Request::StoreAuthHasSubscriptions(
            hint.auth_has_entry,
        ));
    }
}

/// A fired timer is taken out before anything acts on it.
pub proof fn a_fired_timer_is_popped_first(
    log: Log,
    url: WsUrl,
    event: FsmEvent,
    conn: ConnView,
)
    requires
        timer_of(event) is Some,
    ensures
        popped_log(log, url, event, Some(conn)).last().0 == Request::PopTimer(
            url,
            timer_of(event)->Some_0,
        ),
        grew_without(log, popped_log(log, url, event, Some(conn)), Effect::Drive),
{
}

/// A key that is no longer registered, that has ended, or whose subscribe is on the
/// wire, is not subscribed again by a drain.
pub proof fn a_drain_revives_nothing(
    log: Log,
    url: WsUrl,
    key: Key,
    params: SubscribeParams,
    table: SocketTable,
    a: DrainAnswers,
)
    requires
        a.params is None || a.terminated || a.armed,
    ensures
        grew_without(log, drain_row_log(log, url, key, params, table, a), Effect::Send),
        grew_without(log, drain_row_log(log, url, key, params, table, a), Effect::Refresh),
{
}

proof fn replayed_frame_is_sent(
    log: Log,
    url: WsUrl,
    socket: u64,
    key: Key,
    millis: Option<u32>,
    a: ReplayAnswers,
)
    ensures
        ({
            let after = replay_frame_log(log, url, socket, key, millis, a);
            &&& extends(log, after)
            &&& made(log, after, Request::SendFrame(url, socket, a.text))
            &&& happened(log, after, Effect::Send) == seq![
                Request::SendFrame(url, socket, a.text),
            ]
            &&& a.outcome is Sent ==> happened(log, after, Effect::Await) == seq![
                Request::ArmSubscribeAck(url, key, ack_due(a.now, millis)),
            ]
            &&& a.outcome is Sent ==> made(
                log,
                after,
                Request::ArmSubscribeAck(url, key, ack_due(a.now, millis)),
            )
        }),
{
    let after = replay_frame_log(log, url, socket, key, millis, a);
    let n = log.len() as int;
    assert(after[n + 1].0 == Request::SendFrame(url, socket, a.text));
    happened_once(log, after, Effect::Send, n + 1);
    if a.outcome is Sent {
        let at = if key.channel == ChannelName::Book {
            n + 5
        } else {
            n + 4
        };
        assert(after[at].0 == Request::ArmSubscribeAck(url, key, ack_due(a.now, millis)));
        happened_once(log, after, Effect::Await, at);
    }
}

/// The frames of a replay, in order.
pub open spec fn replay_sends(url: WsUrl, socket: u64, answers: Seq<ReplayAnswers>) -> Seq<
    Request,
> {
    Seq::new(answers.len(), |i: int| Request::SendFrame(url, socket, answers[i].text))
}

/// The acknowledgements that a replay waits for if all its frames are taken, in
/// order.
pub open spec fn replay_waits(
    url: WsUrl,
    frames: Seq<(Key, Value)>,
    millis: Option<u32>,
    answers: Seq<ReplayAnswers>,
) -> Seq<Request> {
    Seq::new(
        answers.len(),
        |i: int| Request::ArmSubscribeAck(url, frames[i].0, ack_due(answers[i].now, millis)),
    )
}

/// Whether every frame of a replay is taken.
pub open spec fn all_taken(answers: Seq<ReplayAnswers>) -> bool {
    forall|i: int| 0 <= i < answers.len() ==> (#[trigger] answers[i]).outcome is Sent
}

proof fn replayed_frames_are_sent(
    log: Log,
    url: WsUrl,
    socket: u64,
    frames: Seq<(Key, Value)>,
    millis: Option<u32>,
    answers: Seq<ReplayAnswers>,
)
    ensures
        ({
            let after = replay_frames_log(log, url, socket, frames, millis, answers);
            &&& extends(log, after)
            &&& happened(log, after, Effect::Send) == replay_sends(url, socket, answers)
            &&& all_taken(answers) ==> happened(log, after, Effect::Await) == replay_waits(
                url,
                frames,
                millis,
                answers,
            )
            &&& forall|i: int|
                0 <= i < answers.len() ==> {
                    &&& made(
                        log,
                        after,
                        Request::SendFrame(url, socket, (#[trigger] answers[i]).text),
                    )
                    &&& answers[i].outcome is Sent ==> made(
                        log,
                        after,
                        Request::ArmSubscribeAck(
                            url,
                            frames[i].0,
                            ack_due(answers[i].now, millis),
                        ),
                    )
                }
        }),
    decreases answers.len(),
{
    if answers.len() == 0 {
        assert(replay_sends(url, socket, answers) =~= Seq::empty());
        assert(replay_waits(url, frames, millis, answers) =~= Seq::empty());
    } else {
        let most = answers.drop_last();
        let last = answers.len() - 1;
        let before = replay_frames_log(log, url, socket, frames, millis, most);
        let after = replay_frames_log(log, url, socket, frames, millis, answers);
        replayed_frames_are_sent(log, url, socket, frames, millis, most);
        replayed_frame_is_sent(before, url, socket, frames[last].0, millis, answers.last());
        happened_together(log, before, after, Effect::Send);
        happened_together(log, before, after, Effect::Await);
        assert(happened(log, after, Effect::Send) =~= replay_sends(url, socket, answers));
        if all_taken(answers) {
            assert forall|i: int| 0 <= i < most.len() implies (#[trigger] most[i]).outcome
                is Sent by {
                assert(most[i] == answers[i]);
            }
            assert(answers[last].outcome is Sent);
            assert(happened(log, after, Effect::Await) =~= replay_waits(
                url,
                frames,
                millis,
                answers,
            ));
        }
        assert forall|i: int| 0 <= i < answers.len() implies {
            &&& made(log, after, Request::SendFrame(url, socket, (#[trigger] answers[i]).text))
            &&& answers[i].outcome is Sent ==> made(
                log,
                after,
                Request::ArmSubscribeAck(url, frames[i].0, ack_due(answers[i].now, millis)),
            )
        } by {
            if i < last {
                assert(most[i] == answers[i]);
                made_earlier(
                    log,
                    before,
                    after,
                    Request::SendFrame(url, socket, answers[i].text),
                );
                if answers[i].outcome is Sent {
                    made_earlier(
                        log,
                        before,
                        after,
                        Request::ArmSubscribeAck(
                            url,
                            frames[i].0,
                            ack_due(answers[i].now, millis),
                        ),
                    );
                }
            } else {
                made_later(
                    log,
                    before,
                    after,
                    Request::SendFrame(url, socket, answers[i].text),
                );
                if answers[i].outcome is Sent {
                    made_later(
                        log,
                        before,
                        after,
                        Request::ArmSubscribeAck(
                            url,
                            frames[i].0,
                            ack_due(answers[i].now, millis),
                        ),
                    );
                }
            }
        }
    }
}

/// A reconnect brings every subscription back: as long as no send costs the
/// connection its socket, the frame of each is sent once, in order, under an id of
/// its own, and nothing else is sent. Each that was taken waits for its
/// acknowledgement; if all are taken, those are all that is waited for.
pub proof fn a_reconnect_restores_every_subscription(
    log: Log,
    url: WsUrl,
    socket: u64,
    frames: Seq<(Key, Value)>,
    millis: Option<u32>,
    answers: Seq<ReplayAnswers>,
)
    requires
        replays_frames(frames, answers),
        forall|i: int| 0 <= i < answers.len() ==> !stops_replay(#[trigger] answers[i].outcome),
    ensures
        answers.len() == frames.len(),
        ({
            let after = replay_frames_log(log, url, socket, frames, millis, answers);
            &&& extends(log, after)
            &&& happened(log, after, Effect::Send) == replay_sends(url, socket, answers)
            &&& all_taken(answers) ==> happened(log, after, Effect::Await) == replay_waits(
                url,
                frames,
                millis,
                answers,
            )
            &&& forall|i: int|
                0 <= i < frames.len() ==> {
                    &&& (#[trigger] answers[i]).text@ == json_text(
                        stamped(json_of(frames[i].1), answers[i].req_id),
                    )
                    &&& made(log, after, Request::SendFrame(url, socket, answers[i].text))
                    &&& answers[i].outcome is Sent ==> made(
                        log,
                        after,
                        Request::ArmSubscribeAck(
                            url,
                            frames[i].0,
                            ack_due(answers[i].now, millis),
                        ),
                    )
                }
        }),
{
    replayed_frames_are_sent(log, url, socket, frames, millis, answers);
    if answers.len() < frames.len() {
        assert(!stops_replay(answers[answers.len() - 1].outcome));
    }
    assert forall|i: int| 0 <= i < frames.len() implies (#[trigger] answers[i]).text@ == json_text(
        stamped(json_of(frames[i].1), answers[i].req_id),
    ) by {
        assert(answers[i].text@ == json_text(stamped(json_of(frames[i].1), answers[i].req_id)));
    }
}

/// The upgrade of the socket of a connection that was open before sends, on that
/// socket, the frame of each subscription once, in order, and nothing else.
pub proof fn a_reconnect_sends_only_the_replay(
    log: Log,
    url: WsUrl,
    connection_id: u64,
    table: SocketTable,
    a: UpgradeAnswers,
)
    requires
        table.sockets.at(url) == Some(connection_id),
        a.conn is Some,
        resubscribes(a.after),
        a.resubscribe.completed.state != ConnectionState::Authenticating,
        upgrade_ok_whole(url, connection_id, table, a),
        forall|i: int|
            0 <= i < a.resubscribe.replay.len() ==> !stops_replay(
                #[trigger] a.resubscribe.replay[i].outcome,
            ),
    ensures
        ({
            let after = upgrade_ok_log(log, url, connection_id, table, a);
            let r = a.resubscribe;
            &&& r.replay.len() == r.frames@.len()
            &&& happened(log, after, Effect::Send) == replay_sends(url, connection_id, r.replay)
            &&& all_taken(r.replay) ==> happened(log, after, Effect::Await) == replay_waits(
                url,
                r.frames@,
                r.millis,
                r.replay,
            )
        }),
{
    let r = a.resubscribe;
    let upgraded = told(
        asked(
            asked(log, Request::Conn(url), Reply::Conn(a.conn)),
            Request::HandleEvent(
                url,
                FsmEvent::WireUpgradeOk { connection_id: Some(connection_id) },
            ),
            Reply::View(a.after),
        ),
        Request::StoreMirror(url, a.after.state),
    );
    let ready = asked(
        asked(upgraded, Request::ComposeSubscribeFrames(url), Reply::Frames(r.frames)),
        Request::SubscribeAckTimeoutMs,
        Reply::Millis(r.millis),
    );
    let replayed = replay_frames_log(ready, url, connection_id, r.frames@, r.millis, r.replay);
    let after = upgrade_ok_log(log, url, connection_id, table, a);
    a_reconnect_restores_every_subscription(
        ready,
        url,
        connection_id,
        r.frames@,
        r.millis,
        r.replay,
    );
    assert(grew_without(log, ready, Effect::Send));
    assert(grew_without(log, ready, Effect::Await));
    assert(grew_without(replayed, after, Effect::Send));
    assert(grew_without(replayed, after, Effect::Await));
    nothing_happened(log, ready, Effect::Send);
    nothing_happened(log, ready, Effect::Await);
    nothing_happened(replayed, after, Effect::Send);
    nothing_happened(replayed, after, Effect::Await);
    happened_together(log, ready, replayed, Effect::Send);
    happened_together(log, ready, replayed, Effect::Await);
    happened_together(log, replayed, after, Effect::Send);
    happened_together(log, replayed, after, Effect::Await);
    assert(happened(log, after, Effect::Send) =~= replay_sends(url, connection_id, r.replay));
    if all_taken(r.replay) {
        assert(happened(log, after, Effect::Await) =~= replay_waits(
            url,
            r.frames@,
            r.millis,
            r.replay,
        ));
    }
}

proof fn settling_is_silent(log: Log, ok: bool, last: ConnView, a: RefreshAnswers)
    ensures
        ({
            let after = settle_refresh_log(log, ok, last, a);
            &&& grew_without(log, after, Effect::Send)
            &&& grew_without(log, after, Effect::Await)
            &&& grew_without(log, after, Effect::Drive)
        }),
{
}

/// A refresh that succeeded is told to the connection. Where that leaves it
/// authenticating with nothing on the wire, the reactor signs in at once: with a
/// token that has not expired, a socket and a subscription to sign, exactly one frame
/// goes out, on the auth socket. It is the first subscribe, composed with that token
/// and stamped with a fresh id, and its acknowledgement is waited for if it was
/// taken.
pub proof fn a_refreshed_token_signs_in(
    log: Log,
    request_id: u64,
    table: SocketTable,
    socket: u64,
    a: RefreshAnswers,
)
    requires
        refresh_whole(request_id, true, table, a),
        a.conn is Some,
        request_id != 0 || a.conn->Some_0.state == ConnectionState::Open || a.conn->Some_0.state
            == ConnectionState::Resubscribing,
        a.after.authenticating_nothing_in_flight,
        a.sign_in.first.token is Some,
        !a.sign_in.first.token->Some_0.expired,
        a.sign_in.first.first is Some,
        table.sockets.at(WsUrl::Auth) == Some(socket),
        match a.sign_in.first.issue.outcome {
            SendOutcome::Sent => a.after.state != ConnectionState::Open && a.after.state
                != ConnectionState::Resubscribing,
            SendOutcome::Backpressured(conn) | SendOutcome::WriterDead(conn) => conn.state
                != ConnectionState::Open && conn.state != ConnectionState::Resubscribing,
        },
    ensures
        ({
            let url = WsUrl::Auth;
            let after = refresh_outcome_log(log, request_id, Ok(()), table, a);
            let first = a.sign_in.first;
            let token = first.token->Some_0.value;
            let key = first.first->Some_0.0;
            let frame = first.first->Some_0.1;
            let n = log.len() as int;
            &&& extends(log, after)
            &&& happened(log, after, Effect::Send) == seq![
                Request::SendFrame(url, socket, first.issue.text),
            ]
            &&& after[n] == (Request::Conn(url), Reply::Conn(a.conn))
            &&& after[n + 1] == (
                Request::HandleEvent(url, FsmEvent::BusTokenRefreshed { request_id }),
                Reply::View(a.after),
            )
            &&& after[n + 3] == (Request::ConnClock(url), Reply::Instant(first.now))
            &&& after[n + 4] == (Request::CachedToken(Some(first.now)), Reply::Token(first.token))
            &&& after[n + 5] == (
                Request::ComposeFirstSignedSubscribe(url, token),
                Reply::Frame(Some((key, frame))),
            )
            &&& after[n + 6] == (
                Request::NextSubscribeReqId(url),
                Reply::Count(first.issue.req_id),
            )
            &&& first.issue.text@ == json_text(stamped(json_of(frame), first.issue.req_id))
            &&& first.issue.outcome is Sent ==> happened(log, after, Effect::Await) == seq![
                Request::ArmSubscribeAck(url, key, ack_due(first.issue.now, first.issue.millis)),
            ]
        }),
{
    let url = WsUrl::Auth;
    let first = a.sign_in.first;
    let n = log.len() as int;
    let looked = asked(log, Request::Conn(url), Reply::Conn(a.conn));
    let refreshed = told(
        asked(
            looked,
            Request::HandleEvent(url, FsmEvent::BusTokenRefreshed { request_id }),
            Reply::View(a.after),
        ),
        Request::StoreMirror(url, a.after.state),
    );
    let signed = first_signed_log(refreshed, url, a.after.state, table, first);
    let delivered = deliver_refresh_log(looked, request_id, Ok(()), table, a);
    let last = a.last(request_id, true, table);
    let after = refresh_outcome_log(log, request_id, Ok(()), table, a);
    signing_in_sends_one_frame(refreshed, url, a.after.state, table, first);
    assert(delivered == told(
        signed,
        Request::StoreMirror(url, signed_in(a.after, a.sign_in.after).state),
    ));
    assert(drain_log(delivered, request_id, true, table, a) == delivered);
    settling_is_silent(delivered, true, last, a);
    assert(grew_without(log, refreshed, Effect::Send));
    assert(grew_without(log, refreshed, Effect::Await));
    assert(grew_without(signed, delivered, Effect::Send));
    assert(grew_without(signed, delivered, Effect::Await));
    nothing_happened(log, refreshed, Effect::Send);
    nothing_happened(log, refreshed, Effect::Await);
    nothing_happened(signed, delivered, Effect::Send);
    nothing_happened(signed, delivered, Effect::Await);
    nothing_happened(delivered, after, Effect::Send);
    nothing_happened(delivered, after, Effect::Await);
    happened_together(log, refreshed, signed, Effect::Send);
    happened_together(log, refreshed, signed, Effect::Await);
    happened_together(log, signed, delivered, Effect::Send);
    happened_together(log, signed, delivered, Effect::Await);
    happened_together(log, delivered, after, Effect::Send);
    happened_together(log, delivered, after, Effect::Await);
    assert(happened(log, after, Effect::Send) =~= happened(refreshed, signed, Effect::Send));
    assert(happened(log, after, Effect::Await) =~= happened(refreshed, signed, Effect::Await));
    assert forall|i: int| n <= i < signed.len() implies #[trigger] after[i] == signed[i] by {
        assert(after[i] == delivered[i]);
    }
    assert(after[n] == signed[n] && signed[n] == refreshed[n]);
    assert(after[n + 1] == signed[n + 1] && signed[n + 1] == refreshed[n + 1]);
    assert(after[n + 3] == signed[n + 3]);
    assert(after[n + 4] == signed[n + 4]);
    assert(after[n + 5] == signed[n + 5]);
    assert(after[n + 6] == signed[n + 6]);
}

/// The outcome of a refresh is told to the connection as what it was, under the id
/// of the request: always where it answers one, and that of a proactive refresh only
/// where the connection is open or resubscribes. It is told once, first, and what the
/// connection then says is shown.
pub proof fn a_refresh_outcome_is_told(
    log: Log,
    request_id: u64,
    result: Result<(), Text>,
    table: SocketTable,
    a: RefreshAnswers,
)
    requires
        a.conn is Some,
    ensures
        ({
            let url = WsUrl::Auth;
            let looked = log.push((Request::Conn(url), Reply::Conn(a.conn)));
            let after = deliver_refresh_log(looked, request_id, result, table, a);
            let state = a.conn->Some_0.state;
            let told = request_id != 0 || state == ConnectionState::Open || state
                == ConnectionState::Resubscribing;
            let n = log.len() as int;
            &&& extends(looked, after)
            &&& !told ==> after == looked
            &&& told ==> {
                &&& after[n + 1] == (
                    Request::HandleEvent(
                        url,
                        match result {
                            Ok(_) => FsmEvent::BusTokenRefreshed { request_id },
                            Err(error) => FsmEvent::BusTokenRefreshFailed { request_id, error },
                        },
                    ),
                    Reply::View(a.after),
                )
                &&& after[n + 2].0 == Request::StoreMirror(url, a.after.state)
            }
            &&& told && !(result is Ok && a.after.authenticating_nothing_in_flight)
                ==> after.len() == n + 3
        }),
{
    let url = WsUrl::Auth;
    let looked = log.push((Request::Conn(url), Reply::Conn(a.conn)));
    let after = deliver_refresh_log(looked, request_id, result, table, a);
    if a.signs_in(request_id, result is Ok) {
        let n = log.len() as int;
        let refreshed = told(
            asked(
                looked,
                Request::HandleEvent(url, refresh_event(request_id, result)),
                Reply::View(a.after),
            ),
            Request::StoreMirror(url, a.after.state),
        );
        signing_in_leaves_what_was_told(
            refreshed,
            url,
            a.after.state,
            table,
            a.sign_in.first,
        );
        assert(extends(refreshed, after));
        assert(after[n + 1] == refreshed[n + 1]);
        assert(after[n + 2] == refreshed[n + 2]);
    }
}

/// A deferred subscribe is issued as it was deferred, if its key is still registered
/// and live and no subscribe of it is on the wire; otherwise nothing comes of it.
pub proof fn a_deferred_subscribe_is_issued(
    log: Log,
    url: WsUrl,
    key: Key,
    params: SubscribeParams,
    table: SocketTable,
    a: DrainAnswers,
)
    ensures
        ({
            let after = drain_row_log(log, url, key, params, table, a);
            let looked = log.push((Request::ParamsFor(key), Reply::Params(a.params))).push(
                (Request::IsTerminated(key), Reply::Flag(a.terminated)),
            ).push((Request::IsSubscribeAckArmed(url, key), Reply::Flag(a.armed)));
            after == if a.params is Some && !a.terminated && !a.armed {
                single_signed_log(looked, url, key, params, table, a.signed)
            } else {
                looked
            }
        }),
{
}

/// What a drain sends: the first of the deferred subscribes, each once and in order.
proof fn a_drain_sends_in_order(
    log: Log,
    url: WsUrl,
    deferred: Seq<(Key, SubscribeParams)>,
    table: SocketTable,
    socket: u64,
    answers: Seq<DrainAnswers>,
)
    requires
        answers.len() <= deferred.len(),
        table.sockets.at(url) == Some(socket),
        forall|i: int|
            0 <= i < answers.len() ==> {
                let a = #[trigger] answers[i];
                &&& a.params is Some && !a.terminated && !a.armed
                &&& a.signed.token is Some && !a.signed.token->Some_0.expired
                &&& a.signed.issue.outcome is Sent
                &&& drain_text(url, deferred[i], table, a)
            },
    ensures
        ({
            let after = drain_rows_log(log, url, deferred, table, answers);
            &&& extends(log, after)
            &&& happened(log, after, Effect::Send) == Seq::new(
                answers.len(),
                |i: int| Request::SendFrame(url, socket, answers[i].signed.issue.text),
            )
            &&& happened(log, after, Effect::Defer) == Seq::<Request>::empty()
        }),
    decreases answers.len(),
{
    let after = drain_rows_log(log, url, deferred, table, answers);
    if answers.len() > 0 {
        let last = answers.len() - 1;
        let most = answers.drop_last();
        let a = answers[last];
        let row = deferred[last];
        let before = drain_rows_log(log, url, deferred, table, most);
        assert forall|i: int| 0 <= i < most.len() implies {
            let a = #[trigger] most[i];
            &&& a.params is Some && !a.terminated && !a.armed
            &&& a.signed.token is Some && !a.signed.token->Some_0.expired
            &&& a.signed.issue.outcome is Sent
            &&& drain_text(url, deferred[i], table, a)
        } by {
            assert(most[i] == answers[i]);
        }
        a_drain_sends_in_order(log, url, deferred, table, socket, most);
        let looked = asked(
            asked(
                asked(before, Request::ParamsFor(row.0), Reply::Params(a.params)),
                Request::IsTerminated(row.0),
                Reply::Flag(a.terminated),
            ),
            Request::IsSubscribeAckArmed(url, row.0),
            Reply::Flag(a.armed),
        );
        assert(drain_text(url, deferred[last], table, a));
        a_signed_subscribe_is_sent_with_its_token(
            looked,
            url,
            row.0,
            row.1,
            table,
            None,
            a.signed,
        );
        nothing_happened(before, looked, Effect::Send);
        nothing_happened(before, looked, Effect::Defer);
        happened_together(before, looked, after, Effect::Send);
        happened_together(before, looked, after, Effect::Defer);
        happened_together(log, before, after, Effect::Send);
        happened_together(log, before, after, Effect::Defer);
    }
    assert(happened(log, after, Effect::Send) =~= Seq::new(
        answers.len(),
        |i: int| Request::SendFrame(url, socket, answers[i].signed.issue.text),
    ));
    assert(happened(log, after, Effect::Defer) =~= Seq::<Request>::empty());
}

proof fn a_drain_leaves_what_was_told(
    log: Log,
    url: WsUrl,
    conn: ConnView,
    deferred: Seq<(Key, SubscribeParams)>,
    table: SocketTable,
    answers: Seq<DrainAnswers>,
)
    requires
        last_told(log, url) == Some(conn),
    ensures
        ({
            let after = drain_rows_log(log, url, deferred, table, answers);
            &&& extends(log, after)
            &&& shows_what_is(log, after)
            &&& last_told(after, url) == Some(drained_all(conn, url, table, answers))
        }),
    decreases answers.len(),
{
    showing(log);
    if answers.len() > 0 {
        let row = deferred[answers.len() - 1];
        let a = answers.last();
        let before = drain_rows_log(log, url, deferred, table, answers.drop_last());
        let after = drain_rows_log(log, url, deferred, table, answers);
        a_drain_leaves_what_was_told(log, url, conn, deferred, table, answers.drop_last());
        let looked = asked(
            asked(
                asked(before, Request::ParamsFor(row.0), Reply::Params(a.params)),
                Request::IsTerminated(row.0),
                Reply::Flag(a.terminated),
            ),
            Request::IsSubscribeAckArmed(url, row.0),
            Reply::Flag(a.armed),
        );
        showing(before);
        a_signed_subscribe_leaves_what_was_told(looked, url, row.0, row.1, table, a.signed);
        assert(extends(before, looked));
        if a.issues() {
            shows_together(before, looked, after);
            assert forall|i: int| 0 <= i < before.len() implies #[trigger] after[i]
                == before[i] by {
                assert(after[i] == looked[i]);
                assert(looked[i] == before[i]);
            }
        }
        assert(extends(before, after));
        shows_together(log, before, after);
        assert forall|i: int| 0 <= i < log.len() implies #[trigger] after[i] == log[i] by {
            assert(after[i] == before[i]);
            assert(before[i] == log[i]);
        }
    }
}

/// A new token issues what was deferred for the want of one. Where the connection is
/// open or resubscribes once it was told, and no other refresh is awaited, the
/// deferred subscribes are taken, all of them, and issued in order on the auth
/// socket, each with its own params and the token: where all are still wanted and
/// taken, one frame for each, none left out and none deferred again.
pub proof fn a_new_token_issues_what_was_deferred(
    log: Log,
    request_id: u64,
    table: SocketTable,
    socket: u64,
    a: RefreshAnswers,
)
    requires
        refresh_whole(request_id, true, table, a),
        a.conn is Some,
        !a.after.authenticating_nothing_in_flight,
        ({
            let state = if request_id != 0 || a.conn->Some_0.state == ConnectionState::Open
                || a.conn->Some_0.state == ConnectionState::Resubscribing {
                a.after.state
            } else {
                a.conn->Some_0.state
            };
            state == ConnectionState::Open || state == ConnectionState::Resubscribing
        }),
        !a.awaiting,
        table.sockets.at(WsUrl::Auth) == Some(socket),
        forall|i: int|
            0 <= i < a.drain.len() ==> {
                let d = #[trigger] a.drain[i];
                &&& d.params is Some && !d.terminated && !d.armed
                &&& d.signed.token is Some && !d.signed.token->Some_0.expired
                &&& d.signed.issue.outcome is Sent
            },
    ensures
        ({
            let url = WsUrl::Auth;
            let after = refresh_outcome_log(log, request_id, Ok(()), table, a);
            &&& extends(log, after)
            &&& exists|i: int|
                log.len() <= i < after.len() && #[trigger] after[i] == (
                    Request::DrainDeferredAuthSubscribes(url),
                    Reply::Keys(a.deferred),
                )
            &&& a.drain.len() == a.deferred@.len()
            &&& happened(log, after, Effect::Send) == Seq::new(
                a.deferred@.len(),
                |i: int| Request::SendFrame(url, socket, a.drain[i].signed.issue.text),
            )
            &&& happened(log, after, Effect::Defer) == Seq::<Request>::empty()
            &&& forall|i: int|
                0 <= i < a.deferred@.len() ==> (#[trigger] a.drain[i]).signed.issue.text@
                    == json_text(
                    tokened(
                        subscription_json(
                            SubscriptionMethod::Subscribe,
                            a.deferred@[i].0,
                            a.deferred@[i].1,
                            a.drain[i].signed.issue.req_id,
                        ),
                        a.drain[i].signed.token->Some_0.value@,
                    ),
                )
        }),
{
    let url = WsUrl::Auth;
    let looked = asked(log, Request::Conn(url), Reply::Conn(a.conn));
    let delivered = deliver_refresh_log(looked, request_id, Ok(()), table, a);
    let listed = asked(
        asked(delivered, Request::IsAwaitingTokenRefresh(url), Reply::Flag(a.awaiting)),
        Request::DrainDeferredAuthSubscribes(url),
        Reply::Keys(a.deferred),
    );
    let current = a.current(request_id, true);
    let rows = drain_rows_log(listed, url, a.deferred@, table, a.drain);
    let drained = drain_log(delivered, request_id, true, table, a);
    let last = a.last(request_id, true, table);
    let after = refresh_outcome_log(log, request_id, Ok(()), table, a);
    assert forall|i: int| 0 <= i < a.drain.len() implies {
        let d = #[trigger] a.drain[i];
        &&& d.params is Some && !d.terminated && !d.armed
        &&& d.signed.token is Some && !d.signed.token->Some_0.expired
        &&& d.signed.issue.outcome is Sent
        &&& drain_text(url, a.deferred@[i], table, d)
    } by {}
    a_drain_sends_in_order(listed, url, a.deferred@, table, socket, a.drain);
    a_quiet_drain_keeps_the_connection(current, url, table, a.drain);
    assert(grew_without(log, listed, Effect::Send));
    assert(grew_without(log, listed, Effect::Defer));
    nothing_happened(log, listed, Effect::Send);
    nothing_happened(log, listed, Effect::Defer);
    settling_is_silent(drained, true, last, a);
    assert(grew_without(drained, after, Effect::Defer));
    assert(grew_without(rows, drained, Effect::Send));
    assert(grew_without(rows, drained, Effect::Defer));
    nothing_happened(rows, drained, Effect::Send);
    nothing_happened(rows, drained, Effect::Defer);
    nothing_happened(drained, after, Effect::Send);
    nothing_happened(drained, after, Effect::Defer);
    happened_together(log, listed, rows, Effect::Send);
    happened_together(log, listed, rows, Effect::Defer);
    happened_together(log, rows, drained, Effect::Send);
    happened_together(log, rows, drained, Effect::Defer);
    happened_together(log, drained, after, Effect::Send);
    happened_together(log, drained, after, Effect::Defer);
    assert(happened(log, after, Effect::Send) =~= happened(listed, rows, Effect::Send));
    assert(happened(log, after, Effect::Defer) =~= happened(listed, rows, Effect::Defer));
    let at = listed.len() - 1;
    assert(after[at] == drained[at] && drained[at] == rows[at] && rows[at] == listed[at]);
}

proof fn a_quiet_drain_keeps_the_connection(
    conn: ConnView,
    url: WsUrl,
    table: SocketTable,
    answers: Seq<DrainAnswers>,
)
    requires
        forall|i: int|
            0 <= i < answers.len() ==> (#[trigger] answers[i]).signed.issue.outcome is Sent,
    ensures
        drained_all(conn, url, table, answers) == conn,
    decreases answers.len(),
{
    if answers.len() > 0 {
        let most = answers.drop_last();
        assert forall|i: int| 0 <= i < most.len() implies (
        #[trigger] most[i]).signed.issue.outcome is Sent by {
            assert(most[i] == answers[i]);
        }
        a_quiet_drain_keeps_the_connection(conn, url, table, most);
        assert(answers[answers.len() - 1].signed.issue.outcome is Sent);
    }
}

/// Whether a request sets the proactive refresh of the token, or clears it.
pub open spec fn sets_the_refresh(request: Request) -> bool {
    request is ArmTokenRefresh || request is DisarmTokenRefresh
}

proof fn a_refresh_is_settled(log: Log, ok: bool, last: ConnView, a: RefreshAnswers)
    requires
        last_told(log, WsUrl::Auth) == Some(last),
    ensures
        ({
            let url = WsUrl::Auth;
            let after = settle_refresh_log(log, ok, last, a);
            let set = picked(log, after, |request: Request| sets_the_refresh(request));
            let dropped = picked(log, after, |request: Request| request is DropUpgradeBridge);
            let ready = last.state == ConnectionState::Authenticating && !a.reads.auth_has_entry
                && a.reads.token is Some && !a.reads.token->Some_0.expired;
            let end = if last.socket is None {
                after.len() - 1
            } else {
                after.len() as int
            };
            &&& extends(log, after)
            &&& shows_what_is(log, after)
            &&& last_told(after, url) == Some(last)
            &&& last_set(after, Flag::AuthSendReady) == Some(ready)
            &&& dropped == if last.socket is None {
                seq![(Request::DropUpgradeBridge(url), Reply::Done)]
            } else {
                Log::empty()
            }
            &&& ok || a.cached is None ==> set.len() == 1 && set[0].0 == (match a.rearmed {
                Some(token) => Request::ArmTokenRefresh(url, token.refresh_due_at),
                None => Request::DisarmTokenRefresh(url),
            }) && after[end - 1] == set[0] && after[end - 2] == (
                Request::CachedToken(None),
                Reply::Token(a.rearmed),
            )
            &&& !ok && a.cached is Some ==> set == Log::empty()
            &&& !ok ==> exists|i: int|
                log.len() <= i < after.len() && #[trigger] after[i] == (
                    Request::CachedToken(None),
                    Reply::Token(a.cached),
                )
        }),
{
    let url = WsUrl::Auth;
    let kind = |request: Request| sets_the_refresh(request);
    let drops = |request: Request| request is DropUpgradeBridge;
    let after = settle_refresh_log(log, ok, last, a);
    let flagged = refresh_send_ready_log(log, url, last.state, a.reads, a.clock);
    picking(log, kind);
    picking(log, drops);
    showing(log);
    a_flag_shows_nothing(log, url, last.state, a.reads, a.clock);
    the_flag_says_whether_an_order_may_be_sent(log, url, last.state, a.reads, a.clock);
    assert(picked(log, flagged, kind) =~= Log::empty());
    assert(picked(log, flagged, drops) =~= Log::empty());
    assert(extends(flagged, after));
    last_set_stays(flagged, after, Flag::AuthSendReady);
    if !ok {
        assert(after[flagged.len() as int] == (
            Request::CachedToken(None),
            Reply::Token(a.cached),
        ));
    }
    assert(picked(log, after, drops) =~= if last.socket is None {
        seq![(Request::DropUpgradeBridge(url), Reply::Done)]
    } else {
        Log::empty()
    });
    if !ok && a.cached is Some {
        assert(picked(log, after, kind) =~= Log::empty());
    }
}

/// A refresh that has ended leaves the reactor in step with the auth connection:
/// what is shown is what it said last, the table holds its socket or none, with the
/// bridge dropped along with the socket, and the public one is not touched. The
/// send-ready flag is stored anew. A new token sets the next refresh to when that
/// token is due for it; so does a failure that left no token behind, and no token
/// clears it.
pub proof fn a_refresh_leaves_the_reactor_in_step(
    log: Log,
    request_id: u64,
    result: Result<(), Text>,
    table: SocketTable,
    a: RefreshAnswers,
)
    requires
        a.conn is Some,
        refresh_whole(request_id, result is Ok, table, a),
    ensures
        ({
            let url = WsUrl::Auth;
            let after = refresh_outcome_log(log, request_id, result, table, a);
            let end = refresh_outcome_table(request_id, result is Ok, table, a);
            let last = last_told(after, url)->Some_0;
            let set = picked(log, after, |request: Request| sets_the_refresh(request));
            let ready = last.state == ConnectionState::Authenticating && !a.reads.auth_has_entry
                && a.reads.token is Some && !a.reads.token->Some_0.expired;
            &&& extends(log, after)
            &&& shows_what_is(log, after)
            &&& last_told(after, url) is Some
            &&& end.sockets.at(url) == last.socket
            &&& end.bridges.at(url) == if last.socket is None {
                None
            } else {
                table.bridges.at(url)
            }
            &&& end.sockets.at(WsUrl::Public) == table.sockets.at(WsUrl::Public)
            &&& end.bridges.at(WsUrl::Public) == table.bridges.at(WsUrl::Public)
            &&& last_set(after, Flag::AuthSendReady) == Some(ready)
            &&& last.socket is None ==> after.last().0 == Request::DropUpgradeBridge(url)
            &&& result is Ok || a.cached is None ==> set.len() == 1 && set[0].0 == match a.rearmed {
                Some(token) => Request::ArmTokenRefresh(url, token.refresh_due_at),
                None => Request::DisarmTokenRefresh(url),
            }
            &&& !(result is Ok) && a.cached is Some ==> set == Log::empty()
        }),
{
    let url = WsUrl::Auth;
    let ok = result is Ok;
    let kind = |request: Request| sets_the_refresh(request);
    let looked = asked(log, Request::Conn(url), Reply::Conn(a.conn));
    let delivered = deliver_refresh_log(looked, request_id, result, table, a);
    let drained = drain_log(delivered, request_id, ok, table, a);
    let last = a.last(request_id, ok, table);
    let after = refresh_outcome_log(log, request_id, result, table, a);
    showing(log);
    a_delivery_is_shown(looked, request_id, result, table, a);
    shows_together(log, looked, delivered);
    a_drain_is_shown(delivered, request_id, ok, table, a);
    shows_together(log, delivered, drained);
    a_refresh_is_settled(drained, ok, last, a);
    shows_together(log, drained, after);
    assert forall|i: int| log.len() <= i < drained.len() implies !kind(
        (#[trigger] drained[i]).0,
    ) by {
        if i < delivered.len() {
            assert(drained[i] == delivered[i]);
            if i < looked.len() {
                assert(delivered[i] == looked[i]);
            }
        }
    }
    nothing_picked(log, drained, kind);
    assert(extends(log, drained)) by {
        assert forall|i: int| 0 <= i < log.len() implies #[trigger] drained[i] == log[i] by {
            assert(drained[i] == delivered[i]);
            assert(delivered[i] == looked[i]);
        }
    }
    picked_together(log, drained, after, kind);
    assert(picked(log, after, kind) =~= picked(drained, after, kind));
}

proof fn a_delivery_is_shown(
    log: Log,
    request_id: u64,
    result: Result<(), Text>,
    table: SocketTable,
    a: RefreshAnswers,
)
    requires
        a.conn is Some,
        last_told(log, WsUrl::Auth) == a.conn,
        refresh_whole(request_id, result is Ok, table, a),
    ensures
        ({
            let after = deliver_refresh_log(log, request_id, result, table, a);
            &&& extends(log, after)
            &&& shows_what_is(log, after)
            &&& last_told(after, WsUrl::Auth) == Some(a.current(request_id, result is Ok))
            &&& forall|i: int|
                log.len() <= i < after.len() ==> !sets_the_refresh((#[trigger] after[i]).0)
        }),
{
    let url = WsUrl::Auth;
    let after = deliver_refresh_log(log, request_id, result, table, a);
    showing(log);
    if a.signs_in(request_id, result is Ok) {
        let refreshed = told(
            asked(
                log,
                Request::HandleEvent(url, refresh_event(request_id, result)),
                Reply::View(a.after),
            ),
            Request::StoreMirror(url, a.after.state),
        );
        let first = a.sign_in.first;
        let signed = first_signed_log(refreshed, url, a.after.state, table, first);
        signing_in_leaves_what_was_told(refreshed, url, a.after.state, table, first);
        signing_in_sets_no_refresh(refreshed, url, a.after.state, table, first);
        showing(signed);
        assert(shows_what_is(log, refreshed));
        shows_together(log, refreshed, signed);
        assert(shows_what_is(signed, after));
        shows_together(log, signed, after);
        assert forall|i: int| log.len() <= i < after.len() implies !sets_the_refresh(
            (#[trigger] after[i]).0,
        ) by {
            if i < signed.len() {
                assert(after[i] == signed[i]);
                if i < refreshed.len() {
                    assert(signed[i] == refreshed[i]);
                }
            }
        }
        assert forall|i: int| 0 <= i < log.len() implies #[trigger] after[i] == log[i] by {
            assert(after[i] == signed[i]);
            assert(signed[i] == refreshed[i]);
        }
    }
}

proof fn signing_in_sets_no_refresh(
    log: Log,
    url: WsUrl,
    state: ConnectionState,
    table: SocketTable,
    a: FirstSignedAnswers,
)
    ensures
        ({
            let after = first_signed_log(log, url, state, table, a);
            forall|i: int|
                log.len() <= i < after.len() ==> !sets_the_refresh((#[trigger] after[i]).0)
        }),
{
}

proof fn a_drain_is_shown(
    log: Log,
    request_id: u64,
    ok: bool,
    table: SocketTable,
    a: RefreshAnswers,
)
    requires
        last_told(log, WsUrl::Auth) == Some(a.current(request_id, ok)),
    ensures
        ({
            let after = drain_log(log, request_id, ok, table, a);
            &&& extends(log, after)
            &&& shows_what_is(log, after)
            &&& last_told(after, WsUrl::Auth) == Some(a.last(request_id, ok, table))
            &&& forall|i: int|
                log.len() <= i < after.len() ==> !sets_the_refresh((#[trigger] after[i]).0)
        }),
{
    let url = WsUrl::Auth;
    let after = drain_log(log, request_id, ok, table, a);
    showing(log);
    if a.may_drain(request_id, ok) && !a.awaiting {
        let listed = asked(
            asked(log, Request::IsAwaitingTokenRefresh(url), Reply::Flag(a.awaiting)),
            Request::DrainDeferredAuthSubscribes(url),
            Reply::Keys(a.deferred),
        );
        let rows = drain_rows_log(listed, url, a.deferred@, table, a.drain);
        a_drain_leaves_what_was_told(
            listed,
            url,
            a.current(request_id, ok),
            a.deferred@,
            table,
            a.drain,
        );
        draining_sets_no_refresh(listed, url, a.deferred@, table, a.drain);
        assert(shows_what_is(log, listed));
        shows_together(log, listed, rows);
        showing(rows);
        assert(extends(rows, after));
        assert(shows_what_is(rows, after));
        shows_together(log, rows, after);
        assert forall|i: int| log.len() <= i < after.len() implies !sets_the_refresh(
            (#[trigger] after[i]).0,
        ) by {
            if i < rows.len() {
                assert(after[i] == rows[i]);
                if i < listed.len() {
                    assert(rows[i] == listed[i]);
                }
            }
        }
        assert forall|i: int| 0 <= i < log.len() implies #[trigger] after[i] == log[i] by {
            assert(after[i] == rows[i]);
            assert(rows[i] == listed[i]);
        }
    }
}

proof fn draining_sets_no_refresh(
    log: Log,
    url: WsUrl,
    deferred: Seq<(Key, SubscribeParams)>,
    table: SocketTable,
    answers: Seq<DrainAnswers>,
)
    ensures
        ({
            let after = drain_rows_log(log, url, deferred, table, answers);
            &&& extends(log, after)
            &&& forall|i: int|
                log.len() <= i < after.len() ==> !sets_the_refresh((#[trigger] after[i]).0)
        }),
    decreases answers.len(),
{
    if answers.len() > 0 {
        let before = drain_rows_log(log, url, deferred, table, answers.drop_last());
        let after = drain_rows_log(log, url, deferred, table, answers);
        draining_sets_no_refresh(log, url, deferred, table, answers.drop_last());
        assert(extends(before, after));
        assert forall|i: int| log.len() <= i < after.len() implies !sets_the_refresh(
            (#[trigger] after[i]).0,
        ) by {
            if i < before.len() {
                assert(after[i] == before[i]);
            }
        }
    }
}

/// A replayed frame goes out under a fresh id. If it is taken, that id is recorded for
/// its subscription, and its acknowledgement is waited for, for exactly the allowed
/// time. A book that still waits for a snapshot, and nothing else, has the timer of
/// that snapshot set to the same instant.
pub proof fn a_replayed_frame_is_waited_for(
    log: Log,
    url: WsUrl,
    socket: u64,
    key: Key,
    millis: Option<u32>,
    a: ReplayAnswers,
)
    requires
        a.clocked(),
    ensures
        ({
            let after = replay_frame_log(log, url, socket, key, millis, a);
            let waits = picked(
                log,
                after,
                |request: Request|
                    request is RecordSubscribeReqId || request is ArmSubscribeAck || request
                        is ArmBookReseedSnapshot,
            );
            let due = a.now + (match millis {
                Some(millis) => millis as int,
                None => 5_000,
            }) * 1_000_000;
            let n = log.len() as int;
            &&& extends(log, after)
            &&& after[n] == (Request::NextSubscribeReqId(url), Reply::Count(a.req_id))
            &&& after[n + 1].0 == Request::SendFrame(url, socket, a.text)
            &&& match a.outcome {
                SendOutcome::Sent => {
                    let again = key.channel == ChannelName::Book && a.resyncing;
                    &&& after[n + 2] == (Request::ConnClock(url), Reply::Instant(a.now))
                    &&& key.channel == ChannelName::Book ==> after[n + 3] == (
                        Request::IsBookResyncing(key),
                        Reply::Flag(a.resyncing),
                    )
                    &&& waits.len() == if again {
                        3nat
                    } else {
                        2
                    }
                    &&& waits[0].0 == Request::RecordSubscribeReqId(url, a.req_id, key)
                    &&& match waits[1].0 {
                        Request::ArmSubscribeAck(on, of, at) => on == url && of == key && at
                            == due,
                        _ => false,
                    }
                    &&& again ==> match waits[2].0 {
                        Request::ArmBookReseedSnapshot(on, of, at) => on == url && of == key && at
                            == due,
                        _ => false,
                    }
                },
                SendOutcome::Backpressured(conn) => {
                    &&& waits.len() == 0
                    &&& after.last() == (Request::SubscribeFailure(url, key), Reply::View(conn))
                },
                SendOutcome::WriterDead(conn) => {
                    &&& waits.len() == 0
                    &&& after.last().1 == Reply::View(conn)
                    &&& match after.last().0 {
                        Request::HandleEvent(on, FsmEvent::WireAbnormalClose { error }) => on == url
                            && error.transient && error.kind is AbnormalClose,
                        _ => false,
                    }
                },
            }
        }),
{
    picking(
        log,
        |request: Request|
            request is RecordSubscribeReqId || request is ArmSubscribeAck || request
                is ArmBookReseedSnapshot,
    );
}

proof fn replaying_shows_nothing(
    log: Log,
    url: WsUrl,
    socket: u64,
    frames: Seq<(Key, Value)>,
    millis: Option<u32>,
    answers: Seq<ReplayAnswers>,
)
    ensures
        ({
            let after = replay_frames_log(log, url, socket, frames, millis, answers);
            &&& extends(log, after)
            &&& forall|i: int|
                log.len() <= i < after.len() ==> {
                    &&& !((#[trigger] after[i]).0 is StoreMirror)
                    &&& !(after[i].0 is ComposeFirstSignedSubscribe)
                    &&& !(after[i].0 is ComposeSubscribeFrames)
                }
        }),
    decreases answers.len(),
{
    if answers.len() > 0 {
        let most = answers.drop_last();
        let before = replay_frames_log(log, url, socket, frames, millis, most);
        let after = replay_frames_log(log, url, socket, frames, millis, answers);
        replaying_shows_nothing(log, url, socket, frames, millis, most);
        assert(extends(before, after));
        assert forall|i: int| log.len() <= i < after.len() implies {
            &&& !((#[trigger] after[i]).0 is StoreMirror)
            &&& !(after[i].0 is ComposeFirstSignedSubscribe)
            &&& !(after[i].0 is ComposeSubscribeFrames)
        } by {
            if i < before.len() {
                assert(after[i] == before[i]);
            }
        }
    }
}

/// A replay after a reconnect composes the frames of its own connection. When it is
/// over, the resubscription may come to its end, and what the connection then says is
/// shown: its state in the mirror, and its socket, or none, in the table.
pub proof fn a_resubscription_is_shown(
    log: Log,
    url: WsUrl,
    table: SocketTable,
    a: ResubscribeAnswers,
)
    ensures
        ({
            let after = resubscribe_log(log, url, table, a);
            let end = resubscribe_table(url, table, a);
            &&& extends(log, after)
            &&& shows_what_is(log, after)
            &&& last_told(after, url) == Some(a.completed)
            &&& after[log.len() as int] == (
                Request::ComposeSubscribeFrames(url),
                Reply::Frames(a.frames),
            )
            &&& made(log, after, Request::CompleteResubscribeIfEmpty(url))
            &&& made(log, after, Request::StoreMirror(url, a.completed.state))
            &&& end.sockets.at(url) == a.completed.socket
            &&& a.completed.socket is None ==> after.last().0 == Request::DropUpgradeBridge(url)
                && end.bridges.at(url) is None
            &&& a.completed.socket is Some ==> end.bridges.at(url) == table.bridges.at(url)
            &&& table.sockets.at(url) is None ==> grew_without(log, after, Effect::Send)
            &&& forall|i: int|
                log.len() <= i < after.len() ==> !((#[trigger] after[i]).0
                    is ComposeFirstSignedSubscribe)
        }),
{
    let after = resubscribe_log(log, url, table, a);
    let composed = asked(log, Request::ComposeSubscribeFrames(url), Reply::Frames(a.frames));
    let timed = asked(composed, Request::SubscribeAckTimeoutMs, Reply::Millis(a.millis));
    let n = log.len() as int;
    let replayed = match table.sockets.at(url) {
        Some(socket) => replay_frames_log(timed, url, socket, a.frames@, a.millis, a.replay),
        None => composed,
    };
    showing(log);
    if table.sockets.at(url) is Some {
        let socket = table.sockets.at(url)->Some_0;
        replaying_shows_nothing(timed, url, socket, a.frames@, a.millis, a.replay);
        nothing_shown(timed, replayed);
        assert(shows_what_is(log, timed));
        shows_together(log, timed, replayed);
        assert(replayed[n] == timed[n]);
        assert forall|i: int| 0 <= i < log.len() implies #[trigger] replayed[i] == log[i] by {
            assert(replayed[i] == timed[i]);
        }
    }
    showing(replayed);
    assert(extends(replayed, after));
    assert(shows_what_is(replayed, after));
    shows_together(log, replayed, after);
    let m = replayed.len() as int;
    assert(after[m].0 == Request::CompleteResubscribeIfEmpty(url));
    assert(after[m + 1].0 == Request::StoreMirror(url, a.completed.state));
    assert(after[n] == replayed[n]);
    assert forall|i: int| log.len() <= i < after.len() implies !((#[trigger] after[i]).0
        is ComposeFirstSignedSubscribe) by {
        if i < replayed.len() {
            assert(after[i] == replayed[i]);
            if table.sockets.at(url) is Some && i < timed.len() {
                assert(replayed[i] == timed[i]);
            }
        }
    }
}

/// What follows an upgrade, before any sign-in: the event and the mirror, and the replay
/// where there is one.
proof fn an_upgrade_is_told(
    log: Log,
    url: WsUrl,
    connection_id: u64,
    table: SocketTable,
    a: UpgradeAnswers,
)
    requires
        table.sockets.at(url) == Some(connection_id),
        a.conn is Some,
    ensures
        ({
            let upgraded = log.push((Request::Conn(url), Reply::Conn(a.conn))).push(
                (
                    Request::HandleEvent(
                        url,
                        FsmEvent::WireUpgradeOk { connection_id: Some(connection_id) },
                    ),
                    Reply::View(a.after),
                ),
            ).push((Request::StoreMirror(url, a.after.state), Reply::Done));
            let replays = a.after.state == ConnectionState::Resubscribing
                && a.after.has_been_open;
            let then = if replays {
                a.resubscribe.completed
            } else {
                a.after
            };
            let replayed = if replays {
                resubscribe_log(upgraded, url, table, a.resubscribe)
            } else {
                upgraded
            };
            let end = upgrade_ok_table(url, connection_id, table, a);
            &&& upgrade_ok_log(log, url, connection_id, table, a) == if then.state
                == ConnectionState::Authenticating {
                sign_in_log(replayed, url, then, end, a.sign_in)
            } else {
                replayed
            }
            &&& extends(log, upgraded)
            &&& extends(upgraded, replayed)
            &&& shows_what_is(log, replayed)
            &&& last_told(replayed, url) == Some(then)
            &&& replays ==> replayed.len() > upgraded.len() && replayed[upgraded.len() as int].0
                == Request::ComposeSubscribeFrames(url)
            &&& end.sockets.at(url) == if replays {
                a.resubscribe.completed.socket
            } else {
                Some(connection_id)
            }
            &&& end.sockets.at(other_url(url)) == table.sockets.at(other_url(url))
        }),
{
    let upgraded = told(
        asked(
            asked(log, Request::Conn(url), Reply::Conn(a.conn)),
            Request::HandleEvent(
                url,
                FsmEvent::WireUpgradeOk { connection_id: Some(connection_id) },
            ),
            Reply::View(a.after),
        ),
        Request::StoreMirror(url, a.after.state),
    );
    showing(log);
    assert(shows_what_is(log, upgraded));
    assert(last_told(upgraded, url) == Some(a.after));
    if resubscribes(a.after) {
        let replayed = resubscribe_log(upgraded, url, table, a.resubscribe);
        a_resubscription_is_shown(upgraded, url, table, a.resubscribe);
        shows_together(log, upgraded, replayed);
    }
}

/// The upgrade of the socket in use is told to its connection, with the id of that
/// socket, and what the connection then says is shown. All subscriptions are replayed
/// exactly where the connection resubscribes and was open before. Where it does not then
/// authenticate, no sign-in follows, and without a replay nothing more is done.
pub proof fn an_upgrade_is_told_and_followed_up(
    log: Log,
    url: WsUrl,
    connection_id: u64,
    table: SocketTable,
    a: UpgradeAnswers,
)
    requires
        table.sockets.at(url) == Some(connection_id),
        a.conn is Some,
        upgrade_ok_whole(url, connection_id, table, a),
    ensures
        ({
            let after = upgrade_ok_log(log, url, connection_id, table, a);
            let end = upgrade_ok_table(url, connection_id, table, a);
            let replays = a.after.state == ConnectionState::Resubscribing
                && a.after.has_been_open;
            let then = if replays {
                a.resubscribe.completed
            } else {
                a.after
            };
            let n = log.len() as int;
            &&& extends(log, after)
            &&& after.len() >= n + 3
            &&& shows_what_is(log, after)
            &&& after[n] == (Request::Conn(url), Reply::Conn(a.conn))
            &&& after[n + 1] == (
                Request::HandleEvent(
                    url,
                    FsmEvent::WireUpgradeOk { connection_id: Some(connection_id) },
                ),
                Reply::View(a.after),
            )
            &&& after[n + 2].0 == Request::StoreMirror(url, a.after.state)
            &&& end.sockets.at(url) == if replays {
                a.resubscribe.completed.socket
            } else {
                Some(connection_id)
            }
            &&& end.sockets.at(other_url(url)) == table.sockets.at(other_url(url))
            &&& replays ==> after[n + 3].0 == Request::ComposeSubscribeFrames(url)
            &&& !replays && then.state != ConnectionState::Authenticating ==> after.len() == n + 3
            &&& !replays ==> !made(log, after, Request::ComposeSubscribeFrames(url))
            &&& then.state != ConnectionState::Authenticating ==> forall|i: int|
                log.len() <= i < after.len() ==> !((#[trigger] after[i]).0
                    is ComposeFirstSignedSubscribe)
        }),
{
    let after = upgrade_ok_log(log, url, connection_id, table, a);
    let end = upgrade_ok_table(url, connection_id, table, a);
    let n = log.len() as int;
    let upgraded = log.push((Request::Conn(url), Reply::Conn(a.conn))).push(
        (
            Request::HandleEvent(
                url,
                FsmEvent::WireUpgradeOk { connection_id: Some(connection_id) },
            ),
            Reply::View(a.after),
        ),
    ).push((Request::StoreMirror(url, a.after.state), Reply::Done));
    let replays = a.after.state == ConnectionState::Resubscribing && a.after.has_been_open;
    let then = if replays {
        a.resubscribe.completed
    } else {
        a.after
    };
    let replayed = if replays {
        resubscribe_log(upgraded, url, table, a.resubscribe)
    } else {
        upgraded
    };
    an_upgrade_is_told(log, url, connection_id, table, a);
    if then.state == ConnectionState::Authenticating {
        a_sign_in_is_shown(replayed, url, then, end, a.sign_in);
        shows_together(log, replayed, after);
    }
    assert(extends(replayed, after));
    if !replays {
        assert forall|i: int| log.len() <= i < after.len() implies !((#[trigger] after[i]).0
            is ComposeSubscribeFrames) by {
            if i < replayed.len() {
                assert(after[i] == replayed[i]);
            }
        }
    }
    assert forall|i: int| 0 <= i < upgraded.len() implies #[trigger] after[i] == upgraded[i] by {
        assert(after[i] == replayed[i]);
        assert(replayed[i] == upgraded[i]);
    }
    assert forall|i: int| 0 <= i < log.len() implies #[trigger] after[i] == log[i] by {
        assert(after[i] == upgraded[i]);
    }
    assert(after[n] == upgraded[n] && after[n + 1] == upgraded[n + 1] && after[n + 2]
        == upgraded[n + 2]);
    if replays {
        assert(after[n + 3] == replayed[n + 3]);
    }
    if then.state != ConnectionState::Authenticating {
        if replays {
            a_resubscription_is_shown(upgraded, url, table, a.resubscribe);
        }
        assert forall|i: int| log.len() <= i < after.len() implies !((#[trigger] after[i]).0
            is ComposeFirstSignedSubscribe) by {
            if i < upgraded.len() {
                assert(after[i] == upgraded[i]);
            }
        }
    }
}

proof fn a_sign_in_is_shown(
    log: Log,
    url: WsUrl,
    conn: ConnView,
    table: SocketTable,
    a: SignInAnswers,
)
    requires
        last_told(log, url) == Some(conn),
        sign_in_whole(url, table, a),
    ensures
        ({
            let after = sign_in_log(log, url, conn, table, a);
            &&& extends(first_signed_log(log, url, conn.state, table, a.first), after)
            &&& extends(log, after)
            &&& shows_what_is(log, after)
            &&& forall|i: int|
                log.len() <= i < after.len() ==> !((#[trigger] after[i]).0
                    is ComposeSubscribeFrames)
        }),
{
    let signed = first_signed_log(log, url, conn.state, table, a.first);
    let after = sign_in_log(log, url, conn, table, a);
    signing_in_leaves_what_was_told(log, url, conn.state, table, a.first);
    signing_in_is_no_replay(log, url, conn.state, table, a.first);
    showing(signed);
    assert(shows_what_is(signed, after));
    shows_together(log, signed, after);
    assert forall|i: int| log.len() <= i < after.len() implies !((#[trigger] after[i]).0
        is ComposeSubscribeFrames) by {
        if i < signed.len() {
            assert(after[i] == signed[i]);
        }
    }
    assert forall|i: int| 0 <= i < log.len() implies #[trigger] after[i] == log[i] by {
        assert(after[i] == signed[i]);
    }
}

/// A connection that authenticates after its upgrade signs in, on the socket that it has
/// then: the token is read by its clock, and with one that has not expired, a socket and
/// a subscription to sign, the first subscribe goes out, composed with that token and
/// stamped with a fresh id.
pub proof fn an_upgraded_connection_signs_in(
    log: Log,
    url: WsUrl,
    connection_id: u64,
    table: SocketTable,
    a: UpgradeAnswers,
)
    requires
        table.sockets.at(url) == Some(connection_id),
        a.conn is Some,
        upgrade_ok_whole(url, connection_id, table, a),
        if a.after.state == ConnectionState::Resubscribing && a.after.has_been_open {
            a.resubscribe.completed.state == ConnectionState::Authenticating
        } else {
            a.after.state == ConnectionState::Authenticating
        },
    ensures
        ({
            let after = upgrade_ok_log(log, url, connection_id, table, a);
            let socket = upgrade_ok_table(url, connection_id, table, a).sockets.at(url);
            let first = a.sign_in.first;
            let token = first.token;
            &&& made(log, after, Request::CachedToken(Some(first.now)))
            &&& token is Some && !token->Some_0.expired && socket is Some ==> {
                &&& made(
                    log,
                    after,
                    Request::ComposeFirstSignedSubscribe(url, token->Some_0.value),
                )
                &&& first.first is Some ==> {
                    &&& made(
                        log,
                        after,
                        Request::SendFrame(url, socket->Some_0, first.issue.text),
                    )
                    &&& first.issue.text@ == json_text(
                        stamped(json_of(first.first->Some_0.1), first.issue.req_id),
                    )
                }
            }
            &&& token is None || token->Some_0.expired ==> made(log, after, Request::ForceRefresh)
        }),
{
    let after = upgrade_ok_log(log, url, connection_id, table, a);
    let end = upgrade_ok_table(url, connection_id, table, a);
    let upgraded = log.push((Request::Conn(url), Reply::Conn(a.conn))).push(
        (
            Request::HandleEvent(
                url,
                FsmEvent::WireUpgradeOk { connection_id: Some(connection_id) },
            ),
            Reply::View(a.after),
        ),
    ).push((Request::StoreMirror(url, a.after.state), Reply::Done));
    let replays = a.after.state == ConnectionState::Resubscribing && a.after.has_been_open;
    let then = if replays {
        a.resubscribe.completed
    } else {
        a.after
    };
    let replayed = if replays {
        resubscribe_log(upgraded, url, table, a.resubscribe)
    } else {
        upgraded
    };
    let first = a.sign_in.first;
    let signed = first_signed_log(replayed, url, then.state, end, first);
    let m = replayed.len() as int;
    an_upgrade_is_told(log, url, connection_id, table, a);
    a_sign_in_is_shown(replayed, url, then, end, a.sign_in);
    signing_in_sends_one_frame(replayed, url, then.state, end, first);
    signing_in_is_no_replay(replayed, url, then.state, end, first);
    assert(after[m + 1] == signed[m + 1]);
    if first.token is Some && !first.token->Some_0.expired {
        if end.sockets.at(url) is Some {
            assert(after[m + 2] == signed[m + 2]);
            if first.first is Some {
                assert(after[m + 4] == signed[m + 4]);
            }
        }
    } else {
        assert(signed[m + 3].0 == Request::ForceRefresh);
        assert(after[m + 3] == signed[m + 3]);
    }
}

proof fn signing_in_is_no_replay(
    log: Log,
    url: WsUrl,
    state: ConnectionState,
    table: SocketTable,
    a: FirstSignedAnswers,
)
    ensures
        ({
            let after = first_signed_log(log, url, state, table, a);
            &&& extends(log, after)
            &&& forall|i: int|
                log.len() <= i < after.len() ==> !((#[trigger] after[i]).0
                    is ComposeSubscribeFrames)
            &&& a.token is Some && !a.token->Some_0.expired && table.sockets.at(url) is Some
                && a.first is Some ==> after[log.len() as int + 4].0 == Request::SendFrame(
                url,
                table.sockets.at(url)->Some_0,
                a.issue.text,
            )
        }),
{
}

/// A socket that could not be upgraded is told to its connection: as rejected, with
/// the status, where the other side answered with one, and else as a connect error of
/// its kind, transient or not as it was. What the connection then says is shown, and
/// the socket leaves the table, with its bridge, exactly where the connection gave it
/// up.
pub proof fn a_failed_upgrade_is_told(
    log: Log,
    url: WsUrl,
    kind: TransportErrorKind,
    transient: bool,
    table: SocketTable,
    a: UpgradeFailedAnswers,
)
    ensures
        ({
            let after = upgrade_failed_log(log, url, upgrade_failure(kind, transient), a);
            let end = upgrade_failed_table(url, table, a);
            let other = other_url(url);
            let n = log.len() as int;
            &&& extends(log, after)
            &&& shows_what_is(log, after)
            &&& after[n] == (Request::Conn(url), Reply::Conn(a.conn))
            &&& end.sockets.at(other) == table.sockets.at(other)
            &&& end.bridges.at(other) == table.bridges.at(other)
            &&& a.conn is None ==> end == table && after.len() == n + 1
            &&& a.conn is Some ==> {
                &&& after[n + 1] == (
                    Request::HandleEvent(
                        url,
                        match kind {
                            TransportErrorKind::HttpUpgradeRejected { status } =>
                                FsmEvent::WireUpgradeFailed { http_status: status },
                            _ => FsmEvent::WireConnectError { kind, transient },
                        },
                    ),
                    Reply::View(a.after),
                )
                &&& after[n + 2].0 == Request::StoreMirror(url, a.after.state)
                &&& a.after.socket is None ==> {
                    &&& end.sockets.at(url) is None
                    &&& end.bridges.at(url) is None
                    &&& after[n + 3].0 == Request::DropUpgradeBridge(url)
                }
                &&& a.after.socket is Some ==> end == table && after.len() == n + 3
            }
        }),
{
    showing(log);
}

/// What is announced to a waiter and to everyone is the same event, at the instant of
/// the bus: first to whoever waits for the request, under its id, and then to
/// everyone, under none. Without a bus nothing is announced.
pub proof fn an_announcement_reaches_the_waiter_first(
    log: Log,
    payload: EventPayload,
    request_id: u64,
    clock: BusClock,
)
    ensures
        ({
            let after = announce_log(log, payload, request_id, clock);
            let event = |request_id: Option<u64>|
                EventEnvelope { event_version: 1, timestamp: clock.now, request_id, payload };
            &&& extends(log, after)
            &&& after[log.len() as int] == (Request::BusClock, Reply::Clock(clock))
            &&& happened(log, after, Effect::Announce) == if clock.bus_alive {
                seq![
                    Request::DeliverCorrelated(event(Some(request_id))),
                    Request::Publish(event(None)),
                ]
            } else {
                Seq::empty()
            }
        }),
{
    let after = announce_log(log, payload, request_id, clock);
    if clock.bus_alive {
        let first = after.drop_last();
        happened_once(log, first, Effect::Announce, first.len() - 1);
        happened_once(first, after, Effect::Announce, after.len() - 1);
        happened_together(log, first, after, Effect::Announce);
    } else {
        nothing_happened(log, after, Effect::Announce);
    }
}

/// The end of the client is told exactly when a close is pending and neither
/// connection is there in any state but closed. It is told under the id of the close,
/// and says when that was asked for.
pub proof fn the_end_says_when_it_was_asked_for(log: Log, close: PendingClose, a: CloseCheck)
    ensures
        ({
            let after = close_check_log(log, Some(close), a);
            let over = |conn: Option<ConnView>|
                conn is None || conn->Some_0.state == ConnectionState::Closed;
            let event = |request_id: Option<u64>|
                EventEnvelope {
                    event_version: 1,
                    timestamp: a.clock.now,
                    request_id,
                    payload: EventPayload::ClientClosedByUser {
                        initiated_at: close.initiated_at,
                    },
                };
            let n = log.len() as int;
            &&& close_check_log(log, None, a) == log
            &&& extends(log, after)
            &&& after[n] == (Request::Conn(WsUrl::Public), Reply::Conn(a.public))
            &&& after[n + 1] == (Request::Conn(WsUrl::Auth), Reply::Conn(a.auth))
            &&& happened(log, after, Effect::Announce) == if over(a.public) && over(a.auth)
                && a.clock.bus_alive {
                seq![
                    Request::DeliverCorrelated(event(Some(close.request_id))),
                    Request::Publish(event(None)),
                ]
            } else {
                Seq::empty()
            }
        }),
{
    let after = close_check_log(log, Some(close), a);
    let looked = asked(
        asked(log, Request::Conn(WsUrl::Public), Reply::Conn(a.public)),
        Request::Conn(WsUrl::Auth),
        Reply::Conn(a.auth),
    );
    nothing_happened(log, looked, Effect::Announce);
    if is_closed(a.public) && is_closed(a.auth) {
        an_announcement_reaches_the_waiter_first(
            looked,
            EventPayload::ClientClosedByUser { initiated_at: close.initiated_at },
            close.request_id,
            a.clock,
        );
        happened_together(log, looked, after, Effect::Announce);
        assert(happened(log, after, Effect::Announce) =~= happened(
            looked,
            after,
            Effect::Announce,
        ));
    }
}

/// Closing one connection asks for a fresh id, and drives the close into it under that
/// id, if it is there; its state and its socket are shown.
pub proof fn a_connection_is_closed_under_its_own_id(
    before: Log,
    after: Log,
    url: WsUrl,
    id: u64,
    table: SocketTable,
    end: SocketTable,
)
    requires
        closed_one(before, after, url, id, table, end),
    ensures
        ({
            let n = before.len() as int;
            &&& extends(before, after)
            &&& shows_what_is(before, after)
            &&& after[n] == (Request::NextConnectId, Reply::Count(id))
            &&& after[n + 1].0 == Request::Conn(url)
            &&& grew_without(before, after, Effect::Send)
            &&& grew_without(before, after, Effect::Announce)
            &&& end.sockets.at(other_url(url)) == table.sockets.at(other_url(url))
            &&& match after[n + 1].1 {
                Reply::Conn(Some(_)) => {
                    &&& happened(before, after, Effect::Drive) == seq![
                        Request::HandleEvent(url, FsmEvent::CallClose { request_id: id }),
                    ]
                    &&& after[n + 2].1 is View
                    &&& end.sockets.at(url) == after[n + 2].1->View_0.socket
                },
                _ => grew_without(before, after, Effect::Drive) && end == table,
            }
        }),
{
    let event = FsmEvent::CallClose { request_id: id };
    let numbered = asked(before, Request::NextConnectId, Reply::Count(id));
    let a = choose|a: DriveAnswers|
        {
            &&& after == #[trigger] drive_log(numbered, url, event, a)
            &&& end == drive_table(url, table, a)
        };
    a_driven_event_is_shown(numbered, url, event, table, a);
    showing(before);
    shows_together(before, numbered, after);
    assert forall|i: int| 0 <= i < numbered.len() implies #[trigger] after[i]
        == numbered[i] by {}
    nothing_happened(before, numbered, Effect::Drive);
    happened_together(before, numbered, after, Effect::Drive);
    let n = before.len() as int;
    assert(after[n] == numbered[n]);
    if a.conn is Some {
        assert(happened(before, after, Effect::Drive) =~= seq![
            Request::HandleEvent(url, event),
        ]);
    }
}

/// Closing the client closes both connections, the public one first, and leaves a line
/// with the id of the close behind it.
pub proof fn closing_the_client_closes_both(
    before: Log,
    after: Log,
    request_id: u64,
    table: SocketTable,
    end: SocketTable,
)
    requires
        closed_client(before, after, request_id, table, end),
    ensures
        after.len() > 0,
        after.last().0 == Request::Say(Note::CloseFanned { request_id }),
        exists|public_id: u64, auth_id: u64, between: Log, middle: SocketTable|
            {
                &&& #[trigger] closed_one(
                    before,
                    between,
                    WsUrl::Public,
                    public_id,
                    table,
                    middle,
                )
                &&& #[trigger] closed_one(
                    between,
                    after.drop_last(),
                    WsUrl::Auth,
                    auth_id,
                    middle,
                    end,
                )
            },
{
    let closed = choose|closed: Log|
        {
            &&& #[trigger] closed_both(before, closed, table, end)
            &&& after == said(closed, Note::CloseFanned { request_id })
        };
    assert(after.drop_last() =~= closed);
}

/// Closing both connections sends nothing by itself: two ids are asked for, and a
/// connection is told to close, if it is there, under its own one of them.
pub proof fn each_close_has_its_own_id(
    before: Log,
    after: Log,
    table: SocketTable,
    end: SocketTable,
)
    requires
        closed_both(before, after, table, end),
    ensures
        extends(before, after),
        grew_without(before, after, Effect::Send),
        ({
            let ids = picked(before, after, |request: Request| request is NextConnectId);
            let closes = happened(before, after, Effect::Drive);
            &&& ids.len() == 2
            &&& ids[0].1 is Count && ids[1].1 is Count
            &&& closes.len() <= 2
            &&& are_closes(closes, ids[0].1->Count_0, ids[1].1->Count_0)
        }),
{
    let (public_id, auth_id, between, middle) = choose|
        public_id: u64,
        auth_id: u64,
        between: Log,
        middle: SocketTable,
    |
        {
            &&& #[trigger] closed_one(before, between, WsUrl::Public, public_id, table, middle)
            &&& #[trigger] closed_one(between, after, WsUrl::Auth, auth_id, middle, end)
        };
    two_closes_take_two_ids(before, between, after, public_id, auth_id, table, middle, end);
}

/// Whether some requests are closes, each under the id of its connection.
pub open spec fn are_closes(requests: Seq<Request>, public_id: u64, auth_id: u64) -> bool {
    forall|i: int|
        0 <= i < requests.len() ==> match #[trigger] requests[i] {
            Request::HandleEvent(url, FsmEvent::CallClose { request_id }) => request_id
                == match url {
                WsUrl::Public => public_id,
                WsUrl::Auth => auth_id,
            },
            _ => false,
        }
}

proof fn two_closes_take_two_ids(
    before: Log,
    between: Log,
    closed: Log,
    public_id: u64,
    auth_id: u64,
    table: SocketTable,
    middle: SocketTable,
    end: SocketTable,
)
    requires
        closed_one(before, between, WsUrl::Public, public_id, table, middle),
        closed_one(between, closed, WsUrl::Auth, auth_id, middle, end),
    ensures
        extends(before, closed),
        grew_without(before, closed, Effect::Send),
        picked(before, closed, |request: Request| request is NextConnectId) == seq![
            (Request::NextConnectId, Reply::Count(public_id)),
            (Request::NextConnectId, Reply::Count(auth_id)),
        ],
        happened(before, closed, Effect::Drive).len() <= 2,
        are_closes(happened(before, closed, Effect::Drive), public_id, auth_id),
{
    let kind = |request: Request| request is NextConnectId;
    a_close_takes_one_id(before, between, WsUrl::Public, public_id, table, middle);
    a_close_takes_one_id(between, closed, WsUrl::Auth, auth_id, middle, end);
    picked_together(before, between, closed, kind);
    happened_together(before, between, closed, Effect::Drive);
    grew_without_together(before, between, closed, Effect::Send);
    assert(picked(before, closed, kind) =~= seq![
        (Request::NextConnectId, Reply::Count(public_id)),
        (Request::NextConnectId, Reply::Count(auth_id)),
    ]);
}

proof fn a_close_takes_one_id(
    before: Log,
    after: Log,
    url: WsUrl,
    id: u64,
    table: SocketTable,
    end: SocketTable,
)
    requires
        closed_one(before, after, url, id, table, end),
    ensures
        extends(before, after),
        grew_without(before, after, Effect::Send),
        picked(before, after, |request: Request| request is NextConnectId) == seq![
            (Request::NextConnectId, Reply::Count(id)),
        ],
        happened(before, after, Effect::Drive).len() <= 1,
        happened(before, after, Effect::Drive).len() == 1 ==> happened(
            before,
            after,
            Effect::Drive,
        )[0] == Request::HandleEvent(url, FsmEvent::CallClose { request_id: id }),
{
    let kind = |request: Request| request is NextConnectId;
    let event = FsmEvent::CallClose { request_id: id };
    let numbered = asked(before, Request::NextConnectId, Reply::Count(id));
    let a = choose|a: DriveAnswers|
        {
            &&& after == #[trigger] drive_log(numbered, url, event, a)
            &&& end == drive_table(url, table, a)
        };
    a_connection_is_closed_under_its_own_id(before, after, url, id, table, end);
    if grew_without(before, after, Effect::Drive) {
        nothing_happened(before, after, Effect::Drive);
    }
    picking(before, kind);
    assert(picked(before, numbered, kind) =~= seq![(Request::NextConnectId, Reply::Count(id))]);
    assert(extends(numbered, after));
    nothing_picked(numbered, after, kind);
    picked_together(before, numbered, after, kind);
    assert(picked(before, after, kind) =~= picked(before, numbered, kind));
}

/// A timer that has fired is taken out first, and then acted on by its kind. The refresh
/// of the token is started ahead of its end, unless the connection has ended, and set
/// again for exactly one period from now; the resend of a subscribe and an overdue
/// snapshot are the reactor's own, after which the connection is shown as it is; every
/// other timer goes into its connection as the event that it is.
pub proof fn a_fired_timer_is_acted_on(
    before: Log,
    after: Log,
    url: WsUrl,
    event: FsmEvent,
    period: u64,
    table: SocketTable,
    end: SocketTable,
    a: TimerAnswers,
)
    requires
        timer_handled(before, after, url, event, period, table, end, a),
        timer_of(event) is Some,
        period <= CLOCK_LIMIT,
    ensures
        ({
            let n = before.len() as int;
            let over = a.conn is Some && (a.conn->Some_0.state == ConnectionState::Closed
                || a.conn->Some_0.state == ConnectionState::Failed);
            let popped = before.push((Request::Conn(url), Reply::Conn(a.conn))).push(
                (Request::PopTimer(url, timer_of(event)->Some_0), Reply::Done),
            );
            &&& extends(before, after)
            &&& after[n] == (Request::Conn(url), Reply::Conn(a.conn))
            &&& a.conn is None ==> end == table && after.len() == n + 1
            &&& a.conn is Some ==> {
                &&& extends(popped, after)
                &&& match event {
                    FsmEvent::TimerTokenRefreshDue => {
                        &&& end == table
                        &&& over ==> after == popped
                        &&& !over ==> {
                            &&& after.len() == n + 5
                            &&& after[n + 2].0 == Request::ProactiveRefresh
                            &&& after[n + 3] == (Request::ConnClock(url), Reply::Instant(a.now))
                            &&& match after[n + 4].0 {
                                Request::ArmTokenRefresh(on, due) => on == url && due == a.now
                                    + period,
                                _ => false,
                            }
                        }
                    },
                    FsmEvent::TimerSubscribeResendDue { key } => {
                        &&& extends(resend_log(popped, url, key, table, a.resend), after)
                        &&& is_shown_at_the_end(after, url, a.show.conn, table, end)
                    },
                    FsmEvent::TimerBookReseedSnapshot { key } => {
                        &&& extends(
                            reseed_timeout_log(popped, url, key.pair, table, a.reseed),
                            after,
                        )
                        &&& is_shown_at_the_end(after, url, a.show.conn, table, end)
                    },
                    _ => driven(popped, after, url, event, table, end),
                }
            }
        }),
{
    let n = before.len() as int;
    if a.conn is Some {
        let popped = popped_log(before, url, event, a.conn);
        assert(popped =~= before.push((Request::Conn(url), Reply::Conn(a.conn))).push(
            (Request::PopTimer(url, timer_of(event)->Some_0), Reply::Done),
        ));
        match event {
            FsmEvent::TimerTokenRefreshDue => {},
            FsmEvent::TimerSubscribeResendDue { key } => {
                let resent = resend_log(popped, url, key, table, a.resend);
                a_resend_shows_nothing(popped, url, key, table, a.resend);
                a_look_is_shown(resent, url, table, a.show);
                assert forall|i: int| 0 <= i < popped.len() implies #[trigger] after[i]
                    == popped[i] by {
                    assert(after[i] == resent[i]);
                }
            },
            FsmEvent::TimerBookReseedSnapshot { key } => {
                let decided = reseed_timeout_log(popped, url, key.pair, table, a.reseed);
                a_reseed_timeout_extends(popped, url, key.pair, table, a.reseed);
                a_look_is_shown(decided, url, table, a.show);
                assert forall|i: int| 0 <= i < popped.len() implies #[trigger] after[i]
                    == popped[i] by {
                    assert(after[i] == decided[i]);
                }
            },
            _ => {
                let d = choose|d: DriveAnswers|
                    {
                        &&& after == #[trigger] drive_log(popped, url, event, d)
                        &&& end == drive_table(url, table, d)
                    };
                a_driven_event_is_shown(popped, url, event, table, d);
            },
        }
        assert(extends(popped, after));
        assert(after[n] == popped[n]);
        assert forall|i: int| 0 <= i < before.len() implies #[trigger] after[i] == before[i] by {
            assert(after[i] == popped[i]);
        }
    }
}

/// Whether the last thing that was done was to look at a connection and show it: its
/// state in the mirror, and its socket, or none, in the table.
pub open spec fn is_shown_at_the_end(
    log: Log,
    url: WsUrl,
    conn: Option<ConnView>,
    table: SocketTable,
    end: SocketTable,
) -> bool {
    let last = log.len() as int;
    match conn {
        None => log[last - 1] == (Request::Conn(url), Reply::Conn(conn)) && end == table,
        Some(conn) => {
            &&& end.sockets.at(url) == conn.socket
            &&& end.sockets.at(other_url(url)) == table.sockets.at(other_url(url))
            &&& conn.socket is Some ==> log[last - 2] == (
                Request::Conn(url),
                Reply::Conn(Some(conn)),
            ) && log[last - 1].0 == Request::StoreMirror(url, conn.state)
            &&& conn.socket is None ==> log[last - 3] == (
                Request::Conn(url),
                Reply::Conn(Some(conn)),
            ) && log[last - 2].0 == Request::StoreMirror(url, conn.state) && log[last - 1].0
                == Request::DropUpgradeBridge(url) && end.bridges.at(url) is None
        },
    }
}

proof fn a_look_is_shown(log: Log, url: WsUrl, table: SocketTable, a: ShowAnswers)
    ensures
        extends(log, show_log(log, url, a)),
        is_shown_at_the_end(
            show_log(log, url, a),
            url,
            a.conn,
            table,
            show_table(url, table, a),
        ),
{
}

proof fn a_reseed_timeout_extends(
    log: Log,
    url: WsUrl,
    pair: Option<Symbol>,
    table: SocketTable,
    a: ReseedTimeoutAnswers,
)
    ensures
        extends(log, reseed_timeout_log(log, url, pair, table, a)),
{
}

/// The look at the registry before a turn asks for the epoch, and stores the hints anew
/// exactly where that is not the one for which they were stored.
pub proof fn a_new_epoch_stores_the_hints(
    log: Log,
    last_epoch: u64,
    epoch: u64,
    hint: HintAnswers,
)
    ensures
        ({
            let after = sync_log(log, last_epoch, epoch, hint);
            &&& extends(log, after)
            &&& after[log.len() as int] == (Request::LivenessEpoch, Reply::Count(epoch))
            &&& epoch == last_epoch ==> after.len() == log.len() + 1
            &&& epoch != last_epoch ==> {
                &&& last_set(after, Flag::AuthHasSubscriptions) == Some(hint.auth_has_entry)
                &&& hint.conn is Some ==> last_set(after, Flag::AuthSendReady) == Some(
                    hint.conn->Some_0.state == ConnectionState::Authenticating
                        && !hint.reads.auth_has_entry && hint.reads.token is Some
                        && !hint.reads.token->Some_0.expired,
                )
            }
        }),
{
    let counted = asked(log, Request::LivenessEpoch, Reply::Count(epoch));
    let after = sync_log(log, last_epoch, epoch, hint);
    if epoch != last_epoch {
        the_hints_say_what_was_read(counted, hint);
        assert(after[log.len() as int] == counted[log.len() as int]);
    }
}

/// The proactive refresh is set by the cached token itself: to when that token is due
/// for it, and cleared where there is none.
pub proof fn the_next_refresh_is_set_by_the_token(log: Log, url: WsUrl, token: Option<CachedToken>)
    ensures
        ({
            let after = rearm_log(log, url, token);
            let n = log.len() as int;
            &&& extends(log, after)
            &&& after.len() == n + 2
            &&& after[n] == (Request::CachedToken(None), Reply::Token(token))
            &&& after[n + 1].0 == match token {
                Some(token) => Request::ArmTokenRefresh(url, token.refresh_due_at),
                None => Request::DisarmTokenRefresh(url),
            }
        }),
{
}

/// A turn acts on the one thing that happened. The close of the client closes both
/// connections and is pending from then on, under the id and the instant that it came
/// with; nothing else touches a pending close. The upgrade of the socket in use, a
/// failed upgrade, the end of a refresh, a frame and a timer are each taken to the
/// connection that they are about, before anything else is asked for; an upgrade of
/// another socket changes nothing. Only a timer of the reactor's own, on a connection
/// that is there, leaves the look at a pending close to the next turn. Only frames count
/// drops and warnings.
pub proof fn a_turn_acts_on_what_happened(
    s: ReactorState,
    end: ReactorState,
    turn: Turn,
    whole: bool,
)
    requires
        turn_handled(s, end, turn, whole),
    ensures
        end.token_refresh_period == s.token_refresh_period,
        !(turn is Frame) ==> end.drops == s.drops && end.warns == s.warns,
        ({
            let n = s.log.len() as int;
            match turn {
                Turn::Inbound(CallerInbound::ClientClose { request_id, initiated_at }) => {
                    &&& whole
                    &&& end.pending == Some(PendingClose { request_id, initiated_at })
                    &&& closed_both(s.log, end.log.drop_last(), s.table, end.table)
                    &&& end.log.last().0 == Request::Say(Note::CloseFanned { request_id })
                },
                Turn::Inbound(msg) => whole && end.pending == s.pending && dispatched(
                    s.log,
                    end.log,
                    msg,
                    s.table,
                    end.table,
                ),
                Turn::Upgrade(UpgradeOutcome::Upgraded { url, connection_id }) => {
                    &&& whole
                    &&& end.pending == s.pending
                    &&& s.table.sockets.at(url) == Some(connection_id) ==> end.log.len() > n
                        && end.log[n].0 == Request::Conn(url) && match end.log[n].1 {
                        Reply::Conn(Some(_)) => end.log[n + 1].0 == Request::HandleEvent(
                            url,
                            FsmEvent::WireUpgradeOk { connection_id: Some(connection_id) },
                        ),
                        _ => end.table == s.table,
                    }
                    &&& s.table.sockets.at(url) != Some(connection_id) ==> end.table == s.table
                        && end.log.len() == n + 1 && end.log[n].0 is Say
                },
                Turn::Upgrade(UpgradeOutcome::Failed { url, kind, transient }) => {
                    &&& whole
                    &&& end.pending == s.pending
                    &&& end.log.len() > n
                    &&& end.log[n].0 == Request::Conn(url)
                    &&& match end.log[n].1 {
                        Reply::Conn(Some(_)) => end.log[n + 1].0 == Request::HandleEvent(
                            url,
                            match kind {
                                TransportErrorKind::HttpUpgradeRejected { status } =>
                                    FsmEvent::WireUpgradeFailed { http_status: status },
                                _ => FsmEvent::WireConnectError { kind, transient },
                            },
                        ),
                        _ => end.table == s.table,
                    }
                },
                Turn::Refresh { request_id, result } => {
                    &&& whole
                    &&& end.pending == s.pending
                    &&& end.log.len() > n
                    &&& end.log[n].0 == Request::Conn(WsUrl::Auth)
                    &&& match end.log[n].1 {
                        Reply::Conn(Some(conn)) => request_id != 0 || conn.state
                            == ConnectionState::Open || conn.state
                            == ConnectionState::Resubscribing ==> end.log[n + 1].0
                            == Request::HandleEvent(
                            WsUrl::Auth,
                            match result {
                                Ok(_) => FsmEvent::BusTokenRefreshed { request_id },
                                Err(error) => FsmEvent::BusTokenRefreshFailed {
                                    request_id,
                                    error,
                                },
                            },
                        ),
                        _ => end.table == s.table,
                    }
                },
                Turn::Frame(url, Ok(frame)) => {
                    &&& whole
                    &&& end.pending == s.pending
                    &&& end.table == s.table
                    &&& end.log.len() > n
                    &&& end.log[n].0 == Request::Conn(url)
                },
                Turn::Frame(url, Err(error)) => {
                    &&& whole
                    &&& end.pending == s.pending
                    &&& end.log.len() >= n + 3
                    &&& end.log[n + 1].0 == Request::DropUpgradeBridge(url)
                    &&& end.log[n + 2].0 == Request::Conn(url)
                },
                Turn::Timer(url, event) => {
                    &&& end.pending == s.pending
                    &&& end.log.len() > n
                    &&& end.log[n].0 == Request::Conn(url)
                    &&& match end.log[n].1 {
                        Reply::Conn(Some(_)) => {
                            &&& timer_of(event) is Some ==> end.log[n + 1].0 == Request::PopTimer(
                                url,
                                timer_of(event)->Some_0,
                            )
                            &&& whole == !(event is TimerSubscribeResendDue || event
                                is TimerBookReseedSnapshot || event is TimerTokenRefreshDue)
                        },
                        _ => whole && end.table == s.table,
                    }
                },
            }
        }),
{
    match turn {
        Turn::Inbound(CallerInbound::ClientClose { request_id, .. }) => {
            let closed = choose|closed: Log|
                {
                    &&& #[trigger] closed_both(s.log, closed, s.table, end.table)
                    &&& end.log == said(closed, Note::CloseFanned { request_id })
                };
            assert(end.log.drop_last() =~= closed);
        },
        Turn::Inbound(_) => {},
        Turn::Upgrade(outcome) => {
            an_upgrade_turn_begins_with_a_look(s.log, end.log, outcome, s.table, end.table);
        },
        Turn::Refresh { request_id, result } => {
            a_refresh_turn_begins_with_a_look(
                s.log,
                end.log,
                request_id,
                result,
                s.table,
                end.table,
            );
        },
        Turn::Frame(url, frame_result) => {
            what_a_socket_delivers_is_acted_on(
                TextEnd { log: s.log, warns: s.warns, drops: s.drops },
                TextEnd { log: end.log, warns: end.warns, drops: end.drops },
                url,
                frame_result,
                s.table,
                end.table,
            );
        },
        Turn::Timer(url, event) => {
            let a = choose|a: TimerAnswers|
                {
                    &&& #[trigger] timer_handled(
                        s.log,
                        end.log,
                        url,
                        event,
                        s.token_refresh_period,
                        s.table,
                        end.table,
                        a,
                    )
                    &&& whole == !(a.conn is Some && own_timer(event))
                };
            a_timer_begins_with_a_look(
                s.log,
                end.log,
                url,
                event,
                s.token_refresh_period,
                s.table,
                end.table,
                a,
            );
        },
    }
}

proof fn an_upgrade_turn_begins_with_a_look(
    before: Log,
    after: Log,
    outcome: UpgradeOutcome,
    table: SocketTable,
    end: SocketTable,
)
    requires
        upgrade_handled(before, after, outcome, table, end),
    ensures
        ({
            let n = before.len() as int;
            match outcome {
                UpgradeOutcome::Upgraded { url, connection_id } => {
                    &&& table.sockets.at(url) == Some(connection_id) ==> after.len() > n
                        && after[n].0 == Request::Conn(url) && match after[n].1 {
                        Reply::Conn(Some(_)) => after[n + 1].0 == Request::HandleEvent(
                            url,
                            FsmEvent::WireUpgradeOk { connection_id: Some(connection_id) },
                        ),
                        _ => end == table,
                    }
                    &&& table.sockets.at(url) != Some(connection_id) ==> end == table
                        && after.len() == n + 1 && after[n].0 is Say
                },
                UpgradeOutcome::Failed { url, kind, transient } => {
                    &&& after.len() > n
                    &&& after[n].0 == Request::Conn(url)
                    &&& match after[n].1 {
                        Reply::Conn(Some(_)) => after[n + 1].0 == Request::HandleEvent(
                            url,
                            match kind {
                                TransportErrorKind::HttpUpgradeRejected { status } =>
                                    FsmEvent::WireUpgradeFailed { http_status: status },
                                _ => FsmEvent::WireConnectError { kind, transient },
                            },
                        ),
                        _ => end == table,
                    }
                },
            }
        }),
{
    match outcome {
        UpgradeOutcome::Upgraded { url, connection_id } => {
            let a = choose|a: UpgradeAnswers|
                {
                    &&& after == #[trigger] upgrade_ok_log(before, url, connection_id, table, a)
                    &&& end == upgrade_ok_table(url, connection_id, table, a)
                    &&& upgrade_ok_whole(url, connection_id, table, a)
                };
            if table.sockets.at(url) == Some(connection_id) && a.conn is Some {
                an_upgrade_is_told_and_followed_up(before, url, connection_id, table, a);
            }
        },
        UpgradeOutcome::Failed { url, kind, transient } => {
            let a = choose|a: UpgradeFailedAnswers|
                {
                    &&& after == #[trigger] upgrade_failed_log(
                        before,
                        url,
                        upgrade_failure(kind, transient),
                        a,
                    )
                    &&& end == upgrade_failed_table(url, table, a)
                };
            a_failed_upgrade_is_told(before, url, kind, transient, table, a);
        },
    }
}

proof fn a_refresh_turn_begins_with_a_look(
    before: Log,
    after: Log,
    request_id: u64,
    result: Result<(), Text>,
    table: SocketTable,
    end: SocketTable,
)
    requires
        refresh_handled(before, after, request_id, result, table, end),
    ensures
        ({
            let n = before.len() as int;
            &&& after.len() > n
            &&& after[n].0 == Request::Conn(WsUrl::Auth)
            &&& match after[n].1 {
                Reply::Conn(Some(conn)) => request_id != 0 || conn.state == ConnectionState::Open
                    || conn.state == ConnectionState::Resubscribing ==> after[n + 1].0
                    == Request::HandleEvent(
                    WsUrl::Auth,
                    match result {
                        Ok(_) => FsmEvent::BusTokenRefreshed { request_id },
                        Err(error) => FsmEvent::BusTokenRefreshFailed { request_id, error },
                    },
                ),
                _ => end == table,
            }
        }),
{
    let a = choose|a: RefreshAnswers|
        {
            &&& after == #[trigger] refresh_outcome_log(before, request_id, result, table, a)
            &&& end == refresh_outcome_table(request_id, result is Ok, table, a)
            &&& refresh_whole(request_id, result is Ok, table, a)
        };
    if a.conn is Some {
        a_refresh_begins_with_its_outcome(before, request_id, result, table, a);
    }
}

proof fn a_refresh_begins_with_its_outcome(
    log: Log,
    request_id: u64,
    result: Result<(), Text>,
    table: SocketTable,
    a: RefreshAnswers,
)
    requires
        a.conn is Some,
        refresh_whole(request_id, result is Ok, table, a),
    ensures
        ({
            let url = WsUrl::Auth;
            let looked = asked(log, Request::Conn(url), Reply::Conn(a.conn));
            let delivered = deliver_refresh_log(looked, request_id, result, table, a);
            let after = refresh_outcome_log(log, request_id, result, table, a);
            let n = log.len() as int;
            let told = request_id != 0 || a.conn->Some_0.state == ConnectionState::Open
                || a.conn->Some_0.state == ConnectionState::Resubscribing;
            &&& extends(delivered, after)
            &&& after[n] == (Request::Conn(url), Reply::Conn(a.conn))
            &&& told ==> after[n + 1] == (
                Request::HandleEvent(
                    url,
                    match result {
                        Ok(_) => FsmEvent::BusTokenRefreshed { request_id },
                        Err(error) => FsmEvent::BusTokenRefreshFailed { request_id, error },
                    },
                ),
                Reply::View(a.after),
            )
        }),
{
    let url = WsUrl::Auth;
    let ok = result is Ok;
    let looked = asked(log, Request::Conn(url), Reply::Conn(a.conn));
    let delivered = deliver_refresh_log(looked, request_id, result, table, a);
    let drained = drain_log(delivered, request_id, ok, table, a);
    let after = refresh_outcome_log(log, request_id, result, table, a);
    let n = log.len() as int;
    a_refresh_outcome_is_told(log, request_id, result, table, a);
    showing(log);
    a_delivery_is_shown(looked, request_id, result, table, a);
    a_drain_is_shown(delivered, request_id, ok, table, a);
    settling_is_silent(drained, ok, a.last(request_id, ok, table), a);
    assert forall|i: int| 0 <= i < delivered.len() implies #[trigger] after[i] == delivered[i] by {
        assert(after[i] == drained[i]);
        assert(drained[i] == delivered[i]);
    }
    assert(after[n] == delivered[n] && delivered[n] == looked[n]);
    if delivered.len() > n + 1 {
        assert(after[n + 1] == delivered[n + 1]);
    }
}

proof fn a_timer_begins_with_a_look(
    before: Log,
    after: Log,
    url: WsUrl,
    event: FsmEvent,
    period: u64,
    table: SocketTable,
    end: SocketTable,
    a: TimerAnswers,
)
    requires
        timer_handled(before, after, url, event, period, table, end, a),
    ensures
        extends(popped_log(before, url, event, a.conn), after),
        a.conn is None ==> end == table,
        after.len() > before.len(),
        after[before.len() as int] == (Request::Conn(url), Reply::Conn(a.conn)),
        a.conn is Some && timer_of(event) is Some ==> after.len() > before.len() + 1 && after[
            before.len() as int + 1].0 == Request::PopTimer(url, timer_of(event)->Some_0),
{
    let n = before.len() as int;
    let popped = popped_log(before, url, event, a.conn);
    if a.conn is Some {
        match event {
            FsmEvent::TimerTokenRefreshDue => {},
            FsmEvent::TimerSubscribeResendDue { key } => {
                let resent = resend_log(popped, url, key, table, a.resend);
                a_resend_shows_nothing(popped, url, key, table, a.resend);
                a_look_is_shown(resent, url, table, a.show);
                assert forall|i: int| 0 <= i < popped.len() implies #[trigger] after[i]
                    == popped[i] by {
                    assert(after[i] == resent[i]);
                }
            },
            FsmEvent::TimerBookReseedSnapshot { key } => {
                let decided = reseed_timeout_log(popped, url, key.pair, table, a.reseed);
                a_reseed_timeout_extends(popped, url, key.pair, table, a.reseed);
                a_look_is_shown(decided, url, table, a.show);
                assert forall|i: int| 0 <= i < popped.len() implies #[trigger] after[i]
                    == popped[i] by {
                    assert(after[i] == decided[i]);
                }
            },
            _ => {
                let d = choose|d: DriveAnswers|
                    {
                        &&& after == #[trigger] drive_log(popped, url, event, d)
                        &&& end == drive_table(url, table, d)
                    };
                a_driven_event_is_shown(popped, url, event, table, d);
            },
        }
    }
    assert(extends(popped, after));
    assert(after[n] == popped[n]);
    if a.conn is Some && timer_of(event) is Some {
        assert(after[n + 1] == popped[n + 1]);
    }
}

/// The deferred subscribes are taken exactly where they can be issued: after a refresh
/// that succeeded, on a connection that is open or resubscribes once that was told and
/// any sign-in was sent, and while no other refresh is awaited. A drain that does not
/// come about sends nothing and loses nothing.
pub proof fn the_deferred_are_taken_only_to_be_issued(
    log: Log,
    request_id: u64,
    ok: bool,
    table: SocketTable,
    a: RefreshAnswers,
)
    requires
        a.conn is Some,
    ensures
        ({
            let url = WsUrl::Auth;
            let after = drain_log(log, request_id, ok, table, a);
            let state = a.conn->Some_0.state;
            let told = request_id != 0 || state == ConnectionState::Open || state
                == ConnectionState::Resubscribing;
            let current = if !told {
                a.conn->Some_0
            } else if ok && a.after.authenticating_nothing_in_flight && a.sign_in.after is Some {
                a.sign_in.after->Some_0
            } else {
                a.after
            };
            let takes = ok && (current.state == ConnectionState::Open || current.state
                == ConnectionState::Resubscribing);
            let n = log.len() as int;
            &&& extends(log, after)
            &&& !takes ==> after == log
            &&& takes ==> after[n] == (
                Request::IsAwaitingTokenRefresh(url),
                Reply::Flag(a.awaiting),
            )
            &&& takes && a.awaiting ==> after.len() == n + 1
            &&& takes && !a.awaiting ==> after[n + 1] == (
                Request::DrainDeferredAuthSubscribes(url),
                Reply::Keys(a.deferred),
            ) && after.last().0 is StoreMirror
        }),
{
    let url = WsUrl::Auth;
    let after = drain_log(log, request_id, ok, table, a);
    if a.may_drain(request_id, ok) && !a.awaiting {
        let listed = asked(
            asked(log, Request::IsAwaitingTokenRefresh(url), Reply::Flag(a.awaiting)),
            Request::DrainDeferredAuthSubscribes(url),
            Reply::Keys(a.deferred),
        );
        let n = log.len() as int;
        draining_sets_no_refresh(listed, url, a.deferred@, table, a.drain);
        assert(extends(listed, after));
        assert(after[n] == listed[n] && after[n + 1] == listed[n + 1]);
    }
}

} // verus!
