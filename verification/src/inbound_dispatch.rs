//! What callers ask of the reactor: connecting and closing, registering and
//! releasing subscriptions, handlers, and requests on the auth connection.

use crate::frames::{request_frame, request_json, unsubscribe_json};
use crate::host::{
    asked, extends, grew_without, grew_without_together, happened, happened_once, happened_together,
    last_set, last_set_at, last_told, made, made_earlier, made_later, nothing_happened,
    nothing_picked, picked, picked_together, picking, said, showing, shows_together, shows_what_is,
    told, BusClock, CachedToken, ConnView, Effect, Flag, Link, Log, Reply, Request, RequestFailure,
};
use crate::json;
use crate::json::{json_of, json_text, Json};
use crate::notes::{send_error, send_error_of, Note};
use crate::send_ready::{
    is_token_valid, refresh_send_ready, refresh_send_ready_log, send_ready,
    the_flag_says_whether_an_order_may_be_sent, token_valid, SendReadyReads,
};
use crate::socket_lifecycle::{
    an_ended_subscription_is_unsubscribed_and_announced, channel_url, channel_ws_url, drop_socket,
    other_url, project_log, project_socket_and_wire_bridge, projected, sends_in_use,
    unsubscribe_and_terminate, unsubscribe_and_terminate_log, unsubscribe_token, write_mirror,
    SocketTable, TerminateAnswers,
};
use crate::subscribe_send::{
    a_registration_hands_back_what_was_told, a_registration_is_one, a_registration_is_recorded,
    no_socket_no_frame, register_log, register_one_and_emit, register_text, RegisterAnswers,
};
use crate::types::{
    CallerEvent, ChannelName, ConnectionState, EventEnvelope, EventPayload, FsmEvent, Key,
    RemovedEntry, SendResult, SubscribeParams, SubscriptionEntry, Symbol, TerminationCause, WsOp,
    WsUrl,
};
use serde_json::Value;
use vstd::prelude::*;

verus! {

/// A change to the subscriptions.
#[allow(inconsistent_fields)]
#[derive(Debug)]
pub enum RegistryMutationOp {
    RegisterBatch { entries: Vec<SubscriptionEntry>, ref_id: Option<u64> },
    Deregister { channel: ChannelName, pair: Option<Symbol> },
    DeregisterBatch { channel: ChannelName, pairs: Vec<Symbol> },
    DeregisterAll { channel: Option<ChannelName> },
}

/// A change to the data handlers; a callback goes by its handle.
#[derive(Clone, Copy, PartialEq, Eq, Structural, Debug)]
pub enum HandlerMutationOp {
    Register { id: u64, callback: u64 },
    Deregister { id: u64 },
}

/// What a caller can post.
#[allow(inconsistent_fields)]
#[derive(Debug)]
pub enum CallerInbound {
    FsmEvent { url: WsUrl, event: CallerEvent },
    ClientClose { request_id: u64, initiated_at: u64 },
    RegistryMutation { url: WsUrl, mutation: RegistryMutationOp },
    HandlerMutation { channel: ChannelName, op: HandlerMutationOp },
    SubscriptionGuardDrop { handler_id: u64, channel: ChannelName, symbols: Vec<Symbol> },
    WsRequestFrame { req_id: u64, method: String, op: WsOp, params: Value },
    AbandonWsRequest { req_id: u64 },
}

/// The event of a connection that a caller's wish stands for.
pub open spec fn fsm_event(event: CallerEvent) -> FsmEvent {
    match event {
        CallerEvent::StartConnect { request_id } => FsmEvent::CallStartConnect { request_id },
        CallerEvent::Close { request_id } => FsmEvent::CallClose { request_id },
        CallerEvent::ForceReconnect { request_id } => FsmEvent::CallForceReconnect { request_id },
    }
}

pub fn fsm_event_of(event: CallerEvent) -> (fsm: FsmEvent)
    ensures
        fsm == fsm_event(event),
{
    match event {
        CallerEvent::StartConnect { request_id } => FsmEvent::CallStartConnect { request_id },
        CallerEvent::Close { request_id } => FsmEvent::CallClose { request_id },
        CallerEvent::ForceReconnect { request_id } => FsmEvent::CallForceReconnect { request_id },
    }
}

/// What an event of a connection met.
pub struct DriveAnswers {
    pub conn: Option<ConnView>,
    pub after: ConnView,
    pub clock: BusClock,
}

pub open spec fn drive_log(log: Log, url: WsUrl, event: FsmEvent, a: DriveAnswers) -> Log {
    let log = asked(log, Request::Conn(url), Reply::Conn(a.conn));
    match a.conn {
        None => said(log, Note::NoConnection { url }),
        Some(conn) => {
            let log = asked(log, Request::HandleEvent(url, event), Reply::View(a.after));
            let log = told(log, Request::StoreMirror(url, a.after.state));
            project_log(log, url, a.after.socket, conn.socket, a.clock)
        },
    }
}

pub open spec fn drive_table(url: WsUrl, table: SocketTable, a: DriveAnswers) -> SocketTable {
    match a.conn {
        None => table,
        Some(conn) => projected(table, url, a.after.socket, conn.socket, a.clock.bus_alive),
    }
}

/// Whether an event was driven into a connection.
pub open spec fn driven(
    before: Log,
    after: Log,
    url: WsUrl,
    event: FsmEvent,
    table: SocketTable,
    end: SocketTable,
) -> bool {
    exists|a: DriveAnswers|
        {
            &&& after == #[trigger] drive_log(before, url, event, a)
            &&& end == drive_table(url, table, a)
        }
}

/// Drives an event into a connection, and shows its state and its socket. That the
/// connection is missing is an error.
pub fn drive_event<F: Fn(Request) -> Reply>(
    host: &mut Link<F>,
    url: WsUrl,
    event: FsmEvent,
    table: &mut SocketTable,
)
    requires
        old(table).wf(),
    ensures
        final(table).wf(),
        driven(old(host).log(), final(host).log(), url, event, *old(table), *final(table)),
{
    let ghost before = host.log();
    let ghost table0 = *table;
    let ghost wish = event;
    let ghost mut a: DriveAnswers = arbitrary();
    let found = host.conn(url);
    proof {
        a.conn = found;
    }
    match found {
        Some(conn) => {
            let after = host.view(Request::HandleEvent(url, event));
            write_mirror(host, url, after.state);
            let ghost mirrored = host.log();
            project_socket_and_wire_bridge(host, &after, url, conn.socket, table);
            proof {
                a.after = after;
                a.clock = choose|clock: BusClock|
                    {
                        &&& host.log() == #[trigger] project_log(
                            mirrored,
                            url,
                            after.socket,
                            conn.socket,
                            clock,
                        )
                        &&& *table == projected(
                            table0,
                            url,
                            after.socket,
                            conn.socket,
                            clock.bus_alive,
                        )
                    };
                assert(host.log() == drive_log(before, url, wish, a));
            }
        },
        None => {
            host.say(Note::NoConnection { url });
            proof {
                assert(host.log() == drive_log(before, url, wish, a));
            }
        },
    }
}

/// What a teardown met.
pub struct TeardownAnswers {
    pub conn: Option<ConnView>,
    pub terminate: TerminateAnswers,
}

pub open spec fn teardown_log(
    log: Log,
    key: Key,
    was_tombstone: bool,
    table: SocketTable,
    a: TeardownAnswers,
) -> Log {
    let url = channel_url(key.channel);
    let log = asked(log, Request::Conn(url), Reply::Conn(a.conn));
    let log = if a.conn is Some {
        let log = told(log, Request::DisarmSubscribeAck(url, key));
        let log = told(log, Request::DisarmBookReseedSnapshot(url, key));
        told(log, Request::RemoveDeferredAuthSubscribe(url, key))
    } else {
        log
    };
    if was_tombstone {
        log
    } else {
        unsubscribe_and_terminate_log(log, key, table, a.terminate)
    }
}

/// The text of a teardown is the unsubscribe for the params of the subscription.
pub open spec fn teardown_text(
    key: Key,
    params: Option<SubscribeParams>,
    was_tombstone: bool,
    a: TeardownAnswers,
) -> bool {
    was_tombstone || a.terminate.text@ == json_text(
        unsubscribe_json(key, params, unsubscribe_token(key.channel, a.terminate.token)),
    )
}

/// After the last release of `key`: nothing of it may come back by a timer or a
/// deferral. A tombstone goes without a word, since its end was announced before;
/// anything else is unsubscribed and announced.
pub fn teardown_released_key<F: Fn(Request) -> Reply>(
    host: &mut Link<F>,
    key: &Key,
    params: &Option<SubscribeParams>,
    was_tombstone: bool,
    table: &SocketTable,
)
    ensures
        exists|a: TeardownAnswers|
            {
                &&& final(host).log() == #[trigger] teardown_log(
                    old(host).log(),
                    *key,
                    was_tombstone,
                    *table,
                    a,
                )
                &&& teardown_text(*key, *params, was_tombstone, a)
            },
{
    let ghost before = host.log();
    let ghost mut a: TeardownAnswers = arbitrary();
    let url = channel_ws_url(key.channel);
    let conn = host.conn(url);
    proof {
        a.conn = conn;
    }
    if conn.is_some() {
        host.tell(Request::DisarmSubscribeAck(url, key.clone()));
        host.tell(Request::DisarmBookReseedSnapshot(url, key.clone()));
        host.tell(Request::RemoveDeferredAuthSubscribe(url, key.clone()));
    }
    let ghost disarmed = host.log();
    if !was_tombstone {
        unsubscribe_and_terminate(host, key, params, table);
        proof {
            a.terminate = choose|t: TerminateAnswers|
                {
                    &&& host.log() == #[trigger] unsubscribe_and_terminate_log(
                        disarmed,
                        *key,
                        *table,
                        t,
                    )
                    &&& t.text@ == json_text(
                        unsubscribe_json(*key, *params, unsubscribe_token(key.channel, t.token)),
                    )
                };
        }
    }
    proof {
        assert(host.log() == teardown_log(before, *key, was_tombstone, *table, a));
    }
}

/// What the completion of a resubscription met.
pub struct CompleteAnswers {
    pub conn: Option<ConnView>,
    pub after: ConnView,
}

pub open spec fn complete_log(log: Log, url: WsUrl, a: CompleteAnswers) -> Log {
    let log = asked(log, Request::Conn(url), Reply::Conn(a.conn));
    if a.conn is None {
        log
    } else {
        let log = asked(log, Request::CompleteResubscribeIfEmpty(url), Reply::View(a.after));
        told(log, Request::StoreMirror(url, a.after.state))
    }
}

/// Lets a resubscription that waits for nothing more come to its end.
pub fn complete_and_mirror<F: Fn(Request) -> Reply>(host: &mut Link<F>, url: WsUrl)
    ensures
        exists|a: CompleteAnswers|
            final(host).log() == #[trigger] complete_log(old(host).log(), url, a),
{
    let ghost before = host.log();
    let ghost mut a: CompleteAnswers = arbitrary();
    let conn = host.conn(url);
    proof {
        a.conn = conn;
    }
    if conn.is_some() {
        let after = host.view(Request::CompleteResubscribeIfEmpty(url));
        write_mirror(host, url, after.state);
        proof {
            a.after = after;
        }
    }
    proof {
        assert(host.log() == complete_log(before, url, a));
    }
}

/// What a release met.
pub struct DeregisterAnswers {
    pub params: Option<SubscribeParams>,
    pub was_tombstone: bool,
    pub remaining: u64,
    pub teardown: TeardownAnswers,
    pub complete: CompleteAnswers,
}

impl DeregisterAnswers {
    /// Whether the release was the last of a subscription that existed. A key that
    /// was never registered has no params, and is no last release.
    pub open spec fn is_last(self) -> bool {
        self.remaining == 0 && self.params is Some
    }
}

/// The key under which the registry holds a channel and pair: both views of a book
/// share one.
pub open spec fn wire_key(channel: ChannelName, pair: Option<Symbol>) -> Key {
    Key { channel: channel.wire_channel_spec(), pair }
}

pub open spec fn deregister_log(
    log: Log,
    key: Key,
    table: SocketTable,
    a: DeregisterAnswers,
) -> Log {
    let log = asked(log, Request::ParamsFor(key), Reply::Params(a.params));
    let log = asked(log, Request::IsTerminated(key), Reply::Flag(a.was_tombstone));
    let log = asked(log, Request::Release(key), Reply::Count(a.remaining));
    if a.is_last() {
        let log = teardown_log(log, key, a.was_tombstone, table, a.teardown);
        complete_log(log, channel_url(key.channel), a.complete)
    } else {
        log
    }
}

/// The text of a release is the unsubscribe for the params from before it.
pub open spec fn deregister_text(key: Key, a: DeregisterAnswers) -> bool {
    a.is_last() ==> teardown_text(key, a.params, a.was_tombstone, a.teardown)
}

/// Releases one reference to a channel and pair; the last one tears the
/// subscription down.
pub fn deregister_one<F: Fn(Request) -> Reply>(
    host: &mut Link<F>,
    channel: ChannelName,
    pair: Option<Symbol>,
    table: &SocketTable,
)
    ensures
        exists|a: DeregisterAnswers|
            {
                &&& final(host).log() == #[trigger] deregister_log(
                    old(host).log(),
                    wire_key(channel, pair),
                    *table,
                    a,
                )
                &&& deregister_text(wire_key(channel, pair), a)
            },
{
    let ghost before = host.log();
    let ghost mut a: DeregisterAnswers = arbitrary();
    let key = Key { channel: channel.wire_channel(), pair };
    let params = host.params(key.clone());
    let was_tombstone = host.flag(Request::IsTerminated(key.clone()));
    let remaining: u64 = host.count(Request::Release(key.clone()));
    proof {
        a.params = params;
        a.was_tombstone = was_tombstone;
        a.remaining = remaining;
    }
    if remaining != 0 || params.is_none() {
        proof {
            assert(host.log() == deregister_log(before, key, *table, a));
        }
        return ;
    }
    let ghost released = host.log();
    teardown_released_key(host, &key, &params, was_tombstone, table);
    let ghost torn = host.log();
    proof {
        a.teardown = choose|t: TeardownAnswers|
            {
                &&& torn == #[trigger] teardown_log(released, key, was_tombstone, *table, t)
                &&& teardown_text(key, params, was_tombstone, t)
            };
    }
    complete_and_mirror(host, channel_ws_url(key.channel));
    proof {
        a.complete = choose|c: CompleteAnswers|
            host.log() == #[trigger] complete_log(torn, channel_url(key.channel), c);
        assert(host.log() == deregister_log(before, key, *table, a));
    }
}

/// The log of releasing the first pairs of a batch.
pub open spec fn deregister_batch_log(
    log: Log,
    channel: ChannelName,
    pairs: Seq<Symbol>,
    table: SocketTable,
    answers: Seq<DeregisterAnswers>,
) -> Log
    decreases answers.len(),
{
    if answers.len() == 0 {
        log
    } else {
        deregister_log(
            deregister_batch_log(log, channel, pairs, table, answers.drop_last()),
            wire_key(channel, Some(pairs[answers.len() - 1])),
            table,
            answers.last(),
        )
    }
}

/// Whether every pair of a batch was released, in order.
pub open spec fn deregistered_batch(
    before: Log,
    after: Log,
    channel: ChannelName,
    pairs: Seq<Symbol>,
    table: SocketTable,
) -> bool {
    exists|answers: Seq<DeregisterAnswers>|
        {
            &&& after == #[trigger] deregister_batch_log(before, channel, pairs, table, answers)
            &&& answers.len() == pairs.len()
            &&& forall|i: int|
                0 <= i < pairs.len() ==> deregister_text(
                    wire_key(channel, Some(#[trigger] pairs[i])),
                    answers[i],
                )
        }
}

/// Releases one reference to each pair of a batch.
pub fn deregister_batch<F: Fn(Request) -> Reply>(
    host: &mut Link<F>,
    channel: ChannelName,
    pairs: &Vec<Symbol>,
    table: &SocketTable,
)
    ensures
        deregistered_batch(old(host).log(), final(host).log(), channel, pairs@, *table),
{
    let ghost before = host.log();
    let ghost mut answers: Seq<DeregisterAnswers> = Seq::empty();
    let mut i: usize = 0;
    while i < pairs.len()
        invariant
            i <= pairs@.len(),
            answers.len() == i,
            host.log() == deregister_batch_log(before, channel, pairs@, *table, answers),
            forall|k: int|
                0 <= k < i ==> deregister_text(
                    wire_key(channel, Some(#[trigger] pairs@[k])),
                    answers[k],
                ),
        decreases pairs@.len() - i,
    {
        let ghost here = host.log();
        deregister_one(host, channel, Some(pairs[i].clone()), table);
        proof {
            let a = choose|a: DeregisterAnswers|
                {
                    &&& host.log() == #[trigger] deregister_log(
                        here,
                        wire_key(channel, Some(pairs@[i as int])),
                        *table,
                        a,
                    )
                    &&& deregister_text(wire_key(channel, Some(pairs@[i as int])), a)
                };
            let longer = answers.push(a);
            assert(longer.drop_last() =~= answers);
            assert(host.log() == deregister_batch_log(before, channel, pairs@, *table, longer));
            answers = longer;
        }
        i += 1;
    }
}

/// The log of tearing the first of some removed subscriptions down.
pub open spec fn teardown_all_log(
    log: Log,
    removed: Seq<RemovedEntry>,
    table: SocketTable,
    answers: Seq<TeardownAnswers>,
) -> Log
    decreases answers.len(),
{
    if answers.len() == 0 {
        log
    } else {
        let entry = removed[answers.len() - 1];
        teardown_log(
            teardown_all_log(log, removed, table, answers.drop_last()),
            entry.key,
            entry.tombstone,
            table,
            answers.last(),
        )
    }
}

/// Whether one of some removed subscriptions was on `url`.
pub open spec fn touches(removed: Seq<RemovedEntry>, url: WsUrl) -> bool {
    exists|i: int| 0 <= i < removed.len() && channel_url((#[trigger] removed[i]).key.channel) == url
}

/// What a release of everything met.
pub struct DeregisterAllAnswers {
    pub removed: Vec<RemovedEntry>,
    pub teardowns: Seq<TeardownAnswers>,
    pub public: CompleteAnswers,
    pub auth: CompleteAnswers,
}

pub open spec fn deregister_all_log(
    log: Log,
    channel: Option<ChannelName>,
    table: SocketTable,
    a: DeregisterAllAnswers,
) -> Log {
    let log = asked(
        log,
        Request::DeregisterAll(
            match channel {
                Some(channel) => Some(channel.wire_channel_spec()),
                None => None,
            },
        ),
        Reply::Removed(a.removed),
    );
    let log = teardown_all_log(log, a.removed@, table, a.teardowns);
    let log = if touches(a.removed@, WsUrl::Public) {
        complete_log(log, WsUrl::Public, a.public)
    } else {
        log
    };
    if touches(a.removed@, WsUrl::Auth) {
        complete_log(log, WsUrl::Auth, a.auth)
    } else {
        log
    }
}

/// Whether everything that was removed was torn down, in order.
pub open spec fn tears_all_down(a: DeregisterAllAnswers) -> bool {
    &&& a.teardowns.len() == a.removed@.len()
    &&& forall|i: int|
        0 <= i < a.removed@.len() ==> teardown_text(
            (#[trigger] a.removed@[i]).key,
            Some(a.removed@[i].params),
            a.removed@[i].tombstone,
            a.teardowns[i],
        )
}

/// Releases every subscription, or every one of a channel, whatever its count.
pub fn deregister_all<F: Fn(Request) -> Reply>(
    host: &mut Link<F>,
    channel: Option<ChannelName>,
    table: &SocketTable,
)
    ensures
        exists|a: DeregisterAllAnswers|
            {
                &&& final(host).log() == #[trigger] deregister_all_log(
                    old(host).log(),
                    channel,
                    *table,
                    a,
                )
                &&& tears_all_down(a)
            },
{
    let ghost before = host.log();
    let ghost mut a: DeregisterAllAnswers = arbitrary();
    let wire = match channel {
        Some(channel) => Some(channel.wire_channel()),
        None => None,
    };
    let removed = host.removed(wire);
    let ghost listed = host.log();
    let ghost mut answers: Seq<TeardownAnswers> = Seq::empty();
    let mut any_public = false;
    let mut any_auth = false;
    let mut i: usize = 0;
    while i < removed.len()
        invariant
            i <= removed@.len(),
            answers.len() == i,
            host.log() == teardown_all_log(listed, removed@, *table, answers),
            forall|k: int|
                0 <= k < i ==> teardown_text(
                    (#[trigger] removed@[k]).key,
                    Some(removed@[k].params),
                    removed@[k].tombstone,
                    answers[k],
                ),
            any_public == touches(removed@.take(i as int), WsUrl::Public),
            any_auth == touches(removed@.take(i as int), WsUrl::Auth),
        decreases removed@.len() - i,
    {
        let ghost here = host.log();
        let entry = &removed[i];
        let url = channel_ws_url(entry.key.channel);
        teardown_released_key(host, &entry.key, &Some(entry.params), entry.tombstone, table);
        proof {
            let t = choose|t: TeardownAnswers|
                {
                    &&& host.log() == #[trigger] teardown_log(
                        here,
                        removed@[i as int].key,
                        removed@[i as int].tombstone,
                        *table,
                        t,
                    )
                    &&& teardown_text(
                        removed@[i as int].key,
                        Some(removed@[i as int].params),
                        removed@[i as int].tombstone,
                        t,
                    )
                };
            let longer = answers.push(t);
            assert(longer.drop_last() =~= answers);
            assert(host.log() == teardown_all_log(listed, removed@, *table, longer));
            answers = longer;
            let short = removed@.take(i as int);
            let long = removed@.take(i + 1);
            assert(long[i as int] == removed@[i as int]);
            assert forall|u: WsUrl| touches(long, u) == (touches(short, u) || url == u) by {
                if touches(short, u) {
                    let k = choose|k: int|
                        0 <= k < short.len() && channel_url((#[trigger] short[k]).key.channel)
                            == u;
                    assert(long[k] == short[k]);
                }
                if touches(long, u) {
                    let k = choose|k: int|
                        0 <= k < long.len() && channel_url((#[trigger] long[k]).key.channel) == u;
                    if k < i {
                        assert(short[k] == long[k]);
                    }
                }
            }
        }
        any_public = any_public || url == WsUrl::Public;
        any_auth = any_auth || url == WsUrl::Auth;
        i += 1;
    }
    proof {
        assert(removed@.take(i as int) =~= removed@);
        a.removed = removed;
        a.teardowns = answers;
    }
    let ghost torn = host.log();
    if any_public {
        complete_and_mirror(host, WsUrl::Public);
        proof {
            a.public = choose|c: CompleteAnswers|
                host.log() == #[trigger] complete_log(torn, WsUrl::Public, c);
        }
    }
    let ghost public_done = host.log();
    if any_auth {
        complete_and_mirror(host, WsUrl::Auth);
        proof {
            a.auth = choose|c: CompleteAnswers|
                host.log() == #[trigger] complete_log(public_done, WsUrl::Auth, c);
        }
    }
    proof {
        assert(host.log() == deregister_all_log(before, channel, *table, a));
    }
}

/// What the release of one target of a guard met.
pub struct GuardAnswers {
    pub params: Option<SubscribeParams>,
    pub was_tombstone: bool,
    pub remaining: u64,
    pub teardown: TeardownAnswers,
}

impl GuardAnswers {
    pub open spec fn is_last(self) -> bool {
        self.params is Some && self.remaining == 0
    }
}

/// One target of a dropped guard. The guard's own record is consumed in any case,
/// also where the subscription is gone.
pub open spec fn guard_row_log(
    log: Log,
    handler_id: u64,
    key: Key,
    table: SocketTable,
    a: GuardAnswers,
) -> Log {
    let log = asked(log, Request::ParamsFor(key), Reply::Params(a.params));
    let log = asked(log, Request::IsTerminated(key), Reply::Flag(a.was_tombstone));
    let log = asked(
        log,
        Request::ReleaseGuardRef(handler_id, key),
        Reply::Count(a.remaining),
    );
    if a.is_last() {
        teardown_log(log, key, a.was_tombstone, table, a.teardown)
    } else {
        log
    }
}

/// The keys of a guard: one for each pair, or the channel-wide one.
pub open spec fn guard_keys(channel: ChannelName, symbols: Seq<Symbol>) -> Seq<Key> {
    if symbols.len() == 0 {
        seq![wire_key(channel, None)]
    } else {
        symbols.map_values(|symbol: Symbol| wire_key(channel, Some(symbol)))
    }
}

pub open spec fn guard_rows_log(
    log: Log,
    handler_id: u64,
    keys: Seq<Key>,
    table: SocketTable,
    answers: Seq<GuardAnswers>,
) -> Log
    decreases answers.len(),
{
    if answers.len() == 0 {
        log
    } else {
        guard_row_log(
            guard_rows_log(log, handler_id, keys, table, answers.drop_last()),
            handler_id,
            keys[answers.len() - 1],
            table,
            answers.last(),
        )
    }
}

/// Whether one of the releases was a last one.
pub open spec fn any_last(answers: Seq<GuardAnswers>) -> bool {
    exists|i: int| 0 <= i < answers.len() && (#[trigger] answers[i]).is_last()
}

pub open spec fn guard_drop_log(
    log: Log,
    handler_id: u64,
    channel: ChannelName,
    symbols: Seq<Symbol>,
    table: SocketTable,
    answers: Seq<GuardAnswers>,
    complete: CompleteAnswers,
) -> Log {
    let log = told(log, Request::DeregisterHandler(channel, handler_id));
    let log = guard_rows_log(log, handler_id, guard_keys(channel, symbols), table, answers);
    if any_last(answers) {
        complete_log(log, channel_url(channel.wire_channel_spec()), complete)
    } else {
        log
    }
}

/// Whether the answers are those of every target of a guard, in order.
pub open spec fn guard_whole(keys: Seq<Key>, answers: Seq<GuardAnswers>) -> bool {
    &&& answers.len() == keys.len()
    &&& forall|i: int|
        0 <= i < answers.len() && (#[trigger] answers[i]).is_last() ==> teardown_text(
            keys[i],
            answers[i].params,
            answers[i].was_tombstone,
            answers[i].teardown,
        )
}

fn release_guard_row<F: Fn(Request) -> Reply>(
    host: &mut Link<F>,
    handler_id: u64,
    key: &Key,
    table: &SocketTable,
) -> (last: bool)
    ensures
        exists|a: GuardAnswers|
            {
                &&& final(host).log() == #[trigger] guard_row_log(
                    old(host).log(),
                    handler_id,
                    *key,
                    *table,
                    a,
                )
                &&& last == a.is_last()
                &&& last ==> teardown_text(*key, a.params, a.was_tombstone, a.teardown)
            },
{
    let ghost before = host.log();
    let ghost mut a: GuardAnswers = arbitrary();
    let params = host.params(key.clone());
    let was_tombstone = host.flag(Request::IsTerminated(key.clone()));
    let remaining: u64 = host.count(Request::ReleaseGuardRef(handler_id, key.clone()));
    proof {
        a.params = params;
        a.was_tombstone = was_tombstone;
        a.remaining = remaining;
    }
    let ghost released = host.log();
    let last = params.is_some() && remaining == 0;
    if last {
        teardown_released_key(host, key, &params, was_tombstone, table);
        proof {
            a.teardown = choose|t: TeardownAnswers|
                {
                    &&& host.log() == #[trigger] teardown_log(
                        released,
                        *key,
                        was_tombstone,
                        *table,
                        t,
                    )
                    &&& teardown_text(*key, params, was_tombstone, t)
                };
        }
    }
    proof {
        assert(host.log() == guard_row_log(before, handler_id, *key, *table, a));
    }
    last
}

fn keys_of_guard(channel: ChannelName, symbols: &Vec<Symbol>) -> (keys: Vec<Key>)
    ensures
        keys@ == guard_keys(channel, symbols@),
{
    let wire = channel.wire_channel();
    let mut keys: Vec<Key> = Vec::new();
    if symbols.len() == 0 {
        keys.push(Key { channel: wire, pair: None });
        proof {
            assert(keys@ =~= guard_keys(channel, symbols@));
        }
        return keys;
    }
    let mut i: usize = 0;
    while i < symbols.len()
        invariant
            i <= symbols@.len(),
            wire == channel.wire_channel_spec(),
            keys@ == symbols@.take(i as int).map_values(
                |symbol: Symbol| wire_key(channel, Some(symbol)),
            ),
        decreases symbols@.len() - i,
    {
        keys.push(Key { channel: wire, pair: Some(symbols[i].clone()) });
        i += 1;
        proof {
            assert(keys@ =~= symbols@.take(i as int).map_values(
                |symbol: Symbol| wire_key(channel, Some(symbol)),
            ));
        }
    }
    proof {
        assert(symbols@.take(i as int) =~= symbols@);
    }
    keys
}

/// Drops a guard: its handler goes, and each of its targets is released. The last
/// release of a subscription tears it down.
pub fn drop_guard<F: Fn(Request) -> Reply>(
    host: &mut Link<F>,
    handler_id: u64,
    channel: ChannelName,
    symbols: &Vec<Symbol>,
    table: &SocketTable,
)
    ensures
        exists|answers: Seq<GuardAnswers>, complete: CompleteAnswers|
            {
                &&& final(host).log() == #[trigger] guard_drop_log(
                    old(host).log(),
                    handler_id,
                    channel,
                    symbols@,
                    *table,
                    answers,
                    complete,
                )
                &&& guard_whole(guard_keys(channel, symbols@), answers)
            },
{
    let ghost before = host.log();
    host.tell(Request::DeregisterHandler(channel, handler_id));
    let ghost deregistered = host.log();
    let keys = keys_of_guard(channel, symbols);
    let ghost mut answers: Seq<GuardAnswers> = Seq::empty();
    let mut any_terminated = false;
    let mut i: usize = 0;
    while i < keys.len()
        invariant
            i <= keys@.len(),
            answers.len() == i,
            host.log() == guard_rows_log(deregistered, handler_id, keys@, *table, answers),
            any_terminated == any_last(answers),
            forall|k: int|
                0 <= k < answers.len() && (#[trigger] answers[k]).is_last() ==> teardown_text(
                    keys@[k],
                    answers[k].params,
                    answers[k].was_tombstone,
                    answers[k].teardown,
                ),
        decreases keys@.len() - i,
    {
        let ghost here = host.log();
        let last = release_guard_row(host, handler_id, &keys[i], table);
        proof {
            let a = choose|a: GuardAnswers|
                {
                    &&& host.log() == #[trigger] guard_row_log(
                        here,
                        handler_id,
                        keys@[i as int],
                        *table,
                        a,
                    )
                    &&& last == a.is_last()
                    &&& last ==> teardown_text(
                        keys@[i as int],
                        a.params,
                        a.was_tombstone,
                        a.teardown,
                    )
                };
            let longer = answers.push(a);
            assert(longer.drop_last() =~= answers);
            assert(host.log() == guard_rows_log(
                deregistered,
                handler_id,
                keys@,
                *table,
                longer,
            ));
            assert(longer[i as int].is_last() == last);
            if any_last(answers) {
                let k = choose|k: int| 0 <= k < answers.len() && (#[trigger] answers[k]).is_last();
                assert(longer[k].is_last());
            }
            if any_last(longer) {
                let k = choose|k: int| 0 <= k < longer.len() && (#[trigger] longer[k]).is_last();
                if k < i {
                    assert(answers[k].is_last());
                }
            }
            answers = longer;
        }
        any_terminated = any_terminated || last;
        i += 1;
    }
    let ghost released = host.log();
    let url = channel_ws_url(channel.wire_channel());
    if any_terminated {
        complete_and_mirror(host, url);
        proof {
            let complete = choose|c: CompleteAnswers|
                host.log() == #[trigger] complete_log(released, url, c);
            assert(host.log() == guard_drop_log(
                before,
                handler_id,
                channel,
                symbols@,
                *table,
                answers,
                complete,
            ));
        }
    } else {
        proof {
            let complete: CompleteAnswers = arbitrary();
            assert(host.log() == guard_drop_log(
                before,
                handler_id,
                channel,
                symbols@,
                *table,
                answers,
                complete,
            ));
        }
    }
}

/// The requests and the sockets after the first entries of a batch.
pub struct BatchState {
    pub log: Log,
    pub table: SocketTable,
}

/// One entry of a batch. Where it cost the connection its socket, the socket
/// leaves the table, so that the rest is registered but not sent.
pub open spec fn register_step(
    s: BatchState,
    url: WsUrl,
    entry: SubscriptionEntry,
    ref_id: Option<u64>,
    a: RegisterAnswers,
) -> BatchState {
    let log = register_log(s.log, url, entry, ref_id, s.table, a);
    let table = a.table(url, s.table);
    match a.last(url, s.table) {
        Some(last) => if last.socket is None {
            BatchState {
                log: told(log, Request::DropUpgradeBridge(url)),
                table: table.without(url),
            }
        } else {
            BatchState { log, table }
        },
        None => BatchState { log, table },
    }
}

pub open spec fn register_batch_step(
    s: BatchState,
    url: WsUrl,
    entries: Seq<SubscriptionEntry>,
    ref_id: Option<u64>,
    answers: Seq<RegisterAnswers>,
) -> BatchState
    decreases answers.len(),
{
    if answers.len() == 0 {
        s
    } else {
        register_step(
            register_batch_step(s, url, entries, ref_id, answers.drop_last()),
            url,
            entries[answers.len() - 1],
            ref_id,
            answers.last(),
        )
    }
}

/// Whether the answers are those of every entry of a batch, in order.
pub open spec fn batch_whole(
    s: BatchState,
    url: WsUrl,
    entries: Seq<SubscriptionEntry>,
    ref_id: Option<u64>,
    answers: Seq<RegisterAnswers>,
) -> bool {
    &&& answers.len() == entries.len()
    &&& forall|i: int|
        0 <= i < entries.len() ==> register_text(
            url,
            #[trigger] entries[i],
            register_batch_step(s, url, entries, ref_id, answers.take(i)).table,
            answers[i],
        )
}

fn register_entry<F: Fn(Request) -> Reply>(
    host: &mut Link<F>,
    url: WsUrl,
    entry: &SubscriptionEntry,
    ref_id: Option<u64>,
    table: &mut SocketTable,
)
    requires
        old(table).wf(),
    ensures
        final(table).wf(),
        exists|a: RegisterAnswers|
            {
                &&& (BatchState { log: final(host).log(), table: *final(table) })
                    == #[trigger] register_step(
                    BatchState { log: old(host).log(), table: *old(table) },
                    url,
                    *entry,
                    ref_id,
                    a,
                )
                &&& register_text(url, *entry, *old(table), a)
            },
{
    let ghost start = BatchState { log: host.log(), table: *table };
    let last = register_one_and_emit(host, url, entry.clone(), ref_id, table);
    let ghost registered = host.log();
    let ghost after = *table;
    match last {
        Some(last) => {
            if last.socket.is_none() {
                drop_socket(host, url, table);
            }
        },
        None => {},
    }
    proof {
        let a = choose|a: RegisterAnswers|
            {
                &&& registered == #[trigger] register_log(
                    start.log,
                    url,
                    *entry,
                    ref_id,
                    start.table,
                    a,
                )
                &&& register_text(url, *entry, start.table, a)
                &&& after == a.table(url, start.table)
                &&& last == a.last(url, start.table)
            };
        let end = BatchState { log: host.log(), table: *table };
        assert(end == register_step(start, url, *entry, ref_id, a));
    }
}

/// Registers a batch of subscriptions.
pub fn register_batch<F: Fn(Request) -> Reply>(
    host: &mut Link<F>,
    url: WsUrl,
    entries: &Vec<SubscriptionEntry>,
    ref_id: Option<u64>,
    table: &mut SocketTable,
)
    requires
        old(table).wf(),
    ensures
        final(table).wf(),
        exists|answers: Seq<RegisterAnswers>|
            {
                &&& (BatchState { log: final(host).log(), table: *final(table) })
                    == #[trigger] register_batch_step(
                    BatchState { log: old(host).log(), table: *old(table) },
                    url,
                    entries@,
                    ref_id,
                    answers,
                )
                &&& batch_whole(
                    BatchState { log: old(host).log(), table: *old(table) },
                    url,
                    entries@,
                    ref_id,
                    answers,
                )
            },
{
    let ghost start = BatchState { log: host.log(), table: *table };
    let ghost mut answers: Seq<RegisterAnswers> = Seq::empty();
    let mut i: usize = 0;
    while i < entries.len()
        invariant
            i <= entries@.len(),
            answers.len() == i,
            table.wf(),
            (BatchState { log: host.log(), table: *table }) == register_batch_step(
                start,
                url,
                entries@,
                ref_id,
                answers,
            ),
            forall|k: int|
                0 <= k < i ==> register_text(
                    url,
                    #[trigger] entries@[k],
                    register_batch_step(start, url, entries@, ref_id, answers.take(k)).table,
                    answers[k],
                ),
        decreases entries@.len() - i,
    {
        let ghost here = BatchState { log: host.log(), table: *table };
        register_entry(host, url, &entries[i], ref_id, table);
        proof {
            let end = BatchState { log: host.log(), table: *table };
            let a = choose|a: RegisterAnswers|
                {
                    &&& end == #[trigger] register_step(
                        here,
                        url,
                        entries@[i as int],
                        ref_id,
                        a,
                    )
                    &&& register_text(url, entries@[i as int], here.table, a)
                };
            let longer = answers.push(a);
            assert(longer.drop_last() =~= answers);
            assert(end == register_batch_step(start, url, entries@, ref_id, longer));
            assert forall|k: int| 0 <= k < i + 1 implies register_text(
                url,
                #[trigger] entries@[k],
                register_batch_step(start, url, entries@, ref_id, longer.take(k)).table,
                longer[k],
            ) by {
                if k < i {
                    assert(longer.take(k) =~= answers.take(k));
                } else {
                    assert(longer.take(k) =~= answers);
                }
            }
            answers = longer;
        }
        i += 1;
    }
}

/// Whether the auth connection takes a request: an open one takes any; one that
/// authenticates takes an order as its probe, unless a subscription can serve as
/// one.
pub open spec fn admits_request(state: ConnectionState, auth_has_entry: bool, op: WsOp) -> bool {
    state == ConnectionState::Open || state == ConnectionState::Authenticating && !auth_has_entry
        && op.order_method
}

/// The params of a request with the token put in; params that are no object are
/// replaced.
pub open spec fn signed_params(params: Json, token: Seq<char>) -> Json {
    match params {
        Json::Object(_) => params.with("token"@, Json::Text(token)),
        _ => Json::Object(Json::no_members().insert("token"@, Json::Text(token))),
    }
}

fn sign_params(params: Value, token: &str) -> (signed: Value)
    ensures
        json_of(signed) == signed_params(json_of(params), token@),
{
    let value = json::text_value(token.to_owned());
    match json::into_object(params) {
        Ok(mut members) => {
            json::set_member(&mut members, "token", value);
            json::object_value(members)
        },
        Err(_) => {
            let mut members = json::no_members();
            json::set_member(&mut members, "token", value);
            json::object_value(members)
        },
    }
}

/// What a request met.
pub struct WsRequestAnswers {
    pub conn: Option<ConnView>,
    pub auth_has_entry: bool,
    pub now: u64,
    pub token: Option<CachedToken>,
    pub text: String,
    pub sent: SendResult,
}

/// A recorded request that cannot be sent is failed at once.
pub open spec fn unsent_log(log: Log, req_id: u64, op: WsOp, error: &'static str) -> Log {
    let log = said(log, Note::OrderUnsent { req_id, op, error });
    told(log, Request::FailPendingRequest(WsUrl::Auth, req_id, RequestFailure::NotOpen))
}

pub open spec fn ws_request_log(
    log: Log,
    req_id: u64,
    op: WsOp,
    table: SocketTable,
    a: WsRequestAnswers,
) -> Log {
    let url = WsUrl::Auth;
    let log = asked(log, Request::Conn(url), Reply::Conn(a.conn));
    if a.conn is None {
        told(log, Request::RejectRequest(req_id, RequestFailure::NotOpen))
    } else {
        let log = if a.conn->Some_0.state == ConnectionState::Authenticating {
            asked(log, Request::HasUrlEntry(url), Reply::Flag(a.auth_has_entry))
        } else {
            log
        };
        if !admits_request(a.conn->Some_0.state, a.auth_has_entry, op) {
            told(log, Request::RejectRequest(req_id, RequestFailure::NotOpen))
        } else {
            let log = asked(log, Request::ConnClock(url), Reply::Instant(a.now));
            let log = asked(log, Request::CachedToken(Some(a.now)), Reply::Token(a.token));
            if !token_valid(a.token) {
                let log = said(log, Note::OrderWithoutToken { req_id, op });
                let log = told(log, Request::InvalidateCachedToken);
                let log = told(log, Request::SetAwaitingTokenRefresh(url, true));
                let log = told(log, Request::ForceRefresh);
                told(log, Request::RejectRequest(req_id, RequestFailure::NotOpen))
            } else {
                let log = told(log, Request::RecordPendingRequest(url, req_id, op, a.now));
                match table.sockets.at(url) {
                    Some(socket) => {
                        let log = asked(
                            log,
                            Request::SendFrame(url, socket, a.text),
                            Reply::Send(a.sent),
                        );
                        if a.sent == SendResult::Sent {
                            log
                        } else {
                            unsent_log(log, req_id, op, send_error(a.sent))
                        }
                    },
                    None => unsent_log(log, req_id, op, "auth socket missing"),
                }
            }
        }
    }
}

/// Whether a request gets as far as being recorded.
pub open spec fn ws_request_recorded(op: WsOp, a: WsRequestAnswers) -> bool {
    &&& a.conn is Some
    &&& admits_request(a.conn->Some_0.state, a.auth_has_entry, op)
    &&& token_valid(a.token)
}

/// The text of a request: its method, its params with the token, its id.
pub open spec fn ws_request_text(
    req_id: u64,
    method: Seq<char>,
    op: WsOp,
    params: Json,
    a: WsRequestAnswers,
) -> bool {
    ws_request_recorded(op, a) ==> a.text@ == json_text(
        request_json(method, signed_params(params, a.token->Some_0.value@), req_id),
    )
}

fn fail_unsent<F: Fn(Request) -> Reply>(
    host: &mut Link<F>,
    req_id: u64,
    op: WsOp,
    error: &'static str,
)
    ensures
        final(host).log() == unsent_log(old(host).log(), req_id, op, error),
{
    host.say(Note::OrderUnsent { req_id, op, error });
    host.tell(Request::FailPendingRequest(WsUrl::Auth, req_id, RequestFailure::NotOpen));
}

/// Sends a request on the auth connection.
///
/// It is rejected where the connection does not take it, and where there is no
/// token; in that case a refresh is started for the next one. An order is never
/// put off and sent later. It is recorded before it is sent, so that an answer
/// finds it, and failed at once if it cannot be sent.
pub fn handle_ws_request_frame<F: Fn(Request) -> Reply>(
    host: &mut Link<F>,
    req_id: u64,
    method: &str,
    op: WsOp,
    params: Value,
    table: &SocketTable,
)
    ensures
        exists|a: WsRequestAnswers|
            {
                &&& final(host).log() == #[trigger] ws_request_log(
                    old(host).log(),
                    req_id,
                    op,
                    *table,
                    a,
                )
                &&& ws_request_text(req_id, method@, op, json_of(params), a)
            },
{
    let ghost before = host.log();
    let ghost mut a: WsRequestAnswers = arbitrary();
    let url = WsUrl::Auth;
    let found = host.conn(url);
    proof {
        a.conn = found;
    }
    let conn = match found {
        Some(conn) => conn,
        None => {
            host.tell(Request::RejectRequest(req_id, RequestFailure::NotOpen));
            proof {
                assert(host.log() == ws_request_log(before, req_id, op, *table, a));
            }
            return ;
        },
    };
    let admitted = match conn.state {
        ConnectionState::Open => true,
        ConnectionState::Authenticating => {
            let auth_has_entry = host.flag(Request::HasUrlEntry(url));
            proof {
                a.auth_has_entry = auth_has_entry;
            }
            !auth_has_entry && op.order_method
        },
        _ => false,
    };
    if !admitted {
        host.tell(Request::RejectRequest(req_id, RequestFailure::NotOpen));
        proof {
            assert(host.log() == ws_request_log(before, req_id, op, *table, a));
        }
        return ;
    }
    let now: u64 = host.conn_clock(url);
    let token = host.token(Some(now));
    proof {
        a.now = now;
        a.token = token;
    }
    if !is_token_valid(&token) {
        host.say(Note::OrderWithoutToken { req_id, op });
        host.tell(Request::InvalidateCachedToken);
        host.tell(Request::SetAwaitingTokenRefresh(url, true));
        host.tell(Request::ForceRefresh);
        host.tell(Request::RejectRequest(req_id, RequestFailure::NotOpen));
        proof {
            assert(host.log() == ws_request_log(before, req_id, op, *table, a));
        }
        return ;
    }
    let value = match &token {
        Some(token) => token.value.as_str(),
        None => "",
    };
    let frame = request_frame(method, sign_params(params, value), req_id);
    let text = json::text_of(&frame);
    proof {
        a.text = text;
    }
    host.tell(Request::RecordPendingRequest(url, req_id, op, now));
    match table.sockets.get(url) {
        Some(socket) => {
            let sent = host.send(url, socket, text);
            proof {
                a.sent = sent;
            }
            if !(sent == SendResult::Sent) {
                fail_unsent(host, req_id, op, send_error_of(sent));
            }
        },
        None => {
            fail_unsent(host, req_id, op, "auth socket missing");
        },
    }
    proof {
        assert(host.log() == ws_request_log(before, req_id, op, *table, a));
    }
}

/// What the hints about the auth connection are computed from.
pub struct HintAnswers {
    pub auth_has_entry: bool,
    pub conn: Option<ConnView>,
    pub reads: SendReadyReads,
    pub clock: BusClock,
}

pub open spec fn hint_log(log: Log, a: HintAnswers) -> Log {
    let log = asked(log, Request::HasUrlEntry(WsUrl::Auth), Reply::Flag(a.auth_has_entry));
    let log = told(log, Request::StoreAuthHasSubscriptions(a.auth_has_entry));
    let log = asked(log, Request::Conn(WsUrl::Auth), Reply::Conn(a.conn));
    match a.conn {
        Some(conn) => refresh_send_ready_log(log, WsUrl::Auth, conn.state, a.reads, a.clock),
        None => log,
    }
}

/// Stores the hints about the auth connection anew: whether it has subscriptions,
/// and whether a bare order may be sent.
pub fn refresh_auth_send_ready_hint<F: Fn(Request) -> Reply>(host: &mut Link<F>)
    ensures
        exists|a: HintAnswers| final(host).log() == #[trigger] hint_log(old(host).log(), a),
{
    let ghost before = host.log();
    let ghost mut a: HintAnswers = arbitrary();
    let auth_has_entry = host.flag(Request::HasUrlEntry(WsUrl::Auth));
    host.tell(Request::StoreAuthHasSubscriptions(auth_has_entry));
    let conn = host.conn(WsUrl::Auth);
    let ghost stored = host.log();
    proof {
        a.auth_has_entry = auth_has_entry;
        a.conn = conn;
    }
    match conn {
        Some(conn) => {
            refresh_send_ready(host, WsUrl::Auth, conn.state);
            proof {
                let (reads, clock) = choose|reads: SendReadyReads, clock: BusClock|
                    host.log() == #[trigger] refresh_send_ready_log(
                        stored,
                        WsUrl::Auth,
                        conn.state,
                        reads,
                        clock,
                    );
                a.reads = reads;
                a.clock = clock;
            }
        },
        None => {},
    }
    proof {
        assert(host.log() == hint_log(before, a));
    }
}

/// The request that gives up waiting for a response.
pub open spec fn abandon_log(log: Log, req_id: u64, conn: Option<ConnView>) -> Log {
    let log = asked(log, Request::Conn(WsUrl::Auth), Reply::Conn(conn));
    if conn is Some {
        told(
            log,
            Request::FailPendingRequest(WsUrl::Auth, req_id, RequestFailure::ResponseTimeout),
        )
    } else {
        log
    }
}

/// The request that changes the handlers.
pub open spec fn handler_request(channel: ChannelName, op: HandlerMutationOp) -> Request {
    match op {
        HandlerMutationOp::Register { id, callback } => Request::RegisterHandler(
            channel,
            id,
            callback,
        ),
        HandlerMutationOp::Deregister { id } => Request::DeregisterHandler(channel, id),
    }
}

/// Whether a change to the subscriptions was carried out.
pub open spec fn mutated(
    before: Log,
    after: Log,
    url: WsUrl,
    mutation: RegistryMutationOp,
    table: SocketTable,
    end: SocketTable,
) -> bool {
    match mutation {
        RegistryMutationOp::RegisterBatch { entries, ref_id } => exists|
            answers: Seq<RegisterAnswers>,
        |
            {
                &&& (BatchState { log: after, table: end }) == #[trigger] register_batch_step(
                    BatchState { log: before, table },
                    url,
                    entries@,
                    ref_id,
                    answers,
                )
                &&& batch_whole(
                    BatchState { log: before, table },
                    url,
                    entries@,
                    ref_id,
                    answers,
                )
            },
        RegistryMutationOp::Deregister { channel, pair } => {
            &&& end == table
            &&& exists|a: DeregisterAnswers|
                {
                    &&& after == #[trigger] deregister_log(
                        before,
                        wire_key(channel, pair),
                        table,
                        a,
                    )
                    &&& deregister_text(wire_key(channel, pair), a)
                }
        },
        RegistryMutationOp::DeregisterBatch { channel, pairs } => {
            &&& end == table
            &&& deregistered_batch(before, after, channel, pairs@, table)
        },
        RegistryMutationOp::DeregisterAll { channel } => {
            &&& end == table
            &&& exists|a: DeregisterAllAnswers|
                {
                    &&& after == #[trigger] deregister_all_log(before, channel, table, a)
                    &&& tears_all_down(a)
                }
        },
    }
}

/// Whether what a caller posted was carried out.
pub open spec fn dispatched(
    before: Log,
    after: Log,
    msg: CallerInbound,
    table: SocketTable,
    end: SocketTable,
) -> bool {
    match msg {
        CallerInbound::FsmEvent { url, event } => driven(
            before,
            after,
            url,
            fsm_event(event),
            table,
            end,
        ),
        CallerInbound::ClientClose { .. } => false,
        CallerInbound::RegistryMutation { url, mutation } => mutated(
            before,
            after,
            url,
            mutation,
            table,
            end,
        ),
        CallerInbound::HandlerMutation { channel, op } => {
            &&& end == table
            &&& after == told(before, handler_request(channel, op))
        },
        CallerInbound::SubscriptionGuardDrop { handler_id, channel, symbols } => {
            &&& end == table
            &&& exists|answers: Seq<GuardAnswers>, complete: CompleteAnswers|
                {
                    &&& after == #[trigger] guard_drop_log(
                        before,
                        handler_id,
                        channel,
                        symbols@,
                        table,
                        answers,
                        complete,
                    )
                    &&& guard_whole(guard_keys(channel, symbols@), answers)
                }
        },
        CallerInbound::WsRequestFrame { req_id, method, op, params } => {
            &&& end == table
            &&& exists|a: WsRequestAnswers|
                {
                    &&& after == #[trigger] ws_request_log(before, req_id, op, table, a)
                    &&& ws_request_text(req_id, method@, op, json_of(params), a)
                }
        },
        CallerInbound::AbandonWsRequest { req_id } => {
            &&& end == table
            &&& exists|conn: Option<ConnView>|
                after == #[trigger] abandon_log(before, req_id, conn)
        },
    }
}

fn handle_mutation<F: Fn(Request) -> Reply>(
    host: &mut Link<F>,
    url: WsUrl,
    mutation: RegistryMutationOp,
    table: &mut SocketTable,
)
    requires
        old(table).wf(),
    ensures
        final(table).wf(),
        mutated(old(host).log(), final(host).log(), url, mutation, *old(table), *final(table)),
{
    match mutation {
        RegistryMutationOp::RegisterBatch { entries, ref_id } => {
            register_batch(host, url, &entries, ref_id, table);
        },
        RegistryMutationOp::Deregister { channel, pair } => {
            deregister_one(host, channel, pair, table);
        },
        RegistryMutationOp::DeregisterBatch { channel, pairs } => {
            deregister_batch(host, channel, &pairs, table);
        },
        RegistryMutationOp::DeregisterAll { channel } => {
            deregister_all(host, channel, table);
        },
    }
}

/// Carries out what a caller posted. The close of the whole client is not for one
/// connection and is handled before.
pub fn handle_inbound<F: Fn(Request) -> Reply>(
    host: &mut Link<F>,
    msg: CallerInbound,
    table: &mut SocketTable,
)
    requires
        old(table).wf(),
        !(msg is ClientClose),
    ensures
        final(table).wf(),
        dispatched(old(host).log(), final(host).log(), msg, *old(table), *final(table)),
{
    let ghost before = host.log();
    match msg {
        CallerInbound::FsmEvent { url, event } => {
            drive_event(host, url, fsm_event_of(event), table);
        },
        CallerInbound::ClientClose { .. } => {},
        CallerInbound::RegistryMutation { url, mutation } => {
            handle_mutation(host, url, mutation, table);
        },
        CallerInbound::HandlerMutation { channel, op } => {
            match op {
                HandlerMutationOp::Register { id, callback } => {
                    host.tell(Request::RegisterHandler(channel, id, callback));
                },
                HandlerMutationOp::Deregister { id } => {
                    host.tell(Request::DeregisterHandler(channel, id));
                },
            }
        },
        CallerInbound::SubscriptionGuardDrop { handler_id, channel, symbols } => {
            drop_guard(host, handler_id, channel, &symbols, table);
        },
        CallerInbound::WsRequestFrame { req_id, method, op, params } => {
            handle_ws_request_frame(host, req_id, method.as_str(), op, params, table);
        },
        CallerInbound::AbandonWsRequest { req_id } => {
            let conn = host.conn(WsUrl::Auth);
            if conn.is_some() {
                host.tell(
                    Request::FailPendingRequest(
                        WsUrl::Auth,
                        req_id,
                        RequestFailure::ResponseTimeout,
                    ),
                );
            }
            proof {
                assert(host.log() == abandon_log(before, req_id, conn));
            }
        },
    }
}

/// Where the reactor announced that a bare order may be sent, it takes one: what
/// makes the connection send-ready makes it take the order, with a token to sign
/// it.
pub proof fn a_ready_connection_takes_the_order(
    url: WsUrl,
    state: ConnectionState,
    auth_has_entry: bool,
    token: Option<CachedToken>,
    op: WsOp,
)
    requires
        send_ready(url, state, auth_has_entry, token),
        op.order_method,
    ensures
        admits_request(state, auth_has_entry, op),
        token_valid(token),
{
}

/// While a subscription can serve as the probe, no order does.
pub proof fn a_subscription_is_the_probe(state: ConnectionState, op: WsOp)
    requires
        admits_request(state, true, op),
    ensures
        state == ConnectionState::Open,
{
}

/// Every request is settled: it is rejected and nothing is sent, or it is recorded
/// first, sent at most once, and failed at once if it was not taken. It is never
/// put off.
pub proof fn every_request_is_settled(
    log: Log,
    req_id: u64,
    op: WsOp,
    table: SocketTable,
    a: WsRequestAnswers,
)
    ensures
        ({
            let after = ws_request_log(log, req_id, op, table, a);
            let recorded = Request::RecordPendingRequest(WsUrl::Auth, req_id, op, a.now);
            let rejected = Request::RejectRequest(req_id, RequestFailure::NotOpen);
            let failed = Request::FailPendingRequest(
                WsUrl::Auth,
                req_id,
                RequestFailure::NotOpen,
            );
            &&& made(log, after, rejected) <==> !ws_request_recorded(op, a)
            &&& made(log, after, recorded) <==> ws_request_recorded(op, a)
            &&& !ws_request_recorded(op, a) ==> grew_without(log, after, Effect::Send)
            &&& made(log, after, failed) <==> ws_request_recorded(op, a) && !(
            table.sockets.at(WsUrl::Auth) is Some && a.sent == SendResult::Sent)
            &&& forall|i: int, j: int|
                log.len() <= i < after.len() && log.len() <= j < after.len() && (
                #[trigger] after[i]).0.effect() is Send && (#[trigger] after[j]).0.effect() is Send
                    ==> i == j
            &&& forall|i: int|
                log.len() <= i < after.len() && (#[trigger] after[i]).0.effect() is Send ==> i > 0
                    && after[i - 1].0 == recorded
        }),
{
    let after = ws_request_log(log, req_id, op, table, a);
    let n: int = log.len() + if a.conn is Some && a.conn->Some_0.state
        == ConnectionState::Authenticating {
        2int
    } else {
        1int
    };
    if a.conn is None {
        assert(after[n].0 == Request::RejectRequest(req_id, RequestFailure::NotOpen));
    } else if !admits_request(a.conn->Some_0.state, a.auth_has_entry, op) {
        assert(after[n].0 == Request::RejectRequest(req_id, RequestFailure::NotOpen));
    } else if !token_valid(a.token) {
        assert(after[n + 6].0 == Request::RejectRequest(req_id, RequestFailure::NotOpen));
    } else {
        assert(after[n + 2].0 == Request::RecordPendingRequest(WsUrl::Auth, req_id, op, a.now));
        if table.sockets.at(WsUrl::Auth) is None {
            assert(after[n + 4].0 == Request::FailPendingRequest(
                WsUrl::Auth,
                req_id,
                RequestFailure::NotOpen,
            ));
        } else if a.sent != SendResult::Sent {
            assert(after[n + 5].0 == Request::FailPendingRequest(
                WsUrl::Auth,
                req_id,
                RequestFailure::NotOpen,
            ));
        }
    }
}

/// The frame of a request carries the token, and whatever else its params held.
pub proof fn a_request_carries_its_token(params: Json, token: Seq<char>, name: Seq<char>)
    ensures
        signed_params(params, token).str_at("token"@) == Some(token),
        name != "token"@ ==> signed_params(params, token).get(name) == params.get(name),
{
}

/// A tombstone goes without a word: no frame, no event.
pub proof fn a_tombstone_goes_silently(
    log: Log,
    key: Key,
    table: SocketTable,
    a: TeardownAnswers,
)
    ensures
        grew_without(log, teardown_log(log, key, true, table, a), Effect::Send),
        grew_without(log, teardown_log(log, key, true, table, a), Effect::Announce),
{
}

/// Only the last release of a subscription that existed is seen outside. A release
/// of a key that was never registered, or that others still hold, sends nothing
/// and announces nothing.
pub proof fn only_the_last_release_is_seen(
    log: Log,
    key: Key,
    table: SocketTable,
    a: DeregisterAnswers,
)
    requires
        !a.is_last(),
    ensures
        grew_without(log, deregister_log(log, key, table, a), Effect::Send),
        grew_without(log, deregister_log(log, key, table, a), Effect::Announce),
        grew_without(log, deregister_log(log, key, table, a), Effect::Drive),
{
}

/// A guard's record is consumed whether or not its subscription is still there,
/// and only a last release is seen outside.
pub proof fn a_guard_is_always_consumed(
    log: Log,
    handler_id: u64,
    key: Key,
    table: SocketTable,
    a: GuardAnswers,
)
    ensures
        ({
            let after = guard_row_log(log, handler_id, key, table, a);
            &&& made(log, after, Request::ReleaseGuardRef(handler_id, key))
            &&& !a.is_last() ==> grew_without(log, after, Effect::Send)
            &&& !a.is_last() ==> grew_without(log, after, Effect::Announce)
        }),
{
    let after = guard_row_log(log, handler_id, key, table, a);
    let n = log.len() as int;
    assert(after[n + 2].0 == Request::ReleaseGuardRef(handler_id, key));
}

/// Whether nothing brings `key` back: neither its acknowledgement and resend
/// timers, nor that of its snapshot, nor its deferral.
pub open spec fn stays_down(before: Log, after: Log, key: Key) -> bool {
    let url = channel_url(key.channel);
    &&& made(before, after, Request::DisarmSubscribeAck(url, key))
    &&& made(before, after, Request::DisarmBookReseedSnapshot(url, key))
    &&& made(before, after, Request::RemoveDeferredAuthSubscribe(url, key))
}

/// A subscription that was torn down does not come back by itself.
pub proof fn a_torn_down_key_stays_down(
    log: Log,
    key: Key,
    was_tombstone: bool,
    table: SocketTable,
    a: TeardownAnswers,
)
    requires
        a.conn is Some,
    ensures
        extends(log, teardown_log(log, key, was_tombstone, table, a)),
        stays_down(log, teardown_log(log, key, was_tombstone, table, a), key),
{
    let url = channel_url(key.channel);
    let after = teardown_log(log, key, was_tombstone, table, a);
    let n = log.len() as int;
    assert(after[n + 1].0 == Request::DisarmSubscribeAck(url, key));
    assert(after[n + 2].0 == Request::DisarmBookReseedSnapshot(url, key));
    assert(after[n + 3].0 == Request::RemoveDeferredAuthSubscribe(url, key));
}

/// Of everything that a release of everything removed, nothing comes back by
/// itself.
pub proof fn everything_removed_stays_down(
    log: Log,
    removed: Seq<RemovedEntry>,
    table: SocketTable,
    answers: Seq<TeardownAnswers>,
)
    requires
        answers.len() <= removed.len(),
        forall|i: int| 0 <= i < answers.len() ==> (#[trigger] answers[i]).conn is Some,
    ensures
        ({
            let after = teardown_all_log(log, removed, table, answers);
            &&& extends(log, after)
            &&& forall|i: int|
                0 <= i < answers.len() ==> stays_down(log, after, (#[trigger] removed[i]).key)
        }),
    decreases answers.len(),
{
    if answers.len() > 0 {
        let most = answers.drop_last();
        let before = teardown_all_log(log, removed, table, most);
        let entry = removed[answers.len() - 1];
        let after = teardown_log(before, entry.key, entry.tombstone, table, answers.last());
        assert forall|i: int| 0 <= i < most.len() implies (#[trigger] most[i]).conn is Some by {
            assert(most[i] == answers[i]);
        }
        everything_removed_stays_down(log, removed, table, most);
        a_torn_down_key_stays_down(before, entry.key, entry.tombstone, table, answers.last());
        assert forall|i: int| 0 <= i < answers.len() implies stays_down(
            log,
            after,
            (#[trigger] removed[i]).key,
        ) by {
            let key = removed[i].key;
            let url = channel_url(key.channel);
            let ack = Request::DisarmSubscribeAck(url, key);
            let reseed = Request::DisarmBookReseedSnapshot(url, key);
            let deferral = Request::RemoveDeferredAuthSubscribe(url, key);
            if i < most.len() {
                made_earlier(log, before, after, ack);
                made_earlier(log, before, after, reseed);
                made_earlier(log, before, after, deferral);
            } else {
                made_later(log, before, after, ack);
                made_later(log, before, after, reseed);
                made_later(log, before, after, deferral);
            }
        }
    }
}

/// The hints are stored anew in both directions, whatever they were: the first says
/// whether the auth connection has subscriptions, and where there is a connection
/// the two never both hold. The registry, where it is asked twice, answers the same.
pub proof fn the_hints_exclude_each_other(log: Log, a: HintAnswers)
    requires
        a.conn is Some && a.conn->Some_0.state == ConnectionState::Authenticating
            ==> a.reads.auth_has_entry == a.auth_has_entry,
    ensures
        ({
            let after = hint_log(log, a);
            let has = last_set(after, Flag::AuthHasSubscriptions);
            let ready = last_set(after, Flag::AuthSendReady);
            &&& has == Some(a.auth_has_entry)
            &&& a.conn is Some ==> ready is Some && !(has == Some(true) && ready == Some(true))
        }),
{
    let after = hint_log(log, a);
    let n = log.len() as int;
    last_set_at(after, Flag::AuthHasSubscriptions, n + 1);
    if a.conn is Some {
        let state = a.conn->Some_0.state;
        let at: int = n + if state == ConnectionState::Authenticating {
            if a.reads.auth_has_entry {
                5int
            } else {
                6int
            }
        } else {
            4int
        };
        assert(after[at].0 == Request::StoreAuthSendReady(
            send_ready(WsUrl::Auth, state, a.reads.auth_has_entry, a.reads.token),
        ));
        last_set_at(after, Flag::AuthSendReady, at);
    }
}

/// In a batch of registrations, an entry that cost the connection its socket
/// leaves no socket in the table: the entry after it is registered, and sent only
/// if that starts the connection anew.
pub proof fn a_batch_stops_sending_without_a_socket(
    s: BatchState,
    url: WsUrl,
    entry: SubscriptionEntry,
    next: SubscriptionEntry,
    ref_id: Option<u64>,
    a: RegisterAnswers,
    b: RegisterAnswers,
)
    requires
        a.last(url, s.table) is Some,
        a.last(url, s.table)->Some_0.socket is None,
        !b.starts(),
    ensures
        ({
            let middle = register_step(s, url, entry, ref_id, a);
            &&& middle.table.sockets.at(url) is None
            &&& grew_without(
                middle.log,
                register_log(middle.log, url, next, ref_id, middle.table, b),
                Effect::Send,
            )
        }),
{
    let middle = register_step(s, url, entry, ref_id, a);
    no_socket_no_frame(middle.log, url, next, ref_id, middle.table, b);
}

/// A request is sent only on the socket in use, and a teardown likewise.
pub proof fn callers_send_in_use(
    log: Log,
    req_id: u64,
    op: WsOp,
    key: Key,
    was_tombstone: bool,
    table: SocketTable,
    a: WsRequestAnswers,
    b: TeardownAnswers,
)
    ensures
        sends_in_use(log, ws_request_log(log, req_id, op, table, a), table),
        sends_in_use(log, teardown_log(log, key, was_tombstone, table, b), table),
{
}

/// An event is driven into its connection once, and then the connection is shown as it
/// said it is, its state in the mirror and its socket in the table; the other
/// connection is not touched. Where there is no connection, only a line is left in the
/// log of the program.
pub proof fn a_driven_event_is_shown(
    log: Log,
    url: WsUrl,
    event: FsmEvent,
    table: SocketTable,
    a: DriveAnswers,
)
    ensures
        ({
            let after = drive_log(log, url, event, a);
            let end = drive_table(url, table, a);
            let other = other_url(url);
            let n = log.len() as int;
            &&& extends(log, after)
            &&& shows_what_is(log, after)
            &&& after[n] == (Request::Conn(url), Reply::Conn(a.conn))
            &&& end.sockets.at(other) == table.sockets.at(other)
            &&& end.bridges.at(other) == table.bridges.at(other)
            &&& match a.conn {
                None => {
                    &&& end == table
                    &&& grew_without(log, after, Effect::Drive)
                    &&& after.len() == n + 2
                    &&& after[n + 1].0 == Request::Say(Note::NoConnection { url })
                },
                Some(_) => {
                    &&& after[n + 1] == (Request::HandleEvent(url, event), Reply::View(a.after))
                    &&& after[n + 2].0 == Request::StoreMirror(url, a.after.state)
                    &&& happened(log, after, Effect::Drive) == seq![
                        Request::HandleEvent(url, event),
                    ]
                    &&& grew_without(log, after, Effect::Send)
                    &&& grew_without(log, after, Effect::Announce)
                    &&& end.sockets.at(url) == a.after.socket
                    &&& a.after.socket is None ==> end.bridges.at(url) is None && made(
                        log,
                        after,
                        Request::DropUpgradeBridge(url),
                    )
                    &&& a.after.socket is Some && (a.after.socket == a.conn->Some_0.socket
                        || !a.clock.bus_alive) ==> end.bridges.at(url) == table.bridges.at(url)
                        && !made(
                        log,
                        after,
                        Request::WireUpgradeBridge(url, a.after.socket->Some_0),
                    )
                    &&& a.after.socket is Some && a.after.socket != a.conn->Some_0.socket
                        && a.clock.bus_alive ==> end.bridges.at(url) == a.after.socket && made(
                        log,
                        after,
                        Request::WireUpgradeBridge(url, a.after.socket->Some_0),
                    )
                },
            }
        }),
{
    let after = drive_log(log, url, event, a);
    let n = log.len() as int;
    showing(log);
    if a.conn is Some {
        happened_once(log, after, Effect::Drive, n + 1);
        if a.after.socket is None {
            assert(after[n + 3].0 == Request::DropUpgradeBridge(url));
        } else if a.after.socket != a.conn->Some_0.socket && a.clock.bus_alive {
            assert(after[n + 4].0 == Request::WireUpgradeBridge(url, a.after.socket->Some_0));
        }
    }
}

/// The last release of a subscription tears it down: what could bring it back is
/// cleared, one unsubscribe goes to the socket of its own connection, with the params
/// that it was registered with, and its end is announced once. The connection may then
/// come to the end of its resubscription, and is shown.
pub proof fn the_last_release_tears_down(
    log: Log,
    channel: ChannelName,
    pair: Option<Symbol>,
    table: SocketTable,
    a: DeregisterAnswers,
)
    requires
        deregister_text(wire_key(channel, pair), a),
    ensures
        ({
            let key = Key {
                channel: if channel == ChannelName::BookRaw {
                    ChannelName::Book
                } else {
                    channel
                },
                pair,
            };
            let url = if channel == ChannelName::Executions || channel == ChannelName::Balances {
                WsUrl::Auth
            } else {
                WsUrl::Public
            };
            let after = deregister_log(log, wire_key(channel, pair), table, a);
            let last = a.remaining == 0 && a.params is Some;
            let n = log.len() as int;
            &&& extends(log, after)
            &&& shows_what_is(log, after)
            &&& after[n] == (Request::ParamsFor(key), Reply::Params(a.params))
            &&& after[n + 1] == (Request::IsTerminated(key), Reply::Flag(a.was_tombstone))
            &&& after[n + 2] == (Request::Release(key), Reply::Count(a.remaining))
            &&& !last ==> after.len() == n + 3
            &&& last ==> {
                let t = a.teardown.terminate;
                let c = a.complete;
                &&& after[n + 3] == (Request::Conn(url), Reply::Conn(a.teardown.conn))
                &&& a.was_tombstone ==> happened(log, after, Effect::Send)
                    == Seq::<Request>::empty() && happened(log, after, Effect::Announce)
                    == Seq::<Request>::empty()
                &&& !a.was_tombstone ==> {
                    &&& happened(log, after, Effect::Send) == match table.sockets.at(url) {
                        Some(socket) => seq![Request::SendFrame(url, socket, t.text)],
                        None => Seq::empty(),
                    }
                    &&& t.text@ == json_text(
                        unsubscribe_json(
                            key,
                            a.params,
                            match t.token {
                                Some(token) => if url == WsUrl::Auth {
                                    Some(token.value@)
                                } else {
                                    None
                                },
                                None => None,
                            },
                        ),
                    )
                    &&& happened(log, after, Effect::Announce).len() == if t.clock.bus_alive {
                        1nat
                    } else {
                        0
                    }
                    &&& t.clock.bus_alive ==> match happened(log, after, Effect::Announce)[0] {
                        Request::Publish(event) => event.timestamp == t.clock.now
                            && event.payload == (EventPayload::SubscriptionTerminated {
                            key,
                            cause: TerminationCause::ClientClosed,
                            last_error: None,
                            terminated_at: t.clock.now,
                        }),
                        _ => false,
                    }
                }
                &&& c.conn is Some ==> {
                    &&& after[after.len() - 2] == (
                        Request::CompleteResubscribeIfEmpty(url),
                        Reply::View(c.after),
                    )
                    &&& after.last().0 == Request::StoreMirror(url, c.after.state)
                }
            }
        }),
{
    let key = wire_key(channel, pair);
    let url = channel_url(key.channel);
    let after = deregister_log(log, key, table, a);
    let n = log.len() as int;
    showing(log);
    let released = asked(
        asked(
            asked(log, Request::ParamsFor(key), Reply::Params(a.params)),
            Request::IsTerminated(key),
            Reply::Flag(a.was_tombstone),
        ),
        Request::Release(key),
        Reply::Count(a.remaining),
    );
    if a.is_last() {
        let torn = teardown_log(released, key, a.was_tombstone, table, a.teardown);
        a_teardown_is_seen_once(released, key, a.params, a.was_tombstone, table, a.teardown);
        a_completion_is_shown(torn, url, a.complete);
        assert(extends(log, released));
        nothing_happened(log, released, Effect::Send);
        nothing_happened(log, released, Effect::Announce);
        happened_together(log, released, torn, Effect::Send);
        happened_together(log, released, torn, Effect::Announce);
        nothing_happened(torn, after, Effect::Send);
        nothing_happened(torn, after, Effect::Announce);
        happened_together(log, torn, after, Effect::Send);
        happened_together(log, torn, after, Effect::Announce);
        assert(happened(log, after, Effect::Send) =~= happened(released, torn, Effect::Send));
        assert(happened(log, after, Effect::Announce) =~= happened(
            released,
            torn,
            Effect::Announce,
        ));
        assert(shows_what_is(log, released));
        shows_together(log, released, torn);
        shows_together(log, torn, after);
        assert(after[n] == torn[n] && torn[n] == released[n]);
        assert(after[n + 1] == torn[n + 1] && torn[n + 1] == released[n + 1]);
        assert(after[n + 2] == torn[n + 2] && torn[n + 2] == released[n + 2]);
        assert(after[n + 3] == torn[n + 3]);
    }
}

/// A teardown clears what could bring its subscription back, and then sends one
/// unsubscribe and announces the end, unless that was announced before.
pub proof fn a_teardown_is_seen_once(
    log: Log,
    key: Key,
    params: Option<SubscribeParams>,
    was_tombstone: bool,
    table: SocketTable,
    a: TeardownAnswers,
)
    requires
        teardown_text(key, params, was_tombstone, a),
    ensures
        ({
            let after = teardown_log(log, key, was_tombstone, table, a);
            let account = key.channel == ChannelName::Executions || key.channel
                == ChannelName::Balances;
            let url = if account {
                WsUrl::Auth
            } else {
                WsUrl::Public
            };
            let t = a.terminate;
            let n = log.len() as int;
            &&& extends(log, after)
            &&& shows_what_is(log, after)
            &&& grew_without(log, after, Effect::Drive)
            &&& after[n] == (Request::Conn(url), Reply::Conn(a.conn))
            &&& a.conn is Some ==> {
                &&& after[n + 1].0 == Request::DisarmSubscribeAck(url, key)
                &&& after[n + 2].0 == Request::DisarmBookReseedSnapshot(url, key)
                &&& after[n + 3].0 == Request::RemoveDeferredAuthSubscribe(url, key)
            }
            &&& happened(log, after, Effect::Send) == match table.sockets.at(url) {
                Some(socket) => if was_tombstone {
                    Seq::empty()
                } else {
                    seq![Request::SendFrame(url, socket, t.text)]
                },
                None => Seq::empty(),
            }
            &&& !was_tombstone ==> t.text@ == json_text(
                unsubscribe_json(
                    key,
                    params,
                    match t.token {
                        Some(token) => if account {
                            Some(token.value@)
                        } else {
                            None
                        },
                        None => None,
                    },
                ),
            )
            &&& happened(log, after, Effect::Announce) == if !was_tombstone && t.clock.bus_alive {
                seq![
                    Request::Publish(
                        EventEnvelope {
                            event_version: 2,
                            timestamp: t.clock.now,
                            request_id: None,
                            payload: EventPayload::SubscriptionTerminated {
                                key,
                                cause: TerminationCause::ClientClosed,
                                last_error: None,
                                terminated_at: t.clock.now,
                            },
                        },
                    ),
                ]
            } else {
                Seq::empty()
            }
        }),
{
    let url = channel_url(key.channel);
    let after = teardown_log(log, key, was_tombstone, table, a);
    let n = log.len() as int;
    showing(log);
    let looked = asked(log, Request::Conn(url), Reply::Conn(a.conn));
    let cleared = if a.conn is Some {
        told(
            told(
                told(looked, Request::DisarmSubscribeAck(url, key)),
                Request::DisarmBookReseedSnapshot(url, key),
            ),
            Request::RemoveDeferredAuthSubscribe(url, key),
        )
    } else {
        looked
    };
    assert(grew_without(log, cleared, Effect::Send));
    assert(grew_without(log, cleared, Effect::Announce));
    nothing_happened(log, cleared, Effect::Send);
    nothing_happened(log, cleared, Effect::Announce);
    if !was_tombstone {
        an_ended_subscription_is_unsubscribed_and_announced(
            cleared,
            key,
            params,
            table,
            a.terminate,
        );
        happened_together(log, cleared, after, Effect::Send);
        happened_together(log, cleared, after, Effect::Announce);
        assert(happened(log, after, Effect::Send) =~= happened(cleared, after, Effect::Send));
        assert(happened(log, after, Effect::Announce) =~= happened(
            cleared,
            after,
            Effect::Announce,
        ));
        assert(after[n] == cleared[n]);
        if a.conn is Some {
            assert(after[n + 1] == cleared[n + 1]);
            assert(after[n + 2] == cleared[n + 2]);
            assert(after[n + 3] == cleared[n + 3]);
        }
    }
}

/// A resubscription that waits for nothing more may come to its end, and what the
/// connection then says is shown.
pub proof fn a_completion_is_shown(log: Log, url: WsUrl, a: CompleteAnswers)
    ensures
        ({
            let after = complete_log(log, url, a);
            let n = log.len() as int;
            &&& extends(log, after)
            &&& shows_what_is(log, after)
            &&& grew_without(log, after, Effect::Send)
            &&& grew_without(log, after, Effect::Announce)
            &&& grew_without(log, after, Effect::Drive)
            &&& after[n] == (Request::Conn(url), Reply::Conn(a.conn))
            &&& a.conn is Some ==> after.len() == n + 3 && after[n + 1] == (
                Request::CompleteResubscribeIfEmpty(url),
                Reply::View(a.after),
            ) && after[n + 2].0 == Request::StoreMirror(url, a.after.state)
            &&& a.conn is None ==> after.len() == n + 1
        }),
{
    showing(log);
}

/// What becomes of a request. It is taken exactly where the auth connection is open,
/// or authenticates with no subscription to serve as the probe and the request is an
/// order, and where there is a token that has not expired by the clock of the
/// connection. Then it is recorded under its id at that instant, and sent once on the
/// auth socket under the same id, with its method, and with the token in its params.
/// Otherwise it is rejected as not open and nothing is sent; where only the token was
/// wanting, that is dropped, and a refresh is started and awaited.
pub proof fn a_request_is_sent_or_rejected(
    log: Log,
    req_id: u64,
    method: Seq<char>,
    op: WsOp,
    params: Json,
    table: SocketTable,
    a: WsRequestAnswers,
)
    requires
        ws_request_text(req_id, method, op, params, a),
    ensures
        ({
            let url = WsUrl::Auth;
            let after = ws_request_log(log, req_id, op, table, a);
            let state = a.conn->Some_0.state;
            let admitted = a.conn is Some && (state == ConnectionState::Open || state
                == ConnectionState::Authenticating && !a.auth_has_entry && op.order_method);
            let valid = a.token is Some && !a.token->Some_0.expired;
            let settled = happened(log, after, Effect::Settle);
            let sent = happened(log, after, Effect::Send);
            let refreshed = happened(log, after, Effect::Refresh);
            let nothing = Seq::<Request>::empty();
            let rejected = seq![Request::RejectRequest(req_id, RequestFailure::NotOpen)];
            let failed = seq![Request::FailPendingRequest(url, req_id, RequestFailure::NotOpen)];
            let n = log.len() as int;
            &&& extends(log, after)
            &&& after[n] == (Request::Conn(url), Reply::Conn(a.conn))
            &&& a.conn is Some && state == ConnectionState::Authenticating ==> after[n + 1] == (
                Request::HasUrlEntry(url),
                Reply::Flag(a.auth_has_entry),
            )
            &&& grew_without(log, after, Effect::Drive)
            &&& grew_without(log, after, Effect::Defer)
            &&& !(admitted && valid) ==> settled == rejected && sent == nothing
            &&& !admitted ==> refreshed == nothing
            &&& admitted ==> exists|i: int|
                log.len() < i < after.len() && #[trigger] after[i] == (
                    Request::CachedToken(Some(a.now)),
                    Reply::Token(a.token),
                ) && after[i - 1] == (Request::ConnClock(url), Reply::Instant(a.now))
            &&& admitted && !valid ==> {
                &&& refreshed == seq![Request::ForceRefresh]
                &&& made(log, after, Request::InvalidateCachedToken)
                &&& last_set(after, Flag::AwaitingRefresh(url)) == Some(true)
                &&& made(log, after, Request::Say(Note::OrderWithoutToken { req_id, op }))
            }
            &&& admitted && valid && (table.sockets.at(url) is None || a.sent
                != SendResult::Sent) ==> made(
                log,
                after,
                Request::Say(
                    Note::OrderUnsent {
                        req_id,
                        op,
                        error: if table.sockets.at(url) is None {
                            "auth socket missing"
                        } else if a.sent == SendResult::Backpressure {
                            "Backpressure"
                        } else {
                            "WriterClosed"
                        },
                    },
                ),
            )
            &&& admitted && valid ==> {
                &&& refreshed == nothing
                &&& made(log, after, Request::RecordPendingRequest(url, req_id, op, a.now))
                &&& a.text@ == json_text(
                    request_json(method, signed_params(params, a.token->Some_0.value@), req_id),
                )
                &&& match table.sockets.at(url) {
                    Some(socket) => {
                        &&& sent == seq![Request::SendFrame(url, socket, a.text)]
                        &&& settled == if a.sent == SendResult::Sent {
                            nothing
                        } else {
                            failed
                        }
                    },
                    None => sent == nothing && settled == failed,
                }
            }
        }),
{
    let url = WsUrl::Auth;
    let after = ws_request_log(log, req_id, op, table, a);
    let n: int = log.len() + if a.conn is Some && a.conn->Some_0.state
        == ConnectionState::Authenticating {
        2int
    } else {
        1int
    };
    if a.conn is None || !admits_request(a.conn->Some_0.state, a.auth_has_entry, op) {
        happened_once(log, after, Effect::Settle, n);
        assert(grew_without(log, after, Effect::Send));
        assert(grew_without(log, after, Effect::Refresh));
        nothing_happened(log, after, Effect::Send);
        nothing_happened(log, after, Effect::Refresh);
    } else {
        assert(after[n + 1] == (Request::CachedToken(Some(a.now)), Reply::Token(a.token)));
        if !token_valid(a.token) {
            assert(after[n + 2].0 == Request::Say(Note::OrderWithoutToken { req_id, op }));
            assert(after[n + 3].0 == Request::InvalidateCachedToken);
            happened_once(log, after, Effect::Settle, n + 6);
            happened_once(log, after, Effect::Refresh, n + 5);
            nothing_happened(log, after, Effect::Send);
            last_set_at(after, Flag::AwaitingRefresh(url), n + 4);
        } else {
            assert(after[n + 2].0 == Request::RecordPendingRequest(url, req_id, op, a.now));
            assert(grew_without(log, after, Effect::Refresh));
            nothing_happened(log, after, Effect::Refresh);
            if table.sockets.at(url) is Some {
                happened_once(log, after, Effect::Send, n + 3);
                if a.sent == SendResult::Sent {
                    nothing_happened(log, after, Effect::Settle);
                } else {
                    assert(after[n + 4].0 is Say);
                    happened_once(log, after, Effect::Settle, n + 5);
                }
            } else {
                assert(grew_without(log, after, Effect::Send));
                nothing_happened(log, after, Effect::Send);
                assert(after[n + 3].0 is Say);
                happened_once(log, after, Effect::Settle, n + 4);
            }
        }
    }
}

/// Giving up on a request fails it as timed out, where there is a connection that may
/// hold it, and does nothing else.
pub proof fn an_abandoned_request_times_out(log: Log, req_id: u64, conn: Option<ConnView>)
    ensures
        ({
            let after = abandon_log(log, req_id, conn);
            &&& extends(log, after)
            &&& after[log.len() as int] == (Request::Conn(WsUrl::Auth), Reply::Conn(conn))
            &&& happened(log, after, Effect::Settle) == if conn is Some {
                seq![
                    Request::FailPendingRequest(
                        WsUrl::Auth,
                        req_id,
                        RequestFailure::ResponseTimeout,
                    ),
                ]
            } else {
                Seq::empty()
            }
            &&& after.len() == log.len() + if conn is Some {
                2int
            } else {
                1int
            }
        }),
{
    let after = abandon_log(log, req_id, conn);
    if conn is Some {
        happened_once(log, after, Effect::Settle, log.len() as int + 1);
    } else {
        nothing_happened(log, after, Effect::Settle);
    }
}

/// The hints say what was read: whether the auth connection has subscriptions, and
/// whether it authenticates without any and with a token that has not expired.
pub proof fn the_hints_say_what_was_read(log: Log, a: HintAnswers)
    ensures
        ({
            let after = hint_log(log, a);
            let n = log.len() as int;
            &&& extends(log, after)
            &&& after[n] == (
                Request::HasUrlEntry(WsUrl::Auth),
                Reply::Flag(a.auth_has_entry),
            )
            &&& after[n + 1].0 == Request::StoreAuthHasSubscriptions(a.auth_has_entry)
            &&& after[n + 2] == (Request::Conn(WsUrl::Auth), Reply::Conn(a.conn))
            &&& last_set(after, Flag::AuthHasSubscriptions) == Some(a.auth_has_entry)
            &&& a.conn is Some ==> last_set(after, Flag::AuthSendReady) == Some(
                a.conn->Some_0.state == ConnectionState::Authenticating
                    && !a.reads.auth_has_entry && a.reads.token is Some
                    && !a.reads.token->Some_0.expired,
            )
            &&& a.conn is None ==> after.len() == n + 3
            &&& grew_without(log, after, Effect::Send)
            &&& grew_without(log, after, Effect::Drive)
        }),
{
    let after = hint_log(log, a);
    let n = log.len() as int;
    last_set_at(after, Flag::AuthHasSubscriptions, n + 1);
    if a.conn is Some {
        let looked = asked(
            told(
                asked(log, Request::HasUrlEntry(WsUrl::Auth), Reply::Flag(a.auth_has_entry)),
                Request::StoreAuthHasSubscriptions(a.auth_has_entry),
            ),
            Request::Conn(WsUrl::Auth),
            Reply::Conn(a.conn),
        );
        the_flag_says_whether_an_order_may_be_sent(
            looked,
            WsUrl::Auth,
            a.conn->Some_0.state,
            a.reads,
            a.clock,
        );
    }
}

/// The releases of a batch: each pair once, in order, under the key that its channel
/// has on the wire.
pub proof fn a_batch_releases_each_pair_once(
    log: Log,
    channel: ChannelName,
    pairs: Seq<Symbol>,
    table: SocketTable,
    answers: Seq<DeregisterAnswers>,
)
    requires
        answers.len() <= pairs.len(),
    ensures
        ({
            let after = deregister_batch_log(log, channel, pairs, table, answers);
            let wire = if channel == ChannelName::BookRaw {
                ChannelName::Book
            } else {
                channel
            };
            &&& extends(log, after)
            &&& picked(log, after, |request: Request| request is Release) == Seq::new(
                answers.len(),
                |i: int|
                    (
                        Request::Release(Key { channel: wire, pair: Some(pairs[i]) }),
                        Reply::Count(answers[i].remaining),
                    ),
            )
        }),
    decreases answers.len(),
{
    let kind = |request: Request| request is Release;
    let after = deregister_batch_log(log, channel, pairs, table, answers);
    picking(log, kind);
    if answers.len() > 0 {
        let last = answers.len() - 1;
        let before = deregister_batch_log(log, channel, pairs, table, answers.drop_last());
        a_batch_releases_each_pair_once(log, channel, pairs, table, answers.drop_last());
        a_release_is_one(before, wire_key(channel, Some(pairs[last])), table, answers[last]);
        picked_together(log, before, after, kind);
    }
    assert(picked(log, after, kind) =~= Seq::new(
        answers.len(),
        |i: int|
            (
                Request::Release(wire_key(channel, Some(pairs[i]))),
                Reply::Count(answers[i].remaining),
            ),
    ));
}

proof fn a_release_is_one(log: Log, key: Key, table: SocketTable, a: DeregisterAnswers)
    ensures
        ({
            let after = deregister_log(log, key, table, a);
            &&& extends(log, after)
            &&& picked(log, after, |request: Request| request is Release) == seq![
                (Request::Release(key), Reply::Count(a.remaining)),
            ]
        }),
{
    let kind = |request: Request| request is Release;
    let after = deregister_log(log, key, table, a);
    picking(log, kind);
    let released = asked(
        asked(
            asked(log, Request::ParamsFor(key), Reply::Params(a.params)),
            Request::IsTerminated(key),
            Reply::Flag(a.was_tombstone),
        ),
        Request::Release(key),
        Reply::Count(a.remaining),
    );
    assert(picked(log, released, kind) =~= seq![
        (Request::Release(key), Reply::Count(a.remaining)),
    ]);
    if a.is_last() {
        let torn = teardown_log(released, key, a.was_tombstone, table, a.teardown);
        a_teardown_releases_nothing(released, key, a.was_tombstone, table, a.teardown);
        assert(extends(torn, after));
        assert forall|i: int| released.len() <= i < after.len() implies !kind(
            (#[trigger] after[i]).0,
        ) by {
            if i < torn.len() {
                assert(after[i] == torn[i]);
            }
        }
        nothing_picked(released, after, kind);
        assert(extends(released, after)) by {
            assert forall|i: int| 0 <= i < released.len() implies #[trigger] after[i]
                == released[i] by {
                assert(after[i] == torn[i]);
            }
        }
        picked_together(log, released, after, kind);
        assert(picked(log, after, kind) =~= picked(log, released, kind));
    }
}

proof fn a_teardown_releases_nothing(
    log: Log,
    key: Key,
    was_tombstone: bool,
    table: SocketTable,
    a: TeardownAnswers,
)
    ensures
        ({
            let after = teardown_log(log, key, was_tombstone, table, a);
            &&& extends(log, after)
            &&& forall|i: int|
                log.len() <= i < after.len() ==> !((#[trigger] after[i]).0 is Release) && !(
                after[i].0 is ReleaseGuardRef)
        }),
{
}

/// The ends that are announced of some removed subscriptions: those that were not
/// announced before, in order, while there is a bus.
pub open spec fn endings(removed: Seq<RemovedEntry>, answers: Seq<TeardownAnswers>) -> Seq<Request>
    decreases answers.len(),
{
    if answers.len() == 0 {
        Seq::empty()
    } else {
        let earlier = endings(removed, answers.drop_last());
        let entry = removed[answers.len() - 1];
        let clock = answers.last().terminate.clock;
        if entry.tombstone || !clock.bus_alive {
            earlier
        } else {
            earlier.push(
                Request::Publish(
                    EventEnvelope {
                        event_version: 2,
                        timestamp: clock.now,
                        request_id: None,
                        payload: EventPayload::SubscriptionTerminated {
                            key: entry.key,
                            cause: TerminationCause::ClientClosed,
                            last_error: None,
                            terminated_at: clock.now,
                        },
                    },
                ),
            )
        }
    }
}

/// The unsubscribes of some removed subscriptions: one for each that was not ended
/// before and whose connection has a socket, in order.
pub open spec fn unsubscribes(
    removed: Seq<RemovedEntry>,
    table: SocketTable,
    answers: Seq<TeardownAnswers>,
) -> Seq<Request>
    decreases answers.len(),
{
    if answers.len() == 0 {
        Seq::empty()
    } else {
        let earlier = unsubscribes(removed, table, answers.drop_last());
        let entry = removed[answers.len() - 1];
        let url = if entry.key.channel == ChannelName::Executions || entry.key.channel
            == ChannelName::Balances {
            WsUrl::Auth
        } else {
            WsUrl::Public
        };
        match table.sockets.at(url) {
            Some(socket) => if entry.tombstone {
                earlier
            } else {
                earlier.push(Request::SendFrame(url, socket, answers.last().terminate.text))
            },
            None => earlier,
        }
    }
}

proof fn teardowns_are_seen_in_order(
    log: Log,
    removed: Seq<RemovedEntry>,
    table: SocketTable,
    answers: Seq<TeardownAnswers>,
)
    requires
        answers.len() <= removed.len(),
        forall|i: int|
            0 <= i < answers.len() ==> teardown_text(
                (#[trigger] removed[i]).key,
                Some(removed[i].params),
                removed[i].tombstone,
                answers[i],
            ),
    ensures
        ({
            let after = teardown_all_log(log, removed, table, answers);
            &&& extends(log, after)
            &&& shows_what_is(log, after)
            &&& happened(log, after, Effect::Announce) == endings(removed, answers)
            &&& happened(log, after, Effect::Send) == unsubscribes(removed, table, answers)
        }),
    decreases answers.len(),
{
    let after = teardown_all_log(log, removed, table, answers);
    showing(log);
    if answers.len() > 0 {
        let last = answers.len() - 1;
        let most = answers.drop_last();
        let entry = removed[last];
        let before = teardown_all_log(log, removed, table, most);
        assert forall|i: int| 0 <= i < most.len() implies teardown_text(
            (#[trigger] removed[i]).key,
            Some(removed[i].params),
            removed[i].tombstone,
            most[i],
        ) by {
            assert(most[i] == answers[i]);
        }
        teardowns_are_seen_in_order(log, removed, table, most);
        assert(teardown_text(
            removed[last].key,
            Some(removed[last].params),
            removed[last].tombstone,
            answers[last],
        ));
        a_teardown_is_seen_once(
            before,
            entry.key,
            Some(entry.params),
            entry.tombstone,
            table,
            answers[last],
        );
        happened_together(log, before, after, Effect::Announce);
        happened_together(log, before, after, Effect::Send);
        shows_together(log, before, after);
    }
    assert(happened(log, after, Effect::Announce) =~= endings(removed, answers));
    assert(happened(log, after, Effect::Send) =~= unsubscribes(removed, table, answers));
}

/// Releasing everything asks the registry for all subscriptions, or for those of the
/// one channel under its name on the wire. Each that it lets go of is torn down, in
/// order: those that had not ended are unsubscribed and announced, with the params
/// that they were registered with, and no other. Each connection that lost one may
/// then come to the end of its resubscription.
pub proof fn everything_removed_is_torn_down(
    log: Log,
    channel: Option<ChannelName>,
    table: SocketTable,
    a: DeregisterAllAnswers,
)
    requires
        tears_all_down(a),
    ensures
        ({
            let after = deregister_all_log(log, channel, table, a);
            let completes = |url: WsUrl|
                made(log, after, Request::CompleteResubscribeIfEmpty(url));
            &&& extends(log, after)
            &&& shows_what_is(log, after)
            &&& after[log.len() as int] == (
                Request::DeregisterAll(
                    match channel {
                        Some(channel) => Some(
                            if channel == ChannelName::BookRaw {
                                ChannelName::Book
                            } else {
                                channel
                            },
                        ),
                        None => None,
                    },
                ),
                Reply::Removed(a.removed),
            )
            &&& a.teardowns.len() == a.removed@.len()
            &&& happened(log, after, Effect::Announce) == endings(a.removed@, a.teardowns)
            &&& happened(log, after, Effect::Send) == unsubscribes(
                a.removed@,
                table,
                a.teardowns,
            )
            &&& forall|i: int|
                0 <= i < a.removed@.len() && !(#[trigger] a.removed@[i]).tombstone
                    ==> a.teardowns[i].terminate.text@ == json_text(
                    unsubscribe_json(
                        a.removed@[i].key,
                        Some(a.removed@[i].params),
                        match a.teardowns[i].terminate.token {
                            Some(token) => if a.removed@[i].key.channel == ChannelName::Executions
                                || a.removed@[i].key.channel == ChannelName::Balances {
                                Some(token.value@)
                            } else {
                                None
                            },
                            None => None,
                        },
                    ),
                )
            &&& a.public.conn is Some && (exists|i: int|
                0 <= i < a.removed@.len() && (#[trigger] a.removed@[i]).key.channel
                    != ChannelName::Executions && a.removed@[i].key.channel
                    != ChannelName::Balances) ==> completes(WsUrl::Public)
            &&& a.auth.conn is Some && (exists|i: int|
                0 <= i < a.removed@.len() && ((#[trigger] a.removed@[i]).key.channel
                    == ChannelName::Executions || a.removed@[i].key.channel
                    == ChannelName::Balances)) ==> completes(WsUrl::Auth)
        }),
{
    let after = deregister_all_log(log, channel, table, a);
    let listed = asked(
        log,
        Request::DeregisterAll(
            match channel {
                Some(channel) => Some(channel.wire_channel_spec()),
                None => None,
            },
        ),
        Reply::Removed(a.removed),
    );
    let torn = teardown_all_log(listed, a.removed@, table, a.teardowns);
    let public = if touches(a.removed@, WsUrl::Public) {
        complete_log(torn, WsUrl::Public, a.public)
    } else {
        torn
    };
    let n = log.len() as int;
    showing(log);
    teardowns_are_seen_in_order(listed, a.removed@, table, a.teardowns);
    a_completion_is_shown(torn, WsUrl::Public, a.public);
    a_completion_is_shown(public, WsUrl::Auth, a.auth);
    showing(torn);
    showing(public);
    assert(shows_what_is(log, listed));
    shows_together(log, listed, torn);
    shows_together(log, torn, public);
    shows_together(log, public, after);
    nothing_happened(log, listed, Effect::Announce);
    nothing_happened(log, listed, Effect::Send);
    assert(grew_without(torn, public, Effect::Announce));
    assert(grew_without(torn, public, Effect::Send));
    assert(grew_without(public, after, Effect::Announce));
    assert(grew_without(public, after, Effect::Send));
    nothing_happened(torn, public, Effect::Announce);
    nothing_happened(torn, public, Effect::Send);
    nothing_happened(public, after, Effect::Announce);
    nothing_happened(public, after, Effect::Send);
    happened_together(log, listed, torn, Effect::Announce);
    happened_together(log, listed, torn, Effect::Send);
    happened_together(log, torn, public, Effect::Announce);
    happened_together(log, torn, public, Effect::Send);
    happened_together(log, public, after, Effect::Announce);
    happened_together(log, public, after, Effect::Send);
    assert(happened(log, after, Effect::Announce) =~= endings(a.removed@, a.teardowns));
    assert(happened(log, after, Effect::Send) =~= unsubscribes(a.removed@, table, a.teardowns));
    assert(after[n] == public[n] && public[n] == torn[n] && torn[n] == listed[n]);
    if exists|i: int|
        0 <= i < a.removed@.len() && (#[trigger] a.removed@[i]).key.channel
            != ChannelName::Executions && a.removed@[i].key.channel != ChannelName::Balances {
        let i = choose|i: int|
            0 <= i < a.removed@.len() && (#[trigger] a.removed@[i]).key.channel
                != ChannelName::Executions && a.removed@[i].key.channel != ChannelName::Balances;
        assert(channel_url(a.removed@[i].key.channel) == WsUrl::Public);
        if a.public.conn is Some {
            let at = torn.len() as int + 1;
            assert(after[at] == public[at]);
        }
    }
    if exists|i: int|
        0 <= i < a.removed@.len() && ((#[trigger] a.removed@[i]).key.channel
            == ChannelName::Executions || a.removed@[i].key.channel == ChannelName::Balances) {
        let i = choose|i: int|
            0 <= i < a.removed@.len() && ((#[trigger] a.removed@[i]).key.channel
                == ChannelName::Executions || a.removed@[i].key.channel == ChannelName::Balances);
        assert(channel_url(a.removed@[i].key.channel) == WsUrl::Auth);
        if a.auth.conn is Some {
            let at = public.len() as int + 1;
            assert(after[at].0 == Request::CompleteResubscribeIfEmpty(WsUrl::Auth));
        }
    }
}

proof fn a_guard_releases_each_target_once(
    log: Log,
    handler_id: u64,
    keys: Seq<Key>,
    table: SocketTable,
    answers: Seq<GuardAnswers>,
)
    requires
        answers.len() <= keys.len(),
    ensures
        ({
            let after = guard_rows_log(log, handler_id, keys, table, answers);
            &&& extends(log, after)
            &&& picked(log, after, |request: Request| request is ReleaseGuardRef) == Seq::new(
                answers.len(),
                |i: int|
                    (
                        Request::ReleaseGuardRef(handler_id, keys[i]),
                        Reply::Count(answers[i].remaining),
                    ),
            )
        }),
    decreases answers.len(),
{
    let kind = |request: Request| request is ReleaseGuardRef;
    let after = guard_rows_log(log, handler_id, keys, table, answers);
    picking(log, kind);
    if answers.len() > 0 {
        let last = answers.len() - 1;
        let before = guard_rows_log(log, handler_id, keys, table, answers.drop_last());
        let a = answers[last];
        let key = keys[last];
        a_guard_releases_each_target_once(log, handler_id, keys, table, answers.drop_last());
        picking(before, kind);
        let released = asked(
            asked(
                asked(before, Request::ParamsFor(key), Reply::Params(a.params)),
                Request::IsTerminated(key),
                Reply::Flag(a.was_tombstone),
            ),
            Request::ReleaseGuardRef(handler_id, key),
            Reply::Count(a.remaining),
        );
        assert(extends(before, released));
        assert(picked(before, released, kind) =~= seq![
            (Request::ReleaseGuardRef(handler_id, key), Reply::Count(a.remaining)),
        ]);
        if a.is_last() {
            a_teardown_releases_nothing(released, key, a.was_tombstone, table, a.teardown);
        }
        assert(extends(released, after));
        nothing_picked(released, after, kind);
        picked_together(before, released, after, kind);
        picked_together(log, before, after, kind);
    }
    assert(picked(log, after, kind) =~= Seq::new(
        answers.len(),
        |i: int|
            (
                Request::ReleaseGuardRef(handler_id, keys[i]),
                Reply::Count(answers[i].remaining),
            ),
    ));
}

/// A dropped guard takes its handler along first, and then gives each of its targets
/// back, once and in order, under the key that its channel has on the wire: one for
/// each pair, or the channel-wide one where it has none. Where one of them was the
/// last, the connection may come to the end of its resubscription, and is shown.
pub proof fn a_dropped_guard_gives_everything_back(
    log: Log,
    handler_id: u64,
    channel: ChannelName,
    symbols: Seq<Symbol>,
    table: SocketTable,
    answers: Seq<GuardAnswers>,
    complete: CompleteAnswers,
)
    requires
        guard_whole(guard_keys(channel, symbols), answers),
    ensures
        ({
            let after = guard_drop_log(
                log,
                handler_id,
                channel,
                symbols,
                table,
                answers,
                complete,
            );
            let wire = if channel == ChannelName::BookRaw {
                ChannelName::Book
            } else {
                channel
            };
            let url = if channel == ChannelName::Executions || channel == ChannelName::Balances {
                WsUrl::Auth
            } else {
                WsUrl::Public
            };
            let given = picked(log, after, |request: Request| request is ReleaseGuardRef);
            let count = if symbols.len() == 0 {
                1nat
            } else {
                symbols.len()
            };
            &&& extends(log, after)
            &&& after[log.len() as int].0 == Request::DeregisterHandler(channel, handler_id)
            &&& answers.len() == count
            &&& given == Seq::new(
                count,
                |i: int|
                    (
                        Request::ReleaseGuardRef(
                            handler_id,
                            Key {
                                channel: wire,
                                pair: if symbols.len() == 0 {
                                    None
                                } else {
                                    Some(symbols[i])
                                },
                            },
                        ),
                        Reply::Count(answers[i].remaining),
                    ),
            )
            &&& complete.conn is Some && (exists|i: int|
                0 <= i < count && (#[trigger] answers[i]).params is Some && answers[i].remaining
                    == 0) ==> {
                &&& after[after.len() - 2] == (
                    Request::CompleteResubscribeIfEmpty(url),
                    Reply::View(complete.after),
                )
                &&& after.last().0 == Request::StoreMirror(url, complete.after.state)
            }
            &&& (forall|i: int|
                0 <= i < count ==> (#[trigger] answers[i]).params is None || answers[i].remaining
                    != 0) ==> !made(log, after, Request::CompleteResubscribeIfEmpty(url))
                && grew_without(log, after, Effect::Send) && grew_without(
                log,
                after,
                Effect::Announce,
            )
        }),
{
    let kind = |request: Request| request is ReleaseGuardRef;
    let keys = guard_keys(channel, symbols);
    let after = guard_drop_log(log, handler_id, channel, symbols, table, answers, complete);
    let gone = told(log, Request::DeregisterHandler(channel, handler_id));
    let rows = guard_rows_log(gone, handler_id, keys, table, answers);
    let url = channel_url(channel.wire_channel_spec());
    picking(log, kind);
    a_guard_releases_each_target_once(gone, handler_id, keys, table, answers);
    picked_together(log, gone, rows, kind);
    a_completion_is_shown(rows, url, complete);
    assert(extends(rows, after));
    assert forall|i: int| rows.len() <= i < after.len() implies !kind(
        (#[trigger] after[i]).0,
    ) by {}
    nothing_picked(rows, after, kind);
    picked_together(log, rows, after, kind);
    assert(picked(log, after, kind) =~= picked(gone, rows, kind));
    let n = log.len() as int;
    assert(after[n] == rows[n] && rows[n] == gone[n]);
    let wire = channel.wire_channel_spec();
    let count = if symbols.len() == 0 {
        1nat
    } else {
        symbols.len()
    };
    assert(picked(log, after, kind) =~= Seq::new(
        count,
        |i: int|
            (
                Request::ReleaseGuardRef(
                    handler_id,
                    Key {
                        channel: wire,
                        pair: if symbols.len() == 0 {
                            None
                        } else {
                            Some(symbols[i])
                        },
                    },
                ),
                Reply::Count(answers[i].remaining),
            ),
    ));
    if exists|i: int|
        0 <= i < count && (#[trigger] answers[i]).params is Some && answers[i].remaining == 0 {
        let i = choose|i: int|
            0 <= i < count && (#[trigger] answers[i]).params is Some && answers[i].remaining == 0;
        assert(answers[i].is_last());
    } else {
        assert(!any_last(answers));
        assert forall|i: int| 0 <= i < answers.len() implies !(#[trigger] answers[i]).is_last() by {
            assert(answers[i].params is None || answers[i].remaining != 0);
        }
        a_held_guard_is_silent(gone, handler_id, keys, table, answers);
        assert(after == rows);
        grew_without_together(log, gone, after, Effect::Send);
        grew_without_together(log, gone, after, Effect::Announce);
        assert forall|i: int| log.len() <= i < after.len() implies (#[trigger] after[i]).0
            != Request::CompleteResubscribeIfEmpty(url) by {
            if i < gone.len() {
                assert(after[i] == gone[i]);
            }
        }
    }
}

proof fn a_held_guard_is_silent(
    log: Log,
    handler_id: u64,
    keys: Seq<Key>,
    table: SocketTable,
    answers: Seq<GuardAnswers>,
)
    requires
        forall|i: int| 0 <= i < answers.len() ==> !(#[trigger] answers[i]).is_last(),
    ensures
        ({
            let after = guard_rows_log(log, handler_id, keys, table, answers);
            &&& grew_without(log, after, Effect::Send)
            &&& grew_without(log, after, Effect::Announce)
            &&& forall|i: int|
                log.len() <= i < after.len() ==> !((#[trigger] after[i]).0
                    is CompleteResubscribeIfEmpty)
        }),
    decreases answers.len(),
{
    if answers.len() > 0 {
        let most = answers.drop_last();
        let before = guard_rows_log(log, handler_id, keys, table, most);
        let after = guard_rows_log(log, handler_id, keys, table, answers);
        assert forall|i: int| 0 <= i < most.len() implies !(#[trigger] most[i]).is_last() by {
            assert(most[i] == answers[i]);
        }
        a_held_guard_is_silent(log, handler_id, keys, table, most);
        assert(!answers[answers.len() - 1].is_last());
        assert(grew_without(before, after, Effect::Send));
        assert(grew_without(before, after, Effect::Announce));
        grew_without_together(log, before, after, Effect::Send);
        grew_without_together(log, before, after, Effect::Announce);
        assert forall|i: int| log.len() <= i < after.len() implies !((#[trigger] after[i]).0
            is CompleteResubscribeIfEmpty) by {
            if i < before.len() {
                assert(after[i] == before[i]);
            }
        }
    }
}

/// A target of a guard is torn down exactly by its last release, where it was
/// registered.
pub proof fn a_last_guard_tears_down(
    log: Log,
    handler_id: u64,
    key: Key,
    table: SocketTable,
    a: GuardAnswers,
)
    ensures
        ({
            let after = guard_row_log(log, handler_id, key, table, a);
            let released = log.push((Request::ParamsFor(key), Reply::Params(a.params))).push(
                (Request::IsTerminated(key), Reply::Flag(a.was_tombstone)),
            ).push(
                (Request::ReleaseGuardRef(handler_id, key), Reply::Count(a.remaining)),
            );
            after == if a.params is Some && a.remaining == 0 {
                teardown_log(released, key, a.was_tombstone, table, a.teardown)
            } else {
                released
            }
        }),
{
}

/// A batch registers each of its entries once, in order, at the instant that the bus
/// had then, and each as held by the guard exactly where there is one.
pub proof fn a_batch_registers_each_entry_once(
    s: BatchState,
    url: WsUrl,
    entries: Seq<SubscriptionEntry>,
    ref_id: Option<u64>,
    answers: Seq<RegisterAnswers>,
)
    requires
        answers.len() <= entries.len(),
    ensures
        ({
            let end = register_batch_step(s, url, entries, ref_id, answers);
            &&& extends(s.log, end.log)
            &&& picked(s.log, end.log, |request: Request| request is Register) == Seq::new(
                answers.len(),
                |i: int|
                    (
                        Request::Register(entries[i], answers[i].clock.now, ref_id is Some),
                        Reply::Count(answers[i].count),
                    ),
            )
            &&& shows_what_is(s.log, end.log)
            &&& end.table.sockets.at(other_url(url)) == s.table.sockets.at(other_url(url))
        }),
    decreases answers.len(),
{
    let kind = |request: Request| request is Register;
    let end = register_batch_step(s, url, entries, ref_id, answers);
    picking(s.log, kind);
    showing(s.log);
    if answers.len() > 0 {
        let last = answers.len() - 1;
        let before = register_batch_step(s, url, entries, ref_id, answers.drop_last());
        let a = answers[last];
        let entry = entries[last];
        a_batch_registers_each_entry_once(s, url, entries, ref_id, answers.drop_last());
        let registered = register_log(before.log, url, entry, ref_id, before.table, a);
        a_registration_is_recorded(before.log, url, entry, ref_id, before.table, a);
        a_registration_hands_back_what_was_told(
            before.log,
            url,
            entry,
            ref_id,
            before.table,
            a,
        );
        a_registration_is_one(before.log, url, entry, ref_id, before.table, a);
        picking(registered, kind);
        showing(registered);
        assert(extends(registered, end.log));
        assert(picked(registered, end.log, kind) =~= Log::empty());
        picked_together(before.log, registered, end.log, kind);
        picked_together(s.log, before.log, end.log, kind);
        assert(shows_what_is(registered, end.log));
        shows_together(before.log, registered, end.log);
        shows_together(s.log, before.log, end.log);
    }
    assert(picked(s.log, end.log, kind) =~= Seq::new(
        answers.len(),
        |i: int|
            (
                Request::Register(entries[i], answers[i].clock.now, ref_id is Some),
                Reply::Count(answers[i].count),
            ),
    ));
}

/// An entry that cost the connection its socket takes that socket out of the table,
/// with its bridge; any other leaves the table with the socket that the connection has
/// since it was started, or had before.
pub proof fn a_lost_socket_leaves_the_batch(
    s: BatchState,
    url: WsUrl,
    entry: SubscriptionEntry,
    ref_id: Option<u64>,
    a: RegisterAnswers,
)
    ensures
        ({
            let end = register_step(s, url, entry, ref_id, a);
            let registered = register_log(s.log, url, entry, ref_id, s.table, a);
            let told = last_told(registered, url);
            let lost = a.conn is Some && told->Some_0.socket is None;
            &&& lost ==> {
                &&& end.table.sockets.at(url) is None
                &&& end.table.bridges.at(url) is None
                &&& end.log == registered.push((Request::DropUpgradeBridge(url), Reply::Done))
            }
            &&& !lost ==> {
                &&& end.log == registered
                &&& end.table.sockets.at(url) == if a.conn is Some && a.conn->Some_0.state
                    == ConnectionState::Idle {
                    a.started.socket
                } else {
                    s.table.sockets.at(url)
                }
            }
        }),
{
    a_registration_hands_back_what_was_told(s.log, url, entry, ref_id, s.table, a);
}

/// What a caller posts is carried out as what it is. An event goes into its connection;
/// a batch is registered, or released, entry by entry; a release is one release; a
/// change of handlers is that change and nothing else; a dropped guard takes its
/// handler along; a request is settled, recorded or sent under its id; and one that
/// was given up on is failed. Only an event and a batch of registrations can change
/// which sockets are in use.
pub proof fn what_is_posted_is_carried_out(
    before: Log,
    after: Log,
    msg: CallerInbound,
    table: SocketTable,
    end: SocketTable,
)
    requires
        dispatched(before, after, msg, table, end),
    ensures
        extends(before, after),
        ({
            let wire = |channel: ChannelName|
                if channel == ChannelName::BookRaw {
                    ChannelName::Book
                } else {
                    channel
                };
            let released = picked(before, after, |request: Request| request is Release);
            let n = before.len() as int;
            match msg {
                CallerInbound::FsmEvent { url, event } => {
                    &&& after[n].0 == Request::Conn(url)
                    &&& match after[n].1 {
                        Reply::Conn(Some(_)) => {
                            &&& after[n + 1].1 is View
                            &&& after[n + 1].0 == Request::HandleEvent(
                                url,
                                match event {
                                    CallerEvent::StartConnect { request_id } =>
                                        FsmEvent::CallStartConnect { request_id },
                                    CallerEvent::Close { request_id } => FsmEvent::CallClose {
                                        request_id,
                                    },
                                    CallerEvent::ForceReconnect { request_id } =>
                                        FsmEvent::CallForceReconnect { request_id },
                                },
                            )
                            &&& end.sockets.at(url) == after[n + 1].1->View_0.socket
                            &&& after[n + 2].0 == Request::StoreMirror(
                                url,
                                after[n + 1].1->View_0.state,
                            )
                        },
                        _ => end == table && grew_without(before, after, Effect::Drive),
                    }
                },
                CallerInbound::ClientClose { .. } => false,
                CallerInbound::RegistryMutation { url, mutation } => match mutation {
                    RegistryMutationOp::RegisterBatch { entries, ref_id } => {
                        let registered = picked(
                            before,
                            after,
                            |request: Request| request is Register,
                        );
                        &&& registered.len() == entries@.len()
                        &&& forall|i: int|
                            0 <= i < entries@.len() ==> match (#[trigger] registered[i]).0 {
                                Request::Register(entry, _, guarded) => entry == entries@[i]
                                    && guarded == (ref_id is Some),
                                _ => false,
                            }
                    },
                    RegistryMutationOp::Deregister { channel, pair } => {
                        &&& end == table
                        &&& released.len() == 1
                        &&& released[0].0 == Request::Release(
                            Key { channel: wire(channel), pair },
                        )
                    },
                    RegistryMutationOp::DeregisterBatch { channel, pairs } => {
                        &&& end == table
                        &&& released.len() == pairs@.len()
                        &&& forall|i: int|
                            0 <= i < pairs@.len() ==> (#[trigger] released[i]).0
                                == Request::Release(
                                Key { channel: wire(channel), pair: Some(pairs@[i]) },
                            )
                    },
                    RegistryMutationOp::DeregisterAll { channel } => {
                        &&& end == table
                        &&& after[n].0 == Request::DeregisterAll(
                            match channel {
                                Some(channel) => Some(wire(channel)),
                                None => None,
                            },
                        )
                    },
                },
                CallerInbound::HandlerMutation { channel, op } => {
                    &&& end == table
                    &&& after == before.push(
                        (
                            match op {
                                HandlerMutationOp::Register { id, callback } =>
                                    Request::RegisterHandler(channel, id, callback),
                                HandlerMutationOp::Deregister { id } =>
                                    Request::DeregisterHandler(channel, id),
                            },
                            Reply::Done,
                        ),
                    )
                },
                CallerInbound::SubscriptionGuardDrop { handler_id, channel, symbols } => {
                    let given = picked(
                        before,
                        after,
                        |request: Request| request is ReleaseGuardRef,
                    );
                    &&& end == table
                    &&& after[n].0 == Request::DeregisterHandler(channel, handler_id)
                    &&& symbols@.len() == 0 ==> given.len() == 1 && given[0].0
                        == Request::ReleaseGuardRef(
                        handler_id,
                        Key { channel: wire(channel), pair: None },
                    )
                    &&& symbols@.len() > 0 ==> given.len() == symbols@.len() && forall|i: int|
                        0 <= i < symbols@.len() ==> (#[trigger] given[i]).0
                            == Request::ReleaseGuardRef(
                            handler_id,
                            Key { channel: wire(channel), pair: Some(symbols@[i]) },
                        )
                },
                CallerInbound::WsRequestFrame { req_id, op, .. } => {
                    &&& end == table
                    &&& after[n].0 == Request::Conn(WsUrl::Auth)
                    &&& {
                        ||| made(
                            before,
                            after,
                            Request::RejectRequest(req_id, RequestFailure::NotOpen),
                        )
                        ||| exists|now: u64| #[trigger]
                            made(
                                before,
                                after,
                                Request::RecordPendingRequest(WsUrl::Auth, req_id, op, now),
                            )
                    }
                },
                CallerInbound::AbandonWsRequest { req_id } => {
                    &&& end == table
                    &&& after[n].0 == Request::Conn(WsUrl::Auth)
                    &&& happened(before, after, Effect::Settle) == match after[n].1 {
                        Reply::Conn(Some(_)) => seq![
                            Request::FailPendingRequest(
                                WsUrl::Auth,
                                req_id,
                                RequestFailure::ResponseTimeout,
                            ),
                        ],
                        _ => Seq::empty(),
                    }
                },
            }
        }),
{
    match msg {
        CallerInbound::FsmEvent { url, event } => {
            let a = choose|a: DriveAnswers|
                {
                    &&& after == #[trigger] drive_log(before, url, fsm_event(event), a)
                    &&& end == drive_table(url, table, a)
                };
            a_driven_event_is_shown(before, url, fsm_event(event), table, a);
        },
        CallerInbound::ClientClose { .. } => {},
        CallerInbound::RegistryMutation { url, mutation } => {
            a_mutation_is_carried_out(before, after, url, mutation, table, end);
        },
        CallerInbound::HandlerMutation { channel, op } => {},
        CallerInbound::SubscriptionGuardDrop { handler_id, channel, symbols } => {
            let (answers, complete) = choose|answers: Seq<GuardAnswers>, complete: CompleteAnswers|
                {
                    &&& after == #[trigger] guard_drop_log(
                        before,
                        handler_id,
                        channel,
                        symbols@,
                        table,
                        answers,
                        complete,
                    )
                    &&& guard_whole(guard_keys(channel, symbols@), answers)
                };
            a_dropped_guard_gives_everything_back(
                before,
                handler_id,
                channel,
                symbols@,
                table,
                answers,
                complete,
            );
        },
        CallerInbound::WsRequestFrame { req_id, method, op, params } => {
            let a = choose|a: WsRequestAnswers|
                {
                    &&& after == #[trigger] ws_request_log(before, req_id, op, table, a)
                    &&& ws_request_text(req_id, method@, op, json_of(params), a)
                };
            every_request_is_settled(before, req_id, op, table, a);
            a_request_is_sent_or_rejected(
                before,
                req_id,
                method@,
                op,
                json_of(params),
                table,
                a,
            );
        },
        CallerInbound::AbandonWsRequest { req_id } => {
            let conn = choose|conn: Option<ConnView>|
                after == #[trigger] abandon_log(before, req_id, conn);
            an_abandoned_request_times_out(before, req_id, conn);
        },
    }
}

proof fn a_mutation_is_carried_out(
    before: Log,
    after: Log,
    url: WsUrl,
    mutation: RegistryMutationOp,
    table: SocketTable,
    end: SocketTable,
)
    requires
        mutated(before, after, url, mutation, table, end),
    ensures
        extends(before, after),
        ({
            let released = picked(before, after, |request: Request| request is Release);
            let registered = picked(before, after, |request: Request| request is Register);
            match mutation {
                RegistryMutationOp::RegisterBatch { entries, ref_id } => {
                    &&& registered.len() == entries@.len()
                    &&& forall|i: int|
                        0 <= i < entries@.len() ==> match (#[trigger] registered[i]).0 {
                            Request::Register(entry, _, guarded) => entry == entries@[i] && guarded
                                == (ref_id is Some),
                            _ => false,
                        }
                },
                RegistryMutationOp::Deregister { channel, pair } => {
                    &&& end == table
                    &&& released.len() == 1
                    &&& released[0].0 == Request::Release(wire_key(channel, pair))
                },
                RegistryMutationOp::DeregisterBatch { channel, pairs } => {
                    &&& end == table
                    &&& released.len() == pairs@.len()
                    &&& forall|i: int|
                        0 <= i < pairs@.len() ==> (#[trigger] released[i]).0 == Request::Release(
                            wire_key(channel, Some(pairs@[i])),
                        )
                },
                RegistryMutationOp::DeregisterAll { channel } => {
                    &&& end == table
                    &&& after[before.len() as int].0 == Request::DeregisterAll(
                        match channel {
                            Some(channel) => Some(channel.wire_channel_spec()),
                            None => None,
                        },
                    )
                },
            }
        }),
{
    match mutation {
        RegistryMutationOp::RegisterBatch { entries, ref_id } => {
            let start = BatchState { log: before, table };
            let answers = choose|answers: Seq<RegisterAnswers>|
                {
                    &&& (BatchState { log: after, table: end }) == #[trigger] register_batch_step(
                        start,
                        url,
                        entries@,
                        ref_id,
                        answers,
                    )
                    &&& batch_whole(start, url, entries@, ref_id, answers)
                };
            a_batch_registers_each_entry_once(start, url, entries@, ref_id, answers);
        },
        RegistryMutationOp::Deregister { channel, pair } => {
            let a = choose|a: DeregisterAnswers|
                {
                    &&& after == #[trigger] deregister_log(
                        before,
                        wire_key(channel, pair),
                        table,
                        a,
                    )
                    &&& deregister_text(wire_key(channel, pair), a)
                };
            a_release_is_one(before, wire_key(channel, pair), table, a);
        },
        RegistryMutationOp::DeregisterBatch { channel, pairs } => {
            let answers = choose|answers: Seq<DeregisterAnswers>|
                {
                    &&& after == #[trigger] deregister_batch_log(
                        before,
                        channel,
                        pairs@,
                        table,
                        answers,
                    )
                    &&& answers.len() == pairs@.len()
                    &&& forall|i: int|
                        0 <= i < pairs@.len() ==> deregister_text(
                            wire_key(channel, Some(#[trigger] pairs@[i])),
                            answers[i],
                        )
                };
            a_batch_releases_each_pair_once(before, channel, pairs@, table, answers);
        },
        RegistryMutationOp::DeregisterAll { channel } => {
            let a = choose|a: DeregisterAllAnswers|
                {
                    &&& after == #[trigger] deregister_all_log(before, channel, table, a)
                    &&& tears_all_down(a)
                };
            everything_removed_is_torn_down(before, channel, table, a);
        },
    }
}

} // verus!
