//! The sockets that the reactor reads and writes, the bridges that carry their
//! upgrade outcomes, and the unsubscribe of a released subscription.

use crate::frames::{compose_unsubscribe_frame, unsubscribe_json};
use crate::host::{
    asked, extends, grew_without, happened, happened_once, nothing_happened, picked, picking, said,
    told, BusClock, CachedToken, ConnView, Effect, Link, Log, QueueResult, Reply, Request,
    UpgradeOutcome,
};
use crate::json::json_text;
use crate::notes::{send_error, send_error_of, Note};
use crate::types::{
    ChannelName, ConnectionState, EventEnvelope, EventPayload, Key, SendResult, SubscribeParams,
    TerminationCause, Text, TransportErrorKind, WsUrl,
};
use vstd::prelude::*;

verus! {

/// At most one socket id for each connection.
#[derive(Clone, Copy, PartialEq, Eq, Structural, Debug)]
pub struct Slots {
    pub public: Option<u64>,
    pub auth: Option<u64>,
}

impl Slots {
    pub open spec fn at(self, url: WsUrl) -> Option<u64> {
        match url {
            WsUrl::Public => self.public,
            WsUrl::Auth => self.auth,
        }
    }

    /// The slots with another occupant at `url`.
    pub open spec fn with(self, url: WsUrl, occupant: Option<u64>) -> Slots {
        match url {
            WsUrl::Public => Slots { public: occupant, ..self },
            WsUrl::Auth => Slots { auth: occupant, ..self },
        }
    }

    pub fn get(&self, url: WsUrl) -> (occupant: Option<u64>)
        ensures
            occupant == self.at(url),
    {
        match url {
            WsUrl::Public => self.public,
            WsUrl::Auth => self.auth,
        }
    }

    pub fn set(&mut self, url: WsUrl, occupant: Option<u64>)
        ensures
            *final(self) == old(self).with(url, occupant),
    {
        match url {
            WsUrl::Public => {
                self.public = occupant;
            },
            WsUrl::Auth => {
                self.auth = occupant;
            },
        }
    }
}

/// The sockets in use, and the sockets whose upgrade outcome is bridged to the
/// reactor.
#[derive(Clone, Copy, PartialEq, Eq, Structural, Debug)]
pub struct SocketTable {
    pub sockets: Slots,
    pub bridges: Slots,
}

impl SocketTable {
    /// A bridge stands only beside a socket.
    pub open spec fn wf(self) -> bool {
        &&& self.bridges.public is Some ==> self.sockets.public is Some
        &&& self.bridges.auth is Some ==> self.sockets.auth is Some
    }

    /// The table without the socket of `url` and its bridge.
    pub open spec fn without(self, url: WsUrl) -> SocketTable {
        SocketTable {
            sockets: self.sockets.with(url, None),
            bridges: self.bridges.with(url, None),
        }
    }

    pub fn new() -> (table: Self)
        ensures
            table.wf(),
            forall|url: WsUrl| table.sockets.at(url) is None,
    {
        SocketTable {
            sockets: Slots { public: None, auth: None },
            bridges: Slots { public: None, auth: None },
        }
    }
}

/// Removes the socket of `url` and its bridge.
pub fn drop_socket<F: Fn(Request) -> Reply>(
    host: &mut Link<F>,
    url: WsUrl,
    table: &mut SocketTable,
)
    ensures
        *final(table) == old(table).without(url),
        final(host).log() == told(old(host).log(), Request::DropUpgradeBridge(url)),
{
    table.sockets.set(url, None);
    table.bridges.set(url, None);
    host.tell(Request::DropUpgradeBridge(url));
}

/// Shows the state of a connection to everyone who reads its mirror.
pub fn write_mirror<F: Fn(Request) -> Reply>(
    host: &mut Link<F>,
    url: WsUrl,
    state: ConnectionState,
)
    ensures
        final(host).log() == told(old(host).log(), Request::StoreMirror(url, state)),
{
    host.tell(Request::StoreMirror(url, state));
}

/// The table after the socket of a connection is projected into it.
pub open spec fn projected(
    table: SocketTable,
    url: WsUrl,
    socket: Option<u64>,
    prev_cid: Option<u64>,
    bus_alive: bool,
) -> SocketTable {
    match socket {
        Some(cid) => SocketTable {
            sockets: table.sockets.with(url, socket),
            bridges: if socket != prev_cid && bus_alive {
                table.bridges.with(url, socket)
            } else {
                table.bridges
            },
        },
        None => table.without(url),
    }
}

pub open spec fn project_log(
    log: Log,
    url: WsUrl,
    socket: Option<u64>,
    prev_cid: Option<u64>,
    clock: BusClock,
) -> Log {
    match socket {
        Some(cid) => if socket != prev_cid {
            let log = asked(log, Request::BusClock, Reply::Clock(clock));
            if clock.bus_alive {
                told(log, Request::WireUpgradeBridge(url, cid))
            } else {
                log
            }
        } else {
            log
        },
        None => told(log, Request::DropUpgradeBridge(url)),
    }
}

/// Projects the socket of a connection into the table. The upgrade bridge is
/// wired once for each fresh socket: a socket that was there before keeps its
/// bridge.
pub fn project_socket_and_wire_bridge<F: Fn(Request) -> Reply>(
    host: &mut Link<F>,
    conn: &ConnView,
    url: WsUrl,
    prev_cid: Option<u64>,
    table: &mut SocketTable,
)
    requires
        old(table).wf(),
    ensures
        final(table).wf(),
        exists|clock: BusClock|
            {
                &&& final(host).log() == #[trigger] project_log(
                    old(host).log(),
                    url,
                    conn.socket,
                    prev_cid,
                    clock,
                )
                &&& *final(table) == projected(
                    *old(table),
                    url,
                    conn.socket,
                    prev_cid,
                    clock.bus_alive,
                )
            },
{
    let ghost before = host.log();
    match conn.socket {
        Some(cid) => {
            table.sockets.set(url, Some(cid));
            let fresh = match prev_cid {
                Some(prev) => prev != cid,
                None => true,
            };
            if fresh {
                let clock = host.bus_clock();
                if clock.bus_alive {
                    host.tell(Request::WireUpgradeBridge(url, cid));
                    table.bridges.set(url, Some(cid));
                }
                proof {
                    assert(host.log() == project_log(before, url, conn.socket, prev_cid, clock));
                }
            } else {
                proof {
                    let clock = BusClock { bus_alive: false, now: 0 };
                    assert(host.log() == project_log(before, url, conn.socket, prev_cid, clock));
                }
            }
        },
        None => {
            drop_socket(host, url, table);
            proof {
                let clock = BusClock { bus_alive: false, now: 0 };
                assert(host.log() == project_log(before, url, conn.socket, prev_cid, clock));
            }
        },
    }
}

/// The requests that carry a successful upgrade to the reactor.
pub open spec fn bridge_upgrade_ok_log(
    log: Log,
    url: WsUrl,
    connection_id: u64,
    queued: QueueResult,
    fallback: QueueResult,
) -> Log {
    let log = asked(
        log,
        Request::ForwardUpgrade(UpgradeOutcome::Upgraded { url, connection_id }),
        Reply::Queue(queued),
    );
    if queued == QueueResult::Taken {
        log
    } else {
        let log = said(log, Note::UpgradeNotTaken { url, connection_id, error: queued });
        asked(
            log,
            Request::ForwardUpgrade(
                UpgradeOutcome::Failed {
                    url,
                    kind: TransportErrorKind::AbnormalClose {
                        context: Text::Fixed("upgrade-bridge channel full"),
                    },
                    transient: true,
                },
            ),
            Reply::Queue(fallback),
        )
    }
}

/// Carries a successful upgrade to the reactor. Where the reactor's queue does
/// not take it, a transient failure is tried in its place, so that the connection
/// does not stay in `Connecting`.
pub fn bridge_upgrade_ok<F: Fn(Request) -> Reply>(
    host: &mut Link<F>,
    url: WsUrl,
    connection_id: u64,
)
    ensures
        exists|queued: QueueResult, fallback: QueueResult|
            final(host).log() == #[trigger] bridge_upgrade_ok_log(
                old(host).log(),
                url,
                connection_id,
                queued,
                fallback,
            ),
{
    let ghost before = host.log();
    let queued = host.queue(UpgradeOutcome::Upgraded { url, connection_id });
    if queued == QueueResult::Taken {
        proof {
            assert(host.log() == bridge_upgrade_ok_log(
                before,
                url,
                connection_id,
                queued,
                queued,
            ));
        }
        return ;
    }
    host.say(Note::UpgradeNotTaken { url, connection_id, error: queued });
    let fallback = host.queue(
        UpgradeOutcome::Failed {
            url,
            kind: TransportErrorKind::AbnormalClose {
                context: Text::Fixed("upgrade-bridge channel full"),
            },
            transient: true,
        },
    );
    proof {
        assert(host.log() == bridge_upgrade_ok_log(
            before,
            url,
            connection_id,
            queued,
            fallback,
        ));
    }
}

pub open spec fn bridge_upgrade_failed_log(
    log: Log,
    url: WsUrl,
    kind: TransportErrorKind,
    transient: bool,
    queued: QueueResult,
) -> Log {
    let log = asked(
        log,
        Request::ForwardUpgrade(UpgradeOutcome::Failed { url, kind, transient }),
        Reply::Queue(queued),
    );
    if queued == QueueResult::Taken {
        log
    } else {
        said(log, Note::UpgradeFailureNotTaken { url, error: queued })
    }
}

/// Carries a failed upgrade to the reactor; what its queue did with it.
pub fn bridge_upgrade_failed<F: Fn(Request) -> Reply>(
    host: &mut Link<F>,
    url: WsUrl,
    kind: TransportErrorKind,
    transient: bool,
) -> (queued: QueueResult)
    ensures
        final(host).log() == bridge_upgrade_failed_log(
            old(host).log(),
            url,
            kind,
            transient,
            queued,
        ),
{
    let queued = host.queue(UpgradeOutcome::Failed { url, kind, transient });
    if !(queued == QueueResult::Taken) {
        host.say(Note::UpgradeFailureNotTaken { url, error: queued });
    }
    queued
}

/// The connection that owns a channel.
pub open spec fn channel_url(channel: ChannelName) -> WsUrl {
    match channel {
        ChannelName::Executions | ChannelName::Balances => WsUrl::Auth,
        _ => WsUrl::Public,
    }
}

/// The connection that owns `channel`: the account channels are on the auth
/// connection, all others on the public one.
pub fn channel_ws_url(channel: ChannelName) -> (url: WsUrl)
    ensures
        url == channel_url(channel),
{
    match channel {
        ChannelName::Executions | ChannelName::Balances => WsUrl::Auth,
        _ => WsUrl::Public,
    }
}

/// The event that ends a subscription on the caller's wish.
pub open spec fn client_closed_event(key: Key, now: u64) -> EventEnvelope {
    EventEnvelope {
        event_version: 2,
        timestamp: now,
        request_id: None,
        payload: EventPayload::SubscriptionTerminated {
            key,
            cause: TerminationCause::ClientClosed,
            last_error: None,
            terminated_at: now,
        },
    }
}

/// The value of a token.
pub open spec fn token_text(token: Option<CachedToken>) -> Option<Seq<char>> {
    match token {
        Some(token) => Some(token.value@),
        None => None,
    }
}

/// What an unsubscribe with its terminal event met.
pub struct TerminateAnswers {
    pub token: Option<CachedToken>,
    pub text: String,
    pub sent: SendResult,
    pub clock: BusClock,
}

/// The token that the unsubscribe of a channel carries: none on the public
/// connection.
pub open spec fn unsubscribe_token(channel: ChannelName, token: Option<CachedToken>) -> Option<
    Seq<char>,
> {
    if channel_url(channel) == WsUrl::Auth {
        token_text(token)
    } else {
        None
    }
}

pub open spec fn unsubscribe_and_terminate_log(
    log: Log,
    key: Key,
    table: SocketTable,
    a: TerminateAnswers,
) -> Log {
    let url = channel_url(key.channel);
    let log = if url == WsUrl::Auth {
        asked(log, Request::CachedToken(None), Reply::Token(a.token))
    } else {
        log
    };
    let log = send_if_open_log(
        log,
        url,
        table,
        a.text,
        a.sent,
        Note::UnsubscribeUnsent { url, key, error: send_error(a.sent) },
    );
    let log = asked(log, Request::BusClock, Reply::Clock(a.clock));
    if a.clock.bus_alive {
        told(log, Request::Publish(client_closed_event(key, a.clock.now)))
    } else {
        log
    }
}

/// On the last release of `key`: sends the wire unsubscribe, as far as there is a
/// socket, and announces that the subscription has ended.
///
/// An auth unsubscribe carries the cached token, without which the exchange
/// ignores it.
pub fn unsubscribe_and_terminate<F: Fn(Request) -> Reply>(
    host: &mut Link<F>,
    key: &Key,
    params: &Option<SubscribeParams>,
    table: &SocketTable,
)
    ensures
        exists|a: TerminateAnswers|
            {
                &&& final(host).log() == #[trigger] unsubscribe_and_terminate_log(
                    old(host).log(),
                    *key,
                    *table,
                    a,
                )
                &&& a.text@ == json_text(
                    unsubscribe_json(*key, *params, unsubscribe_token(key.channel, a.token)),
                )
            },
{
    let ghost before = host.log();
    let url = channel_ws_url(key.channel);
    let token = if url == WsUrl::Auth {
        host.token(None)
    } else {
        None
    };
    let value: Option<String> = match &token {
        Some(token) => Some(token.value.clone()),
        None => None,
    };
    let text = compose_unsubscribe_frame(key, params, &value);
    let ghost frame_text = text;
    let mut sent = SendResult::Sent;
    match table.sockets.get(url) {
        Some(cid) => {
            sent = host.send(url, cid, text);
            if !(sent == SendResult::Sent) {
                host.say(
                    Note::UnsubscribeUnsent { url, key: key.clone(), error: send_error_of(sent) },
                );
            }
        },
        None => {},
    }
    let clock = host.bus_clock();
    if clock.bus_alive {
        host.tell(
            Request::Publish(
                EventEnvelope {
                    event_version: 2,
                    timestamp: clock.now,
                    request_id: None,
                    payload: EventPayload::SubscriptionTerminated {
                        key: key.clone(),
                        cause: TerminationCause::ClientClosed,
                        last_error: None,
                        terminated_at: clock.now,
                    },
                },
            ),
        );
    }
    proof {
        let a = TerminateAnswers { token, text: frame_text, sent, clock };
        assert(host.log() == unsubscribe_and_terminate_log(before, *key, *table, a));
    }
}

/// The requests that send `text`, if the connection has a socket, with `warning`
/// where it is not taken.
pub open spec fn send_if_open_log(
    log: Log,
    url: WsUrl,
    table: SocketTable,
    text: String,
    sent: SendResult,
    warning: Note,
) -> Log {
    match table.sockets.at(url) {
        Some(cid) => {
            let log = asked(log, Request::SendFrame(url, cid, text), Reply::Send(sent));
            if sent == SendResult::Sent {
                log
            } else {
                said(log, warning)
            }
        },
        None => log,
    }
}

/// The requests of the unsubscribe in a book reseed.
pub open spec fn reseed_unsubscribe_log(
    log: Log,
    url: WsUrl,
    key: Key,
    table: SocketTable,
    text: String,
    sent: SendResult,
) -> Log {
    send_if_open_log(
        log,
        url,
        table,
        text,
        sent,
        Note::ReseedUnsubscribeUnsent { url, key, error: send_error(sent) },
    )
}

/// Sends a bare unsubscribe for a book reseed. The subscription stays registered
/// and nothing is announced: this is no teardown.
pub fn send_single_unsubscribe<F: Fn(Request) -> Reply>(
    host: &mut Link<F>,
    url: WsUrl,
    key: &Key,
    params: SubscribeParams,
    table: &SocketTable,
)
    ensures
        exists|text: String, sent: SendResult|
            {
                &&& final(host).log() == #[trigger] reseed_unsubscribe_log(
                    old(host).log(),
                    url,
                    *key,
                    *table,
                    text,
                    sent,
                )
                &&& text@ == json_text(unsubscribe_json(*key, Some(params), None))
            },
{
    let ghost before = host.log();
    let text = compose_unsubscribe_frame(key, &Some(params), &None);
    let ghost frame_text = text;
    let mut sent = SendResult::Sent;
    match table.sockets.get(url) {
        Some(cid) => {
            sent = host.send(url, cid, text);
            if !(sent == SendResult::Sent) {
                host.say(
                    Note::ReseedUnsubscribeUnsent {
                        url,
                        key: key.clone(),
                        error: send_error_of(sent),
                    },
                );
            }
        },
        None => {},
    }
    proof {
        assert(host.log() == reseed_unsubscribe_log(
            before,
            url,
            *key,
            *table,
            frame_text,
            sent,
        ));
    }
}

/// The other connection.
pub open spec fn other_url(url: WsUrl) -> WsUrl {
    match url {
        WsUrl::Public => WsUrl::Auth,
        WsUrl::Auth => WsUrl::Public,
    }
}

/// Projecting the socket of one connection leaves the other one alone, and the
/// table then says what the connection says.
pub proof fn projection_is_faithful(
    table: SocketTable,
    url: WsUrl,
    socket: Option<u64>,
    prev_cid: Option<u64>,
    bus_alive: bool,
)
    requires
        table.wf(),
    ensures
        ({
            let end = projected(table, url, socket, prev_cid, bus_alive);
            &&& end.wf()
            &&& end.sockets.at(url) == socket
            &&& end.sockets.at(other_url(url)) == table.sockets.at(other_url(url))
            &&& end.bridges.at(other_url(url)) == table.bridges.at(other_url(url))
        }),
{
}

/// Projecting the same socket again neither wires nor drops a bridge.
pub proof fn projection_wires_once(
    log: Log,
    table: SocketTable,
    url: WsUrl,
    socket: u64,
    clock: BusClock,
)
    ensures
        project_log(log, url, Some(socket), Some(socket), clock) == log,
        projected(table, url, Some(socket), Some(socket), clock.bus_alive).bridges
            == table.bridges,
{
}

/// Both views of a book, as all channels that share a wire entry, are on one
/// connection.
pub proof fn shared_entries_share_a_connection(channel: ChannelName)
    ensures
        channel_url(channel.wire_channel_spec()) == channel_url(channel),
{
}

/// An unsubscribe on the public connection carries no token, and asks for none.
pub proof fn public_unsubscribe_has_no_token(
    log: Log,
    key: Key,
    table: SocketTable,
    a: TerminateAnswers,
    b: TerminateAnswers,
)
    requires
        channel_url(key.channel) == WsUrl::Public,
        a.text == b.text && a.sent == b.sent && a.clock == b.clock,
    ensures
        unsubscribe_token(key.channel, a.token) is None,
        unsubscribe_and_terminate_log(log, key, table, a) == unsubscribe_and_terminate_log(
            log,
            key,
            table,
            b,
        ),
{
}

/// Whether the log grew by requests of which every frame goes to a socket in the
/// table.
pub open spec fn sends_in_use(before: Log, after: Log, table: SocketTable) -> bool {
    &&& extends(before, after)
    &&& forall|i: int|
        before.len() <= i < after.len() ==> match (#[trigger] after[i]).0 {
            Request::SendFrame(url, socket, _) => table.sockets.at(url) == Some(socket),
            _ => true,
        }
}

/// What holds of two stretches of requests holds of both together.
pub proof fn sends_in_use_together(before: Log, middle: Log, after: Log, table: SocketTable)
    requires
        sends_in_use(before, middle, table),
        sends_in_use(middle, after, table),
    ensures
        sends_in_use(before, after, table),
{
    assert forall|i: int| before.len() <= i < after.len() implies match (#[trigger] after[i]).0 {
        Request::SendFrame(url, socket, _) => table.sockets.at(url) == Some(socket),
        _ => true,
    } by {
        if i < middle.len() {
            assert(after[i] == middle[i]);
        }
    }
    assert forall|i: int| 0 <= i < before.len() implies #[trigger] after[i] == before[i] by {
        assert(after[i] == middle[i]);
        assert(middle[i] == before[i]);
    }
}

/// A socket that is new to a connection is bridged, where there is a bus for its
/// outcome; the socket that was there keeps its bridge; and a connection without a
/// socket has its bridge dropped and leaves the table.
pub proof fn a_new_socket_is_bridged(
    log: Log,
    table: SocketTable,
    url: WsUrl,
    socket: Option<u64>,
    prev_cid: Option<u64>,
    clock: BusClock,
)
    ensures
        ({
            let after = project_log(log, url, socket, prev_cid, clock);
            let end = projected(table, url, socket, prev_cid, clock.bus_alive);
            let bridged = picked(
                log,
                after,
                |request: Request|
                    request is WireUpgradeBridge || request is DropUpgradeBridge,
            );
            &&& extends(log, after)
            &&& end.sockets.at(url) == socket
            &&& match socket {
                Some(cid) => if socket != prev_cid && clock.bus_alive {
                    &&& bridged.len() == 1
                    &&& bridged[0].0 == Request::WireUpgradeBridge(url, cid)
                    &&& end.bridges.at(url) == socket
                } else {
                    &&& bridged.len() == 0
                    &&& end.bridges.at(url) == table.bridges.at(url)
                },
                None => {
                    &&& bridged.len() == 1
                    &&& bridged[0].0 == Request::DropUpgradeBridge(url)
                    &&& end.bridges.at(url) is None
                },
            }
        }),
{
    picking(
        log,
        |request: Request| request is WireUpgradeBridge || request is DropUpgradeBridge,
    );
}

/// An upgrade outcome reaches the reactor as what it was. A success that the queue
/// does not take is followed by a transient failure of the same connection, so that
/// the connection does not wait for ever; a failure is offered once.
pub proof fn an_upgrade_outcome_is_carried_over(
    log: Log,
    url: WsUrl,
    connection_id: u64,
    kind: TransportErrorKind,
    transient: bool,
    queued: QueueResult,
    fallback: QueueResult,
)
    ensures
        ({
            let ok = bridge_upgrade_ok_log(log, url, connection_id, queued, fallback);
            let failed = bridge_upgrade_failed_log(log, url, kind, transient, queued);
            let offered = |after: Log|
                picked(log, after, |request: Request| request is ForwardUpgrade);
            &&& offered(ok).len() == if queued == QueueResult::Taken {
                1nat
            } else {
                2
            }
            &&& offered(ok)[0] == (
                Request::ForwardUpgrade(UpgradeOutcome::Upgraded { url, connection_id }),
                Reply::Queue(queued),
            )
            &&& queued != QueueResult::Taken ==> match offered(ok)[1].0 {
                Request::ForwardUpgrade(UpgradeOutcome::Failed { url: of, kind, transient }) => of
                    == url && kind is AbnormalClose && transient,
                _ => false,
            }
            &&& offered(failed) == seq![
                (
                    Request::ForwardUpgrade(UpgradeOutcome::Failed { url, kind, transient }),
                    Reply::Queue(queued),
                ),
            ]
        }),
{
    let pick = |request: Request| request is ForwardUpgrade;
    picking(log, pick);
    let failed = bridge_upgrade_failed_log(log, url, kind, transient, queued);
    assert(picked(log, failed, pick) =~= seq![
        (
            Request::ForwardUpgrade(UpgradeOutcome::Failed { url, kind, transient }),
            Reply::Queue(queued),
        ),
    ]);
}

/// A subscription that ends on the caller's wish is unsubscribed on the socket of its
/// own connection, which for the account channels is the auth one, and its end is
/// announced once, as closed by the client and at the instant of the bus. An auth
/// unsubscribe carries the cached token, expired or not.
pub proof fn an_ended_subscription_is_unsubscribed_and_announced(
    log: Log,
    key: Key,
    params: Option<SubscribeParams>,
    table: SocketTable,
    a: TerminateAnswers,
)
    requires
        a.text@ == json_text(
            unsubscribe_json(key, params, unsubscribe_token(key.channel, a.token)),
        ),
    ensures
        ({
            let after = unsubscribe_and_terminate_log(log, key, table, a);
            let account = key.channel == ChannelName::Executions || key.channel
                == ChannelName::Balances;
            let url = if account {
                WsUrl::Auth
            } else {
                WsUrl::Public
            };
            &&& extends(log, after)
            &&& channel_url(key.channel) == url
            &&& happened(log, after, Effect::Send) == match table.sockets.at(url) {
                Some(socket) => seq![Request::SendFrame(url, socket, a.text)],
                None => Seq::empty(),
            }
            &&& account ==> after[log.len() as int] == (
                Request::CachedToken(None),
                Reply::Token(a.token),
            )
            &&& a.text@ == json_text(
                unsubscribe_json(
                    key,
                    params,
                    match a.token {
                        Some(token) => if account {
                            Some(token.value@)
                        } else {
                            None
                        },
                        None => None,
                    },
                ),
            )
            &&& happened(log, after, Effect::Announce) == if a.clock.bus_alive {
                seq![
                    Request::Publish(
                        EventEnvelope {
                            event_version: 2,
                            timestamp: a.clock.now,
                            request_id: None,
                            payload: EventPayload::SubscriptionTerminated {
                                key,
                                cause: TerminationCause::ClientClosed,
                                last_error: None,
                                terminated_at: a.clock.now,
                            },
                        },
                    ),
                ]
            } else {
                Seq::empty()
            }
        }),
{
    let after = unsubscribe_and_terminate_log(log, key, table, a);
    let url = channel_url(key.channel);
    let n: int = log.len() + if url == WsUrl::Auth {
        1int
    } else {
        0int
    };
    if table.sockets.at(url) is Some {
        happened_once(log, after, Effect::Send, n);
    } else {
        assert(grew_without(log, after, Effect::Send));
        nothing_happened(log, after, Effect::Send);
    }
    if a.clock.bus_alive {
        happened_once(log, after, Effect::Announce, after.len() - 1);
    } else {
        assert(grew_without(log, after, Effect::Announce));
        nothing_happened(log, after, Effect::Announce);
    }
}

} // verus!
