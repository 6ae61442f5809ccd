//! The flag that says whether a bare order may be sent on the auth connection.

use crate::host::{
    asked, extends, grew_without, happened, happened_once, last_set, last_set_at, nothing_happened,
    told, BusClock, CachedToken, Effect, Flag, Link, Log, Reply, Request,
};
use crate::types::{ConnectionState, EventEnvelope, EventPayload, WsUrl};
use vstd::prelude::*;

verus! {

/// Whether there is a token, and it has not expired.
pub open spec fn token_valid(token: Option<CachedToken>) -> bool {
    token is Some && !token->Some_0.expired
}

pub fn is_token_valid(token: &Option<CachedToken>) -> (valid: bool)
    ensures
        valid == token_valid(*token),
{
    match token {
        Some(token) => !token.expired,
        None => false,
    }
}

/// Whether a bare order may be sent: the auth connection is authenticating, no
/// subscription can serve as the probe, and there is a token to send.
pub open spec fn send_ready(
    url: WsUrl,
    state: ConnectionState,
    auth_has_entry: bool,
    token: Option<CachedToken>,
) -> bool {
    &&& url == WsUrl::Auth
    &&& state == ConnectionState::Authenticating
    &&& !auth_has_entry
    &&& token_valid(token)
}

/// What the flag is computed from.
pub struct SendReadyReads {
    pub now: u64,
    pub auth_has_entry: bool,
    pub token: Option<CachedToken>,
}

pub open spec fn store_send_ready_log(
    log: Log,
    url: WsUrl,
    state: ConnectionState,
    reads: SendReadyReads,
) -> Log {
    let log = asked(log, Request::ConnClock(url), Reply::Instant(reads.now));
    let log = if url == WsUrl::Auth && state == ConnectionState::Authenticating {
        let log = asked(
            log,
            Request::HasUrlEntry(WsUrl::Auth),
            Reply::Flag(reads.auth_has_entry),
        );
        if reads.auth_has_entry {
            log
        } else {
            asked(log, Request::CachedToken(Some(reads.now)), Reply::Token(reads.token))
        }
    } else {
        log
    };
    told(
        log,
        Request::StoreAuthSendReady(send_ready(url, state, reads.auth_has_entry, reads.token)),
    )
}

/// Recomputes and stores the send-ready flag of the connection in `state`,
/// without an event.
pub fn store_send_ready<F: Fn(Request) -> Reply>(
    host: &mut Link<F>,
    url: WsUrl,
    state: ConnectionState,
) -> (ready: bool)
    ensures
        exists|reads: SendReadyReads|
            {
                &&& final(host).log() == #[trigger] store_send_ready_log(
                    old(host).log(),
                    url,
                    state,
                    reads,
                )
                &&& ready == send_ready(url, state, reads.auth_has_entry, reads.token)
            },
{
    let ghost before = host.log();
    let now: u64 = host.conn_clock(url);
    let mut auth_has_entry = false;
    let mut token: Option<CachedToken> = None;
    if url == WsUrl::Auth && state == ConnectionState::Authenticating {
        auth_has_entry = host.flag(Request::HasUrlEntry(WsUrl::Auth));
        if !auth_has_entry {
            token = host.token(Some(now));
        }
    }
    let ready = is_token_valid(&token);
    host.tell(Request::StoreAuthSendReady(ready));
    proof {
        let reads = SendReadyReads { now, auth_has_entry, token };
        assert(host.log() == store_send_ready_log(before, url, state, reads));
    }
    ready
}

/// The event that announces a send-ready connection.
pub open spec fn send_ready_event(url: WsUrl, now: u64) -> EventEnvelope {
    EventEnvelope {
        event_version: 1,
        timestamp: now,
        request_id: None,
        payload: EventPayload::ConnectionSendReady { url, ready_at: now },
    }
}

pub open spec fn refresh_send_ready_log(
    log: Log,
    url: WsUrl,
    state: ConnectionState,
    reads: SendReadyReads,
    clock: BusClock,
) -> Log {
    let log = store_send_ready_log(log, url, state, reads);
    if send_ready(url, state, reads.auth_has_entry, reads.token) {
        let log = asked(log, Request::BusClock, Reply::Clock(clock));
        if clock.bus_alive {
            told(log, Request::Publish(send_ready_event(url, clock.now)))
        } else {
            log
        }
    } else {
        log
    }
}

/// Recomputes and stores the send-ready flag, and announces the connection if it
/// is ready. Announcing one twice is harmless.
pub fn refresh_send_ready<F: Fn(Request) -> Reply>(
    host: &mut Link<F>,
    url: WsUrl,
    state: ConnectionState,
)
    ensures
        exists|reads: SendReadyReads, clock: BusClock|
            final(host).log() == #[trigger] refresh_send_ready_log(
                old(host).log(),
                url,
                state,
                reads,
                clock,
            ),
{
    let ghost before = host.log();
    let ready = store_send_ready(host, url, state);
    let ghost reads = choose|reads: SendReadyReads|
        {
            &&& host.log() == #[trigger] store_send_ready_log(before, url, state, reads)
            &&& ready == send_ready(url, state, reads.auth_has_entry, reads.token)
        };
    if !ready {
        proof {
            let clock = BusClock { bus_alive: false, now: 0 };
            assert(host.log() == refresh_send_ready_log(before, url, state, reads, clock));
        }
        return ;
    }
    let clock = host.bus_clock();
    if clock.bus_alive {
        host.tell(
            Request::Publish(
                EventEnvelope {
                    event_version: 1,
                    timestamp: clock.now,
                    request_id: None,
                    payload: EventPayload::ConnectionSendReady { url, ready_at: clock.now },
                },
            ),
        );
    }
    proof {
        assert(host.log() == refresh_send_ready_log(before, url, state, reads, clock));
    }
}

/// Storing the flag announces nothing and sends nothing; refreshing it announces
/// the connection exactly when it is ready and there is a bus.
pub proof fn only_a_ready_connection_is_announced(
    log: Log,
    url: WsUrl,
    state: ConnectionState,
    reads: SendReadyReads,
    clock: BusClock,
)
    ensures
        grew_without(log, store_send_ready_log(log, url, state, reads), Effect::Announce),
        grew_without(log, refresh_send_ready_log(log, url, state, reads, clock), Effect::Send),
        grew_without(log, refresh_send_ready_log(log, url, state, reads, clock), Effect::Drive),
        grew_without(log, refresh_send_ready_log(log, url, state, reads, clock), Effect::Refresh),
        grew_without(log, refresh_send_ready_log(log, url, state, reads, clock), Effect::Announce)
            <==> !(send_ready(url, state, reads.auth_has_entry, reads.token) && clock.bus_alive),
{
    let after = refresh_send_ready_log(log, url, state, reads, clock);
    if send_ready(url, state, reads.auth_has_entry, reads.token) && clock.bus_alive {
        assert(after.last().0.effect() is Announce);
    }
}

/// A bare order may be sent exactly on the auth connection, while it authenticates,
/// where it has no subscription to send in its place, and with a token that has not
/// expired by the clock of the connection. The flag is stored either way, and last;
/// where it is refreshed, the same decides whether the connection is announced.
pub proof fn the_flag_says_whether_an_order_may_be_sent(
    log: Log,
    url: WsUrl,
    state: ConnectionState,
    reads: SendReadyReads,
    clock: BusClock,
)
    ensures
        ({
            let stored = store_send_ready_log(log, url, state, reads);
            let after = refresh_send_ready_log(log, url, state, reads, clock);
            let looks = url == WsUrl::Auth && state == ConnectionState::Authenticating;
            let ready = looks && !reads.auth_has_entry && reads.token is Some
                && !reads.token->Some_0.expired;
            let n = log.len() as int;
            &&& extends(log, stored)
            &&& extends(stored, after)
            &&& stored.last().0 == Request::StoreAuthSendReady(ready)
            &&& last_set(after, Flag::AuthSendReady) == Some(ready)
            &&& stored[n] == (Request::ConnClock(url), Reply::Instant(reads.now))
            &&& looks ==> stored[n + 1] == (
                Request::HasUrlEntry(WsUrl::Auth),
                Reply::Flag(reads.auth_has_entry),
            )
            &&& looks && !reads.auth_has_entry ==> stored[n + 2] == (
                Request::CachedToken(Some(reads.now)),
                Reply::Token(reads.token),
            )
            &&& happened(log, after, Effect::Announce) == if ready && clock.bus_alive {
                seq![
                    Request::Publish(
                        EventEnvelope {
                            event_version: 1,
                            timestamp: clock.now,
                            request_id: None,
                            payload: EventPayload::ConnectionSendReady {
                                url,
                                ready_at: clock.now,
                            },
                        },
                    ),
                ]
            } else {
                Seq::empty()
            }
        }),
{
    let stored = store_send_ready_log(log, url, state, reads);
    let after = refresh_send_ready_log(log, url, state, reads, clock);
    assert(after[stored.len() - 1] == stored[stored.len() - 1]);
    last_set_at(after, Flag::AuthSendReady, stored.len() - 1);
    if send_ready(url, state, reads.auth_has_entry, reads.token) && clock.bus_alive {
        happened_once(log, after, Effect::Announce, after.len() - 1);
    } else {
        assert(grew_without(log, after, Effect::Announce));
        nothing_happened(log, after, Effect::Announce);
    }
}

} // verus!
