//! Acknowledgements of subscribes and unsubscribes.

use crate::classify::{
    auth_class, classify_auth_handshake_error, handshake_error, says_rate_limited,
    subscribe_rejection_is_transient,
};
use crate::host::{
    asked, each_obeys, each_obeys_together, extends, grew_without, happened, happened_once,
    happened_together, last_set, last_told, made, nothing_happened, nothing_shown, picked,
    picked_together, picking, showing, shows_together, shows_what_is, told, BusClock, ConnView,
    Effect, Flag, Link, Log, Reply, Request,
};
use crate::json;
use crate::json::{json_of, Json};
use crate::notes::Note;
use crate::send_ready::{
    refresh_send_ready, refresh_send_ready_log, the_flag_says_whether_an_order_may_be_sent,
    token_valid, SendReadyReads,
};
use crate::socket_lifecycle::{sends_in_use, sends_in_use_together, write_mirror, SocketTable};
use crate::subscribe_send::{
    a_replay_sends_on_the_socket_in_use, a_replay_stays_on_its_connection, is_of_subscribing,
    remaining_log, replay_of, send_remaining_signed_subscribes, RemainingAnswers,
};
use crate::text::{contains, has_substring, same_text};
use crate::throttle::{
    suppress_warn_log, suppress_warn_throttled, warn_due, warn_times, SuppressWarnTracker,
    WarnTimes,
};
use crate::types::{
    AuthErrorKind, ChannelName, ConnectionState, EventEnvelope, EventPayload, FsmEvent, Key, Symbol,
    TerminationCause, Text, WsUrl,
};
use serde_json::Value;
use vstd::prelude::*;

verus! {

/// The event of a failed handshake.
pub open spec fn auth_handshake_failed_event(
    url: WsUrl,
    attempt: u32,
    kind: AuthErrorKind,
    error: Text,
    now: u64,
) -> EventEnvelope {
    EventEnvelope {
        event_version: 1,
        timestamp: now,
        request_id: None,
        payload: EventPayload::AuthHandshakeFailed {
            url,
            attempt,
            transient: kind == AuthErrorKind::Transient,
            kraken_error: error,
        },
    }
}

pub open spec fn auth_handshake_failed_log(
    log: Log,
    url: WsUrl,
    attempt: u32,
    kind: AuthErrorKind,
    error: Text,
    clock: BusClock,
) -> Log {
    let log = asked(log, Request::BusClock, Reply::Clock(clock));
    if clock.bus_alive {
        told(
            log,
            Request::Publish(auth_handshake_failed_event(url, attempt, kind, error, clock.now)),
        )
    } else {
        log
    }
}

/// Announces a failed handshake.
pub fn emit_auth_handshake_failed<F: Fn(Request) -> Reply>(
    host: &mut Link<F>,
    url: WsUrl,
    attempt: u32,
    kind: AuthErrorKind,
    error: Text,
)
    ensures
        exists|clock: BusClock|
            final(host).log() == #[trigger] auth_handshake_failed_log(
                old(host).log(),
                url,
                attempt,
                kind,
                error,
                clock,
            ),
{
    let ghost before = host.log();
    let ghost text = error;
    let clock = host.bus_clock();
    if clock.bus_alive {
        host.tell(
            Request::Publish(
                EventEnvelope {
                    event_version: 1,
                    timestamp: clock.now,
                    request_id: None,
                    payload: EventPayload::AuthHandshakeFailed {
                        url,
                        attempt,
                        transient: kind == AuthErrorKind::Transient,
                        kraken_error: error,
                    },
                },
            ),
        );
    }
    proof {
        assert(host.log() == auth_handshake_failed_log(before, url, attempt, kind, text, clock));
    }
}

/// Whether a frame acknowledges a subscribe.
pub open spec fn is_subscribe_ack(json: Json) -> bool {
    json.str_at("method"@) == Some("subscribe"@)
}

/// Whether a frame acknowledges an unsubscribe.
pub open spec fn is_unsubscribe_ack(json: Json) -> bool {
    json.str_at("method"@) == Some("unsubscribe"@)
}

/// Whether an acknowledgement is a success: only one that says so is.
pub open spec fn ack_success(json: Json) -> bool {
    json.bool_at("success"@) == Some(true)
}

/// A field of an acknowledgement: under `result`, as a success has it, or else at
/// the top.
pub open spec fn ack_field(json: Json, name: Seq<char>) -> Option<Json> {
    match json.get("result"@) {
        Some(result) => match result.get(name) {
            Some(field) => Some(field),
            None => json.get(name),
        },
        None => json.get(name),
    }
}

/// The text of such a field.
pub open spec fn ack_str(json: Json, name: Seq<char>) -> Option<Seq<char>> {
    match ack_field(json, name) {
        Some(field) => field.as_str(),
        None => None,
    }
}

fn read_ack_str<'a>(json: &'a Value, name: &str) -> (text: Option<&'a str>)
    ensures
        match text {
            Some(text) => ack_str(json_of(*json), name@) == Some(text@),
            None => ack_str(json_of(*json), name@) is None,
        },
{
    let nested = match json::get(json, "result") {
        Some(result) => json::get(result, name),
        None => None,
    };
    let field = match nested {
        Some(field) => Some(field),
        None => json::get(json, name),
    };
    match field {
        Some(field) => field.as_str(),
        None => None,
    }
}

/// The channel that an acknowledgement names.
pub open spec fn ack_channel(json: Json) -> Option<ChannelName> {
    match ack_str(json, "channel"@) {
        Some(name) => ChannelName::of_wire_str(name),
        None => None,
    }
}

/// What the acknowledgement of a handshake met.
pub struct HandshakeAnswers {
    pub after: ConnView,
    pub remaining: RemainingAnswers,
    pub completed: ConnView,
    pub failed_clock: BusClock,
    pub awaiting: bool,
    pub reads: SendReadyReads,
    pub ready_clock: BusClock,
}

/// What an acknowledgement met.
pub struct SubAckAnswers {
    pub warn_clock: BusClock,
    pub name: String,
    pub parsed: Option<Symbol>,
    pub conn: Option<ConnView>,
    pub resolved: Option<Key>,
    pub error: Text,
    pub handshake: HandshakeAnswers,
    pub armed: bool,
    pub pending: u64,
    pub after: ConnView,
}

/// The subscription that an acknowledgement is about: by the channel it names, or
/// by its request id where it names none.
pub open spec fn ack_key(json: Json, a: SubAckAnswers) -> Option<Key> {
    match ack_channel(json) {
        Some(channel) => Some(
            Key {
                channel,
                pair: if ack_str(json, "symbol"@) is Some {
                    a.parsed
                } else {
                    None
                },
            },
        ),
        None => if json.u64_at("req_id"@) is Some {
            a.resolved
        } else {
            None
        },
    }
}

/// The site of the warning about an acknowledgement that does not say whether it
/// is a success.
pub open spec fn no_success_site(url: WsUrl) -> Seq<char> {
    match url {
        WsUrl::Auth => "sub-ack-no-success-auth"@,
        WsUrl::Public => "sub-ack-no-success-public"@,
    }
}

/// Whether `text` is the error of a frame, or `default` where it has none.
pub open spec fn is_error_text(json: Json, default: &'static str, text: Text) -> bool {
    match json.str_at("error"@) {
        Some(error) => text is Owned && text@ == error,
        None => text == Text::Fixed(default),
    }
}

fn error_text(json: &Value, default: &'static str) -> (text: Text)
    ensures
        is_error_text(json_of(*json), default, text),
{
    match json::string_at(json, "error") {
        Some(error) => Text::Owned(error),
        None => Text::Fixed(default),
    }
}

/// The warning about a missing `success`, and the pair that the frame names.
pub open spec fn ack_opening_log(
    log: Log,
    url: WsUrl,
    json: Json,
    warns: WarnTimes,
    a: SubAckAnswers,
) -> Log {
    let log = if json.bool_at("success"@) is None {
        suppress_warn_log(
            log,
            warns,
            no_success_site(url),
            None,
            Note::AckWithoutSuccess { url },
            a.warn_clock,
        )
    } else {
        log
    };
    let log = if ack_str(json, "symbol"@) is Some {
        asked(log, Request::ParseSymbol(a.name), Reply::Symbol(a.parsed))
    } else {
        log
    };
    let log = asked(log, Request::Conn(url), Reply::Conn(a.conn));
    if a.conn is Some && ack_channel(json) is None && json.u64_at("req_id"@) is Some {
        asked(
            log,
            Request::ResolveSubscribeReqId(url, json.u64_at("req_id"@)->Some_0),
            Reply::Key(a.resolved),
        )
    } else {
        log
    }
}

/// The acknowledgement of the first signed subscribe, which decides the handshake.
pub open spec fn handshake_log(
    log: Log,
    url: WsUrl,
    success: bool,
    error: Text,
    attempt: u32,
    key: Key,
    table: SocketTable,
    a: HandshakeAnswers,
) -> Log {
    let replays = success && a.after.state == ConnectionState::Resubscribing;
    let log = if success {
        let log = asked(
            log,
            Request::HandleEvent(url, FsmEvent::WireAuthHandshakeOk),
            Reply::View(a.after),
        );
        let log = told(log, Request::DisarmSubscribeAck(url, key));
        let log = told(log, Request::NoteAcked(key));
        let log = told(log, Request::RemoveDeferredAuthSubscribe(url, key));
        if replays {
            asked(
                remaining_log(log, url, Some(key), table, a.remaining),
                Request::CompleteResubscribeIfEmpty(url),
                Reply::View(a.completed),
            )
        } else {
            log
        }
    } else {
        let kind = handshake_error(error@);
        let log = auth_handshake_failed_log(
            log,
            url,
            attempt,
            kind,
            error,
            a.failed_clock,
        );
        let log = asked(
            log,
            Request::HandleEvent(url, FsmEvent::WireAuthHandshakeFailed { kind }),
            Reply::View(a.after),
        );
        let log = told(log, Request::DisarmSubscribeAck(url, key));
        if a.after.state == ConnectionState::Authenticating {
            let log = asked(
                log,
                Request::IsAwaitingTokenRefresh(url),
                Reply::Flag(a.awaiting),
            );
            if a.awaiting {
                told(log, Request::ForceRefresh)
            } else {
                log
            }
        } else {
            log
        }
    };
    let state = if replays {
        a.completed.state
    } else {
        a.after.state
    };
    let log = told(log, Request::StoreMirror(url, state));
    refresh_send_ready_log(log, url, state, a.reads, a.ready_clock)
}

/// Whether a rejection stands for an acknowledgement: the status channel answers a
/// subscribe with nothing else.
pub open spec fn status_quirk(json: Json, key: Key) -> bool {
    &&& key.channel == ChannelName::Status
    &&& !ack_success(json)
    &&& json.str_at("error"@) is Some
    &&& has_substring(json.str_at("error"@)->Some_0, "Symbol(s) not found"@)
}

/// An acknowledgement that nothing waits for. A late success proves that the
/// subscription is live, so everything that would subscribe it again is dropped.
pub open spec fn unarmed_log(
    log: Log,
    url: WsUrl,
    success: bool,
    key: Key,
    after: ConnView,
) -> Log {
    if success {
        let log = told(log, Request::DisarmSubscribeAck(url, key));
        let log = told(log, Request::RemoveDeferredAuthSubscribe(url, key));
        let log = asked(log, Request::CompleteResubscribeIfEmpty(url), Reply::View(after));
        told(log, Request::StoreMirror(url, after.state))
    } else {
        log
    }
}

/// An acknowledgement that was waited for.
pub open spec fn armed_log(
    log: Log,
    url: WsUrl,
    acks: bool,
    error: Text,
    key: Key,
    pending: u64,
    after: ConnView,
) -> Log {
    let log = if acks {
        let log = asked(
            log,
            Request::PendingSubscribeAckCount(url),
            Reply::Count(pending),
        );
        let log = told(log, Request::NoteAcked(key));
        let log = told(log, Request::RemoveDeferredAuthSubscribe(url, key));
        asked(
            log,
            Request::HandleEvent(
                url,
                FsmEvent::WireSubscribeAck { key, last: pending <= 1 },
            ),
            Reply::View(after),
        )
    } else {
        let transient = says_rate_limited(error@);
        let log = if transient {
            log
        } else {
            told(
                told(
                    log,
                    Request::NoteTerminated(
                        key,
                        TerminationCause::NonTransientWireRejection,
                        error,
                    ),
                ),
                Request::DisarmBookReseedSnapshot(url, key),
            )
        };
        asked(
            log,
            Request::HandleEvent(
                url,
                FsmEvent::WireSubscribeFailed { key, kraken_code: error, transient },
            ),
            Reply::View(after),
        )
    };
    told(log, Request::StoreMirror(url, after.state))
}

pub open spec fn sub_ack_log(
    log: Log,
    url: WsUrl,
    json: Json,
    warns: WarnTimes,
    table: SocketTable,
    a: SubAckAnswers,
) -> Log {
    if !is_subscribe_ack(json) {
        log
    } else {
        let log = ack_opening_log(log, url, json, warns, a);
        if a.conn is None || ack_key(json, a) is None {
            log
        } else {
            let key = ack_key(json, a)->Some_0;
            if a.conn->Some_0.state == ConnectionState::Authenticating {
                handshake_log(
                    log,
                    url,
                    ack_success(json),
                    a.error,
                    a.conn->Some_0.attempt_count,
                    key,
                    table,
                    a.handshake,
                )
            } else {
                let log = asked(
                    log,
                    Request::IsSubscribeAckArmed(url, key),
                    Reply::Flag(a.armed),
                );
                if a.armed {
                    armed_log(
                        log,
                        url,
                        ack_success(json) || status_quirk(json, key),
                        a.error,
                        key,
                        a.pending,
                        a.after,
                    )
                } else {
                    unarmed_log(log, url, ack_success(json), key, a.after)
                }
            }
        }
    }
}

/// The warning times after an acknowledgement.
pub open spec fn sub_ack_warns(
    warns: WarnTimes,
    url: WsUrl,
    json: Json,
    a: SubAckAnswers,
) -> WarnTimes {
    if is_subscribe_ack(json) && json.bool_at("success"@) is None {
        warn_times(warns, no_success_site(url), None, a.warn_clock.now)
    } else {
        warns
    }
}

/// The texts in the answers are those of the frame, and the replay that follows a
/// handshake is a whole one.
pub open spec fn sub_ack_texts(
    url: WsUrl,
    json: Json,
    table: SocketTable,
    a: SubAckAnswers,
) -> bool {
    &&& ack_str(json, "symbol"@) is Some ==> ack_str(json, "symbol"@) == Some(a.name@)
    &&& a.conn is Some && !ack_success(json) ==> is_error_text(
        json,
        if a.conn->Some_0.state == ConnectionState::Authenticating {
            "auth handshake rejected"
        } else {
            "subscribe rejected"
        },
        a.error,
    )
    &&& a.conn is Some && a.conn->Some_0.state == ConnectionState::Authenticating && ack_key(
        json,
        a,
    ) is Some ==> whole_replay(url, ack_success(json), table, a.handshake)
}

/// Whether the replay that follows a successful handshake is a whole one.
pub open spec fn whole_replay(
    url: WsUrl,
    success: bool,
    table: SocketTable,
    a: HandshakeAnswers,
) -> bool {
    success && a.after.state == ConnectionState::Resubscribing && token_valid(a.remaining.token)
        && table.sockets.at(url) is Some ==> replay_of(a.remaining.frames@, a.remaining.issues)
}

fn ack_handshake<F: Fn(Request) -> Reply>(
    host: &mut Link<F>,
    url: WsUrl,
    success: bool,
    error: Text,
    attempt: u32,
    key: Key,
    table: &SocketTable,
)
    ensures
        exists|a: HandshakeAnswers|
            {
                &&& final(host).log() == #[trigger] handshake_log(
                    old(host).log(),
                    url,
                    success,
                    error,
                    attempt,
                    key,
                    *table,
                    a,
                )
                &&& whole_replay(url, success, *table, a)
            },
{
    let ghost before = host.log();
    let ghost text = error;
    let ghost mut a: HandshakeAnswers = arbitrary();
    let last;
    if success {
        let after = host.view(Request::HandleEvent(url, FsmEvent::WireAuthHandshakeOk));
        proof {
            a.after = after;
        }
        host.tell(Request::DisarmSubscribeAck(url, key.clone()));
        host.tell(Request::NoteAcked(key.clone()));
        host.tell(Request::RemoveDeferredAuthSubscribe(url, key.clone()));
        if after.state == ConnectionState::Resubscribing {
            let ghost acked = host.log();
            let sent = Some(key.clone());
            send_remaining_signed_subscribes(host, url, &sent, table);
            proof {
                a.remaining = choose|r: RemainingAnswers|
                    {
                        &&& host.log() == #[trigger] remaining_log(
                            acked,
                            url,
                            Some(key),
                            *table,
                            r,
                        )
                        &&& token_valid(r.token) && table.sockets.at(url) is Some ==> replay_of(
                            r.frames@,
                            r.issues,
                        )
                    };
            }
            last = host.view(Request::CompleteResubscribeIfEmpty(url));
            proof {
                a.completed = last;
            }
        } else {
            last = after;
        }
    } else {
        let kind = classify_auth_handshake_error(error.as_str());
        emit_auth_handshake_failed(host, url, attempt, kind, error);
        proof {
            a.failed_clock = choose|clock: BusClock|
                host.log() == #[trigger] auth_handshake_failed_log(
                    before,
                    url,
                    attempt,
                    kind,
                    text,
                    clock,
                );
        }
        last = host.view(Request::HandleEvent(url, FsmEvent::WireAuthHandshakeFailed { kind }));
        proof {
            a.after = last;
        }
        host.tell(Request::DisarmSubscribeAck(url, key.clone()));
        if last.state == ConnectionState::Authenticating {
            let awaiting = host.flag(Request::IsAwaitingTokenRefresh(url));
            proof {
                a.awaiting = awaiting;
            }
            if awaiting {
                host.tell(Request::ForceRefresh);
            }
        }
    }
    write_mirror(host, url, last.state);
    let ghost mirrored = host.log();
    refresh_send_ready(host, url, last.state);
    proof {
        let (reads, clock) = choose|reads: SendReadyReads, clock: BusClock|
            host.log() == #[trigger] refresh_send_ready_log(
                mirrored,
                url,
                last.state,
                reads,
                clock,
            );
        a.reads = reads;
        a.ready_clock = clock;
        assert(host.log() == handshake_log(
            before,
            url,
            success,
            text,
            attempt,
            key,
            *table,
            a,
        ));
    }
}

fn ack_armed<F: Fn(Request) -> Reply>(
    host: &mut Link<F>,
    url: WsUrl,
    acks: bool,
    error: Text,
    key: Key,
)
    ensures
        exists|pending: u64, after: ConnView|
            final(host).log() == #[trigger] armed_log(
                old(host).log(),
                url,
                acks,
                error,
                key,
                pending,
                after,
            ),
{
    let ghost before = host.log();
    let ghost subscription = key;
    let ghost text = error;
    let mut pending: u64 = 0;
    let after = if acks {
        pending = host.count(Request::PendingSubscribeAckCount(url));
        host.tell(Request::NoteAcked(key.clone()));
        host.tell(Request::RemoveDeferredAuthSubscribe(url, key.clone()));
        host.view(
            Request::HandleEvent(url, FsmEvent::WireSubscribeAck { key, last: pending <= 1 }),
        )
    } else {
        let transient = subscribe_rejection_is_transient(error.as_str());
        if !transient {
            host.tell(
                Request::NoteTerminated(
                    key.clone(),
                    TerminationCause::NonTransientWireRejection,
                    error.clone(),
                ),
            );
            host.tell(Request::DisarmBookReseedSnapshot(url, key.clone()));
        }
        host.view(
            Request::HandleEvent(
                url,
                FsmEvent::WireSubscribeFailed { key, kraken_code: error, transient },
            ),
        )
    };
    write_mirror(host, url, after.state);
    proof {
        assert(host.log() == armed_log(before, url, acks, text, subscription, pending, after));
    }
}

fn ack_unarmed<F: Fn(Request) -> Reply>(
    host: &mut Link<F>,
    url: WsUrl,
    success: bool,
    key: Key,
)
    ensures
        exists|after: ConnView|
            final(host).log() == #[trigger] unarmed_log(
                old(host).log(),
                url,
                success,
                key,
                after,
            ),
{
    let ghost before = host.log();
    let ghost subscription = key;
    if success {
        host.tell(Request::DisarmSubscribeAck(url, key.clone()));
        host.tell(Request::RemoveDeferredAuthSubscribe(url, key));
        let after = host.view(Request::CompleteResubscribeIfEmpty(url));
        write_mirror(host, url, after.state);
        proof {
            assert(host.log() == unarmed_log(before, url, success, subscription, after));
        }
    } else {
        proof {
            let after: ConnView = arbitrary();
            assert(host.log() == unarmed_log(before, url, success, subscription, after));
        }
    }
}

/// Acts on a frame if it acknowledges a subscribe or an unsubscribe; `true` if it
/// does.
///
/// While the connection authenticates, the acknowledgement decides the handshake.
/// An acknowledgement that nothing waits for moves no state. One that does not say
/// whether it is a success counts as a failure. A rejection ends the subscription
/// unless it is a rate limit.
pub fn handle_sub_ack<F: Fn(Request) -> Reply>(
    host: &mut Link<F>,
    url: WsUrl,
    json: &Value,
    warns: &mut SuppressWarnTracker,
    table: &SocketTable,
) -> (consumed: bool)
    ensures
        consumed == (is_subscribe_ack(json_of(*json)) || is_unsubscribe_ack(json_of(*json))),
        exists|a: SubAckAnswers|
            {
                &&& final(host).log() == #[trigger] sub_ack_log(
                    old(host).log(),
                    url,
                    json_of(*json),
                    old(warns)@,
                    *table,
                    a,
                )
                &&& final(warns)@ == sub_ack_warns(old(warns)@, url, json_of(*json), a)
                &&& is_subscribe_ack(json_of(*json)) ==> sub_ack_texts(
                    url,
                    json_of(*json),
                    *table,
                    a,
                )
            },
{
    let ghost before = host.log();
    let ghost times = warns@;
    let ghost tree = json_of(*json);
    let ghost mut a: SubAckAnswers = arbitrary();
    let method = match json::str_at(json, "method") {
        Some(method) => method,
        None => {
            proof {
                assert(host.log() == sub_ack_log(before, url, tree, times, *table, a));
            }
            return false;
        },
    };
    if !same_text(method, "subscribe") {
        let unsubscribed = same_text(method, "unsubscribe");
        proof {
            assert(host.log() == sub_ack_log(before, url, tree, times, *table, a));
        }
        return unsubscribed;
    }
    proof {
        reveal_strlit("subscribe");
        reveal_strlit("unsubscribe");
        assert(is_subscribe_ack(tree));
    }
    let success_flag = json::bool_at(json, "success");
    if success_flag.is_none() {
        let site = match url {
            WsUrl::Auth => "sub-ack-no-success-auth",
            WsUrl::Public => "sub-ack-no-success-public",
        };
        suppress_warn_throttled(
            host,
            site,
            None,
            warns,
            Note::AckWithoutSuccess { url },
        );
        proof {
            a.warn_clock = choose|clock: BusClock|
                {
                    &&& host.log() == #[trigger] suppress_warn_log(
                        before,
                        times,
                        site@,
                        None,
                        Note::AckWithoutSuccess { url },
                        clock,
                    )
                    &&& warns@ == warn_times(times, site@, None, clock.now)
                };
        }
    }
    let success = match success_flag {
        Some(success) => success,
        None => false,
    };
    let channel = match read_ack_str(json, "channel") {
        Some(name) => ChannelName::from_wire_str(name),
        None => None,
    };
    let mut pair: Option<Symbol> = None;
    match read_ack_str(json, "symbol") {
        Some(name) => {
            let name = name.to_owned();
            proof {
                a.name = name;
            }
            pair = host.symbol(name);
            proof {
                a.parsed = pair;
            }
        },
        None => {},
    }
    let req_id = json::u64_at(json, "req_id");
    let found = host.conn(url);
    proof {
        a.conn = found;
    }
    let error = error_text(
        json,
        match found {
            Some(conn) => if conn.state == ConnectionState::Authenticating {
                "auth handshake rejected"
            } else {
                "subscribe rejected"
            },
            None => "subscribe rejected",
        },
    );
    proof {
        a.error = error;
    }
    let conn = match found {
        Some(conn) => conn,
        None => {
            proof {
                assert(host.log() == sub_ack_log(before, url, tree, times, *table, a));
            }
            return true;
        },
    };
    let key = match channel {
        Some(channel) => Key { channel, pair },
        None => {
            let resolved = match req_id {
                Some(req_id) => host.key(Request::ResolveSubscribeReqId(url, req_id)),
                None => None,
            };
            proof {
                a.resolved = resolved;
            }
            match resolved {
                Some(key) => key,
                None => {
                    proof {
                        assert(host.log() == sub_ack_log(before, url, tree, times, *table, a));
                    }
                    return true;
                },
            }
        },
    };
    let ghost opened = host.log();
    proof {
        assert(opened == ack_opening_log(before, url, tree, times, a));
        assert(ack_key(tree, a) == Some(key));
    }
    if conn.state == ConnectionState::Authenticating {
        let ghost text = error;
        let ghost subscription = key;
        ack_handshake(host, url, success, error, conn.attempt_count, key, table);
        proof {
            a.handshake = choose|h: HandshakeAnswers|
                {
                    &&& host.log() == #[trigger] handshake_log(
                        opened,
                        url,
                        success,
                        text,
                        conn.attempt_count,
                        subscription,
                        *table,
                        h,
                    )
                    &&& whole_replay(url, success, *table, h)
                };
            assert(host.log() == sub_ack_log(before, url, tree, times, *table, a));
        }
        return true;
    }
    let armed = host.flag(Request::IsSubscribeAckArmed(url, key.clone()));
    let ghost looked = host.log();
    let ghost subscription = key;
    let ghost text = error;
    proof {
        a.armed = armed;
    }
    if !armed {
        ack_unarmed(host, url, success, key);
        proof {
            a.after = choose|after: ConnView|
                host.log() == #[trigger] unarmed_log(looked, url, success, subscription, after);
            assert(host.log() == sub_ack_log(before, url, tree, times, *table, a));
        }
        return true;
    }
    let quirk = key.channel == ChannelName::Status && !success && match json::str_at(
        json,
        "error",
    ) {
        Some(error) => contains(error, "Symbol(s) not found"),
        None => false,
    };
    let acks = success || quirk;
    ack_armed(host, url, acks, error, key);
    proof {
        let (pending, after) = choose|pending: u64, after: ConnView|
            host.log() == #[trigger] armed_log(
                looked,
                url,
                acks,
                text,
                subscription,
                pending,
                after,
            );
        a.pending = pending;
        a.after = after;
        assert(host.log() == sub_ack_log(before, url, tree, times, *table, a));
    }
    true
}

/// An acknowledgement that does not say that it is a success is none.
pub proof fn silence_is_no_success(json: Json)
    requires
        json.bool_at("success"@) is None,
    ensures
        !ack_success(json),
{
}

/// An acknowledgement that nothing waits for drives no event into the connection,
/// acknowledges nothing in the registry and ends no subscription.
pub proof fn an_unarmed_ack_moves_no_state(
    log: Log,
    url: WsUrl,
    json: Json,
    warns: WarnTimes,
    table: SocketTable,
    a: SubAckAnswers,
)
    requires
        a.conn is Some,
        a.conn->Some_0.state != ConnectionState::Authenticating,
        !a.armed,
    ensures
        ({
            let after = sub_ack_log(log, url, json, warns, table, a);
            &&& grew_without(log, after, Effect::Drive)
            &&& grew_without(log, after, Effect::Send)
            &&& grew_without(log, after, Effect::Announce)
            &&& forall|i: int|
                log.len() <= i < after.len() ==> !((#[trigger] after[i]).0 is NoteAcked) && !(
                after[i].0 is NoteTerminated)
        }),
{
}

/// A rejection ends the subscription exactly when it is no rate limit, and then
/// with the words of the exchange.
pub proof fn only_a_rate_limit_is_retried(
    log: Log,
    url: WsUrl,
    error: Text,
    key: Key,
    pending: u64,
    after: ConnView,
)
    ensures
        ({
            let end = armed_log(log, url, false, error, key, pending, after);
            &&& made(
                log,
                end,
                Request::NoteTerminated(
                    key,
                    TerminationCause::NonTransientWireRejection,
                    error,
                ),
            ) <==> !says_rate_limited(error@)
            &&& made(
                log,
                end,
                Request::HandleEvent(
                    url,
                    FsmEvent::WireSubscribeFailed {
                        key,
                        kraken_code: error,
                        transient: says_rate_limited(error@),
                    },
                ),
            )
        }),
{
    let end = armed_log(log, url, false, error, key, pending, after);
    if !says_rate_limited(error@) {
        assert(end[log.len() as int].0 == Request::NoteTerminated(
            key,
            TerminationCause::NonTransientWireRejection,
            error,
        ));
    }
    assert(end[end.len() - 2].0 == Request::HandleEvent(
        url,
        FsmEvent::WireSubscribeFailed {
            key,
            kraken_code: error,
            transient: says_rate_limited(error@),
        },
    ));
}

/// A rejected handshake never counts as an accepted one: no success is driven into
/// the connection, and nothing is acknowledged.
pub proof fn a_rejected_handshake_opens_nothing(
    log: Log,
    url: WsUrl,
    error: Text,
    attempt: u32,
    key: Key,
    table: SocketTable,
    a: HandshakeAnswers,
)
    ensures
        ({
            let after = handshake_log(log, url, false, error, attempt, key, table, a);
            &&& grew_without(log, after, Effect::Send)
            &&& forall|i: int|
                log.len() <= i < after.len() ==> (#[trigger] after[i]).0 != Request::HandleEvent(
                    url,
                    FsmEvent::WireAuthHandshakeOk,
                ) && !(after[i].0 is NoteAcked)
        }),
{
}

proof fn a_handshake_sends_in_use(
    log: Log,
    url: WsUrl,
    success: bool,
    error: Text,
    attempt: u32,
    key: Key,
    table: SocketTable,
    a: HandshakeAnswers,
)
    ensures
        sends_in_use(log, handshake_log(log, url, success, error, attempt, key, table, a), table),
{
    if success && a.after.state == ConnectionState::Resubscribing {
        let acked = told(
            told(
                told(
                    asked(
                        log,
                        Request::HandleEvent(url, FsmEvent::WireAuthHandshakeOk),
                        Reply::View(a.after),
                    ),
                    Request::DisarmSubscribeAck(url, key),
                ),
                Request::NoteAcked(key),
            ),
            Request::RemoveDeferredAuthSubscribe(url, key),
        );
        let replayed = remaining_log(acked, url, Some(key), table, a.remaining);
        a_replay_sends_on_the_socket_in_use(acked, url, Some(key), table, a.remaining);
        assert(sends_in_use(log, acked, table));
        sends_in_use_together(log, acked, replayed, table);
        let end = handshake_log(log, url, success, error, attempt, key, table, a);
        assert(sends_in_use(replayed, end, table));
        sends_in_use_together(log, replayed, end, table);
    }
}

/// Whatever an acknowledgement makes the reactor send goes to the socket in use.
pub proof fn acks_send_in_use(
    log: Log,
    url: WsUrl,
    json: Json,
    warns: WarnTimes,
    table: SocketTable,
    a: SubAckAnswers,
)
    ensures
        sends_in_use(log, sub_ack_log(log, url, json, warns, table, a), table),
{
    if is_subscribe_ack(json) && a.conn is Some && ack_key(json, a) is Some
        && a.conn->Some_0.state == ConnectionState::Authenticating {
        let opened = ack_opening_log(log, url, json, warns, a);
        let key = ack_key(json, a)->Some_0;
        assert(sends_in_use(log, opened, table));
        a_handshake_sends_in_use(
            opened,
            url,
            ack_success(json),
            a.error,
            a.conn->Some_0.attempt_count,
            key,
            table,
            a.handshake,
        );
        sends_in_use_together(
            log,
            opened,
            sub_ack_log(log, url, json, warns, table, a),
            table,
        );
    }
}

/// The text that an acknowledgement has under `name`: in its `result` where that has
/// such a member, and else at the top.
pub open spec fn said_under(json: Json, name: Seq<char>) -> Option<Seq<char>> {
    if json.get("result"@) is Some && json.get("result"@)->Some_0.get(name) is Some {
        json.get("result"@)->Some_0.str_at(name)
    } else {
        json.str_at(name)
    }
}

/// Whether a request is part of concluding a subscribe.
pub open spec fn concludes(request: Request) -> bool {
    match request {
        Request::PendingSubscribeAckCount(_)
        | Request::NoteAcked(_)
        | Request::NoteTerminated(..)
        | Request::DisarmSubscribeAck(..)
        | Request::DisarmBookReseedSnapshot(..)
        | Request::RemoveDeferredAuthSubscribe(..)
        | Request::CompleteResubscribeIfEmpty(_)
        | Request::HandleEvent(..)
        | Request::StoreMirror(..) => true,
        _ => false,
    }
}

/// Whether a frame is the acknowledgement of a subscribe, and not of anything else,
/// is told by its method; the subscription that it is about is the one of the
/// channel and pair that it names, and where it names no channel, the one that its
/// request id stands for.
pub proof fn an_ack_is_about_what_it_names(
    log: Log,
    url: WsUrl,
    json: Json,
    warns: WarnTimes,
    a: SubAckAnswers,
)
    requires
        said_under(json, "symbol"@) is Some ==> said_under(json, "symbol"@) == Some(a.name@),
    ensures
        ({
            let opened = ack_opening_log(log, url, json, warns, a);
            let channel = match said_under(json, "channel"@) {
                Some(name) => ChannelName::of_wire_str(name),
                None => None,
            };
            let reads = picked(
                log,
                opened,
                |request: Request|
                    request is ParseSymbol || request is Conn || request
                        is ResolveSubscribeReqId,
            );
            let named = said_under(json, "symbol"@) is Some;
            let at: int = if named {
                1
            } else {
                0
            };
            &&& extends(log, opened)
            &&& json.str_at("method"@) != Some("subscribe"@) ==> forall|table: SocketTable|
                sub_ack_log(log, url, json, warns, table, a) == log
            &&& named ==> {
                &&& reads[0].0 is ParseSymbol
                &&& said_under(json, "symbol"@) == Some(reads[0].0->ParseSymbol_0@)
                &&& reads[0].1 == Reply::Symbol(a.parsed)
            }
            &&& reads[at] == (Request::Conn(url), Reply::Conn(a.conn))
            &&& match channel {
                Some(channel) => {
                    &&& reads.len() == at + 1
                    &&& ack_key(json, a) == Some(
                        Key {
                            channel,
                            pair: if named {
                                a.parsed
                            } else {
                                None
                            },
                        },
                    )
                },
                None => match json.u64_at("req_id"@) {
                    Some(req_id) => {
                        &&& a.conn is Some ==> reads.len() == at + 2 && reads[at + 1] == (
                            Request::ResolveSubscribeReqId(url, req_id),
                            Reply::Key(a.resolved),
                        )
                        &&& ack_key(json, a) == a.resolved
                    },
                    None => reads.len() == at + 1 && ack_key(json, a) is None,
                },
            }
        }),
{
    picking(
        log,
        |request: Request|
            request is ParseSymbol || request is Conn || request is ResolveSubscribeReqId,
    );
}

/// The acknowledgement of a subscribe on a connection that does not authenticate.
/// One that is waited for, and is a success or the status channel's way of saying
/// so, acknowledges the subscription: the connection is told, and told that it was
/// the last one exactly when no more than one was waited for. Any other that is
/// waited for ends it, with the words of the exchange, unless it is a rate limit,
/// which is told as transient. One that nothing waits for only keeps a live
/// subscription from being subscribed again. Whatever the connection then says is
/// shown.
pub proof fn an_ack_is_concluded(
    log: Log,
    url: WsUrl,
    json: Json,
    warns: WarnTimes,
    table: SocketTable,
    key: Key,
    a: SubAckAnswers,
)
    requires
        json.str_at("method"@) == Some("subscribe"@),
        a.conn is Some,
        a.conn->Some_0.state != ConnectionState::Authenticating,
        ack_key(json, a) == Some(key),
        sub_ack_texts(url, json, table, a),
    ensures
        ({
            let after = sub_ack_log(log, url, json, warns, table, a);
            let concluded = picked(log, after, |request: Request| concludes(request));
            let success = json.bool_at("success"@) == Some(true);
            let error = match json.str_at("error"@) {
                Some(error) => error,
                None => "subscribe rejected"@,
            };
            let quirk = key.channel == ChannelName::Status && json.str_at("error"@) is Some
                && has_substring(error, "Symbol(s) not found"@);
            let view = Reply::View(a.after);
            let mirror = (Request::StoreMirror(url, a.after.state), Reply::Done);
            &&& extends(log, after)
            &&& shows_what_is(log, after)
            &&& made(log, after, Request::IsSubscribeAckArmed(url, key))
            &&& a.armed && (success || quirk) ==> concluded == seq![
                (Request::PendingSubscribeAckCount(url), Reply::Count(a.pending)),
                (Request::NoteAcked(key), Reply::Done),
                (Request::RemoveDeferredAuthSubscribe(url, key), Reply::Done),
                (
                    Request::HandleEvent(
                        url,
                        FsmEvent::WireSubscribeAck { key, last: a.pending == 0 || a.pending == 1 },
                    ),
                    view,
                ),
                mirror,
            ]
            &&& a.armed && !success && !quirk ==> {
                let told = concluded[concluded.len() - 2];
                let transient = says_rate_limited(error);
                &&& concluded.len() == if transient {
                    2nat
                } else {
                    4
                }
                &&& concluded.last() == mirror
                &&& told.1 == view
                &&& match told.0 {
                    Request::HandleEvent(
                        of,
                        FsmEvent::WireSubscribeFailed { key: failed, kraken_code, transient: limited },
                    ) => {
                        &&& of == url
                        &&& failed == key
                        &&& kraken_code@ == error
                        &&& limited == transient
                        &&& !transient ==> concluded[0].0 == Request::NoteTerminated(
                            key,
                            TerminationCause::NonTransientWireRejection,
                            kraken_code,
                        )
                    },
                    _ => false,
                }
                &&& !transient ==> concluded[1].0 == Request::DisarmBookReseedSnapshot(url, key)
            }
            &&& !a.armed && success ==> concluded == seq![
                (Request::DisarmSubscribeAck(url, key), Reply::Done),
                (Request::RemoveDeferredAuthSubscribe(url, key), Reply::Done),
                (Request::CompleteResubscribeIfEmpty(url), view),
                mirror,
            ]
            &&& !a.armed && !success ==> concluded == Log::empty()
        }),
{
    let kind = |request: Request| concludes(request);
    let opened = ack_opening_log(log, url, json, warns, a);
    let looked = asked(opened, Request::IsSubscribeAckArmed(url, key), Reply::Flag(a.armed));
    let after = sub_ack_log(log, url, json, warns, table, a);
    picking(log, kind);
    showing(log);
    assert(picked(log, looked, kind) =~= Log::empty());
    assert(shows_what_is(log, looked));
    assert(extends(looked, after));
    assert(extends(log, looked));
    assert(after[looked.len() - 1] == looked[looked.len() - 1]);
    picking(looked, kind);
    showing(looked);
    picked_together(log, looked, after, kind);
    assert(picked(log, after, kind) =~= picked(looked, after, kind));
    assert(shows_what_is(looked, after));
    shows_together(log, looked, after);
    let concluded = picked(looked, after, kind);
    let view = Reply::View(a.after);
    let mirror = (Request::StoreMirror(url, a.after.state), Reply::Done);
    let success = ack_success(json);
    let acks = success || status_quirk(json, key);
    if a.armed && acks {
        assert(concluded =~= seq![
            (Request::PendingSubscribeAckCount(url), Reply::Count(a.pending)),
            (Request::NoteAcked(key), Reply::Done),
            (Request::RemoveDeferredAuthSubscribe(url, key), Reply::Done),
            (
                Request::HandleEvent(
                    url,
                    FsmEvent::WireSubscribeAck { key, last: a.pending == 0 || a.pending == 1 },
                ),
                view,
            ),
            mirror,
        ]);
    } else if !a.armed && success {
        assert(concluded =~= seq![
            (Request::DisarmSubscribeAck(url, key), Reply::Done),
            (Request::RemoveDeferredAuthSubscribe(url, key), Reply::Done),
            (Request::CompleteResubscribeIfEmpty(url), view),
            mirror,
        ]);
    } else if !a.armed {
        assert(concluded =~= Log::empty());
    }
}

/// The last acknowledgement is told by the count: whenever an acknowledgement makes
/// the reactor tell a connection that a subscribe succeeded, the connection was asked
/// just before how many are waited for, and is told that this was the last one
/// exactly when that is at most one.
pub proof fn the_last_ack_is_told_by_the_count(
    log: Log,
    url: WsUrl,
    json: Json,
    warns: WarnTimes,
    table: SocketTable,
    a: SubAckAnswers,
)
    ensures
        ({
            let after = sub_ack_log(log, url, json, warns, table, a);
            forall|i: int|
                log.len() <= i < after.len() ==> match (#[trigger] after[i]).0 {
                    Request::HandleEvent(of, FsmEvent::WireSubscribeAck { key, last }) => {
                        &&& of == url
                        &&& i >= log.len() + 3
                        &&& after[i - 3].0 == Request::PendingSubscribeAckCount(url)
                        &&& after[i - 3].1 is Count
                        &&& last == (after[i - 3].1->Count_0 <= 1)
                        &&& after[i - 2].0 == Request::NoteAcked(key)
                    },
                    _ => true,
                }
        }),
{
    let opened = ack_opening_log(log, url, json, warns, a);
    let after = sub_ack_log(log, url, json, warns, table, a);
    an_opening_tells_nothing(log, url, json, warns, a);
    if json.str_at("method"@) == Some("subscribe"@) && a.conn is Some && ack_key(json, a) is Some {
        let key = ack_key(json, a)->Some_0;
        if a.conn->Some_0.state == ConnectionState::Authenticating {
            let attempt = a.conn->Some_0.attempt_count;
            let rule = |request: Request| is_of_handshake(request, url, key);
            an_accepted_handshake_is_followed_up(
                opened,
                url,
                a.error,
                attempt,
                key,
                table,
                a.handshake,
            );
            a_rejected_handshake_is_announced(
                opened,
                url,
                a.error,
                attempt,
                key,
                table,
                a.handshake,
            );
            assert(each_obeys(opened, after, rule));
            assert forall|i: int| log.len() <= i < after.len() implies match (
            #[trigger] after[i]).0 {
                Request::HandleEvent(_, event) => !(event is WireSubscribeAck),
                _ => true,
            } by {
                if i < opened.len() {
                    assert(after[i] == opened[i]);
                } else {
                    assert(rule(after[i].0));
                }
            }
        } else {
            let looked = asked(
                opened,
                Request::IsSubscribeAckArmed(url, key),
                Reply::Flag(a.armed),
            );
            if a.armed {
                let acks = ack_success(json) || status_quirk(json, key);
                an_armed_ack_tells_the_count(
                    looked,
                    url,
                    acks,
                    a.error,
                    key,
                    a.pending,
                    a.after,
                );
            } else {
                an_unarmed_ack_tells_nothing(looked, url, ack_success(json), key, a.after);
            }
            assert forall|i: int| log.len() <= i < after.len() implies match (
            #[trigger] after[i]).0 {
                Request::HandleEvent(_, event) => event is WireSubscribeAck ==> i >= looked.len(),
                _ => true,
            } by {
                if i < looked.len() {
                    assert(after[i] == looked[i]);
                    if i < opened.len() {
                        assert(looked[i] == opened[i]);
                    }
                }
            }
        }
    }
}

proof fn an_opening_tells_nothing(
    log: Log,
    url: WsUrl,
    json: Json,
    warns: WarnTimes,
    a: SubAckAnswers,
)
    ensures
        grew_without(log, ack_opening_log(log, url, json, warns, a), Effect::Drive),
{
}

proof fn an_armed_ack_tells_the_count(
    log: Log,
    url: WsUrl,
    acks: bool,
    error: Text,
    key: Key,
    pending: u64,
    after: ConnView,
)
    ensures
        ({
            let end = armed_log(log, url, acks, error, key, pending, after);
            &&& extends(log, end)
            &&& forall|i: int|
                log.len() <= i < end.len() ==> match (#[trigger] end[i]).0 {
                    Request::HandleEvent(of, FsmEvent::WireSubscribeAck { key: acked, last }) => {
                        &&& of == url
                        &&& i == log.len() + 3
                        &&& end[i - 3] == (
                            Request::PendingSubscribeAckCount(url),
                            Reply::Count(pending),
                        )
                        &&& last == (pending <= 1)
                        &&& end[i - 2].0 == Request::NoteAcked(acked)
                    },
                    _ => true,
                }
        }),
{
}

proof fn an_unarmed_ack_tells_nothing(
    log: Log,
    url: WsUrl,
    success: bool,
    key: Key,
    after: ConnView,
)
    ensures
        grew_without(log, unarmed_log(log, url, success, key, after), Effect::Drive),
{
}

/// What the decision about a handshake may ask for: everything is about its own
/// connection, and what is concluded is about the subscription that was sent.
pub open spec fn is_of_handshake(request: Request, url: WsUrl, key: Key) -> bool {
    match request {
        Request::HandleEvent(of, event) => of == url && (event is WireAuthHandshakeOk || event
            is WireAuthHandshakeFailed || event is WireAbnormalClose),
        Request::NoteAcked(of) => of == key,
        Request::DisarmSubscribeAck(on, of) | Request::RemoveDeferredAuthSubscribe(on, of) => on
            == url && of == key,
        Request::CompleteResubscribeIfEmpty(on) | Request::StoreMirror(on, _) => on == url,
        Request::BusClock
        | Request::Publish(_)
        | Request::HasUrlEntry(_)
        | Request::StoreAuthSendReady(_) => true,
        _ => is_of_subscribing(request, url),
    }
}

/// An accepted handshake is told to the connection and acknowledges the subscription
/// that was sent, which is then neither waited for nor deferred. It is followed by
/// the replay of all the others if the connection resubscribes, after which the
/// resubscription may come to its end. What is shown is what the connection said
/// last.
pub proof fn an_accepted_handshake_is_followed_up(
    log: Log,
    url: WsUrl,
    error: Text,
    attempt: u32,
    key: Key,
    table: SocketTable,
    a: HandshakeAnswers,
)
    ensures
        ({
            let after = handshake_log(log, url, true, error, attempt, key, table, a);
            let replays = a.after.state == ConnectionState::Resubscribing;
            let acked = log.push(
                (Request::HandleEvent(url, FsmEvent::WireAuthHandshakeOk), Reply::View(a.after)),
            ).push((Request::DisarmSubscribeAck(url, key), Reply::Done)).push(
                (Request::NoteAcked(key), Reply::Done),
            ).push((Request::RemoveDeferredAuthSubscribe(url, key), Reply::Done));
            &&& each_obeys(log, after, |request: Request| is_of_handshake(request, url, key))
            &&& shows_what_is(log, after)
            &&& extends(acked, after)
            &&& last_told(after, url) == Some(
                if replays {
                    a.completed
                } else {
                    a.after
                },
            )
            &&& last_set(after, Flag::AuthSendReady) == Some(
                url == WsUrl::Auth && last_told(after, url)->Some_0.state
                    == ConnectionState::Authenticating && !a.reads.auth_has_entry
                    && a.reads.token is Some && !a.reads.token->Some_0.expired,
            )
            &&& replays ==> extends(
                remaining_log(acked, url, Some(key), table, a.remaining).push(
                    (Request::CompleteResubscribeIfEmpty(url), Reply::View(a.completed)),
                ),
                after,
            )
        }),
{
    let rule = |request: Request| is_of_handshake(request, url, key);
    let after = handshake_log(log, url, true, error, attempt, key, table, a);
    let acked = told(
        told(
            told(
                asked(
                    log,
                    Request::HandleEvent(url, FsmEvent::WireAuthHandshakeOk),
                    Reply::View(a.after),
                ),
                Request::DisarmSubscribeAck(url, key),
            ),
            Request::NoteAcked(key),
        ),
        Request::RemoveDeferredAuthSubscribe(url, key),
    );
    showing(log);
    assert(each_obeys(log, acked, rule));
    assert(shows_what_is(log, acked));
    let replayed = remaining_log(acked, url, Some(key), table, a.remaining);
    let ended = if a.after.state == ConnectionState::Resubscribing {
        asked(
            replayed,
            Request::CompleteResubscribeIfEmpty(url),
            Reply::View(a.completed),
        )
    } else {
        acked
    };
    let last = if a.after.state == ConnectionState::Resubscribing {
        a.completed
    } else {
        a.after
    };
    assert(after == refresh_send_ready_log(
        told(ended, Request::StoreMirror(url, last.state)),
        url,
        last.state,
        a.reads,
        a.ready_clock,
    ));
    if a.after.state == ConnectionState::Resubscribing {
        let inner = |request: Request| is_of_subscribing(request, url);
        a_replay_stays_on_its_connection(acked, url, Some(key), table, a.remaining);
        assert forall|i: int| acked.len() <= i < replayed.len() implies {
            &&& rule((#[trigger] replayed[i]).0)
            &&& !(replayed[i].0 is StoreMirror)
        } by {
            assert(inner(replayed[i].0));
        }
        each_obeys_together(log, acked, replayed, rule);
        nothing_shown(acked, replayed);
        shows_together(log, acked, replayed);
        assert(each_obeys(replayed, ended, rule));
        each_obeys_together(log, replayed, ended, rule);
        assert(extends(acked, ended)) by {
            assert forall|i: int| 0 <= i < acked.len() implies #[trigger] ended[i] == acked[i] by {
                assert(ended[i] == replayed[i]);
                assert(replayed[i] == acked[i]);
            }
        }
    }
    assert(each_obeys(log, ended, rule));
    assert(shows_what_is(log, ended));
    assert(last_told(ended, url) == Some(last));
    a_decided_handshake_is_shown(ended, url, last, key, a.reads, a.ready_clock);
    each_obeys_together(log, ended, after, rule);
    shows_together(log, ended, after);
    assert forall|i: int| 0 <= i < acked.len() implies #[trigger] after[i] == acked[i] by {
        assert(after[i] == ended[i]);
        assert(ended[i] == acked[i]);
    }
}

proof fn a_decided_handshake_is_shown(
    log: Log,
    url: WsUrl,
    last: ConnView,
    key: Key,
    reads: SendReadyReads,
    clock: BusClock,
)
    requires
        last_told(log, url) == Some(last),
    ensures
        ({
            let after = refresh_send_ready_log(
                told(log, Request::StoreMirror(url, last.state)),
                url,
                last.state,
                reads,
                clock,
            );
            &&& each_obeys(log, after, |request: Request| is_of_handshake(request, url, key))
            &&& shows_what_is(log, after)
            &&& last_told(after, url) == Some(last)
            &&& grew_without(log, after, Effect::Refresh)
            &&& last_set(after, Flag::AuthSendReady) == Some(
                url == WsUrl::Auth && last.state == ConnectionState::Authenticating
                    && !reads.auth_has_entry && reads.token is Some
                    && !reads.token->Some_0.expired,
            )
        }),
{
    let shown = told(log, Request::StoreMirror(url, last.state));
    showing(log);
    the_flag_says_whether_an_order_may_be_sent(shown, url, last.state, reads, clock);
}

/// A rejected handshake is announced, with the attempt and the words, as transient
/// exactly when the words are no authentication failure, and told to the connection
/// as of that kind. Nothing waits for the subscribe any more. The token is refreshed
/// only where the connection stays in `Authenticating` and awaits it. What is shown
/// is what the connection said.
pub proof fn a_rejected_handshake_is_announced(
    log: Log,
    url: WsUrl,
    error: Text,
    attempt: u32,
    key: Key,
    table: SocketTable,
    a: HandshakeAnswers,
)
    ensures
        ({
            let after = handshake_log(log, url, false, error, attempt, key, table, a);
            let kind = match auth_class(error@) {
                Some(kind) => kind,
                None => AuthErrorKind::Transient,
            };
            let n = log.len() as int;
            let m: int = if a.failed_clock.bus_alive {
                n + 2
            } else {
                n + 1
            };
            let stays = a.after.state == ConnectionState::Authenticating;
            &&& each_obeys(log, after, |request: Request| is_of_handshake(request, url, key))
            &&& shows_what_is(log, after)
            &&& last_told(after, url) == Some(a.after)
            &&& last_set(after, Flag::AuthSendReady) == Some(
                url == WsUrl::Auth && last_told(after, url)->Some_0.state
                    == ConnectionState::Authenticating && !a.reads.auth_has_entry
                    && a.reads.token is Some && !a.reads.token->Some_0.expired,
            )
            &&& after[n] == (Request::BusClock, Reply::Clock(a.failed_clock))
            &&& a.failed_clock.bus_alive ==> after[n + 1].0 == Request::Publish(
                EventEnvelope {
                    event_version: 1,
                    timestamp: a.failed_clock.now,
                    request_id: None,
                    payload: EventPayload::AuthHandshakeFailed {
                        url,
                        attempt,
                        transient: kind == AuthErrorKind::Transient,
                        kraken_error: error,
                    },
                },
            )
            &&& after[m] == (
                Request::HandleEvent(url, FsmEvent::WireAuthHandshakeFailed { kind }),
                Reply::View(a.after),
            )
            &&& after[m + 1].0 == Request::DisarmSubscribeAck(url, key)
            &&& stays ==> after[m + 2] == (
                Request::IsAwaitingTokenRefresh(url),
                Reply::Flag(a.awaiting),
            )
            &&& happened(log, after, Effect::Refresh) == if stays && a.awaiting {
                seq![Request::ForceRefresh]
            } else {
                Seq::empty()
            }
        }),
{
    let rule = |request: Request| is_of_handshake(request, url, key);
    let after = handshake_log(log, url, false, error, attempt, key, table, a);
    let kind = handshake_error(error@);
    let n = log.len() as int;
    let announced = auth_handshake_failed_log(log, url, attempt, kind, error, a.failed_clock);
    let failed = asked(
        announced,
        Request::HandleEvent(url, FsmEvent::WireAuthHandshakeFailed { kind }),
        Reply::View(a.after),
    );
    let disarmed = told(failed, Request::DisarmSubscribeAck(url, key));
    let looked = asked(
        disarmed,
        Request::IsAwaitingTokenRefresh(url),
        Reply::Flag(a.awaiting),
    );
    let stays = a.after.state == ConnectionState::Authenticating;
    let ended = if stays && a.awaiting {
        told(looked, Request::ForceRefresh)
    } else if stays {
        looked
    } else {
        disarmed
    };
    showing(log);
    assert(after == refresh_send_ready_log(
        told(ended, Request::StoreMirror(url, a.after.state)),
        url,
        a.after.state,
        a.reads,
        a.ready_clock,
    ));
    assert(each_obeys(log, ended, rule));
    assert(shows_what_is(log, ended));
    assert(last_told(ended, url) == Some(a.after));
    if stays && a.awaiting {
        happened_once(log, ended, Effect::Refresh, ended.len() - 1);
    } else {
        assert(grew_without(log, ended, Effect::Refresh));
        nothing_happened(log, ended, Effect::Refresh);
    }
    a_decided_handshake_is_shown(ended, url, a.after, key, a.reads, a.ready_clock);
    each_obeys_together(log, ended, after, rule);
    shows_together(log, ended, after);
    nothing_happened(ended, after, Effect::Refresh);
    happened_together(log, ended, after, Effect::Refresh);
    assert(happened(log, after, Effect::Refresh) =~= happened(log, ended, Effect::Refresh));
    assert(after[n] == ended[n] && after[n + 1] == ended[n + 1]);
    assert(after[failed.len() - 1] == ended[failed.len() - 1]);
    assert(after[failed.len() as int] == ended[failed.len() as int]);
    if stays {
        assert(after[disarmed.len() as int] == ended[disarmed.len() as int]);
    }
}

/// On a connection that authenticates, the acknowledgement of a subscribe decides the
/// handshake: as accepted exactly when the frame says `true` of its success, and else
/// as rejected, for the attempt that the connection is at and with the words of the
/// frame.
pub proof fn the_first_ack_decides_the_handshake(
    log: Log,
    url: WsUrl,
    json: Json,
    warns: WarnTimes,
    table: SocketTable,
    key: Key,
    a: SubAckAnswers,
)
    requires
        json.str_at("method"@) == Some("subscribe"@),
        a.conn is Some,
        a.conn->Some_0.state == ConnectionState::Authenticating,
        ack_key(json, a) == Some(key),
        sub_ack_texts(url, json, table, a),
    ensures
        ({
            let after = sub_ack_log(log, url, json, warns, table, a);
            let success = json.bool_at("success"@) == Some(true);
            let clock = a.handshake.failed_clock;
            let words = match json.str_at("error"@) {
                Some(error) => error,
                None => "auth handshake rejected"@,
            };
            let kind = match auth_class(words) {
                Some(kind) => kind,
                None => AuthErrorKind::Transient,
            };
            let view = Reply::View(a.handshake.after);
            let accepted = (Request::HandleEvent(url, FsmEvent::WireAuthHandshakeOk), view);
            let rejected = (
                Request::HandleEvent(url, FsmEvent::WireAuthHandshakeFailed { kind }),
                view,
            );
            let decided = exists|i: int|
                log.len() <= i < after.len() && #[trigger] after[i] == if success {
                    accepted
                } else {
                    rejected
                };
            &&& extends(log, after)
            &&& decided
            &&& success ==> made(log, after, Request::NoteAcked(key))
            &&& !success && clock.bus_alive ==> exists|i: int|
                log.len() <= i < after.len() && match (#[trigger] after[i]).0 {
                    Request::Publish(event) => event.timestamp == clock.now
                        && match event.payload {
                        EventPayload::AuthHandshakeFailed {
                            url: of,
                            attempt,
                            transient,
                            kraken_error,
                        } => {
                            &&& of == url
                            &&& attempt == a.conn->Some_0.attempt_count
                            &&& transient == (kind == AuthErrorKind::Transient)
                            &&& kraken_error@ == words
                        },
                        _ => false,
                    },
                    _ => false,
                }
        }),
{
    let opened = ack_opening_log(log, url, json, warns, a);
    let after = sub_ack_log(log, url, json, warns, table, a);
    let attempt = a.conn->Some_0.attempt_count;
    let n = opened.len() as int;
    assert(extends(log, opened));
    if ack_success(json) {
        an_accepted_handshake_is_followed_up(
            opened,
            url,
            a.error,
            attempt,
            key,
            table,
            a.handshake,
        );
        let acked = opened.push(
            (
                Request::HandleEvent(url, FsmEvent::WireAuthHandshakeOk),
                Reply::View(a.handshake.after),
            ),
        ).push((Request::DisarmSubscribeAck(url, key), Reply::Done)).push(
            (Request::NoteAcked(key), Reply::Done),
        ).push((Request::RemoveDeferredAuthSubscribe(url, key), Reply::Done));
        assert(extends(acked, after));
        assert(after[n] == acked[n]);
        assert(after[n + 2] == acked[n + 2]);
        assert forall|i: int| 0 <= i < log.len() implies #[trigger] after[i] == log[i] by {
            assert(after[i] == acked[i]);
            assert(acked[i] == opened[i]);
        }
    } else {
        a_rejected_handshake_is_announced(
            opened,
            url,
            a.error,
            attempt,
            key,
            table,
            a.handshake,
        );
        assert forall|i: int| 0 <= i < log.len() implies #[trigger] after[i] == log[i] by {
            assert(after[i] == opened[i]);
        }
        let m: int = if a.handshake.failed_clock.bus_alive {
            n + 2
        } else {
            n + 1
        };
        let failed = after[m];
        assert(log.len() <= m < after.len());
        if a.handshake.failed_clock.bus_alive {
            assert(after[n + 1].0 is Publish);
        }
    }
}

/// An acknowledgement that says nothing of its success is warned about first, at most
/// once in a while for each connection; one that says so is not.
pub proof fn an_ack_that_lacks_its_success_is_warned_about(
    log: Log,
    url: WsUrl,
    json: Json,
    warns: WarnTimes,
    a: SubAckAnswers,
)
    ensures
        ({
            let opened = ack_opening_log(log, url, json, warns, a);
            let said = picked(log, opened, |request: Request| request is Say);
            let site = match url {
                WsUrl::Auth => "sub-ack-no-success-auth"@,
                WsUrl::Public => "sub-ack-no-success-public"@,
            };
            let due = !warns.contains_key((site, None::<ChannelName>)) || a.warn_clock.now
                >= warns[(site, None::<ChannelName>)] + 1_000_000_000;
            said == if json.bool_at("success"@) is None && due {
                seq![(Request::Say(Note::AckWithoutSuccess { url }), Reply::Done)]
            } else {
                Log::empty()
            }
        }),
{
    let kind = |request: Request| request is Say;
    let opened = ack_opening_log(log, url, json, warns, a);
    picking(log, kind);
    let said = picked(log, opened, kind);
    if json.bool_at("success"@) is None && warn_due(
        warns,
        no_success_site(url),
        None,
        a.warn_clock.now,
    ) {
        assert(said =~= seq![(Request::Say(Note::AckWithoutSuccess { url }), Reply::Done)]);
    } else {
        assert(said =~= Log::empty());
    }
}

} // verus!
