//! Responses to WebSocket requests, which are orders on the auth connection.

use crate::classify::{
    auth_class, classify_order_ack_warned, opt_string, order_ack_auth, order_ack_unrecognized,
    order_ack_warned_log, OrderAckAuth,
};
use crate::host::{
    asked, extends, grew_without, grew_without_together, last_told, made, made_later,
    nothing_picked, nothing_shown, picked, picked_together, picking, showing, shows_together,
    shows_what_is, told, BusClock, ConnView, Effect, Link, Log, Reply, Request, WsResponse,
};
use crate::json;
use crate::json::{json_of, Json};
use crate::notes::Note;
use crate::send_ready::{
    send_ready, store_send_ready, store_send_ready_log, token_valid, SendReadyReads,
};
use crate::socket_lifecycle::{sends_in_use, sends_in_use_together, write_mirror, SocketTable};
use crate::subscribe_send::{
    a_replay_sends_on_the_socket_in_use, a_replay_stays_on_its_connection, is_of_subscribing,
    remaining_log, replay_of, send_remaining_signed_subscribes, RemainingAnswers,
};
use crate::throttle::{
    suppress_warn_log, suppress_warn_throttled, warn_times, SuppressWarnTracker, WarnTimes,
};
use crate::types::{AuthErrorKind, ChannelName, ConnectionState, FsmEvent, WsUrl};
use serde_json::Value;
use vstd::prelude::*;

verus! {

/// What the probe that a response is met.
pub struct ProbeAnswers {
    pub has_entry: bool,
    pub after: ConnView,
    pub remaining: RemainingAnswers,
    pub completed: ConnView,
    pub reads: SendReadyReads,
}

impl ProbeAnswers {
    /// Whether the accepted probe is followed by the replay of the subscriptions.
    pub open spec fn replays(self, auth: OrderAckAuth) -> bool {
        auth == OrderAckAuth::Authenticated && self.has_entry && self.after.state
            == ConnectionState::Resubscribing
    }

    /// The connection after the probe.
    pub open spec fn last(self, auth: OrderAckAuth) -> ConnView {
        if self.replays(auth) {
            self.completed
        } else {
            self.after
        }
    }
}

/// The response to an order that was sent as the authentication probe. The token
/// is accepted, with subscriptions to replay or without; or it is refused, and a
/// stale one gives the order back for another try.
pub open spec fn probe_log(
    log: Log,
    url: WsUrl,
    req_id: u64,
    auth: OrderAckAuth,
    table: SocketTable,
    a: ProbeAnswers,
) -> Log {
    let log = match auth {
        OrderAckAuth::Authenticated => {
            let log = asked(log, Request::HasUrlEntry(WsUrl::Auth), Reply::Flag(a.has_entry));
            let log = asked(
                log,
                Request::HandleEvent(
                    url,
                    if a.has_entry {
                        FsmEvent::WireAuthHandshakeOk
                    } else {
                        FsmEvent::WireOrderAuthOk
                    },
                ),
                Reply::View(a.after),
            );
            if a.replays(auth) {
                asked(
                    remaining_log(log, url, None, table, a.remaining),
                    Request::CompleteResubscribeIfEmpty(url),
                    Reply::View(a.completed),
                )
            } else {
                log
            }
        },
        OrderAckAuth::AuthFailed(kind) => {
            let log = asked(
                log,
                Request::HandleEvent(url, FsmEvent::WireAuthHandshakeFailed { kind }),
                Reply::View(a.after),
            );
            if kind == AuthErrorKind::TokenStale {
                told(log, Request::DrainOneRetryable(url, req_id))
            } else {
                log
            }
        },
    };
    let log = told(log, Request::StoreMirror(url, a.last(auth).state));
    store_send_ready_log(log, url, a.last(auth).state, a.reads)
}

/// Whether the replay after an accepted probe is a whole one.
pub open spec fn probe_replay(
    url: WsUrl,
    auth: OrderAckAuth,
    table: SocketTable,
    a: ProbeAnswers,
) -> bool {
    a.replays(auth) && token_valid(a.remaining.token) && table.sockets.at(url) is Some
        ==> replay_of(a.remaining.frames@, a.remaining.issues)
}

fn drive_probe<F: Fn(Request) -> Reply>(
    host: &mut Link<F>,
    url: WsUrl,
    req_id: u64,
    auth: OrderAckAuth,
    table: &SocketTable,
) -> (last: ConnView)
    ensures
        exists|a: ProbeAnswers|
            {
                &&& final(host).log() == #[trigger] probe_log(
                    old(host).log(),
                    url,
                    req_id,
                    auth,
                    *table,
                    a,
                )
                &&& probe_replay(url, auth, *table, a)
                &&& last == a.last(auth)
            },
{
    let ghost before = host.log();
    let ghost mut a: ProbeAnswers = arbitrary();
    let last;
    match auth {
        OrderAckAuth::Authenticated => {
            let has_entry = host.flag(Request::HasUrlEntry(WsUrl::Auth));
            proof {
                a.has_entry = has_entry;
            }
            if has_entry {
                let after = host.view(Request::HandleEvent(url, FsmEvent::WireAuthHandshakeOk));
                proof {
                    a.after = after;
                }
                if after.state == ConnectionState::Resubscribing {
                    let ghost accepted = host.log();
                    send_remaining_signed_subscribes(host, url, &None, table);
                    proof {
                        a.remaining = choose|r: RemainingAnswers|
                            {
                                &&& host.log() == #[trigger] remaining_log(
                                    accepted,
                                    url,
                                    None,
                                    *table,
                                    r,
                                )
                                &&& token_valid(r.token) && table.sockets.at(url) is Some
                                    ==> replay_of(r.frames@, r.issues)
                            };
                    }
                    last = host.view(Request::CompleteResubscribeIfEmpty(url));
                    proof {
                        a.completed = last;
                    }
                } else {
                    last = after;
                }
            } else {
                last = host.view(Request::HandleEvent(url, FsmEvent::WireOrderAuthOk));
                proof {
                    a.after = last;
                }
            }
        },
        OrderAckAuth::AuthFailed(kind) => {
            last =
            host.view(Request::HandleEvent(url, FsmEvent::WireAuthHandshakeFailed { kind }));
            proof {
                a.after = last;
            }
            if kind == AuthErrorKind::TokenStale {
                host.tell(Request::DrainOneRetryable(url, req_id));
            }
        },
    }
    write_mirror(host, url, last.state);
    let ghost mirrored = host.log();
    let ready = store_send_ready(host, url, last.state);
    proof {
        a.reads = choose|reads: SendReadyReads|
            {
                &&& host.log() == #[trigger] store_send_ready_log(
                    mirrored,
                    url,
                    last.state,
                    reads,
                )
                &&& ready == send_ready(url, last.state, reads.auth_has_entry, reads.token)
            };
        assert(host.log() == probe_log(before, url, req_id, auth, *table, a));
    }
    last
}

/// What a response met.
pub struct ResponseAnswers {
    pub method: String,
    pub is_request: bool,
    pub warn_clock: BusClock,
    pub error: Option<String>,
    pub result: Value,
    pub conn: Option<ConnView>,
    /// The error as the warning about it tells it.
    pub told_error: Option<String>,
    pub probe: ProbeAnswers,
    pub stale: ConnView,
    pub pending: bool,
}

/// Whether a response is a success: only one that says so is.
pub open spec fn response_success(json: Json) -> bool {
    json.bool_at("success"@) == Some(true)
}

/// Whether the warning about an unknown error tells it as it is.
pub open spec fn error_told(json: Json, a: ResponseAnswers) -> bool {
    a.conn is Some && order_ack_unrecognized(response_success(json), json.str_at("error"@))
        ==> opt_string(a.told_error) == json.str_at("error"@)
}

/// What a response says of the token.
pub open spec fn response_auth(json: Json) -> OrderAckAuth {
    order_ack_auth(response_success(json), json.str_at("error"@))
}

/// An open connection whose token was refused as stale: the connection stays, the
/// token is dropped and renewed for the next order, and this order is given back
/// without being sent again.
pub open spec fn stale_log(log: Log, url: WsUrl, req_id: u64, stale: ConnView) -> Log {
    let log = asked(
        log,
        Request::HandleEvent(url, FsmEvent::WireOrderAckTokenStale),
        Reply::View(stale),
    );
    let log = told(log, Request::InvalidateCachedToken);
    let log = told(log, Request::SetAwaitingTokenRefresh(url, true));
    let log = told(log, Request::ForceRefresh);
    let log = told(log, Request::DrainOneRetryable(url, req_id));
    told(log, Request::StoreMirror(url, stale.state))
}

/// The response as it is handed to whoever waits for it.
pub open spec fn response_of(json: Json, req_id: u64, a: ResponseAnswers) -> WsResponse {
    WsResponse { req_id, success: response_success(json), result: a.result, error: a.error }
}

/// The part that follows the reading of the request id.
pub open spec fn resolve_log(
    log: Log,
    url: WsUrl,
    json: Json,
    req_id: u64,
    table: SocketTable,
    a: ResponseAnswers,
) -> Log {
    let auth = response_auth(json);
    let log = asked(log, Request::Conn(url), Reply::Conn(a.conn));
    match a.conn {
        None => log,
        Some(conn) => {
            let log = order_ack_warned_log(
                log,
                response_success(json),
                json.str_at("error"@),
                a.told_error,
            );
            let probes = conn.state == ConnectionState::Authenticating;
            let log = if probes {
                probe_log(log, url, req_id, auth, table, a.probe)
            } else {
                log
            };
            let current = if probes {
                a.probe.last(auth)
            } else {
                conn
            };
            let log = if current.state == ConnectionState::Open && auth
                == OrderAckAuth::AuthFailed(AuthErrorKind::TokenStale) {
                stale_log(log, url, req_id, a.stale)
            } else {
                log
            };
            let log = asked(
                log,
                Request::PendingRequestsContain(url, req_id),
                Reply::Flag(a.pending),
            );
            if a.pending {
                told(log, Request::ResolvePendingRequest(url, response_of(json, req_id, a)))
            } else {
                log
            }
        },
    }
}

/// Whether a frame is the response to a request.
pub open spec fn is_response(url: WsUrl, json: Json, a: ResponseAnswers) -> bool {
    url == WsUrl::Auth && json.str_at("method"@) is Some && a.is_request
}

pub open spec fn response_log(
    log: Log,
    url: WsUrl,
    json: Json,
    warns: WarnTimes,
    table: SocketTable,
    a: ResponseAnswers,
) -> Log {
    if url != WsUrl::Auth || json.str_at("method"@) is None {
        log
    } else {
        let log = asked(log, Request::IsRequestMethod(a.method), Reply::Flag(a.is_request));
        if !a.is_request {
            log
        } else {
            match json.u64_at("req_id"@) {
                None => suppress_warn_log(
                    log,
                    warns,
                    "req-resp-no-req-id"@,
                    None,
                    Note::ResponseWithoutReqId { url },
                    a.warn_clock,
                ),
                Some(req_id) => {
                    let log = if json.bool_at("success"@) is None {
                        suppress_warn_log(
                            log,
                            warns,
                            "req-resp-no-success"@,
                            None,
                            Note::ResponseWithoutSuccess { url, req_id },
                            a.warn_clock,
                        )
                    } else {
                        log
                    };
                    resolve_log(log, url, json, req_id, table, a)
                },
            }
        }
    }
}

/// The warning times after a response.
pub open spec fn response_warns(
    warns: WarnTimes,
    url: WsUrl,
    json: Json,
    a: ResponseAnswers,
) -> WarnTimes {
    if !is_response(url, json, a) {
        warns
    } else if json.u64_at("req_id"@) is None {
        warn_times(warns, "req-resp-no-req-id"@, None, a.warn_clock.now)
    } else if json.bool_at("success"@) is None {
        warn_times(warns, "req-resp-no-success"@, None, a.warn_clock.now)
    } else {
        warns
    }
}

/// The texts in the answers are those of the frame, and the replay after a probe
/// is a whole one.
pub open spec fn response_texts(
    url: WsUrl,
    json: Json,
    table: SocketTable,
    a: ResponseAnswers,
) -> bool {
    &&& json.str_at("method"@) == Some(a.method@)
    &&& is_response(url, json, a) && json.u64_at("req_id"@) is Some ==> {
        &&& opt_string(a.error) == json.str_at("error"@)
        &&& error_told(json, a)
        &&& json_of(a.result) == (match json.get("result"@) {
            Some(result) => result,
            None => Json::Null,
        })
        &&& a.conn is Some && a.conn->Some_0.state == ConnectionState::Authenticating
            ==> probe_replay(url, response_auth(json), table, a.probe)
    }
}

fn resolve_response<F: Fn(Request) -> Reply>(
    host: &mut Link<F>,
    url: WsUrl,
    json: &Value,
    req_id: u64,
    success: bool,
    table: &SocketTable,
    Ghost(known): Ghost<ResponseAnswers>,
)
    requires
        success == response_success(json_of(*json)),
    ensures
        exists|a: ResponseAnswers|
            {
                &&& final(host).log() == #[trigger] resolve_log(
                    old(host).log(),
                    url,
                    json_of(*json),
                    req_id,
                    *table,
                    a,
                )
                &&& a.method == known.method
                &&& a.is_request == known.is_request
                &&& a.warn_clock == known.warn_clock
                &&& opt_string(a.error) == json_of(*json).str_at("error"@)
                &&& error_told(json_of(*json), a)
                &&& json_of(a.result) == (match json_of(*json).get("result"@) {
                    Some(result) => result,
                    None => Json::Null,
                })
                &&& a.conn is Some && a.conn->Some_0.state == ConnectionState::Authenticating
                    ==> probe_replay(url, response_auth(json_of(*json)), *table, a.probe)
            },
{
    let ghost before = host.log();
    let ghost tree = json_of(*json);
    let ghost mut a: ResponseAnswers = known;
    let error = json::string_at(json, "error");
    let result = match json::get(json, "result") {
        Some(result) => json::copy_of(result),
        None => json::null(),
    };
    proof {
        a.error = error;
        a.result = result;
    }
    let conn = host.conn(url);
    proof {
        a.conn = conn;
    }
    let mut current = match conn {
        Some(conn) => conn,
        None => {
            proof {
                assert(host.log() == resolve_log(before, url, tree, req_id, *table, a));
            }
            return ;
        },
    };
    let text = match &error {
        Some(error) => Some(error.as_str()),
        None => None,
    };
    let ghost looked = host.log();
    let auth = classify_order_ack_warned(host, success, text);
    let ghost warned = host.log();
    proof {
        a.told_error = choose|told: Option<String>|
            {
                &&& warned == #[trigger] order_ack_warned_log(
                    looked,
                    success,
                    tree.str_at("error"@),
                    told,
                )
                &&& order_ack_unrecognized(success, tree.str_at("error"@)) ==> opt_string(told)
                    == tree.str_at("error"@)
            };
        assert(auth == response_auth(tree));
    }
    if current.state == ConnectionState::Authenticating {
        current = drive_probe(host, url, req_id, auth, table);
        proof {
            a.probe = choose|p: ProbeAnswers|
                {
                    &&& host.log() == #[trigger] probe_log(
                        warned,
                        url,
                        req_id,
                        auth,
                        *table,
                        p,
                    )
                    &&& probe_replay(url, auth, *table, p)
                    &&& current == p.last(auth)
                };
        }
    }
    if current.state == ConnectionState::Open && auth == OrderAckAuth::AuthFailed(
        AuthErrorKind::TokenStale,
    ) {
        let stale = host.view(Request::HandleEvent(url, FsmEvent::WireOrderAckTokenStale));
        host.tell(Request::InvalidateCachedToken);
        host.tell(Request::SetAwaitingTokenRefresh(url, true));
        host.tell(Request::ForceRefresh);
        host.tell(Request::DrainOneRetryable(url, req_id));
        write_mirror(host, url, stale.state);
        proof {
            a.stale = stale;
        }
    }
    let pending = host.flag(Request::PendingRequestsContain(url, req_id));
    proof {
        a.pending = pending;
    }
    if pending {
        host.tell(
            Request::ResolvePendingRequest(url, WsResponse { req_id, success, result, error }),
        );
    }
    proof {
        assert(host.log() == resolve_log(before, url, tree, req_id, *table, a));
    }
}

/// Acts on a frame if it is the response to a request; `true` if it is.
///
/// A response that does not say whether it is a success counts as a failure. While
/// the connection authenticates, the response decides the handshake: an order that
/// was refused for any reason but its token was authenticated all the same. Orders
/// are never sent again.
pub fn handle_request_response<F: Fn(Request) -> Reply>(
    host: &mut Link<F>,
    url: WsUrl,
    json: &Value,
    warns: &mut SuppressWarnTracker,
    table: &SocketTable,
) -> (consumed: bool)
    ensures
        exists|a: ResponseAnswers|
            {
                &&& final(host).log() == #[trigger] response_log(
                    old(host).log(),
                    url,
                    json_of(*json),
                    old(warns)@,
                    *table,
                    a,
                )
                &&& final(warns)@ == response_warns(old(warns)@, url, json_of(*json), a)
                &&& consumed == is_response(url, json_of(*json), a)
                &&& url == WsUrl::Auth && json_of(*json).str_at("method"@) is Some
                    ==> response_texts(url, json_of(*json), *table, a)
            },
{
    let ghost before = host.log();
    let ghost times = warns@;
    let ghost tree = json_of(*json);
    let ghost mut a: ResponseAnswers = arbitrary();
    if url == WsUrl::Public {
        proof {
            assert(host.log() == response_log(before, url, tree, times, *table, a));
        }
        return false;
    }
    let method = match json::string_at(json, "method") {
        Some(method) => method,
        None => {
            proof {
                assert(host.log() == response_log(before, url, tree, times, *table, a));
            }
            return false;
        },
    };
    proof {
        a.method = method;
    }
    let is_request = host.flag(Request::IsRequestMethod(method));
    let ghost known = host.log();
    proof {
        a.is_request = is_request;
    }
    if !is_request {
        proof {
            assert(host.log() == response_log(before, url, tree, times, *table, a));
        }
        return false;
    }
    let req_id: u64 = match json::u64_at(json, "req_id") {
        Some(req_id) => req_id,
        None => {
            suppress_warn_throttled(
                host,
                "req-resp-no-req-id",
                None,
                warns,
                Note::ResponseWithoutReqId { url },
            );
            proof {
                a.warn_clock = choose|clock: BusClock|
                    {
                        &&& host.log() == #[trigger] suppress_warn_log(
                            known,
                            times,
                            "req-resp-no-req-id"@,
                            None,
                            Note::ResponseWithoutReqId { url },
                            clock,
                        )
                        &&& warns@ == warn_times(
                            times,
                            "req-resp-no-req-id"@,
                            None,
                            clock.now,
                        )
                    };
                assert(host.log() == response_log(before, url, tree, times, *table, a));
            }
            return true;
        },
    };
    let success_flag = json::bool_at(json, "success");
    if success_flag.is_none() {
        suppress_warn_throttled(
            host,
            "req-resp-no-success",
            None,
            warns,
            Note::ResponseWithoutSuccess { url, req_id },
        );
        proof {
            a.warn_clock = choose|clock: BusClock|
                {
                    &&& host.log() == #[trigger] suppress_warn_log(
                        known,
                        times,
                        "req-resp-no-success"@,
                        None,
                        Note::ResponseWithoutSuccess { url, req_id },
                        clock,
                    )
                    &&& warns@ == warn_times(times, "req-resp-no-success"@, None, clock.now)
                };
        }
    }
    let success = match success_flag {
        Some(success) => success,
        None => false,
    };
    let ghost read = host.log();
    let ghost before_resolve = a;
    resolve_response(host, url, json, req_id, success, table, Ghost(a));
    proof {
        let resolved = choose|r: ResponseAnswers|
            {
                &&& host.log() == #[trigger] resolve_log(read, url, tree, req_id, *table, r)
                &&& r.method == before_resolve.method
                &&& r.is_request == before_resolve.is_request
                &&& r.warn_clock == before_resolve.warn_clock
                &&& opt_string(r.error) == tree.str_at("error"@)
                &&& error_told(tree, r)
                &&& json_of(r.result) == (match tree.get("result"@) {
                    Some(result) => result,
                    None => Json::Null,
                })
                &&& r.conn is Some && r.conn->Some_0.state == ConnectionState::Authenticating
                    ==> probe_replay(url, response_auth(tree), *table, r.probe)
            };
        assert(host.log() == response_log(before, url, tree, times, *table, resolved));
    }
    true
}

/// A response that does not say that it is a success is none.
pub proof fn silence_is_no_fill(json: Json)
    requires
        json.bool_at("success"@) is None,
    ensures
        !response_success(json),
{
}

/// An order whose token was refused is never sent again: its response sends
/// nothing at all.
pub proof fn a_refused_order_is_not_resent(
    log: Log,
    url: WsUrl,
    json: Json,
    req_id: u64,
    table: SocketTable,
    a: ResponseAnswers,
)
    requires
        response_auth(json) is AuthFailed,
    ensures
        grew_without(log, resolve_log(log, url, json, req_id, table, a), Effect::Send),
{
}

/// On a connection that does not authenticate, no response sends anything.
pub proof fn a_settled_connection_sends_nothing_on_a_response(
    log: Log,
    url: WsUrl,
    json: Json,
    req_id: u64,
    table: SocketTable,
    a: ResponseAnswers,
)
    requires
        a.conn is None || a.conn->Some_0.state != ConnectionState::Authenticating,
    ensures
        grew_without(log, resolve_log(log, url, json, req_id, table, a), Effect::Send),
{
}

/// A stale token on an open connection costs the connection nothing: the one event
/// it sees is that of the stale token. The token is renewed, and the order is given
/// back.
pub proof fn a_stale_token_keeps_the_connection(
    log: Log,
    url: WsUrl,
    json: Json,
    req_id: u64,
    table: SocketTable,
    a: ResponseAnswers,
)
    requires
        a.conn is Some,
        a.conn->Some_0.state == ConnectionState::Open,
        response_auth(json) == OrderAckAuth::AuthFailed(AuthErrorKind::TokenStale),
    ensures
        ({
            let after = resolve_log(log, url, json, req_id, table, a);
            &&& forall|i: int|
                log.len() <= i < after.len() && (#[trigger] after[i]).0.effect() is Drive
                    ==> after[i].0 == Request::HandleEvent(url, FsmEvent::WireOrderAckTokenStale)
            &&& made(log, after, Request::InvalidateCachedToken)
            &&& made(log, after, Request::ForceRefresh)
            &&& made(log, after, Request::DrainOneRetryable(url, req_id))
        }),
{
    let after = resolve_log(log, url, json, req_id, table, a);
    let n = log.len() as int;
    assert(after[n + 2].0 == Request::InvalidateCachedToken);
    assert(after[n + 4].0 == Request::ForceRefresh);
    assert(after[n + 5].0 == Request::DrainOneRetryable(url, req_id));
}

/// A refused token never opens the connection: the probe drives the failure into
/// it, and no success.
pub proof fn a_refused_probe_opens_nothing(
    log: Log,
    url: WsUrl,
    req_id: u64,
    kind: AuthErrorKind,
    table: SocketTable,
    a: ProbeAnswers,
)
    ensures
        ({
            let after = probe_log(
                log,
                url,
                req_id,
                OrderAckAuth::AuthFailed(kind),
                table,
                a,
            );
            &&& forall|i: int|
                log.len() <= i < after.len() && (#[trigger] after[i]).0.effect() is Drive
                    ==> after[i].0 == Request::HandleEvent(
                    url,
                    FsmEvent::WireAuthHandshakeFailed { kind },
                )
            &&& made(log, after, Request::DrainOneRetryable(url, req_id)) <==> kind
                == AuthErrorKind::TokenStale
        }),
{
    let after = probe_log(log, url, req_id, OrderAckAuth::AuthFailed(kind), table, a);
    if kind == AuthErrorKind::TokenStale {
        assert(after[log.len() as int + 1].0 == Request::DrainOneRetryable(url, req_id));
    }
}

/// A response resolves whoever waits for it, once, and nobody else.
pub proof fn a_response_resolves_its_request(
    log: Log,
    url: WsUrl,
    json: Json,
    req_id: u64,
    table: SocketTable,
    a: ResponseAnswers,
)
    requires
        a.conn is Some,
    ensures
        ({
            let after = resolve_log(log, url, json, req_id, table, a);
            &&& made(
                log,
                after,
                Request::ResolvePendingRequest(url, response_of(json, req_id, a)),
            ) <==> a.pending
            &&& forall|i: int|
                log.len() <= i < after.len() && (#[trigger] after[i]).0 is ResolvePendingRequest
                    ==> i == after.len() - 1
        }),
{
    let after = resolve_log(log, url, json, req_id, table, a);
    let auth = response_auth(json);
    let warned = order_ack_warned_log(
        asked(log, Request::Conn(url), Reply::Conn(a.conn)),
        response_success(json),
        json.str_at("error"@),
        a.told_error,
    );
    let probed = if a.conn->Some_0.state == ConnectionState::Authenticating {
        probe_log(warned, url, req_id, auth, table, a.probe)
    } else {
        warned
    };
    assert(resolves_nothing(log, warned));
    if a.conn->Some_0.state == ConnectionState::Authenticating {
        a_probe_resolves_nothing(warned, url, req_id, auth, table, a.probe);
    }
    assert(resolves_nothing(log, probed)) by {
        assert forall|i: int| log.len() <= i < probed.len() implies !((#[trigger] probed[i]).0
            is ResolvePendingRequest) by {
            if i < warned.len() {
                assert(probed[i] == warned[i]);
            }
        }
    }
    assert(extends(probed, after));
    if a.pending {
        assert(after.last().0 == Request::ResolvePendingRequest(
            url,
            response_of(json, req_id, a),
        ));
    }
    assert forall|i: int|
        log.len() <= i < after.len() && (#[trigger] after[i]).0 is ResolvePendingRequest implies i
        == after.len() - 1 by {
        if i < probed.len() {
            assert(after[i] == probed[i]);
        }
    }
}

/// Whether the log grew by requests of which none hands a response on.
pub open spec fn resolves_nothing(before: Log, after: Log) -> bool {
    &&& extends(before, after)
    &&& forall|i: int|
        before.len() <= i < after.len() ==> !((#[trigger] after[i]).0 is ResolvePendingRequest)
}

proof fn a_probe_resolves_nothing(
    log: Log,
    url: WsUrl,
    req_id: u64,
    auth: OrderAckAuth,
    table: SocketTable,
    a: ProbeAnswers,
)
    ensures
        resolves_nothing(log, probe_log(log, url, req_id, auth, table, a)),
{
    if a.replays(auth) {
        let accepted = asked(
            asked(log, Request::HasUrlEntry(WsUrl::Auth), Reply::Flag(a.has_entry)),
            Request::HandleEvent(url, FsmEvent::WireAuthHandshakeOk),
            Reply::View(a.after),
        );
        let replayed = remaining_log(accepted, url, None, table, a.remaining);
        let end = probe_log(log, url, req_id, auth, table, a);
        a_replay_sends_on_the_socket_in_use(accepted, url, None, table, a.remaining);
        assert(resolves_nothing(log, accepted));
        assert(extends(replayed, end));
        assert forall|i: int| log.len() <= i < end.len() implies !((#[trigger] end[i]).0
            is ResolvePendingRequest) by {
            if i < replayed.len() {
                assert(end[i] == replayed[i]);
                if i < accepted.len() {
                    assert(replayed[i] == accepted[i]);
                } else {
                    assert(replayed[i].0.effect() != Effect::Settle);
                }
            }
        }
        assert forall|i: int| 0 <= i < log.len() implies #[trigger] end[i] == log[i] by {
            assert(end[i] == replayed[i]);
            assert(replayed[i] == accepted[i]);
        }
    }
}

/// Whatever a response makes the reactor send goes to the socket in use.
pub proof fn responses_send_in_use(
    log: Log,
    url: WsUrl,
    json: Json,
    warns: WarnTimes,
    table: SocketTable,
    a: ResponseAnswers,
)
    ensures
        sends_in_use(log, response_log(log, url, json, warns, table, a), table),
{
    if is_response(url, json, a) && json.u64_at("req_id"@) is Some {
        let req_id = json.u64_at("req_id"@)->Some_0;
        let known = asked(log, Request::IsRequestMethod(a.method), Reply::Flag(a.is_request));
        let read = if json.bool_at("success"@) is None {
            suppress_warn_log(
                known,
                warns,
                "req-resp-no-success"@,
                None,
                Note::ResponseWithoutSuccess { url, req_id },
                a.warn_clock,
            )
        } else {
            known
        };
        assert(sends_in_use(log, read, table));
        let auth = response_auth(json);
        let looked = asked(read, Request::Conn(url), Reply::Conn(a.conn));
        let end = resolve_log(read, url, json, req_id, table, a);
        if a.conn is Some {
            let warned = order_ack_warned_log(
                looked,
                response_success(json),
                json.str_at("error"@),
                a.told_error,
            );
            let probes = a.conn->Some_0.state == ConnectionState::Authenticating;
            let probed = if probes {
                probe_log(warned, url, req_id, auth, table, a.probe)
            } else {
                warned
            };
            if probes {
                a_probe_sends_in_use(warned, url, req_id, auth, table, a.probe);
            }
            assert(sends_in_use(read, warned, table));
            sends_in_use_together(read, warned, probed, table);
            assert(sends_in_use(probed, end, table));
            sends_in_use_together(read, probed, end, table);
        }
        sends_in_use_together(log, read, end, table);
    }
}

proof fn a_probe_sends_in_use(
    log: Log,
    url: WsUrl,
    req_id: u64,
    auth: OrderAckAuth,
    table: SocketTable,
    a: ProbeAnswers,
)
    ensures
        sends_in_use(log, probe_log(log, url, req_id, auth, table, a), table),
{
    if a.replays(auth) {
        let accepted = asked(
            asked(log, Request::HasUrlEntry(WsUrl::Auth), Reply::Flag(a.has_entry)),
            Request::HandleEvent(url, FsmEvent::WireAuthHandshakeOk),
            Reply::View(a.after),
        );
        let replayed = remaining_log(accepted, url, None, table, a.remaining);
        a_replay_sends_on_the_socket_in_use(accepted, url, None, table, a.remaining);
        assert(sends_in_use(log, accepted, table));
        sends_in_use_together(log, accepted, replayed, table);
        let end = probe_log(log, url, req_id, auth, table, a);
        assert(sends_in_use(replayed, end, table));
        sends_in_use_together(log, replayed, end, table);
    }
}

proof fn resolving_adds_the_response(
    log: Log,
    url: WsUrl,
    json: Json,
    req_id: u64,
    table: SocketTable,
    a: ResponseAnswers,
)
    ensures
        ({
            let after = resolve_log(log, url, json, req_id, table, a);
            let kind = |request: Request| request is ResolvePendingRequest;
            &&& extends(log, after)
            &&& a.conn is None ==> picked(log, after, kind) == Log::empty()
            &&& a.conn is Some ==> {
                let asked_at = after.len() - if a.pending {
                    2int
                } else {
                    1int
                };
                &&& log.len() < asked_at < after.len()
                &&& after[asked_at] == (
                    Request::PendingRequestsContain(url, req_id),
                    Reply::Flag(a.pending),
                )
                &&& picked(log, after, kind) == if a.pending {
                    seq![after.last()]
                } else {
                    Log::empty()
                }
                &&& a.pending ==> after.last().0 is ResolvePendingRequest
                    && after.last().0->ResolvePendingRequest_0 == url && ({
                    let response = after.last().0->ResolvePendingRequest_1;
                    &&& response.req_id == req_id
                    &&& response.success == (json.bool_at("success"@) == Some(true))
                    &&& response.result == a.result
                    &&& response.error == a.error
                })
            }
        }),
{
    let kind = |request: Request| request is ResolvePendingRequest;
    let after = resolve_log(log, url, json, req_id, table, a);
    picking(log, kind);
    if a.conn is Some {
        let auth = response_auth(json);
        let warned = order_ack_warned_log(
            asked(log, Request::Conn(url), Reply::Conn(a.conn)),
            response_success(json),
            json.str_at("error"@),
            a.told_error,
        );
        let probes = a.conn->Some_0.state == ConnectionState::Authenticating;
        let probed = if probes {
            probe_log(warned, url, req_id, auth, table, a.probe)
        } else {
            warned
        };
        if probes {
            a_probe_resolves_nothing(warned, url, req_id, auth, table, a.probe);
        }
        assert(extends(log, warned));
        assert(resolves_nothing(log, probed)) by {
            assert forall|i: int| log.len() <= i < probed.len() implies !((#[trigger] probed[i]).0
                is ResolvePendingRequest) by {
                if i < warned.len() {
                    assert(probed[i] == warned[i]);
                }
            }
        }
        let shorter = if a.pending {
            after.drop_last()
        } else {
            after
        };
        assert(extends(probed, shorter));
        assert forall|i: int| log.len() <= i < shorter.len() implies !kind(
            (#[trigger] shorter[i]).0,
        ) by {
            if i < probed.len() {
                assert(shorter[i] == probed[i]);
            }
        }
        nothing_picked(log, shorter, kind);
        if a.pending {
            assert(after =~= shorter.push(after.last()));
            assert(picked(log, after, kind) =~= seq![after.last()]);
        }
    }
}

/// Whoever waits for a request gets its response, once: exactly when the frame is a
/// response on the auth connection with an id, and that id is found waiting. What it
/// gets is what the frame says, word for word: the id, the error, the result or
/// nothing in its place, and success exactly when the `success` of the frame is the
/// flag `true`.
pub proof fn a_waiter_gets_what_the_frame_says(
    log: Log,
    url: WsUrl,
    json: Json,
    warns: WarnTimes,
    table: SocketTable,
    a: ResponseAnswers,
)
    requires
        url == WsUrl::Auth && json.str_at("method"@) is Some ==> response_texts(
            url,
            json,
            table,
            a,
        ),
    ensures
        ({
            let after = response_log(log, url, json, warns, table, a);
            let resolved = picked(
                log,
                after,
                |request: Request| request is ResolvePendingRequest,
            );
            let req_id = json.u64_at("req_id"@);
            let reads = url == WsUrl::Auth && json.str_at("method"@) is Some;
            &&& extends(log, after)
            &&& reads ==> {
                &&& after[log.len() as int].0 is IsRequestMethod
                &&& json.str_at("method"@) == Some(
                    after[log.len() as int].0->IsRequestMethod_0@,
                )
                &&& after[log.len() as int].1 == Reply::Flag(a.is_request)
            }
            &&& !reads ==> after == log
            &&& resolved.len() == if reads && a.is_request && req_id is Some && a.conn is Some
                && a.pending {
                1nat
            } else {
                0
            }
            &&& reads && a.is_request && req_id is Some && a.conn is Some ==> exists|i: int|
                log.len() <= i < after.len() && #[trigger] after[i] == (
                    Request::PendingRequestsContain(url, req_id->Some_0),
                    Reply::Flag(a.pending),
                )
            &&& forall|i: int|
                log.len() <= i < after.len() ==> match (#[trigger] after[i]).0 {
                    Request::ResolvePendingRequest(of, response) => {
                        &&& of == url
                        &&& req_id == Some(response.req_id)
                        &&& response.success == (json.bool_at("success"@) == Some(true))
                        &&& json_of(response.result) == match json.get("result"@) {
                            Some(result) => result,
                            None => Json::Null,
                        }
                        &&& json.str_at("error"@) == match response.error {
                            Some(error) => Some(error@),
                            None => None,
                        }
                    },
                    _ => true,
                }
        }),
{
    let kind = |request: Request| request is ResolvePendingRequest;
    let after = response_log(log, url, json, warns, table, a);
    picking(log, kind);
    if url == WsUrl::Auth && json.str_at("method"@) is Some {
        let known = asked(log, Request::IsRequestMethod(a.method), Reply::Flag(a.is_request));
        if a.is_request && json.u64_at("req_id"@) is Some {
            let req_id = json.u64_at("req_id"@)->Some_0;
            let read = if json.bool_at("success"@) is None {
                suppress_warn_log(
                    known,
                    warns,
                    "req-resp-no-success"@,
                    None,
                    Note::ResponseWithoutSuccess { url, req_id },
                    a.warn_clock,
                )
            } else {
                known
            };
            assert(extends(log, read));
            assert forall|i: int| log.len() <= i < read.len() implies !kind(
                (#[trigger] read[i]).0,
            ) by {}
            nothing_picked(log, read, kind);
            resolving_adds_the_response(read, url, json, req_id, table, a);
            picked_together(log, read, after, kind);
            assert(picked(log, after, kind) =~= picked(read, after, kind));
            assert(after[log.len() as int] == read[log.len() as int]);
            assert forall|i: int| log.len() <= i < after.len() && (
            #[trigger] after[i]).0 is ResolvePendingRequest implies a.conn is Some && a.pending
                && i == after.len() - 1 by {
                if i < read.len() {
                    assert(after[i] == read[i]);
                } else if a.conn is Some {
                    a_response_resolves_its_request(read, url, json, req_id, table, a);
                    if !a.pending {
                        assert(after.last().0 is PendingRequestsContain);
                    }
                }
            }
        } else {
            assert forall|i: int| log.len() <= i < after.len() implies !kind(
                (#[trigger] after[i]).0,
            ) by {}
            nothing_picked(log, after, kind);
        }
    }
}

/// Whether a request tells a connection what an order says of its token.
pub open spec fn is_token_verdict(request: Request) -> bool {
    match request {
        Request::HandleEvent(_, event) => event is WireAuthHandshakeOk || event
            is WireOrderAuthOk || event is WireAuthHandshakeFailed || event
            is WireOrderAckTokenStale,
        _ => false,
    }
}

/// An accepted probe is told to the connection as the handshake of its
/// subscriptions where it has some, and as that of a bare order where it has none.
/// The subscriptions are then replayed, all of them, if the connection asks for it,
/// and the resubscription may come to its end. A refused one is told as refused.
/// Either way the state is shown and the send-ready flag is stored anew, last.
pub proof fn a_probe_is_told_to_the_connection(
    log: Log,
    url: WsUrl,
    req_id: u64,
    auth: OrderAckAuth,
    table: SocketTable,
    a: ProbeAnswers,
)
    ensures
        ({
            let after = probe_log(log, url, req_id, auth, table, a);
            let verdicts = picked(log, after, |request: Request| is_token_verdict(request));
            let replays = auth is Authenticated && a.has_entry && a.after.state
                == ConnectionState::Resubscribing;
            let n = log.len() as int;
            &&& extends(log, after)
            &&& shows_what_is(log, after)
            &&& last_told(after, url) == Some(a.last(auth))
            &&& verdicts.len() == 1
            &&& verdicts[0].1 == Reply::View(a.after)
            &&& match auth {
                OrderAckAuth::Authenticated => {
                    &&& after[n] == (
                        Request::HasUrlEntry(WsUrl::Auth),
                        Reply::Flag(a.has_entry),
                    )
                    &&& verdicts[0].0 == Request::HandleEvent(
                        url,
                        if a.has_entry {
                            FsmEvent::WireAuthHandshakeOk
                        } else {
                            FsmEvent::WireOrderAuthOk
                        },
                    )
                },
                OrderAckAuth::AuthFailed(kind) => verdicts[0].0 == Request::HandleEvent(
                    url,
                    FsmEvent::WireAuthHandshakeFailed { kind },
                ),
            }
            &&& made(log, after, Request::CompleteResubscribeIfEmpty(url)) <==> replays
            &&& replays ==> extends(
                remaining_log(log.push(after[n]).push(after[n + 1]), url, None, table, a.remaining),
                after,
            )
            &&& after.last().0 == Request::StoreAuthSendReady(
                url == WsUrl::Auth && last_told(after, url)->Some_0.state
                    == ConnectionState::Authenticating && !a.reads.auth_has_entry
                    && a.reads.token is Some && !a.reads.token->Some_0.expired,
            )
        }),
{
    let kind = |request: Request| is_token_verdict(request);
    let after = probe_log(log, url, req_id, auth, table, a);
    let n = log.len() as int;
    picking(log, kind);
    showing(log);
    if a.replays(auth) {
        let accepted = asked(
            asked(log, Request::HasUrlEntry(WsUrl::Auth), Reply::Flag(a.has_entry)),
            Request::HandleEvent(url, FsmEvent::WireAuthHandshakeOk),
            Reply::View(a.after),
        );
        let replayed = remaining_log(accepted, url, None, table, a.remaining);
        a_replay_stays_on_its_connection(accepted, url, None, table, a.remaining);
        let rule = |request: Request| is_of_subscribing(request, url);
        assert forall|i: int| accepted.len() <= i < replayed.len() implies {
            &&& !kind((#[trigger] replayed[i]).0)
            &&& !(replayed[i].0 is StoreMirror)
            &&& !(replayed[i].0 is CompleteResubscribeIfEmpty)
        } by {
            assert(rule(replayed[i].0));
        }
        assert(extends(log, accepted));
        nothing_picked(accepted, replayed, kind);
        picked_together(log, accepted, replayed, kind);
        nothing_shown(accepted, replayed);
        shows_together(log, accepted, replayed);
        showing(replayed);
        assert(extends(replayed, after));
        shows_together(log, replayed, after);
        assert forall|i: int| replayed.len() <= i < after.len() implies !kind(
            (#[trigger] after[i]).0,
        ) by {}
        nothing_picked(replayed, after, kind);
        picked_together(log, replayed, after, kind);
        assert(picked(log, after, kind) =~= picked(log, accepted, kind));
        assert(after[n] == replayed[n] && replayed[n] == accepted[n]);
        assert(after[n + 1] == replayed[n + 1] && replayed[n + 1] == accepted[n + 1]);
        assert(log.push(after[n]).push(after[n + 1]) =~= accepted);
        assert(after[replayed.len() as int].0 == Request::CompleteResubscribeIfEmpty(url));
    }
}

/// A response decides about the token by its error alone, and only where it is no
/// success. On a connection that authenticates, the order was the probe: it is
/// accepted, unless the error is one of authentication, and then it is refused as of
/// that kind. On an open connection only a stale token is told: the token is dropped
/// and a refresh is started and awaited, and the order is given back. Anything else
/// tells the connection nothing, and whatever is shown of it is what it said last.
pub proof fn a_response_decides_about_the_token(
    log: Log,
    url: WsUrl,
    json: Json,
    req_id: u64,
    table: SocketTable,
    a: ResponseAnswers,
)
    requires
        a.conn is Some,
    ensures
        ({
            let after = resolve_log(log, url, json, req_id, table, a);
            let verdicts = picked(log, after, |request: Request| is_token_verdict(request));
            let refused = match json.str_at("error"@) {
                Some(error) => if json.bool_at("success"@) == Some(true) {
                    None
                } else {
                    auth_class(error)
                },
                None => None,
            };
            let probes = a.conn->Some_0.state == ConnectionState::Authenticating;
            let probe = (
                Request::HandleEvent(
                    url,
                    match refused {
                        Some(kind) => FsmEvent::WireAuthHandshakeFailed { kind },
                        None => if a.probe.has_entry {
                            FsmEvent::WireAuthHandshakeOk
                        } else {
                            FsmEvent::WireOrderAuthOk
                        },
                    },
                ),
                Reply::View(a.probe.after),
            );
            let stale = (
                Request::HandleEvent(url, FsmEvent::WireOrderAckTokenStale),
                Reply::View(a.stale),
            );
            let is_stale = refused == Some(AuthErrorKind::TokenStale) && if probes {
                a.probe.after.state == ConnectionState::Open
            } else {
                a.conn->Some_0.state == ConnectionState::Open
            };
            &&& extends(log, after)
            &&& shows_what_is(log, after)
            &&& verdicts == if probes && is_stale {
                seq![probe, stale]
            } else if probes {
                seq![probe]
            } else if is_stale {
                seq![stale]
            } else {
                Log::empty()
            }
            &&& is_stale ==> {
                &&& made(log, after, Request::InvalidateCachedToken)
                &&& made(log, after, Request::SetAwaitingTokenRefresh(url, true))
                &&& made(log, after, Request::ForceRefresh)
                &&& made(log, after, Request::DrainOneRetryable(url, req_id))
                &&& made(log, after, Request::StoreMirror(url, a.stale.state))
            }
            &&& !probes && !is_stale ==> grew_without(log, after, Effect::Refresh)
        }),
{
    let kind = |request: Request| is_token_verdict(request);
    let after = resolve_log(log, url, json, req_id, table, a);
    let auth = response_auth(json);
    let warned = order_ack_warned_log(
        asked(log, Request::Conn(url), Reply::Conn(a.conn)),
        response_success(json),
        json.str_at("error"@),
        a.told_error,
    );
    a_look_decides_nothing(log, url, json, a);
    let probes = a.conn->Some_0.state == ConnectionState::Authenticating;
    if probes {
        let probed = probe_log(warned, url, req_id, auth, table, a.probe);
        let is_stale = a.probe.last(auth).state == ConnectionState::Open && auth
            == OrderAckAuth::AuthFailed(AuthErrorKind::TokenStale);
        a_probe_is_told_to_the_connection(warned, url, req_id, auth, table, a.probe);
        an_answer_is_settled(probed, url, json, req_id, is_stale, a);
        shows_together(log, warned, probed);
        shows_together(log, probed, after);
        picked_together(log, warned, probed, kind);
        picked_together(log, probed, after, kind);
        let verdict = picked(warned, probed, kind)[0];
        assert(picked(log, after, kind) =~= if is_stale {
            seq![
                verdict,
                (
                    Request::HandleEvent(url, FsmEvent::WireOrderAckTokenStale),
                    Reply::View(a.stale),
                ),
            ]
        } else {
            seq![verdict]
        });
        if is_stale {
            made_later(log, probed, after, Request::InvalidateCachedToken);
            made_later(log, probed, after, Request::SetAwaitingTokenRefresh(url, true));
            made_later(log, probed, after, Request::ForceRefresh);
            made_later(log, probed, after, Request::DrainOneRetryable(url, req_id));
            made_later(log, probed, after, Request::StoreMirror(url, a.stale.state));
        }
    } else {
        let is_stale = a.conn->Some_0.state == ConnectionState::Open && auth
            == OrderAckAuth::AuthFailed(AuthErrorKind::TokenStale);
        an_answer_is_settled(warned, url, json, req_id, is_stale, a);
        shows_together(log, warned, after);
        picked_together(log, warned, after, kind);
        assert(picked(log, after, kind) =~= picked(warned, after, kind));
        if is_stale {
            made_later(log, warned, after, Request::InvalidateCachedToken);
            made_later(log, warned, after, Request::SetAwaitingTokenRefresh(url, true));
            made_later(log, warned, after, Request::ForceRefresh);
            made_later(log, warned, after, Request::DrainOneRetryable(url, req_id));
            made_later(log, warned, after, Request::StoreMirror(url, a.stale.state));
        } else {
            grew_without_together(log, warned, after, Effect::Refresh);
        }
    }
}

/// The beginning of a response, up to where the token is decided about.
proof fn a_look_decides_nothing(log: Log, url: WsUrl, json: Json, a: ResponseAnswers)
    ensures
        ({
            let warned = order_ack_warned_log(
                asked(log, Request::Conn(url), Reply::Conn(a.conn)),
                response_success(json),
                json.str_at("error"@),
                a.told_error,
            );
            &&& extends(log, warned)
            &&& shows_what_is(log, warned)
            &&& picked(log, warned, |request: Request| is_token_verdict(request)) == Log::empty()
            &&& grew_without(log, warned, Effect::Refresh)
        }),
{
    showing(log);
    picking(log, |request: Request| is_token_verdict(request));
}

/// The end of a response, from where the token was decided about.
proof fn an_answer_is_settled(
    log: Log,
    url: WsUrl,
    json: Json,
    req_id: u64,
    is_stale: bool,
    a: ResponseAnswers,
)
    ensures
        ({
            let kind = |request: Request| is_token_verdict(request);
            let settled = if is_stale {
                stale_log(log, url, req_id, a.stale)
            } else {
                log
            };
            let looked = asked(
                settled,
                Request::PendingRequestsContain(url, req_id),
                Reply::Flag(a.pending),
            );
            let after = if a.pending {
                told(looked, Request::ResolvePendingRequest(url, response_of(json, req_id, a)))
            } else {
                looked
            };
            &&& extends(log, after)
            &&& shows_what_is(log, after)
            &&& picked(log, after, kind) == if is_stale {
                seq![
                    (
                        Request::HandleEvent(url, FsmEvent::WireOrderAckTokenStale),
                        Reply::View(a.stale),
                    ),
                ]
            } else {
                Log::empty()
            }
            &&& is_stale ==> {
                &&& made(log, after, Request::InvalidateCachedToken)
                &&& made(log, after, Request::SetAwaitingTokenRefresh(url, true))
                &&& made(log, after, Request::ForceRefresh)
                &&& made(log, after, Request::DrainOneRetryable(url, req_id))
                &&& made(log, after, Request::StoreMirror(url, a.stale.state))
            }
            &&& !is_stale ==> grew_without(log, after, Effect::Refresh)
        }),
{
    let kind = |request: Request| is_token_verdict(request);
    let settled = if is_stale {
        stale_log(log, url, req_id, a.stale)
    } else {
        log
    };
    let looked = asked(
        settled,
        Request::PendingRequestsContain(url, req_id),
        Reply::Flag(a.pending),
    );
    let after = if a.pending {
        told(looked, Request::ResolvePendingRequest(url, response_of(json, req_id, a)))
    } else {
        looked
    };
    picking(log, kind);
    showing(log);
    if is_stale {
        let m = log.len() as int;
        assert(after[m + 1].0 == Request::InvalidateCachedToken);
        assert(after[m + 2].0 == Request::SetAwaitingTokenRefresh(url, true));
        assert(after[m + 3].0 == Request::ForceRefresh);
        assert(after[m + 4].0 == Request::DrainOneRetryable(url, req_id));
        assert(after[m + 5].0 == Request::StoreMirror(url, a.stale.state));
        assert(picked(log, after, kind) =~= seq![
            (
                Request::HandleEvent(url, FsmEvent::WireOrderAckTokenStale),
                Reply::View(a.stale),
            ),
        ]);
    } else {
        assert(picked(log, after, kind) =~= Log::empty());
    }
}

/// A failed order whose error nothing tells the meaning of is warned about before
/// anything comes of it, with the words of the frame.
pub proof fn an_unknown_error_is_told_word_for_word(
    log: Log,
    url: WsUrl,
    json: Json,
    req_id: u64,
    table: SocketTable,
    a: ResponseAnswers,
)
    requires
        a.conn is Some,
        error_told(json, a),
        json.bool_at("success"@) != Some(true),
        match json.str_at("error"@) {
            Some(error) => auth_class(error) is None && !(error.len() > 0 && error[0] == 'E'),
            None => true,
        },
    ensures
        ({
            let after = resolve_log(log, url, json, req_id, table, a);
            let n = log.len() as int;
            &&& after.len() > n + 1
            &&& match after[n + 1].0 {
                Request::Say(Note::OrderErrorUnknown { error }) => json.str_at("error"@)
                    == match error {
                    Some(error) => Some(error@),
                    None => None,
                },
                _ => false,
            }
        }),
{
    let after = resolve_log(log, url, json, req_id, table, a);
    let auth = response_auth(json);
    let n = log.len() as int;
    let warned = order_ack_warned_log(
        asked(log, Request::Conn(url), Reply::Conn(a.conn)),
        response_success(json),
        json.str_at("error"@),
        a.told_error,
    );
    if a.conn->Some_0.state == ConnectionState::Authenticating {
        let probed = probe_log(warned, url, req_id, auth, table, a.probe);
        a_probe_resolves_nothing(warned, url, req_id, auth, table, a.probe);
        an_answer_is_settled(
            probed,
            url,
            json,
            req_id,
            a.probe.last(auth).state == ConnectionState::Open && auth == OrderAckAuth::AuthFailed(
                AuthErrorKind::TokenStale,
            ),
            a,
        );
        assert(after[n + 1] == probed[n + 1] && probed[n + 1] == warned[n + 1]);
    } else {
        an_answer_is_settled(
            warned,
            url,
            json,
            req_id,
            a.conn->Some_0.state == ConnectionState::Open && auth == OrderAckAuth::AuthFailed(
                AuthErrorKind::TokenStale,
            ),
            a,
        );
        assert(after[n + 1] == warned[n + 1]);
    }
}

/// A response that says nothing of its id is warned about, at most once in a while, and
/// comes to nothing else. One that says nothing of its success is warned about with its
/// id in the same way, before it is treated as a failure.
pub proof fn a_response_that_lacks_something_is_warned_about(
    log: Log,
    json: Json,
    warns: WarnTimes,
    table: SocketTable,
    a: ResponseAnswers,
)
    requires
        json.str_at("method"@) is Some,
        a.is_request,
    ensures
        ({
            let url = WsUrl::Auth;
            let after = response_log(log, url, json, warns, table, a);
            let known = log.push((Request::IsRequestMethod(a.method), Reply::Flag(true)));
            let due = |site: Seq<char>|
                !warns.contains_key((site, None::<ChannelName>)) || a.warn_clock.now >= warns[(
                    site,
                    None::<ChannelName>,
                )] + 1_000_000_000;
            let clocked = known.push((Request::BusClock, Reply::Clock(a.warn_clock)));
            let warned = |note: Note| clocked.push((Request::Say(note), Reply::Done));
            match (json.u64_at("req_id"@), json.bool_at("success"@)) {
                (None, _) => after == if due("req-resp-no-req-id"@) {
                    warned(Note::ResponseWithoutReqId { url })
                } else {
                    clocked
                },
                (Some(req_id), None) => after == resolve_log(
                    if due("req-resp-no-success"@) {
                        warned(Note::ResponseWithoutSuccess { url, req_id })
                    } else {
                        clocked
                    },
                    url,
                    json,
                    req_id,
                    table,
                    a,
                ),
                (Some(req_id), Some(_)) => after == resolve_log(
                    known,
                    url,
                    json,
                    req_id,
                    table,
                    a,
                ),
            }
        }),
{
}

} // verus!
