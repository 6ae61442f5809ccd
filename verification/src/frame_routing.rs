//! Incoming frames: which of the three kinds a text frame is, and what the end of
//! a socket does.

use crate::gaps::{
    a_recovery_sends_in_use, book_reseed_text, recover_book_gap, recover_log, RecoverAnswers,
};
use crate::host::{
    asked, extends, grew_without, nothing_picked, picked, picked_together, picking, said, showing,
    shows_what_is, told, BusClock, ConnView, Effect, Link, Log, Reply, Request,
};
use crate::json;
use crate::json::{json_of, parsed_json, Json};
use crate::notes::Note;
use crate::request_response::{
    a_waiter_gets_what_the_frame_says, handle_request_response, is_response, response_log,
    response_texts, response_warns, responses_send_in_use, ResponseAnswers,
};
use crate::route::{
    route_rows, route_step, route_text_frame, routing_sends_nothing, RouteAnswers, Routing,
};
use crate::socket_lifecycle::{
    drop_socket, other_url, sends_in_use, sends_in_use_together, write_mirror, SocketTable,
};
use crate::sub_ack::{
    acks_send_in_use, handle_sub_ack, is_subscribe_ack, is_unsubscribe_ack, sub_ack_log,
    sub_ack_texts, sub_ack_warns, SubAckAnswers,
};
use crate::throttle::{DropCounts, DropTracker, SuppressWarnTracker, WarnTimes};
use crate::types::{FsmEvent, Symbol, TransportError, TransportErrorKind, WsFrame, WsOpcode, WsUrl};
use serde_json::Value;
use vstd::prelude::*;

verus! {

/// What the end of a socket met.
pub struct CloseAnswers {
    pub conn: Option<ConnView>,
    pub after: ConnView,
    pub clock: BusClock,
}

/// Whether the connection has a new socket after the old one ended.
pub open spec fn has_new_socket(dead: Option<u64>, after: ConnView) -> bool {
    after.socket is Some && after.socket != dead
}

pub open spec fn wire_close_log(
    log: Log,
    url: WsUrl,
    event: FsmEvent,
    table: SocketTable,
    a: CloseAnswers,
) -> Log {
    let log = told(log, Request::DropUpgradeBridge(url));
    let log = asked(log, Request::Conn(url), Reply::Conn(a.conn));
    if a.conn is None {
        log
    } else {
        let log = asked(log, Request::HandleEvent(url, event), Reply::View(a.after));
        let log = told(log, Request::StoreMirror(url, a.after.state));
        if has_new_socket(table.sockets.at(url), a.after) {
            let log = asked(log, Request::BusClock, Reply::Clock(a.clock));
            if a.clock.bus_alive {
                told(log, Request::WireUpgradeBridge(url, a.after.socket->Some_0))
            } else {
                log
            }
        } else {
            log
        }
    }
}

/// The table after a socket has ended: it holds that socket no more, whatever the
/// connection says, and a new one if there is one.
pub open spec fn wire_close_table(url: WsUrl, table: SocketTable, a: CloseAnswers) -> SocketTable {
    let closed = table.without(url);
    if a.conn is Some && has_new_socket(table.sockets.at(url), a.after) {
        SocketTable {
            sockets: closed.sockets.with(url, a.after.socket),
            bridges: if a.clock.bus_alive {
                closed.bridges.with(url, a.after.socket)
            } else {
                closed.bridges
            },
        }
    } else {
        closed
    }
}

/// Takes a socket that has ended out of the table, and tells the connection.
///
/// The socket goes first and does not come back, so that an end that the
/// connection passes over is not read again and again.
pub fn drive_wire_close<F: Fn(Request) -> Reply>(
    host: &mut Link<F>,
    url: WsUrl,
    event: FsmEvent,
    table: &mut SocketTable,
)
    requires
        old(table).wf(),
    ensures
        final(table).wf(),
        exists|a: CloseAnswers|
            {
                &&& final(host).log() == #[trigger] wire_close_log(
                    old(host).log(),
                    url,
                    event,
                    *old(table),
                    a,
                )
                &&& *final(table) == wire_close_table(url, *old(table), a)
            },
{
    let ghost before = host.log();
    let ghost table0 = *table;
    let ghost closing = event;
    let ghost mut a: CloseAnswers = arbitrary();
    let dead = table.sockets.get(url);
    drop_socket(host, url, table);
    let conn = host.conn(url);
    proof {
        a.conn = conn;
    }
    if conn.is_none() {
        proof {
            assert(host.log() == wire_close_log(before, url, closing, table0, a));
        }
        return ;
    }
    let after = host.view(Request::HandleEvent(url, event));
    proof {
        a.after = after;
    }
    write_mirror(host, url, after.state);
    match after.socket {
        Some(cid) => {
            let fresh = match dead {
                Some(dead) => dead != cid,
                None => true,
            };
            if fresh {
                table.sockets.set(url, Some(cid));
                let clock = host.bus_clock();
                proof {
                    a.clock = clock;
                }
                if clock.bus_alive {
                    host.tell(Request::WireUpgradeBridge(url, cid));
                    table.bridges.set(url, Some(cid));
                }
            }
        },
        None => {},
    }
    proof {
        assert(host.log() == wire_close_log(before, url, closing, table0, a));
    }
}

/// What the recovery of several books met.
pub open spec fn recover_all_log(
    log: Log,
    url: WsUrl,
    gaps: Seq<Symbol>,
    table: SocketTable,
    answers: Seq<RecoverAnswers>,
) -> Log
    decreases answers.len(),
{
    if answers.len() == 0 {
        log
    } else {
        recover_log(
            recover_all_log(log, url, gaps, table, answers.drop_last()),
            url,
            gaps[answers.len() - 1],
            table,
            answers.last(),
        )
    }
}

/// Whether the answers are those of recovering every book of `gaps`.
pub open spec fn recovers_all(
    url: WsUrl,
    gaps: Seq<Symbol>,
    table: SocketTable,
    answers: Seq<RecoverAnswers>,
) -> bool {
    &&& answers.len() == gaps.len()
    &&& forall|i: int|
        0 <= i < answers.len() && (#[trigger] answers[i]).params is Some && answers[i].conn is Some
            ==> book_reseed_text(
            url,
            gaps[i],
            answers[i].params->Some_0,
            table,
            answers[i].reseed,
        )
}

fn recover_all<F: Fn(Request) -> Reply>(
    host: &mut Link<F>,
    url: WsUrl,
    gaps: &Vec<Symbol>,
    table: &SocketTable,
)
    ensures
        exists|answers: Seq<RecoverAnswers>|
            {
                &&& final(host).log() == #[trigger] recover_all_log(
                    old(host).log(),
                    url,
                    gaps@,
                    *table,
                    answers,
                )
                &&& recovers_all(url, gaps@, *table, answers)
            },
{
    let ghost before = host.log();
    let ghost mut answers: Seq<RecoverAnswers> = Seq::empty();
    let mut i: usize = 0;
    while i < gaps.len()
        invariant
            i <= gaps@.len(),
            answers.len() == i,
            host.log() == recover_all_log(before, url, gaps@, *table, answers),
            forall|k: int|
                0 <= k < answers.len() && (#[trigger] answers[k]).params is Some
                    && answers[k].conn is Some ==> book_reseed_text(
                    url,
                    gaps@[k],
                    answers[k].params->Some_0,
                    *table,
                    answers[k].reseed,
                ),
        decreases gaps@.len() - i,
    {
        let ghost here = host.log();
        recover_book_gap(host, url, &gaps[i], table);
        proof {
            let a = choose|a: RecoverAnswers|
                {
                    &&& host.log() == #[trigger] recover_log(
                        here,
                        url,
                        gaps@[i as int],
                        *table,
                        a,
                    )
                    &&& a.params is Some && a.conn is Some ==> book_reseed_text(
                        url,
                        gaps@[i as int],
                        a.params->Some_0,
                        *table,
                        a.reseed,
                    )
                };
            let longer = answers.push(a);
            assert(longer.drop_last() =~= answers);
            assert(host.log() == recover_all_log(before, url, gaps@, *table, longer));
            answers = longer;
        }
        i += 1;
    }
    proof {
        assert(recovers_all(url, gaps@, *table, answers));
    }
}

/// What a text frame met.
pub struct TextAnswers {
    pub conn: Option<ConnView>,
    pub response: ResponseAnswers,
    pub ack: SubAckAnswers,
    pub route: RouteAnswers,
    pub recover: Seq<RecoverAnswers>,
}

/// What is left after a text frame.
pub struct TextEnd {
    pub log: Log,
    pub warns: WarnTimes,
    pub drops: DropCounts,
}

/// A frame counts as activity before anything else is asked of it.
pub open spec fn activity_log(log: Log, url: WsUrl, conn: Option<ConnView>) -> Log {
    let log = asked(log, Request::Conn(url), Reply::Conn(conn));
    if conn is Some {
        told(log, Request::NoteInboundActivity(url))
    } else {
        log
    }
}

/// A text frame once it was tried as a response.
pub open spec fn responded(
    s: TextEnd,
    url: WsUrl,
    json: Json,
    table: SocketTable,
    a: TextAnswers,
) -> TextEnd {
    let log = activity_log(s.log, url, a.conn);
    TextEnd {
        log: response_log(log, url, json, s.warns, table, a.response),
        warns: response_warns(s.warns, url, json, a.response),
        ..s
    }
}

/// A data frame once it was routed.
pub open spec fn routed(s: TextEnd, json: Json, route: RouteAnswers) -> Routing {
    route_step(
        Routing { log: s.log, warns: s.warns, drops: s.drops, gaps: Seq::empty() },
        json,
        route,
    )
}

/// A data frame: routed, and then each book with a gap is recovered.
pub open spec fn data_step(
    s: TextEnd,
    url: WsUrl,
    json: Json,
    table: SocketTable,
    route: RouteAnswers,
    recover: Seq<RecoverAnswers>,
) -> TextEnd {
    let r = routed(s, json, route);
    TextEnd {
        log: recover_all_log(r.log, url, r.gaps, table, recover),
        warns: r.warns,
        drops: r.drops,
    }
}

/// A text frame: a response if it is one, else an acknowledgement if it is one,
/// else data. Text that is no JSON is dropped.
pub open spec fn text_step(
    s: TextEnd,
    url: WsUrl,
    json: Option<Json>,
    table: SocketTable,
    a: TextAnswers,
) -> TextEnd {
    match json {
        None => TextEnd { log: activity_log(s.log, url, a.conn), ..s },
        Some(json) => {
            let s = responded(s, url, json, table, a);
            if is_response(url, json, a.response) {
                s
            } else if is_subscribe_ack(json) || is_unsubscribe_ack(json) {
                TextEnd {
                    log: sub_ack_log(s.log, url, json, s.warns, table, a.ack),
                    warns: sub_ack_warns(s.warns, url, json, a.ack),
                    ..s
                }
            } else {
                data_step(s, url, json, table, a.route, a.recover)
            }
        },
    }
}

/// Whether the answers are those of all rows and all recovered books of a data
/// frame.
pub open spec fn data_whole(
    s: TextEnd,
    url: WsUrl,
    json: Json,
    table: SocketTable,
    route: RouteAnswers,
    recover: Seq<RecoverAnswers>,
) -> bool {
    route_rows(json, route) && recovers_all(url, routed(s, json, route).gaps, table, recover)
}

/// The texts in the answers are those of the frame, and its rows and its books are
/// all gone through.
pub open spec fn text_whole(
    s: TextEnd,
    url: WsUrl,
    json: Option<Json>,
    table: SocketTable,
    a: TextAnswers,
) -> bool {
    match json {
        None => true,
        Some(json) => {
            &&& url == WsUrl::Auth && json.str_at("method"@) is Some ==> response_texts(
                url,
                json,
                table,
                a.response,
            )
            &&& !is_response(url, json, a.response) ==> if is_subscribe_ack(json) {
                sub_ack_texts(url, json, table, a.ack)
            } else {
                !is_unsubscribe_ack(json) ==> data_whole(
                    responded(s, url, json, table, a),
                    url,
                    json,
                    table,
                    a.route,
                    a.recover,
                )
            }
        },
    }
}

fn note_activity<F: Fn(Request) -> Reply>(host: &mut Link<F>, url: WsUrl)
    ensures
        exists|conn: Option<ConnView>|
            final(host).log() == #[trigger] activity_log(old(host).log(), url, conn),
{
    let ghost before = host.log();
    let conn = host.conn(url);
    if conn.is_some() {
        host.tell(Request::NoteInboundActivity(url));
    }
    proof {
        assert(host.log() == activity_log(before, url, conn));
    }
}

fn handle_data<F: Fn(Request) -> Reply>(
    host: &mut Link<F>,
    url: WsUrl,
    json: &Value,
    drops: &mut DropTracker,
    warns: &mut SuppressWarnTracker,
    table: &SocketTable,
)
    ensures
        exists|route: RouteAnswers, recover: Seq<RecoverAnswers>|
            {
                &&& (TextEnd {
                    log: final(host).log(),
                    warns: final(warns)@,
                    drops: final(drops)@,
                }) == #[trigger] data_step(
                    TextEnd { log: old(host).log(), warns: old(warns)@, drops: old(drops)@ },
                    url,
                    json_of(*json),
                    *table,
                    route,
                    recover,
                )
                &&& data_whole(
                    TextEnd { log: old(host).log(), warns: old(warns)@, drops: old(drops)@ },
                    url,
                    json_of(*json),
                    *table,
                    route,
                    recover,
                )
            },
{
    let ghost start = TextEnd { log: host.log(), warns: warns@, drops: drops@ };
    let ghost tree = json_of(*json);
    let gaps = route_text_frame(host, json, drops, warns);
    let ghost fanned = Routing { log: host.log(), warns: warns@, drops: drops@, gaps: gaps@ };
    recover_all(host, url, &gaps, table);
    proof {
        let route = choose|a: RouteAnswers|
            {
                &&& fanned == #[trigger] route_step(
                    Routing {
                        log: start.log,
                        warns: start.warns,
                        drops: start.drops,
                        gaps: Seq::empty(),
                    },
                    tree,
                    a,
                )
                &&& route_rows(tree, a)
            };
        let recover = choose|answers: Seq<RecoverAnswers>|
            {
                &&& host.log() == #[trigger] recover_all_log(
                    fanned.log,
                    url,
                    gaps@,
                    *table,
                    answers,
                )
                &&& recovers_all(url, gaps@, *table, answers)
            };
        assert(fanned == routed(start, tree, route));
        let end = TextEnd { log: host.log(), warns: warns@, drops: drops@ };
        assert(end == data_step(start, url, tree, *table, route, recover));
    }
}

/// Acts on a text frame.
pub fn handle_text<F: Fn(Request) -> Reply>(
    host: &mut Link<F>,
    url: WsUrl,
    payload: &Vec<u8>,
    drops: &mut DropTracker,
    warns: &mut SuppressWarnTracker,
    table: &SocketTable,
)
    ensures
        exists|a: TextAnswers|
            {
                &&& (TextEnd {
                    log: final(host).log(),
                    warns: final(warns)@,
                    drops: final(drops)@,
                }) == #[trigger] text_step(
                    TextEnd { log: old(host).log(), warns: old(warns)@, drops: old(drops)@ },
                    url,
                    parsed_json(payload@),
                    *table,
                    a,
                )
                &&& text_whole(
                    TextEnd { log: old(host).log(), warns: old(warns)@, drops: old(drops)@ },
                    url,
                    parsed_json(payload@),
                    *table,
                    a,
                )
            },
{
    let ghost start = TextEnd { log: host.log(), warns: warns@, drops: drops@ };
    let ghost tree = parsed_json(payload@);
    let ghost mut a: TextAnswers = arbitrary();
    note_activity(host, url);
    let ghost noted = host.log();
    proof {
        a.conn = choose|conn: Option<ConnView>|
            host.log() == #[trigger] activity_log(start.log, url, conn);
    }
    let json = match json::parse(payload.as_slice()) {
        Some(json) => json,
        None => {
            proof {
                let end = TextEnd { log: host.log(), warns: warns@, drops: drops@ };
                assert(end == text_step(start, url, tree, *table, a));
            }
            return ;
        },
    };
    let consumed = handle_request_response(host, url, &json, warns, table);
    let ghost responded = host.log();
    let ghost times = warns@;
    proof {
        a.response = choose|r: ResponseAnswers|
            {
                &&& responded == #[trigger] response_log(
                    noted,
                    url,
                    json_of(json),
                    start.warns,
                    *table,
                    r,
                )
                &&& times == response_warns(start.warns, url, json_of(json), r)
                &&& consumed == is_response(url, json_of(json), r)
                &&& url == WsUrl::Auth && json_of(json).str_at("method"@) is Some
                    ==> response_texts(url, json_of(json), *table, r)
            };
    }
    if consumed {
        proof {
            let end = TextEnd { log: host.log(), warns: warns@, drops: drops@ };
            assert(end == text_step(start, url, tree, *table, a));
        }
        return ;
    }
    let acknowledged = handle_sub_ack(host, url, &json, warns, table);
    if acknowledged {
        proof {
            a.ack = choose|k: SubAckAnswers|
                {
                    &&& host.log() == #[trigger] sub_ack_log(
                        responded,
                        url,
                        json_of(json),
                        times,
                        *table,
                        k,
                    )
                    &&& warns@ == sub_ack_warns(times, url, json_of(json), k)
                    &&& is_subscribe_ack(json_of(json)) ==> sub_ack_texts(
                        url,
                        json_of(json),
                        *table,
                        k,
                    )
                };
            let end = TextEnd { log: host.log(), warns: warns@, drops: drops@ };
            assert(end == text_step(start, url, tree, *table, a));
        }
        return ;
    }
    let ghost here = TextEnd { log: host.log(), warns: warns@, drops: drops@ };
    proof {
        assert(here == self::responded(start, url, json_of(json), *table, a));
    }
    handle_data(host, url, &json, drops, warns, table);
    proof {
        let end = TextEnd { log: host.log(), warns: warns@, drops: drops@ };
        let (route, recover) = choose|route: RouteAnswers, recover: Seq<RecoverAnswers>|
            {
                &&& end == #[trigger] data_step(here, url, json_of(json), *table, route, recover)
                &&& data_whole(here, url, json_of(json), *table, route, recover)
            };
        a.route = route;
        a.recover = recover;
        assert(end == text_step(start, url, tree, *table, a));
    }
}

/// The event of a socket that has ended.
pub open spec fn close_event(error: TransportError) -> FsmEvent {
    match error.kind {
        TransportErrorKind::CloseFrame { code, reason } => FsmEvent::WireCloseReceived {
            code,
            reason: Some(reason),
        },
        _ => FsmEvent::WireAbnormalClose { error },
    }
}

/// The event of a socket that has ended: a close frame closes it in order, all else
/// is abnormal.
pub fn close_event_of(error: TransportError) -> (event: FsmEvent)
    ensures
        event == close_event(error),
{
    let transient = error.transient;
    match error.kind {
        TransportErrorKind::CloseFrame { code, reason } => FsmEvent::WireCloseReceived {
            code,
            reason: Some(reason),
        },
        kind => FsmEvent::WireAbnormalClose { error: TransportError { kind, transient } },
    }
}

/// What is said of a socket that has ended: the close of one that was closed in
/// order in passing, all else as a warning.
pub open spec fn close_note(url: WsUrl, error: TransportError) -> Note {
    match error.kind {
        TransportErrorKind::CloseFrame { code, reason } => Note::SocketClosed {
            url,
            code,
            reason,
        },
        _ => Note::ReceiveFailed { url, error },
    }
}

fn close_note_of(url: WsUrl, error: &TransportError) -> (note: Note)
    ensures
        note == close_note(url, *error),
{
    match &error.kind {
        TransportErrorKind::CloseFrame { code, reason } => Note::SocketClosed {
            url,
            code: *code,
            reason: reason.clone(),
        },
        _ => Note::ReceiveFailed { url, error: error.clone() },
    }
}

/// Whether what a socket delivered was acted on.
pub open spec fn frame_handled(
    s: TextEnd,
    end: TextEnd,
    url: WsUrl,
    frame_result: Result<WsFrame, TransportError>,
    table: SocketTable,
    table_end: SocketTable,
) -> bool {
    match frame_result {
        Ok(frame) => {
            &&& table_end == table
            &&& if frame.opcode == WsOpcode::Text {
                exists|a: TextAnswers|
                    {
                        &&& end == #[trigger] text_step(
                            s,
                            url,
                            parsed_json(frame.payload@),
                            table,
                            a,
                        )
                        &&& text_whole(s, url, parsed_json(frame.payload@), table, a)
                    }
            } else {
                exists|conn: Option<ConnView>|
                    end == (TextEnd { log: #[trigger] activity_log(s.log, url, conn), ..s })
            }
        },
        Err(error) => exists|a: CloseAnswers|
            {
                &&& end == (TextEnd {
                    log: #[trigger] wire_close_log(
                        said(s.log, close_note(url, error)),
                        url,
                        close_event(error),
                        table,
                        a,
                    ),
                    ..s
                })
                &&& table_end == wire_close_table(url, table, a)
            },
    }
}

/// Acts on what a socket delivered: a frame, or its end.
pub fn handle_frame<F: Fn(Request) -> Reply>(
    host: &mut Link<F>,
    url: WsUrl,
    frame_result: Result<WsFrame, TransportError>,
    drops: &mut DropTracker,
    warns: &mut SuppressWarnTracker,
    table: &mut SocketTable,
)
    requires
        old(table).wf(),
    ensures
        final(table).wf(),
        frame_handled(
            TextEnd { log: old(host).log(), warns: old(warns)@, drops: old(drops)@ },
            TextEnd { log: final(host).log(), warns: final(warns)@, drops: final(drops)@ },
            url,
            frame_result,
            *old(table),
            *final(table),
        ),
{
    let ghost start = TextEnd { log: host.log(), warns: warns@, drops: drops@ };
    let ghost table0 = *table;
    match frame_result {
        Ok(frame) => {
            match frame.opcode {
                WsOpcode::Text => {
                    handle_text(host, url, &frame.payload, drops, warns, table);
                },
                WsOpcode::Other => {
                    note_activity(host, url);
                    proof {
                        let conn = choose|conn: Option<ConnView>|
                            host.log() == #[trigger] activity_log(start.log, url, conn);
                        let end = TextEnd { log: host.log(), warns: warns@, drops: drops@ };
                        assert(end == (TextEnd {
                            log: activity_log(start.log, url, conn),
                            ..start
                        }));
                    }
                },
            }
        },
        Err(error) => {
            let ghost closing = close_event(error);
            host.say(close_note_of(url, &error));
            let ghost noted = host.log();
            let event = close_event_of(error);
            drive_wire_close(host, url, event, table);
            proof {
                let a = choose|a: CloseAnswers|
                    {
                        &&& host.log() == #[trigger] wire_close_log(
                            noted,
                            url,
                            closing,
                            table0,
                            a,
                        )
                        &&& *table == wire_close_table(url, table0, a)
                    };
                let end = TextEnd { log: host.log(), warns: warns@, drops: drops@ };
                assert(end == (TextEnd {
                    log: wire_close_log(noted, url, closing, table0, a),
                    ..start
                }));
            }
        },
    }
}

/// A socket that has ended does not come back into the table, and the other
/// connection keeps its own.
pub proof fn ended_socket_stays_out(url: WsUrl, table: SocketTable, a: CloseAnswers)
    ensures
        ({
            let end = wire_close_table(url, table, a);
            &&& table.sockets.at(url) is Some ==> end.sockets.at(url) != table.sockets.at(url)
            &&& end.sockets.at(other_url(url)) == table.sockets.at(other_url(url))
            &&& end.bridges.at(other_url(url)) == table.bridges.at(other_url(url))
        }),
{
}

/// Text that is no JSON counts as activity and does nothing else.
pub proof fn no_json_is_only_activity(s: TextEnd, url: WsUrl, table: SocketTable, a: TextAnswers)
    ensures
        ({
            let end = text_step(s, url, None, table, a);
            &&& end.warns == s.warns
            &&& end.drops == s.drops
            &&& end.log == activity_log(s.log, url, a.conn)
            &&& forall|effect: Effect|
                effect != Effect::Inward ==> #[trigger] grew_without(s.log, end.log, effect)
        }),
{
}

proof fn recoveries_send_in_use(
    log: Log,
    url: WsUrl,
    gaps: Seq<Symbol>,
    table: SocketTable,
    answers: Seq<RecoverAnswers>,
)
    ensures
        sends_in_use(log, recover_all_log(log, url, gaps, table, answers), table),
    decreases answers.len(),
{
    if answers.len() > 0 {
        let before = recover_all_log(log, url, gaps, table, answers.drop_last());
        recoveries_send_in_use(log, url, gaps, table, answers.drop_last());
        let after = recover_log(
            before,
            url,
            gaps[answers.len() - 1],
            table,
            answers.last(),
        );
        a_recovery_sends_in_use(before, url, gaps[answers.len() - 1], table, answers.last());
        sends_in_use_together(log, before, after, table);
    }
}

/// Whatever a text frame makes the reactor send goes to a socket in the table.
pub proof fn a_text_frame_sends_on_sockets_in_use(
    s: TextEnd,
    url: WsUrl,
    json: Option<Json>,
    table: SocketTable,
    a: TextAnswers,
)
    ensures
        sends_in_use(s.log, text_step(s, url, json, table, a).log, table),
{
    let noted = activity_log(s.log, url, a.conn);
    assert(sends_in_use(s.log, noted, table));
    if json is Some {
        let json = json->Some_0;
        let first = responded(s, url, json, table, a);
        responses_send_in_use(noted, url, json, s.warns, table, a.response);
        sends_in_use_together(s.log, noted, first.log, table);
        if is_response(url, json, a.response) {
        } else if is_subscribe_ack(json) || is_unsubscribe_ack(json) {
            let end = sub_ack_log(first.log, url, json, first.warns, table, a.ack);
            acks_send_in_use(first.log, url, json, first.warns, table, a.ack);
            sends_in_use_together(s.log, first.log, end, table);
        } else {
            let r = routed(first, json, a.route);
            routing_sends_nothing(
                Routing {
                    log: first.log,
                    warns: first.warns,
                    drops: first.drops,
                    gaps: Seq::empty(),
                },
                json,
                a.route,
            );
            assert(sends_in_use(first.log, r.log, table));
            sends_in_use_together(s.log, first.log, r.log, table);
            let end = recover_all_log(r.log, url, r.gaps, table, a.recover);
            recoveries_send_in_use(r.log, url, r.gaps, table, a.recover);
            sends_in_use_together(s.log, r.log, end, table);
        }
    }
}

/// The end of a socket is told to its connection as what it was: a close frame in
/// order, with its code and its reason, and anything else as an abnormal close with its
/// error. The bridge goes first. What the connection then says is shown; a socket that
/// it did not have before is the one in the table and is bridged where there is a bus,
/// and otherwise the table has none.
pub proof fn an_ended_socket_is_told(
    log: Log,
    url: WsUrl,
    error: TransportError,
    table: SocketTable,
    a: CloseAnswers,
)
    ensures
        ({
            let after = wire_close_log(log, url, close_event(error), table, a);
            let end = wire_close_table(url, table, a);
            let fresh = a.conn is Some && a.after.socket is Some && a.after.socket
                != table.sockets.at(url);
            let n = log.len() as int;
            &&& extends(log, after)
            &&& shows_what_is(log, after)
            &&& after[n].0 == Request::DropUpgradeBridge(url)
            &&& after[n + 1] == (Request::Conn(url), Reply::Conn(a.conn))
            &&& a.conn is None ==> after.len() == n + 2
            &&& a.conn is Some ==> {
                &&& after[n + 2] == (
                    Request::HandleEvent(
                        url,
                        match error.kind {
                            TransportErrorKind::CloseFrame { code, reason } =>
                                FsmEvent::WireCloseReceived { code, reason: Some(reason) },
                            _ => FsmEvent::WireAbnormalClose { error },
                        },
                    ),
                    Reply::View(a.after),
                )
                &&& after[n + 3].0 == Request::StoreMirror(url, a.after.state)
            }
            &&& end.sockets.at(url) == if fresh {
                a.after.socket
            } else {
                None
            }
            &&& end.bridges.at(url) == if fresh && a.clock.bus_alive {
                a.after.socket
            } else {
                None
            }
            &&& fresh && a.clock.bus_alive ==> after[n + 5].0 == Request::WireUpgradeBridge(
                url,
                a.after.socket->Some_0,
            )
            &&& !fresh || !a.clock.bus_alive ==> forall|i: int|
                log.len() <= i < after.len() ==> !((#[trigger] after[i]).0 is WireUpgradeBridge)
        }),
{
    showing(log);
}

/// The recoveries of some books: each is dropped once, in order.
proof fn each_gap_is_recovered_once(
    log: Log,
    url: WsUrl,
    gaps: Seq<Symbol>,
    table: SocketTable,
    answers: Seq<RecoverAnswers>,
)
    requires
        answers.len() <= gaps.len(),
    ensures
        ({
            let after = recover_all_log(log, url, gaps, table, answers);
            &&& extends(log, after)
            &&& picked(log, after, |request: Request| request is BeginBookResync) == Seq::new(
                answers.len(),
                |i: int| (Request::BeginBookResync(gaps[i]), Reply::Done),
            )
        }),
    decreases answers.len(),
{
    let kind = |request: Request| request is BeginBookResync;
    let after = recover_all_log(log, url, gaps, table, answers);
    picking(log, kind);
    if answers.len() > 0 {
        let last = answers.len() - 1;
        let before = recover_all_log(log, url, gaps, table, answers.drop_last());
        each_gap_is_recovered_once(log, url, gaps, table, answers.drop_last());
        let dropped = told(before, Request::BeginBookResync(gaps[last]));
        picking(before, kind);
        assert(picked(before, dropped, kind) =~= seq![
            (Request::BeginBookResync(gaps[last]), Reply::Done),
        ]);
        a_recovery_is_one(before, url, gaps[last], table, answers[last]);
        nothing_picked(dropped, after, kind);
        picked_together(before, dropped, after, kind);
        picked_together(log, before, after, kind);
    }
    assert(picked(log, after, kind) =~= Seq::new(
        answers.len(),
        |i: int| (Request::BeginBookResync(gaps[i]), Reply::Done),
    ));
}

proof fn a_recovery_is_one(
    log: Log,
    url: WsUrl,
    symbol: Symbol,
    table: SocketTable,
    a: RecoverAnswers,
)
    ensures
        ({
            let dropped = told(log, Request::BeginBookResync(symbol));
            let after = recover_log(log, url, symbol, table, a);
            &&& extends(dropped, after)
            &&& forall|i: int|
                dropped.len() <= i < after.len() ==> !((#[trigger] after[i]).0 is BeginBookResync)
        }),
{
}

/// A text frame counts as activity first, if its connection is there. It is then one
/// thing only: on the auth connection the response to a request, if its method is one
/// of a request; else the acknowledgement of a subscribe or an unsubscribe, if its
/// method says so; else data. Data is routed row by row, and then each book whose rows
/// had a gap is recovered, once for each gap and in order.
pub proof fn a_text_frame_is_one_thing(
    s: TextEnd,
    url: WsUrl,
    json: Json,
    table: SocketTable,
    a: TextAnswers,
)
    requires
        text_whole(s, url, Some(json), table, a),
    ensures
        ({
            let after = text_step(s, url, Some(json), table, a).log;
            let method = json.str_at("method"@);
            let n = s.log.len() as int;
            let noted = if a.conn is Some {
                s.log.push((Request::Conn(url), Reply::Conn(a.conn))).push(
                    (Request::NoteInboundActivity(url), Reply::Done),
                )
            } else {
                s.log.push((Request::Conn(url), Reply::Conn(a.conn)))
            };
            let tried = response_log(noted, url, json, s.warns, table, a.response);
            let responds = url == WsUrl::Auth && method is Some && a.response.is_request;
            let routing = Routing {
                log: tried,
                warns: s.warns,
                drops: s.drops,
                gaps: Seq::empty(),
            };
            let routed = route_step(routing, json, a.route);
            let resyncs = picked(
                routed.log,
                after,
                |request: Request| request is BeginBookResync,
            );
            &&& extends(noted, tried)
            &&& responds ==> after == tried
            &&& !responds && method == Some("subscribe"@) ==> after == sub_ack_log(
                tried,
                url,
                json,
                s.warns,
                table,
                a.ack,
            )
            &&& !responds && method == Some("unsubscribe"@) ==> after == tried
            &&& !responds && method != Some("subscribe"@) && method != Some("unsubscribe"@) ==> {
                &&& extends(routed.log, after)
                &&& resyncs == Seq::new(
                    routed.gaps.len(),
                    |i: int| (Request::BeginBookResync(routed.gaps[i]), Reply::Done),
                )
            }
        }),
{
    let noted = activity_log(s.log, url, a.conn);
    let after = text_step(s, url, Some(json), table, a).log;
    assert("subscribe"@ != "unsubscribe"@) by {
        reveal_strlit("subscribe");
        reveal_strlit("unsubscribe");
        assert("subscribe"@[0] == 's');
        assert("unsubscribe"@[0] == 'u');
    }
    a_waiter_gets_what_the_frame_says(noted, url, json, s.warns, table, a.response);
    let first = responded(s, url, json, table, a);
    if !is_response(url, json, a.response) && !is_subscribe_ack(json) && !is_unsubscribe_ack(
        json,
    ) {
        let r = routed(first, json, a.route);
        each_gap_is_recovered_once(r.log, url, r.gaps, table, a.recover);
    }
}

/// What a socket delivers is acted on by its kind: text that is JSON as above, any
/// other frame as activity alone, and an error as the end of the socket. Only the end
/// of a socket changes which sockets are in use.
pub proof fn what_a_socket_delivers_is_acted_on(
    s: TextEnd,
    end: TextEnd,
    url: WsUrl,
    frame_result: Result<WsFrame, TransportError>,
    table: SocketTable,
    table_end: SocketTable,
)
    requires
        frame_handled(s, end, url, frame_result, table, table_end),
    ensures
        ({
            let n = s.log.len() as int;
            match frame_result {
                Ok(frame) => {
                    &&& table_end == table
                    &&& end.log.len() > n
                    &&& end.log[n].0 == Request::Conn(url)
                    &&& match end.log[n].1 {
                        Reply::Conn(Some(_)) => end.log.len() > n + 1 && end.log[n + 1].0
                            == Request::NoteInboundActivity(url),
                        _ => true,
                    }
                    &&& frame.opcode != WsOpcode::Text || parsed_json(frame.payload@) is None
                        ==> end.log.len() <= n + 2 && end.warns == s.warns && end.drops == s.drops
                },
                Err(error) => {
                    &&& end.warns == s.warns && end.drops == s.drops
                    &&& end.log.len() >= n + 3
                    &&& end.log[n].0 is Say
                    &&& end.log[n + 1].0 == Request::DropUpgradeBridge(url)
                    &&& end.log[n + 2].0 == Request::Conn(url)
                    &&& match end.log[n + 2].1 {
                        Reply::Conn(Some(_)) => {
                            &&& end.log.len() >= n + 5
                            &&& end.log[n + 3].1 is View
                            &&& end.log[n + 3].0 == Request::HandleEvent(
                                url,
                                match error.kind {
                                    TransportErrorKind::CloseFrame { code, reason } =>
                                        FsmEvent::WireCloseReceived { code, reason: Some(reason) },
                                    _ => FsmEvent::WireAbnormalClose { error },
                                },
                            )
                        },
                        _ => true,
                    }
                },
            }
        }),
{
    match frame_result {
        Ok(frame) => {
            if frame.opcode == WsOpcode::Text {
                let json = parsed_json(frame.payload@);
                let a = choose|a: TextAnswers|
                    {
                        &&& end == #[trigger] text_step(s, url, json, table, a)
                        &&& text_whole(s, url, json, table, a)
                    };
                let noted = activity_log(s.log, url, a.conn);
                let n = s.log.len() as int;
                if json is Some {
                    let json = json->Some_0;
                    a_text_frame_is_one_thing(s, url, json, table, a);
                    a_text_frame_extends(s, url, json, table, a);
                    assert(end.log[n] == noted[n]);
                    if a.conn is Some {
                        assert(end.log[n + 1] == noted[n + 1]);
                    }
                }
            }
        },
        Err(error) => {
            let said_log = said(s.log, close_note(url, error));
            let a = choose|a: CloseAnswers|
                {
                    &&& end == (TextEnd {
                        log: #[trigger] wire_close_log(
                            said_log,
                            url,
                            close_event(error),
                            table,
                            a,
                        ),
                        ..s
                    })
                    &&& table_end == wire_close_table(url, table, a)
                };
            an_ended_socket_is_told(said_log, url, error, table, a);
            assert(end.log[s.log.len() as int] == said_log[s.log.len() as int]);
        },
    }
}

proof fn a_text_frame_extends(
    s: TextEnd,
    url: WsUrl,
    json: Json,
    table: SocketTable,
    a: TextAnswers,
)
    requires
        text_whole(s, url, Some(json), table, a),
    ensures
        extends(
            activity_log(s.log, url, a.conn),
            text_step(s, url, Some(json), table, a).log,
        ),
{
    let noted = activity_log(s.log, url, a.conn);
    let first = responded(s, url, json, table, a);
    let end = text_step(s, url, Some(json), table, a).log;
    a_waiter_gets_what_the_frame_says(noted, url, json, s.warns, table, a.response);
    if is_response(url, json, a.response) {
    } else {
        if is_subscribe_ack(json) || is_unsubscribe_ack(json) {
            acks_send_in_use(first.log, url, json, first.warns, table, a.ack);
        } else {
            let r = routed(first, json, a.route);
            let start = Routing {
                log: first.log,
                warns: first.warns,
                drops: first.drops,
                gaps: Seq::empty(),
            };
            routing_sends_nothing(start, json, a.route);
            each_gap_is_recovered_once(r.log, url, r.gaps, table, a.recover);
            assert forall|i: int| 0 <= i < first.log.len() implies #[trigger] end[i]
                == first.log[i] by {
                assert(end[i] == r.log[i]);
                assert(r.log[i] == first.log[i]);
            }
        }
        assert(extends(first.log, end));
        assert forall|i: int| 0 <= i < noted.len() implies #[trigger] end[i] == noted[i] by {
            assert(end[i] == first.log[i]);
            assert(first.log[i] == noted[i]);
        }
    }
}

} // verus!
