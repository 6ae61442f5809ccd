//! Gaps in the data: announcing them, and bringing a maintained book back after
//! one.

use crate::frames::{subscription_json, unsubscribe_json, SubscriptionMethod};
use crate::host::{
    asked, extends, grew_without, happened, happened_once, happened_together, last_told,
    nothing_happened, showing, shows_what_is, told, BusClock, ConnView, Effect, Link, Log, Reply,
    Request, ReseedTimeoutOutcome, CLOCK_LIMIT,
};
use crate::json::json_text;
use crate::socket_lifecycle::{
    reseed_unsubscribe_log, send_single_unsubscribe, sends_in_use, SocketTable,
};
use crate::subscribe_send::{
    ack_due, ack_due_at, left_by, send_single_subscribe, single_subscribe_log, subscribe_json,
    IssueAnswers,
};
use crate::types::{
    ChannelName, EventEnvelope, EventPayload, GapCause, Key, SendResult, SubscribeParams, Symbol,
    WsUrl,
};
use vstd::prelude::*;

verus! {

/// The event of a gap in one book.
pub open spec fn order_book_gap_event(symbol: Symbol, now: u64) -> EventEnvelope {
    EventEnvelope {
        event_version: 2,
        timestamp: now,
        request_id: None,
        payload: EventPayload::OrderBookGap {
            channel: ChannelName::Book,
            symbol,
            cause: GapCause::OrderBookCrcMismatch,
        },
    }
}

/// The event of a gap in one subscription.
pub open spec fn subscription_gap_event(
    channel: ChannelName,
    symbol: Symbol,
    cause: GapCause,
    now: u64,
) -> EventEnvelope {
    EventEnvelope {
        event_version: 2,
        timestamp: now,
        request_id: None,
        payload: EventPayload::SubscriptionGap { channel, symbol, dropped_count: 0, cause },
    }
}

pub open spec fn book_gap_events_log(log: Log, symbol: Symbol, clock: BusClock) -> Log {
    let log = asked(log, Request::BusClock, Reply::Clock(clock));
    if clock.bus_alive {
        let log = told(log, Request::Publish(order_book_gap_event(symbol, clock.now)));
        told(
            log,
            Request::Publish(
                subscription_gap_event(
                    ChannelName::Book,
                    symbol,
                    GapCause::OrderBookCrcMismatch,
                    clock.now,
                ),
            ),
        )
    } else {
        log
    }
}

/// Announces a gap in the book of `symbol`, as a book gap and as a subscription
/// gap.
pub fn emit_book_gap_events<F: Fn(Request) -> Reply>(host: &mut Link<F>, symbol: &Symbol)
    ensures
        exists|clock: BusClock|
            final(host).log() == #[trigger] book_gap_events_log(old(host).log(), *symbol, clock),
{
    let ghost before = host.log();
    let clock = host.bus_clock();
    if clock.bus_alive {
        host.tell(
            Request::Publish(
                EventEnvelope {
                    event_version: 2,
                    timestamp: clock.now,
                    request_id: None,
                    payload: EventPayload::OrderBookGap {
                        channel: ChannelName::Book,
                        symbol: symbol.clone(),
                        cause: GapCause::OrderBookCrcMismatch,
                    },
                },
            ),
        );
        host.tell(
            Request::Publish(
                EventEnvelope {
                    event_version: 2,
                    timestamp: clock.now,
                    request_id: None,
                    payload: EventPayload::SubscriptionGap {
                        channel: ChannelName::Book,
                        symbol: symbol.clone(),
                        dropped_count: 0,
                        cause: GapCause::OrderBookCrcMismatch,
                    },
                },
            ),
        );
    }
    proof {
        assert(host.log() == book_gap_events_log(before, *symbol, clock));
    }
}

/// The event of frames lost on an account channel.
pub open spec fn channel_gap_event(
    channel: ChannelName,
    dropped_count: u32,
    now: u64,
) -> EventEnvelope {
    EventEnvelope {
        event_version: 1,
        timestamp: now,
        request_id: None,
        payload: EventPayload::ChannelGap {
            channel,
            dropped_count,
            cause: GapCause::SequenceGapDetected,
        },
    }
}

pub open spec fn channel_gap_log(
    log: Log,
    channel: ChannelName,
    dropped_count: u32,
    clock: BusClock,
) -> Log {
    let log = asked(log, Request::BusClock, Reply::Clock(clock));
    if clock.bus_alive {
        told(log, Request::Publish(channel_gap_event(channel, dropped_count, clock.now)))
    } else {
        log
    }
}

/// Announces that frames of an account channel were lost. Each jump is a loss of
/// its own, so each is announced.
pub fn emit_channel_gap_event<F: Fn(Request) -> Reply>(
    host: &mut Link<F>,
    channel: ChannelName,
    dropped_count: u32,
)
    ensures
        exists|clock: BusClock|
            final(host).log() == #[trigger] channel_gap_log(
                old(host).log(),
                channel,
                dropped_count,
                clock,
            ),
{
    let ghost before = host.log();
    let clock = host.bus_clock();
    if clock.bus_alive {
        host.tell(
            Request::Publish(
                EventEnvelope {
                    event_version: 1,
                    timestamp: clock.now,
                    request_id: None,
                    payload: EventPayload::ChannelGap {
                        channel,
                        dropped_count,
                        cause: GapCause::SequenceGapDetected,
                    },
                },
            ),
        );
    }
    proof {
        assert(host.log() == channel_gap_log(before, channel, dropped_count, clock));
    }
}

/// The subscription of a maintained book.
pub open spec fn book_key(symbol: Symbol) -> Key {
    Key { channel: ChannelName::Book, pair: Some(symbol) }
}

/// What a reseed met.
pub struct ReseedAnswers {
    pub unsubscribe_text: String,
    pub unsubscribe_sent: SendResult,
    pub issue: IssueAnswers,
    pub millis: Option<u32>,
    pub now: u64,
}

pub open spec fn book_reseed_log(
    log: Log,
    url: WsUrl,
    symbol: Symbol,
    table: SocketTable,
    a: ReseedAnswers,
) -> Log {
    let log = reseed_unsubscribe_log(
        log,
        url,
        book_key(symbol),
        table,
        a.unsubscribe_text,
        a.unsubscribe_sent,
    );
    let log = single_subscribe_log(log, url, book_key(symbol), table, a.issue);
    let log = asked(log, Request::SubscribeAckTimeoutMs, Reply::Millis(a.millis));
    let log = asked(log, Request::ConnClock(url), Reply::Instant(a.now));
    told(
        log,
        Request::ArmBookReseedSnapshot(url, book_key(symbol), ack_due(a.now, a.millis)),
    )
}

/// The frames of a reseed: first the unsubscribe, then the subscribe with the same
/// params. The clock is within its range whenever it is read.
pub open spec fn book_reseed_text(
    url: WsUrl,
    symbol: Symbol,
    params: SubscribeParams,
    table: SocketTable,
    a: ReseedAnswers,
) -> bool {
    &&& a.now < CLOCK_LIMIT
    &&& table.sockets.at(url) is Some ==> {
        &&& a.issue.clocked()
        &&& a.unsubscribe_text@ == json_text(
            unsubscribe_json(book_key(symbol), Some(params), None),
        )
        &&& a.issue.text@ == json_text(
            subscribe_json(book_key(symbol), params, None, a.issue.req_id),
        )
    }
}

/// Unsubscribes and subscribes the book of `symbol` again, and waits for its fresh
/// snapshot.
pub fn send_book_reseed<F: Fn(Request) -> Reply>(
    host: &mut Link<F>,
    url: WsUrl,
    symbol: Symbol,
    params: SubscribeParams,
    table: &SocketTable,
) -> (left: Option<ConnView>)
    ensures
        exists|a: ReseedAnswers|
            {
                &&& final(host).log() == #[trigger] book_reseed_log(
                    old(host).log(),
                    url,
                    symbol,
                    *table,
                    a,
                )
                &&& book_reseed_text(url, symbol, params, *table, a)
                &&& left == reseed_left(url, *table, a)
            },
{
    let ghost before = host.log();
    let ghost mut a: ReseedAnswers = arbitrary();
    let ghost book = symbol;
    let key = Key { channel: ChannelName::Book, pair: Some(symbol) };
    send_single_unsubscribe(host, url, &key, params, table);
    let ghost unsubscribed = host.log();
    proof {
        let (text, sent) = choose|text: String, sent: SendResult|
            {
                &&& host.log() == #[trigger] reseed_unsubscribe_log(
                    before,
                    url,
                    key,
                    *table,
                    text,
                    sent,
                )
                &&& text@ == json_text(unsubscribe_json(key, Some(params), None))
            };
        a.unsubscribe_text = text;
        a.unsubscribe_sent = sent;
    }
    let left = send_single_subscribe(host, url, &key, params, table);
    proof {
        a.issue = choose|issue: IssueAnswers|
            {
                &&& host.log() == #[trigger] single_subscribe_log(
                    unsubscribed,
                    url,
                    key,
                    *table,
                    issue,
                )
                &&& table.sockets.at(url) is Some ==> issue.clocked() && issue.text@ == json_text(
                    subscribe_json(key, params, None, issue.req_id),
                )
                &&& left == (if table.sockets.at(url) is Some {
                    left_by(issue.outcome)
                } else {
                    None
                })
            };
    }
    let millis = host.millis();
    let now: u64 = host.conn_clock(url);
    host.tell(Request::ArmBookReseedSnapshot(url, key, ack_due_at(now, millis)));
    proof {
        a.millis = millis;
        a.now = now;
        assert(host.log() == book_reseed_log(before, url, book, *table, a));
    }
    left
}

/// How a reseed left the connection, if its subscribe failed.
pub open spec fn reseed_left(url: WsUrl, table: SocketTable, a: ReseedAnswers) -> Option<ConnView> {
    if table.sockets.at(url) is Some {
        left_by(a.issue.outcome)
    } else {
        None
    }
}

/// What the recovery of a book met.
pub struct RecoverAnswers {
    pub params: Option<SubscribeParams>,
    pub conn: Option<ConnView>,
    pub reseed: ReseedAnswers,
}

pub open spec fn recover_log(
    log: Log,
    url: WsUrl,
    symbol: Symbol,
    table: SocketTable,
    a: RecoverAnswers,
) -> Log {
    let log = told(log, Request::BeginBookResync(symbol));
    let log = asked(log, Request::ParamsFor(book_key(symbol)), Reply::Params(a.params));
    if a.params is None {
        log
    } else {
        let log = asked(log, Request::Conn(url), Reply::Conn(a.conn));
        if a.conn is None {
            log
        } else {
            book_reseed_log(log, url, symbol, table, a.reseed)
        }
    }
}

/// After a gap in the book of `symbol`: drops the book, whether or not the
/// connection is there, and asks for a fresh one.
pub fn recover_book_gap<F: Fn(Request) -> Reply>(
    host: &mut Link<F>,
    url: WsUrl,
    symbol: &Symbol,
    table: &SocketTable,
)
    ensures
        exists|a: RecoverAnswers|
            {
                &&& final(host).log() == #[trigger] recover_log(
                    old(host).log(),
                    url,
                    *symbol,
                    *table,
                    a,
                )
                &&& a.params is Some && a.conn is Some ==> book_reseed_text(
                    url,
                    *symbol,
                    a.params->Some_0,
                    *table,
                    a.reseed,
                )
            },
{
    let ghost before = host.log();
    let ghost mut a: RecoverAnswers = arbitrary();
    host.tell(Request::BeginBookResync(symbol.clone()));
    let found = host.params(Key { channel: ChannelName::Book, pair: Some(symbol.clone()) });
    proof {
        a.params = found;
    }
    let params = match found {
        Some(params) => params,
        None => {
            proof {
                assert(host.log() == recover_log(before, url, *symbol, *table, a));
            }
            return ;
        },
    };
    let conn = host.conn(url);
    proof {
        a.conn = conn;
    }
    if conn.is_none() {
        proof {
            assert(host.log() == recover_log(before, url, *symbol, *table, a));
        }
        return ;
    }
    let ghost ready = host.log();
    let left = send_book_reseed(host, url, symbol.clone(), params, table);
    proof {
        a.reseed = choose|reseed: ReseedAnswers|
            {
                &&& host.log() == #[trigger] book_reseed_log(ready, url, *symbol, *table, reseed)
                &&& book_reseed_text(url, *symbol, params, *table, reseed)
                &&& left == reseed_left(url, *table, reseed)
            };
        assert(host.log() == recover_log(before, url, *symbol, *table, a));
    }
}

/// What an overdue snapshot met.
pub struct ReseedTimeoutAnswers {
    pub outcome: ReseedTimeoutOutcome,
    pub params: Option<SubscribeParams>,
    pub reseed: ReseedAnswers,
    pub clock: BusClock,
}

pub open spec fn reseed_timeout_log(
    log: Log,
    url: WsUrl,
    pair: Option<Symbol>,
    table: SocketTable,
    a: ReseedTimeoutAnswers,
) -> Log {
    match pair {
        None => log,
        Some(symbol) => {
            let log = asked(log, Request::NoteReseedTimeout(symbol), Reply::Reseed(a.outcome));
            match a.outcome {
                ReseedTimeoutOutcome::StaleNoOp => log,
                ReseedTimeoutOutcome::Retry => {
                    let log = asked(
                        log,
                        Request::ParamsFor(book_key(symbol)),
                        Reply::Params(a.params),
                    );
                    if a.params is Some {
                        book_reseed_log(log, url, symbol, table, a.reseed)
                    } else {
                        log
                    }
                },
                ReseedTimeoutOutcome::Exhausted => book_gap_events_log(log, symbol, a.clock),
            }
        },
    }
}

/// Whether an overdue snapshot leads to another reseed.
pub open spec fn reseeds_again(pair: Option<Symbol>, a: ReseedTimeoutAnswers) -> bool {
    pair is Some && a.outcome == ReseedTimeoutOutcome::Retry && a.params is Some
}

/// The fresh snapshot of a book is overdue: asks once more, or gives the book up
/// and announces the gap.
pub fn handle_book_reseed_timeout<F: Fn(Request) -> Reply>(
    host: &mut Link<F>,
    url: WsUrl,
    pair: &Option<Symbol>,
    table: &SocketTable,
) -> (left: Option<ConnView>)
    ensures
        exists|a: ReseedTimeoutAnswers|
            {
                &&& final(host).log() == #[trigger] reseed_timeout_log(
                    old(host).log(),
                    url,
                    *pair,
                    *table,
                    a,
                )
                &&& reseeds_again(*pair, a) ==> book_reseed_text(
                    url,
                    pair->Some_0,
                    a.params->Some_0,
                    *table,
                    a.reseed,
                )
                &&& left == (if reseeds_again(*pair, a) {
                    reseed_left(url, *table, a.reseed)
                } else {
                    None
                })
            },
{
    let ghost before = host.log();
    let ghost mut a: ReseedTimeoutAnswers = arbitrary();
    let symbol = match pair {
        Some(symbol) => symbol,
        None => {
            proof {
                assert(host.log() == reseed_timeout_log(before, url, *pair, *table, a));
            }
            return None;
        },
    };
    let outcome = host.reseed(symbol.clone());
    let ghost noted = host.log();
    proof {
        a.outcome = outcome;
    }
    match outcome {
        ReseedTimeoutOutcome::StaleNoOp => {
            proof {
                assert(host.log() == reseed_timeout_log(before, url, *pair, *table, a));
            }
            None
        },
        ReseedTimeoutOutcome::Retry => {
            let found = host.params(Key { channel: ChannelName::Book, pair: Some(symbol.clone()) });
            proof {
                a.params = found;
            }
            match found {
                Some(params) => {
                    let ghost ready = host.log();
                    let left = send_book_reseed(host, url, symbol.clone(), params, table);
                    proof {
                        a.reseed = choose|reseed: ReseedAnswers|
                            {
                                &&& host.log() == #[trigger] book_reseed_log(
                                    ready,
                                    url,
                                    *symbol,
                                    *table,
                                    reseed,
                                )
                                &&& book_reseed_text(url, *symbol, params, *table, reseed)
                                &&& left == reseed_left(url, *table, reseed)
                            };
                        assert(host.log() == reseed_timeout_log(before, url, *pair, *table, a));
                    }
                    left
                },
                None => {
                    proof {
                        assert(host.log() == reseed_timeout_log(before, url, *pair, *table, a));
                    }
                    None
                },
            }
        },
        ReseedTimeoutOutcome::Exhausted => {
            emit_book_gap_events(host, symbol);
            proof {
                a.clock = choose|clock: BusClock|
                    host.log() == #[trigger] book_gap_events_log(noted, *symbol, clock);
                assert(host.log() == reseed_timeout_log(before, url, *pair, *table, a));
            }
            None
        },
    }
}

/// A reseed is no teardown: it announces nothing, and releases nothing.
pub proof fn a_reseed_is_no_teardown(
    log: Log,
    url: WsUrl,
    symbol: Symbol,
    table: SocketTable,
    a: ReseedAnswers,
)
    ensures
        ({
            let after = book_reseed_log(log, url, symbol, table, a);
            &&& grew_without(log, after, Effect::Announce)
            &&& forall|i: int|
                log.len() <= i < after.len() ==> !((#[trigger] after[i]).0 is Release)
            &&& after.last().0 is ArmBookReseedSnapshot
        }),
{
}

/// The book is dropped before anything else is looked at, so that it is gone even
/// where the connection is.
pub proof fn a_gap_drops_the_book_first(
    log: Log,
    url: WsUrl,
    symbol: Symbol,
    table: SocketTable,
    a: RecoverAnswers,
)
    ensures
        ({
            let after = recover_log(log, url, symbol, table, a);
            &&& extends(log, after)
            &&& after[log.len() as int].0 == Request::BeginBookResync(symbol)
        }),
{
}

/// The recovery of a book sends only on the socket in use.
pub proof fn a_recovery_sends_in_use(
    log: Log,
    url: WsUrl,
    symbol: Symbol,
    table: SocketTable,
    a: RecoverAnswers,
)
    ensures
        sends_in_use(log, recover_log(log, url, symbol, table, a), table),
{
}

/// A reseed sends two frames on the socket, if there is one: the unsubscribe of the
/// book of its pair, and then its subscribe under a fresh id, both with the params that
/// the book was registered with and without a token. The fresh snapshot is waited for,
/// for exactly the allowed time, in any case.
pub proof fn a_reseed_unsubscribes_and_subscribes(
    log: Log,
    url: WsUrl,
    symbol: Symbol,
    params: SubscribeParams,
    table: SocketTable,
    a: ReseedAnswers,
)
    requires
        book_reseed_text(url, symbol, params, table, a),
    ensures
        ({
            let key = Key { channel: ChannelName::Book, pair: Some(symbol) };
            let after = book_reseed_log(log, url, symbol, table, a);
            let sent = happened(log, after, Effect::Send);
            let waited = happened(log, after, Effect::Await);
            let end = after.len() as int;
            &&& extends(log, after)
            &&& shows_what_is(log, after)
            &&& match table.sockets.at(url) {
                Some(socket) => {
                    &&& sent == seq![
                        Request::SendFrame(url, socket, a.unsubscribe_text),
                        Request::SendFrame(url, socket, a.issue.text),
                    ]
                    &&& a.unsubscribe_text@ == json_text(
                        unsubscribe_json(key, Some(params), None),
                    )
                    &&& a.issue.text@ == json_text(
                        subscription_json(
                            SubscriptionMethod::Subscribe,
                            key,
                            params,
                            a.issue.req_id,
                        ),
                    )
                    &&& a.issue.outcome is Sent ==> waited == seq![
                        Request::ArmSubscribeAck(
                            url,
                            key,
                            ack_due(a.issue.now, a.issue.millis),
                        ),
                    ]
                    &&& reseed_left(url, table, a) is Some ==> last_told(after, url)
                        == reseed_left(url, table, a)
                },
                None => sent == Seq::<Request>::empty() && waited == Seq::<Request>::empty()
                    && reseed_left(url, table, a) is None,
            }
            &&& after[end - 3] == (Request::SubscribeAckTimeoutMs, Reply::Millis(a.millis))
            &&& after[end - 2] == (Request::ConnClock(url), Reply::Instant(a.now))
            &&& match after[end - 1].0 {
                Request::ArmBookReseedSnapshot(on, of, due) => on == url && of == key && due
                    == a.now + (match a.millis {
                    Some(millis) => millis as int,
                    None => 5_000,
                }) * 1_000_000,
                _ => false,
            }
        }),
{
    let key = book_key(symbol);
    let after = book_reseed_log(log, url, symbol, table, a);
    showing(log);
    let gone = reseed_unsubscribe_log(
        log,
        url,
        key,
        table,
        a.unsubscribe_text,
        a.unsubscribe_sent,
    );
    let back = single_subscribe_log(gone, url, key, table, a.issue);
    assert(grew_without(back, after, Effect::Send));
    assert(grew_without(back, after, Effect::Await));
    nothing_happened(back, after, Effect::Send);
    nothing_happened(back, after, Effect::Await);
    if table.sockets.at(url) is Some {
        happened_once(log, gone, Effect::Send, log.len() as int);
        happened_once(gone, back, Effect::Send, gone.len() as int + 1);
        assert(grew_without(log, gone, Effect::Await));
        nothing_happened(log, gone, Effect::Await);
        if a.issue.outcome is Sent {
            happened_once(gone, back, Effect::Await, gone.len() as int + 5);
        }
    } else {
        nothing_happened(log, gone, Effect::Send);
        nothing_happened(log, gone, Effect::Await);
        nothing_happened(gone, back, Effect::Send);
        nothing_happened(gone, back, Effect::Await);
    }
    happened_together(log, gone, back, Effect::Send);
    happened_together(log, gone, back, Effect::Await);
    happened_together(log, back, after, Effect::Send);
    happened_together(log, back, after, Effect::Await);
    assert(happened(log, after, Effect::Send) =~= happened(log, gone, Effect::Send) + happened(
        gone,
        back,
        Effect::Send,
    ));
    assert(happened(log, after, Effect::Await) =~= happened(gone, back, Effect::Await));
}

/// A book with a gap is dropped, and asked for anew with what the registry holds of it,
/// if it is still registered and its connection is there.
pub proof fn a_gap_asks_for_the_book_anew(
    log: Log,
    url: WsUrl,
    symbol: Symbol,
    table: SocketTable,
    a: RecoverAnswers,
)
    ensures
        ({
            let key = Key { channel: ChannelName::Book, pair: Some(symbol) };
            let after = recover_log(log, url, symbol, table, a);
            let looked = log.push((Request::BeginBookResync(symbol), Reply::Done)).push(
                (Request::ParamsFor(key), Reply::Params(a.params)),
            );
            after == if a.params is None {
                looked
            } else if a.conn is None {
                looked.push((Request::Conn(url), Reply::Conn(a.conn)))
            } else {
                book_reseed_log(
                    looked.push((Request::Conn(url), Reply::Conn(a.conn))),
                    url,
                    symbol,
                    table,
                    a.reseed,
                )
            }
        }),
{
}

/// An overdue snapshot is reported to the registry, which decides. Once more, and the
/// book is asked for anew, if it is still registered; no more, and the gap is
/// announced, as one of the book and as one of its subscription, and nothing is sent;
/// and where nothing waited for it, nothing is done.
pub proof fn an_overdue_snapshot_is_decided_by_the_registry(
    log: Log,
    url: WsUrl,
    pair: Option<Symbol>,
    table: SocketTable,
    a: ReseedTimeoutAnswers,
)
    ensures
        ({
            let after = reseed_timeout_log(log, url, pair, table, a);
            let symbol = pair->Some_0;
            let key = Key { channel: ChannelName::Book, pair };
            let cause = GapCause::OrderBookCrcMismatch;
            let channel = ChannelName::Book;
            let noted = log.push((Request::NoteReseedTimeout(symbol), Reply::Reseed(a.outcome)));
            let looked = noted.push((Request::ParamsFor(key), Reply::Params(a.params)));
            let event = |payload: EventPayload|
                Request::Publish(
                    EventEnvelope {
                        event_version: 2,
                        timestamp: a.clock.now,
                        request_id: None,
                        payload,
                    },
                );
            &&& pair is None ==> after == log
            &&& pair is Some ==> match a.outcome {
                ReseedTimeoutOutcome::StaleNoOp => after == noted,
                ReseedTimeoutOutcome::Retry => after == if a.params is Some {
                    book_reseed_log(looked, url, symbol, table, a.reseed)
                } else {
                    looked
                },
                ReseedTimeoutOutcome::Exhausted => {
                    &&& extends(noted, after)
                    &&& grew_without(log, after, Effect::Send)
                    &&& happened(log, after, Effect::Announce) == if a.clock.bus_alive {
                        seq![
                            event(EventPayload::OrderBookGap { channel, symbol, cause }),
                            event(
                                EventPayload::SubscriptionGap {
                                    channel,
                                    symbol,
                                    dropped_count: 0,
                                    cause,
                                },
                            ),
                        ]
                    } else {
                        Seq::empty()
                    }
                },
            }
            &&& reseeds_again(pair, a) <==> pair is Some && a.outcome is Retry && a.params is Some
        }),
{
    let after = reseed_timeout_log(log, url, pair, table, a);
    if pair is Some && a.outcome is Exhausted {
        if a.clock.bus_alive {
            let first = after.drop_last();
            happened_once(log, first, Effect::Announce, first.len() - 1);
            happened_once(first, after, Effect::Announce, after.len() - 1);
            happened_together(log, first, after, Effect::Announce);
        } else {
            nothing_happened(log, after, Effect::Announce);
        }
    }
}

/// Frames lost on an account channel are announced as what they are: as many as were
/// lost, on the channel on which they were lost, at the instant of the bus.
pub proof fn a_loss_is_announced(
    log: Log,
    channel: ChannelName,
    dropped_count: u32,
    clock: BusClock,
)
    ensures
        happened(log, channel_gap_log(log, channel, dropped_count, clock), Effect::Announce)
            == if clock.bus_alive {
            seq![
                Request::Publish(
                    EventEnvelope {
                        event_version: 1,
                        timestamp: clock.now,
                        request_id: None,
                        payload: EventPayload::ChannelGap {
                            channel,
                            dropped_count,
                            cause: GapCause::SequenceGapDetected,
                        },
                    },
                ),
            ]
        } else {
            Seq::empty()
        },
{
    let after = channel_gap_log(log, channel, dropped_count, clock);
    if clock.bus_alive {
        happened_once(log, after, Effect::Announce, log.len() as int + 1);
    } else {
        nothing_happened(log, after, Effect::Announce);
    }
}

} // verus!
