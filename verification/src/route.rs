//! Data frames: driving the subscription state with each row, and fanning the row
//! out to the handlers of its channel.

use crate::gaps::{
    book_gap_events_log, channel_gap_log, emit_book_gap_events, emit_channel_gap_event,
    subscription_gap_event,
};
use crate::host::{
    asked, each_obeys, each_obeys_together, extends, grew_without, grew_without_together, happened,
    happened_once, happened_together, made, nothing_happened, nothing_picked, picked,
    picked_is_of_kind, picked_together, picking, said, told, BookDriveOutcome, BusClock, Decoded,
    Effect, Link, Log, Reply, Request,
};
use crate::json;
use crate::json::{json_of, Json};
use crate::notes::Note;
use crate::text::same_text;
use crate::throttle::{
    drop_counts, record_drop_and_maybe_emit, record_drop_log, suppress_warn_log,
    suppress_warn_throttled, warn_times, DropCounts, DropTracker, SuppressWarnTracker, WarnTimes,
};
use crate::types::{ChannelName, EventEnvelope, EventPayload, GapCause, Symbol, Text};
use serde_json::Value;
use vstd::prelude::*;

verus! {

/// Whether a frame carries data, and if so whether it is a snapshot.
pub open spec fn data_kind(json: Json) -> Option<bool> {
    match json.str_at("type"@) {
        Some(kind) => if kind == "snapshot"@ {
            Some(true)
        } else if kind == "update"@ {
            Some(false)
        } else {
            None
        },
        None => None,
    }
}

fn read_data_kind(json: &Value) -> (kind: Option<bool>)
    ensures
        kind == data_kind(json_of(*json)),
{
    match json::str_at(json, "type") {
        Some(kind) => if same_text(kind, "snapshot") {
            Some(true)
        } else if same_text(kind, "update") {
            Some(false)
        } else {
            None
        },
        None => None,
    }
}

/// The channel that a frame is about.
pub open spec fn data_channel(json: Json) -> Option<ChannelName> {
    match json.str_at("channel"@) {
        Some(name) => ChannelName::of_wire_str(name),
        None => None,
    }
}

fn read_data_channel(json: &Value) -> (channel: Option<ChannelName>)
    ensures
        channel == data_channel(json_of(*json)),
{
    match json::str_at(json, "channel") {
        Some(name) => ChannelName::from_wire_str(name),
        None => None,
    }
}

/// What a row is decoded from: the row, and whether it came with a snapshot.
pub open spec fn row_envelope(is_snapshot: bool, row: Json) -> Json {
    Json::Object(
        Json::no_members().insert(
            "type"@,
            Json::Text(if is_snapshot {
                "snapshot"@
            } else {
                "update"@
            }),
        ).insert("data"@, row),
    )
}

fn build_row_envelope(is_snapshot: bool, row: &Value) -> (envelope: Value)
    ensures
        json_of(envelope) == row_envelope(is_snapshot, json_of(*row)),
{
    let mut members = json::no_members();
    let kind = if is_snapshot {
        "snapshot"
    } else {
        "update"
    };
    json::set_member(&mut members, "type", json::text_value(kind.to_owned()));
    json::set_member(&mut members, "data", json::copy_of(row));
    json::object_value(members)
}

/// What routing has done so far: the requests, the state of the throttles, and the
/// books that need a fresh snapshot.
pub struct Routing {
    pub log: Log,
    pub warns: WarnTimes,
    pub drops: DropCounts,
    pub gaps: Seq<Symbol>,
}

impl Routing {
    /// After one more throttled warning.
    pub open spec fn warned(
        self,
        site: Seq<char>,
        channel: Option<ChannelName>,
        warning: Note,
        clock: BusClock,
    ) -> Routing {
        Routing {
            log: suppress_warn_log(self.log, self.warns, site, channel, warning, clock),
            warns: warn_times(self.warns, site, channel, clock.now),
            ..self
        }
    }

    /// After one more message without a handler.
    pub open spec fn dropped(self, channel: ChannelName, clock: BusClock) -> Routing {
        Routing {
            log: record_drop_log(self.log, self.drops, channel, clock),
            drops: drop_counts(self.drops, channel, clock.now),
            ..self
        }
    }

    pub open spec fn with_log(self, log: Log) -> Routing {
        Routing { log, ..self }
    }
}

/// The log of handing a payload to the first `count` handlers, in order.
pub open spec fn deliver_log(
    log: Log,
    channel: ChannelName,
    handlers: Seq<u64>,
    payload: u64,
    maintained: bool,
    count: nat,
) -> Log
    decreases count,
{
    if count == 0 {
        log
    } else {
        let log = deliver_log(log, channel, handlers, payload, maintained, (count - 1) as nat);
        let handler = handlers[count - 1];
        told(
            log,
            if maintained {
                Request::DeliverMaintained(channel, handler, payload)
            } else {
                Request::DeliverDecoded(channel, handler, payload)
            },
        )
    }
}

fn deliver<F: Fn(Request) -> Reply>(
    host: &mut Link<F>,
    channel: ChannelName,
    handlers: &Vec<u64>,
    payload: u64,
    maintained: bool,
)
    ensures
        final(host).log() == deliver_log(
            old(host).log(),
            channel,
            handlers@,
            payload,
            maintained,
            handlers@.len(),
        ),
{
    let ghost before = host.log();
    let mut i: usize = 0;
    while i < handlers.len()
        invariant
            i <= handlers@.len(),
            host.log() == deliver_log(before, channel, handlers@, payload, maintained, i as nat),
        decreases handlers@.len() - i,
    {
        if maintained {
            host.tell(Request::DeliverMaintained(channel, handlers[i], payload));
        } else {
            host.tell(Request::DeliverDecoded(channel, handlers[i], payload));
        }
        i += 1;
    }
}

/// What one fan-out met.
pub struct FanAnswers {
    pub handlers: Vec<u64>,
    pub raw_handlers: Vec<u64>,
    pub envelope: Value,
    pub decoded: Decoded,
    pub clock: BusClock,
}

/// Whether the book is not to be shown: it has a gap, or waits for a snapshot.
pub open spec fn book_suspended(outcome: BookDriveOutcome) -> bool {
    outcome is Gap || outcome is AwaitingSnapshot || outcome is GapBudgetExhausted
}

/// Whether a row is decoded: someone handles it, and it is not the maintained book,
/// which is delivered as it is.
pub open spec fn decodes(fan: ChannelName, outcome: BookDriveOutcome, f: FanAnswers) -> bool {
    &&& f.handlers@.len() > 0
    &&& fan == ChannelName::Book ==> !book_suspended(outcome) && !(outcome is Maintained)
}

/// The event of a handler that panicked while it decoded.
pub open spec fn handler_panic_event(
    channel: ChannelName,
    handler_id: u64,
    panic_message: Text,
    now: u64,
) -> EventEnvelope {
    EventEnvelope {
        event_version: 1,
        timestamp: now,
        request_id: None,
        payload: EventPayload::HandlerPanicWarning { channel, handler_id, panic_message },
    }
}

/// One row, fanned out to the handlers of `fan`, where it came on `channel`.
pub open spec fn fan_step(
    s: Routing,
    channel: ChannelName,
    fan: ChannelName,
    symbol: Option<Symbol>,
    outcome: BookDriveOutcome,
    f: FanAnswers,
) -> Routing {
    if fan == ChannelName::Book && book_suspended(outcome) {
        s
    } else {
        let s = s.with_log(
            asked(s.log, Request::HandlersFor(fan), Reply::Handlers(f.handlers)),
        );
        if f.handlers@.len() == 0 {
            if fan == channel && channel != ChannelName::Status {
                if channel == ChannelName::Book {
                    let s = s.with_log(
                        asked(
                            s.log,
                            Request::HandlersFor(ChannelName::BookRaw),
                            Reply::Handlers(f.raw_handlers),
                        ),
                    );
                    if f.raw_handlers@.len() == 0 {
                        s.dropped(channel, f.clock)
                    } else {
                        s
                    }
                } else {
                    s.dropped(channel, f.clock)
                }
            } else {
                s
            }
        } else if fan == ChannelName::Book && outcome is Maintained {
            let log = asked(s.log, Request::BusClock, Reply::Clock(f.clock));
            s.with_log(
                if f.clock.bus_alive {
                    deliver_log(
                        log,
                        fan,
                        f.handlers@,
                        outcome->Maintained_0,
                        true,
                        f.handlers@.len(),
                    )
                } else {
                    log
                },
            )
        } else {
            let log = asked(
                s.log,
                Request::Decode(fan, f.handlers@[0], f.envelope),
                Reply::Decoded(f.decoded),
            );
            let s = s.with_log(log);
            match f.decoded {
                Decoded::NoBus => s,
                Decoded::Deliver(payload) => s.with_log(
                    deliver_log(log, fan, f.handlers@, payload, false, f.handlers@.len()),
                ),
                Decoded::DecodeFailed => match symbol {
                    Some(symbol) => s.with_log(
                        told(
                            asked(log, Request::BusClock, Reply::Clock(f.clock)),
                            Request::Publish(
                                subscription_gap_event(
                                    fan,
                                    symbol,
                                    GapCause::MalformedFrame,
                                    f.clock.now,
                                ),
                            ),
                        ),
                    ),
                    None => s.warned(
                        "decode-fail-no-symbol"@,
                        Some(fan),
                        Note::DecodeFailedWithoutSymbol { channel: fan },
                        f.clock,
                    ),
                },
                Decoded::Panicked(message) => s.with_log(
                    told(
                        asked(log, Request::BusClock, Reply::Clock(f.clock)),
                        Request::Publish(
                            handler_panic_event(fan, f.handlers@[0], message, f.clock.now),
                        ),
                    ),
                ),
            }
        }
    }
}

fn fan_out<F: Fn(Request) -> Reply>(
    host: &mut Link<F>,
    channel: ChannelName,
    fan: ChannelName,
    is_snapshot: bool,
    row: &Value,
    symbol: &Option<Symbol>,
    outcome: BookDriveOutcome,
    drops: &mut DropTracker,
    warns: &mut SuppressWarnTracker,
    Ghost(gaps): Ghost<Seq<Symbol>>,
)
    ensures
        exists|f: FanAnswers|
            {
                &&& (Routing {
                    log: final(host).log(),
                    warns: final(warns)@,
                    drops: final(drops)@,
                    gaps,
                }) == #[trigger] fan_step(
                    Routing {
                        log: old(host).log(),
                        warns: old(warns)@,
                        drops: old(drops)@,
                        gaps,
                    },
                    channel,
                    fan,
                    *symbol,
                    outcome,
                    f,
                )
                &&& decodes(fan, outcome, f) ==> json_of(f.envelope) == row_envelope(
                    is_snapshot,
                    json_of(*row),
                )
            },
{
    let ghost start = Routing { log: host.log(), warns: warns@, drops: drops@, gaps };
    let ghost mut f: FanAnswers = arbitrary();
    let suspended = match outcome {
        BookDriveOutcome::Gap { .. } => true,
        BookDriveOutcome::AwaitingSnapshot => true,
        BookDriveOutcome::GapBudgetExhausted => true,
        _ => false,
    };
    if fan == ChannelName::Book && suspended {
        proof {
            assert(start == fan_step(start, channel, fan, *symbol, outcome, f));
        }
        return ;
    }
    let handlers = host.handlers(fan);
    proof {
        f.handlers = handlers;
    }
    if handlers.len() == 0 {
        let mut unhandled = fan == channel && !(channel == ChannelName::Status);
        if unhandled && channel == ChannelName::Book {
            let raw_handlers = host.handlers(ChannelName::BookRaw);
            proof {
                f.raw_handlers = raw_handlers;
            }
            unhandled = raw_handlers.len() == 0;
        }
        let ghost looked = host.log();
        let ghost counts = drops@;
        if unhandled {
            record_drop_and_maybe_emit(host, channel, drops);
            proof {
                f.clock = choose|clock: BusClock|
                    {
                        &&& host.log() == #[trigger] record_drop_log(
                            looked,
                            counts,
                            channel,
                            clock,
                        )
                        &&& drops@ == drop_counts(counts, channel, clock.now)
                    };
            }
        }
        proof {
            let end = Routing { log: host.log(), warns: warns@, drops: drops@, gaps };
            assert(end == fan_step(start, channel, fan, *symbol, outcome, f));
        }
        return ;
    }
    match outcome {
        BookDriveOutcome::Maintained(update) => {
            if fan == ChannelName::Book {
                let clock = host.bus_clock();
                if clock.bus_alive {
                    deliver(host, fan, &handlers, update, true);
                }
                proof {
                    f.clock = clock;
                    let end = Routing { log: host.log(), warns: warns@, drops: drops@, gaps };
                    assert(end == fan_step(start, channel, fan, *symbol, outcome, f));
                }
                return ;
            }
        },
        _ => {},
    }
    let envelope = build_row_envelope(is_snapshot, row);
    proof {
        f.envelope = envelope;
    }
    let decoded = host.decoded(Request::Decode(fan, handlers[0], envelope));
    let ghost decoded_log = host.log();
    let ghost times = warns@;
    proof {
        f.decoded = decoded;
    }
    match decoded {
        Decoded::NoBus => {},
        Decoded::Deliver(payload) => {
            deliver(host, fan, &handlers, payload, false);
        },
        Decoded::DecodeFailed => {
            match symbol {
                Some(symbol) => {
                    let clock = host.bus_clock();
                    host.tell(
                        Request::Publish(
                            EventEnvelope {
                                event_version: 2,
                                timestamp: clock.now,
                                request_id: None,
                                payload: EventPayload::SubscriptionGap {
                                    channel: fan,
                                    symbol: symbol.clone(),
                                    dropped_count: 0,
                                    cause: GapCause::MalformedFrame,
                                },
                            },
                        ),
                    );
                    proof {
                        f.clock = clock;
                    }
                },
                None => {
                    suppress_warn_throttled(
                        host,
                        "decode-fail-no-symbol",
                        Some(fan),
                        warns,
                        Note::DecodeFailedWithoutSymbol { channel: fan },
                    );
                    proof {
                        f.clock = choose|clock: BusClock|
                            {
                                &&& host.log() == #[trigger] suppress_warn_log(
                                    decoded_log,
                                    times,
                                    "decode-fail-no-symbol"@,
                                    Some(fan),
                                    Note::DecodeFailedWithoutSymbol { channel: fan },
                                    clock,
                                )
                                &&& warns@ == warn_times(
                                    times,
                                    "decode-fail-no-symbol"@,
                                    Some(fan),
                                    clock.now,
                                )
                            };
                    }
                },
            }
        },
        Decoded::Panicked(message) => {
            let clock = host.bus_clock();
            host.tell(
                Request::Publish(
                    EventEnvelope {
                        event_version: 1,
                        timestamp: clock.now,
                        request_id: None,
                        payload: EventPayload::HandlerPanicWarning {
                            channel: fan,
                            handler_id: handlers[0],
                            panic_message: message,
                        },
                    },
                ),
            );
            proof {
                f.clock = clock;
            }
        },
    }
    proof {
        let end = Routing { log: host.log(), warns: warns@, drops: drops@, gaps };
        assert(end == fan_step(start, channel, fan, *symbol, outcome, f));
    }
}

/// What one row met.
pub struct RowAnswers {
    pub name: String,
    pub parsed: Option<Symbol>,
    pub outcome: BookDriveOutcome,
    pub clock: BusClock,
    pub primary: FanAnswers,
    pub raw: FanAnswers,
}

/// The pair of a row: the text under `symbol`, if it is one.
pub open spec fn row_symbol(row: Json, r: RowAnswers) -> Option<Symbol> {
    if row.str_at("symbol"@) is Some {
        r.parsed
    } else {
        None
    }
}

/// The warning about a gap within its budget, and about one beyond it.
pub open spec fn gap_warning(symbol: Symbol, outcome: BookDriveOutcome) -> Note {
    match outcome {
        BookDriveOutcome::Gap { expected, computed } => Note::BookMismatch {
            symbol,
            expected,
            computed,
        },
        _ => Note::BookBudgetExhausted { symbol },
    }
}

fn gap_warning_of(symbol: &Symbol, outcome: BookDriveOutcome) -> (warning: Note)
    ensures
        warning == gap_warning(*symbol, outcome),
{
    match outcome {
        BookDriveOutcome::Gap { expected, computed } => Note::BookMismatch {
            symbol: symbol.clone(),
            expected,
            computed,
        },
        _ => Note::BookBudgetExhausted { symbol: symbol.clone() },
    }
}

/// The warning about a gap whose row names no pair.
pub const GAP_WITHOUT_SYMBOL: &'static str =
    "order-book CRC32 gap with no routing symbol; gap event + resubscribe suppressed";

/// The gap of a row, if it has one: warned about, announced, and noted for recovery
/// while its budget lasts.
pub open spec fn gap_step(s: Routing, symbol: Option<Symbol>, r: RowAnswers) -> Routing {
    if r.outcome is Gap || r.outcome is GapBudgetExhausted {
        match symbol {
            Some(symbol) => Routing {
                log: book_gap_events_log(
                    said(s.log, gap_warning(symbol, r.outcome)),
                    symbol,
                    r.clock,
                ),
                gaps: if r.outcome is Gap {
                    s.gaps.push(symbol)
                } else {
                    s.gaps
                },
                ..s
            },
            None => s.warned(
                "crc-gap-no-symbol"@,
                None,
                Note::Bare { message: GAP_WITHOUT_SYMBOL },
                r.clock,
            ),
        }
    } else {
        s
    }
}

/// One row of a data frame.
pub open spec fn row_step(
    s: Routing,
    channel: ChannelName,
    is_snapshot: bool,
    row: Value,
    r: RowAnswers,
) -> Routing {
    let symbol = row_symbol(json_of(row), r);
    let log = if json_of(row).str_at("symbol"@) is Some {
        asked(s.log, Request::ParseSymbol(r.name), Reply::Symbol(r.parsed))
    } else {
        s.log
    };
    let log = asked(
        log,
        Request::HandleUpdate(channel, symbol, is_snapshot, row),
        Reply::Book(r.outcome),
    );
    let s = gap_step(s.with_log(log), symbol, r);
    let s = fan_step(s, channel, channel, symbol, r.outcome, r.primary);
    if channel == ChannelName::Book {
        fan_step(s, channel, ChannelName::BookRaw, symbol, r.outcome, r.raw)
    } else {
        s
    }
}

/// The texts in the answers are those of the row.
pub open spec fn row_texts(
    channel: ChannelName,
    is_snapshot: bool,
    row: Json,
    r: RowAnswers,
) -> bool {
    &&& row.str_at("symbol"@) is Some ==> row.str_at("symbol"@) == Some(r.name@)
    &&& decodes(channel, r.outcome, r.primary) ==> json_of(r.primary.envelope) == row_envelope(
        is_snapshot,
        row,
    )
    &&& channel == ChannelName::Book && decodes(ChannelName::BookRaw, r.outcome, r.raw) ==> json_of(
        r.raw.envelope,
    ) == row_envelope(is_snapshot, row)
}

fn clone_symbol(symbol: &Option<Symbol>) -> (copy: Option<Symbol>)
    ensures
        copy == *symbol,
{
    match symbol {
        Some(symbol) => Some(symbol.clone()),
        None => None,
    }
}

fn route_row<F: Fn(Request) -> Reply>(
    host: &mut Link<F>,
    channel: ChannelName,
    is_snapshot: bool,
    row: &Value,
    drops: &mut DropTracker,
    warns: &mut SuppressWarnTracker,
    gaps: &mut Vec<Symbol>,
)
    ensures
        exists|r: RowAnswers|
            {
                &&& (Routing {
                    log: final(host).log(),
                    warns: final(warns)@,
                    drops: final(drops)@,
                    gaps: final(gaps)@,
                }) == #[trigger] row_step(
                    Routing {
                        log: old(host).log(),
                        warns: old(warns)@,
                        drops: old(drops)@,
                        gaps: old(gaps)@,
                    },
                    channel,
                    is_snapshot,
                    *row,
                    r,
                )
                &&& row_texts(channel, is_snapshot, json_of(*row), r)
            },
{
    let ghost start = Routing { log: host.log(), warns: warns@, drops: drops@, gaps: gaps@ };
    let ghost mut r: RowAnswers = arbitrary();
    let mut symbol: Option<Symbol> = None;
    match json::string_at(row, "symbol") {
        Some(name) => {
            proof {
                r.name = name;
            }
            symbol = host.symbol(name);
            proof {
                r.parsed = symbol;
            }
        },
        None => {},
    }
    let outcome = host.book(
        Request::HandleUpdate(channel, clone_symbol(&symbol), is_snapshot, json::copy_of(row)),
    );
    proof {
        r.outcome = outcome;
    }
    let ghost driven = Routing { log: host.log(), ..start };
    let (gap, recovers) = match outcome {
        BookDriveOutcome::Gap { .. } => (true, true),
        BookDriveOutcome::GapBudgetExhausted => (true, false),
        _ => (false, false),
    };
    if gap {
        match &symbol {
            Some(symbol) => {
                host.say(gap_warning_of(symbol, outcome));
                let ghost warned = host.log();
                emit_book_gap_events(host, symbol);
                proof {
                    r.clock = choose|clock: BusClock|
                        host.log() == #[trigger] book_gap_events_log(warned, *symbol, clock);
                }
                if recovers {
                    gaps.push(symbol.clone());
                }
            },
            None => {
                suppress_warn_throttled(
                    host,
                    "crc-gap-no-symbol",
                    None,
                    warns,
                    Note::Bare { message: GAP_WITHOUT_SYMBOL },
                );
                proof {
                    r.clock = choose|clock: BusClock|
                        {
                            &&& host.log() == #[trigger] suppress_warn_log(
                                driven.log,
                                driven.warns,
                                "crc-gap-no-symbol"@,
                                None,
                                Note::Bare { message: GAP_WITHOUT_SYMBOL },
                                clock,
                            )
                            &&& warns@ == warn_times(
                                driven.warns,
                                "crc-gap-no-symbol"@,
                                None,
                                clock.now,
                            )
                        };
                }
            },
        }
    }
    let ghost gapped = Routing { log: host.log(), warns: warns@, drops: drops@, gaps: gaps@ };
    proof {
        assert(gapped == gap_step(driven, symbol, r));
    }
    fan_out(
        host,
        channel,
        channel,
        is_snapshot,
        row,
        &symbol,
        outcome,
        drops,
        warns,
        Ghost(gaps@),
    );
    let ghost fanned = Routing { log: host.log(), warns: warns@, drops: drops@, gaps: gaps@ };
    proof {
        r.primary = choose|f: FanAnswers|
            {
                &&& fanned == #[trigger] fan_step(
                    gapped,
                    channel,
                    channel,
                    symbol,
                    outcome,
                    f,
                )
                &&& decodes(channel, outcome, f) ==> json_of(f.envelope) == row_envelope(
                    is_snapshot,
                    json_of(*row),
                )
            };
    }
    if channel == ChannelName::Book {
        fan_out(
            host,
            channel,
            ChannelName::BookRaw,
            is_snapshot,
            row,
            &symbol,
            outcome,
            drops,
            warns,
            Ghost(gaps@),
        );
        proof {
            let end = Routing { log: host.log(), warns: warns@, drops: drops@, gaps: gaps@ };
            r.raw = choose|f: FanAnswers|
                {
                    &&& end == #[trigger] fan_step(
                        fanned,
                        channel,
                        ChannelName::BookRaw,
                        symbol,
                        outcome,
                        f,
                    )
                    &&& decodes(ChannelName::BookRaw, outcome, f) ==> json_of(f.envelope)
                        == row_envelope(is_snapshot, json_of(*row))
                };
        }
    }
    proof {
        let end = Routing { log: host.log(), warns: warns@, drops: drops@, gaps: gaps@ };
        assert(end == row_step(start, channel, is_snapshot, *row, r));
    }
}

/// The first rows of a data frame, one for each of `rs`.
pub open spec fn rows_step(
    s: Routing,
    channel: ChannelName,
    is_snapshot: bool,
    rows: Seq<Value>,
    rs: Seq<RowAnswers>,
) -> Routing
    decreases rs.len(),
{
    if rs.len() == 0 {
        s
    } else {
        row_step(
            rows_step(s, channel, is_snapshot, rows, rs.drop_last()),
            channel,
            is_snapshot,
            rows[rs.len() - 1],
            rs.last(),
        )
    }
}

/// What a data frame met.
pub struct RouteAnswers {
    /// The name of a channel that is not known.
    pub unknown: String,
    pub lost: Option<u32>,
    pub lost_clock: BusClock,
    pub warn_clock: BusClock,
    pub rows: Seq<Value>,
    pub answers: Seq<RowAnswers>,
}

/// Whether the frames of a channel are numbered.
pub open spec fn is_sequenced(channel: ChannelName) -> bool {
    channel == ChannelName::Executions || channel == ChannelName::Balances
}

/// The check of a frame's number, before its rows are looked at: a frame whose
/// rows cannot be decoded was still received.
pub open spec fn sequence_log(
    log: Log,
    channel: ChannelName,
    is_snapshot: bool,
    json: Json,
    a: RouteAnswers,
) -> Log {
    match json.u64_at("sequence"@) {
        Some(sequence) => if is_sequenced(channel) {
            let log = asked(
                log,
                Request::NoteSequence(channel, sequence, is_snapshot),
                Reply::Dropped(a.lost),
            );
            match a.lost {
                Some(lost) => channel_gap_log(
                    said(log, Note::SequenceGap { channel, seq: sequence, dropped: lost }),
                    channel,
                    lost,
                    a.lost_clock,
                ),
                None => log,
            }
        } else {
            log
        },
        None => log,
    }
}

/// Whether a frame carries the data of a channel that is not known.
pub open spec fn is_unknown_data(json: Json) -> bool {
    json.str_at("channel"@) is Some && data_channel(json) is None && data_kind(json) is Some
}

/// A whole frame.
pub open spec fn route_step(s: Routing, json: Json, a: RouteAnswers) -> Routing {
    if is_unknown_data(json) {
        let is_snapshot = data_kind(json)->Some_0;
        s.with_log(said(s.log, Note::UnknownChannel { channel: a.unknown, is_snapshot }))
    } else if data_channel(json) is None || data_kind(json) is None {
        s
    } else {
        let channel = data_channel(json)->Some_0;
        let is_snapshot = data_kind(json)->Some_0;
        let s = s.with_log(sequence_log(s.log, channel, is_snapshot, json, a));
        if json.array_at("data"@) is None {
            s.warned(
                "non-array-data"@,
                Some(channel),
                Note::DataNotArray { channel, is_snapshot },
                a.warn_clock,
            )
        } else {
            rows_step(s, channel, is_snapshot, a.rows, a.answers)
        }
    }
}

/// Whether the answers are those of every row of the frame, in order, and the name of
/// an unknown channel is the one in the frame.
pub open spec fn route_rows(json: Json, a: RouteAnswers) -> bool {
    &&& is_unknown_data(json) ==> json.str_at("channel"@) == Some(a.unknown@)
    &&& data_channel(json) is Some && data_kind(json) is Some && json.array_at("data"@) is Some
        ==> {
        &&& json.array_at("data"@) == Some(a.rows.map_values(|row: Value| json_of(row)))
        &&& a.answers.len() == a.rows.len()
        &&& forall|i: int|
            0 <= i < a.rows.len() ==> row_texts(
                data_channel(json)->Some_0,
                data_kind(json)->Some_0,
                json_of(#[trigger] a.rows[i]),
                a.answers[i],
            )
    }
}

/// Routes a data frame: checks its number, drives the subscription state with each
/// row and fans the row out. The result names the books whose rows had a gap, and
/// which are to be recovered.
///
/// Frames of unknown channels or kinds are passed over; data of an unknown channel is
/// noted in the log of the program. A frame whose `data` is no
/// array has no pair to route by: it is warned about, and nothing is announced.
pub fn route_text_frame<F: Fn(Request) -> Reply>(
    host: &mut Link<F>,
    json: &Value,
    drops: &mut DropTracker,
    warns: &mut SuppressWarnTracker,
) -> (gaps: Vec<Symbol>)
    ensures
        exists|a: RouteAnswers|
            {
                &&& (Routing {
                    log: final(host).log(),
                    warns: final(warns)@,
                    drops: final(drops)@,
                    gaps: gaps@,
                }) == #[trigger] route_step(
                    Routing {
                        log: old(host).log(),
                        warns: old(warns)@,
                        drops: old(drops)@,
                        gaps: Seq::empty(),
                    },
                    json_of(*json),
                    a,
                )
                &&& route_rows(json_of(*json), a)
            },
{
    let mut gaps: Vec<Symbol> = Vec::new();
    let ghost start = Routing { log: host.log(), warns: warns@, drops: drops@, gaps: gaps@ };
    let ghost tree = json_of(*json);
    let ghost mut a: RouteAnswers = arbitrary();
    proof {
        assert(start.gaps =~= Seq::empty());
    }
    let channel = match read_data_channel(json) {
        Some(channel) => channel,
        None => {
            match (json::string_at(json, "channel"), read_data_kind(json)) {
                (Some(channel), Some(is_snapshot)) => {
                    proof {
                        a.unknown = channel;
                    }
                    host.say(Note::UnknownChannel { channel, is_snapshot });
                },
                _ => {},
            }
            proof {
                let end = Routing { log: host.log(), ..start };
                assert(end == route_step(start, tree, a));
            }
            return gaps;
        },
    };
    let is_snapshot = match read_data_kind(json) {
        Some(is_snapshot) => is_snapshot,
        None => {
            proof {
                assert(start == route_step(start, tree, a));
            }
            return gaps;
        },
    };
    if channel == ChannelName::Executions || channel == ChannelName::Balances {
        match json::u64_at(json, "sequence") {
            Some(sequence) => {
                let lost = host.dropped(channel, sequence, is_snapshot);
                proof {
                    a.lost = lost;
                }
                match lost {
                    Some(lost) => {
                        host.say(Note::SequenceGap { channel, seq: sequence, dropped: lost });
                        let ghost noted = host.log();
                        emit_channel_gap_event(host, channel, lost);
                        proof {
                            a.lost_clock = choose|clock: BusClock|
                                host.log() == #[trigger] channel_gap_log(
                                    noted,
                                    channel,
                                    lost,
                                    clock,
                                );
                        }
                    },
                    None => {},
                }
            },
            None => {},
        }
    }
    let ghost numbered = Routing { log: host.log(), ..start };
    proof {
        assert(host.log() == sequence_log(start.log, channel, is_snapshot, tree, a));
    }
    let rows = match json::array_at(json, "data") {
        Some(rows) => rows,
        None => {
            suppress_warn_throttled(
                host,
                "non-array-data",
                Some(channel),
                warns,
                Note::DataNotArray { channel, is_snapshot },
            );
            proof {
                let clock = choose|clock: BusClock|
                    {
                        &&& host.log() == #[trigger] suppress_warn_log(
                            numbered.log,
                            numbered.warns,
                            "non-array-data"@,
                            Some(channel),
                            Note::DataNotArray { channel, is_snapshot },
                            clock,
                        )
                        &&& warns@ == warn_times(
                            numbered.warns,
                            "non-array-data"@,
                            Some(channel),
                            clock.now,
                        )
                    };
                a.warn_clock = clock;
                let end = Routing { log: host.log(), warns: warns@, drops: drops@, gaps: gaps@ };
                assert(end == route_step(start, tree, a));
            }
            return gaps;
        },
    };
    let ghost mut answers: Seq<RowAnswers> = Seq::empty();
    let mut i: usize = 0;
    while i < rows.len()
        invariant
            i <= rows@.len(),
            answers.len() == i,
            (Routing { log: host.log(), warns: warns@, drops: drops@, gaps: gaps@ })
                == rows_step(numbered, channel, is_snapshot, rows@, answers),
            forall|k: int|
                0 <= k < i ==> row_texts(
                    channel,
                    is_snapshot,
                    json_of(#[trigger] rows@[k]),
                    answers[k],
                ),
        decreases rows@.len() - i,
    {
        let ghost here = Routing { log: host.log(), warns: warns@, drops: drops@, gaps: gaps@ };
        route_row(host, channel, is_snapshot, &rows[i], drops, warns, &mut gaps);
        proof {
            let end = Routing { log: host.log(), warns: warns@, drops: drops@, gaps: gaps@ };
            let r = choose|r: RowAnswers|
                {
                    &&& end == #[trigger] row_step(
                        here,
                        channel,
                        is_snapshot,
                        rows@[i as int],
                        r,
                    )
                    &&& row_texts(channel, is_snapshot, json_of(rows@[i as int]), r)
                };
            let longer = answers.push(r);
            assert(longer.drop_last() =~= answers);
            assert(end == rows_step(numbered, channel, is_snapshot, rows@, longer));
            answers = longer;
        }
        i += 1;
    }
    proof {
        a.rows = rows@;
        a.answers = answers;
        let end = Routing { log: host.log(), warns: warns@, drops: drops@, gaps: gaps@ };
        assert(end == route_step(start, tree, a));
        assert(rows@.map_values(|v: Value| json_of(v)) =~= a.rows.map_values(
            |row: Value| json_of(row),
        ));
    }
    gaps
}

/// Whether a request shows nothing to the handlers of the maintained book.
pub open spec fn spares_the_book(request: Request) -> bool {
    match request {
        Request::DeliverMaintained(..) => false,
        Request::DeliverDecoded(channel, _, _) => channel != ChannelName::Book,
        Request::Decode(channel, _, _) => channel != ChannelName::Book,
        _ => true,
    }
}

/// Fanning a book row out to the raw handlers shows it to nobody else.
proof fn raw_fan_spares_the_book(
    s: Routing,
    symbol: Option<Symbol>,
    outcome: BookDriveOutcome,
    f: FanAnswers,
)
    ensures
        ({
            let end = fan_step(
                s,
                ChannelName::Book,
                ChannelName::BookRaw,
                symbol,
                outcome,
                f,
            );
            &&& extends(s.log, end.log)
            &&& s.log.len() < end.log.len()
            &&& end.log[s.log.len() as int].0 == Request::HandlersFor(ChannelName::BookRaw)
            &&& end.drops == s.drops
            &&& forall|i: int|
                s.log.len() <= i < end.log.len() ==> spares_the_book((#[trigger] end.log[i]).0)
        }),
{
    let looked = asked(
        s.log,
        Request::HandlersFor(ChannelName::BookRaw),
        Reply::Handlers(f.handlers),
    );
    if f.handlers@.len() > 0 && f.decoded is Deliver {
        let decoded = asked(
            looked,
            Request::Decode(ChannelName::BookRaw, f.handlers@[0], f.envelope),
            Reply::Decoded(f.decoded),
        );
        let payload = f.decoded->Deliver_0;
        let count = f.handlers@.len();
        delivering_extends(
            decoded,
            ChannelName::BookRaw,
            f.handlers@,
            payload,
            false,
            count,
        );
        let after = deliver_log(
            decoded,
            ChannelName::BookRaw,
            f.handlers@,
            payload,
            false,
            count,
        );
        assert forall|i: int| s.log.len() <= i < after.len() implies spares_the_book(
            (#[trigger] after[i]).0,
        ) by {
            if i >= decoded.len() {
                let k = i - decoded.len();
                assert(after[decoded.len() + k].0 == Request::DeliverDecoded(
                    ChannelName::BookRaw,
                    f.handlers@[k],
                    payload,
                ));
            } else {
                assert(after[i] == decoded[i]);
            }
        }
    }
}

/// While a book has a gap or waits for a snapshot, nothing of it reaches the
/// handlers of the maintained book; the handlers of the raw one see every row.
pub proof fn a_suspended_book_is_not_shown(
    s: Routing,
    row: Value,
    is_snapshot: bool,
    r: RowAnswers,
)
    requires
        book_suspended(r.outcome),
    ensures
        ({
            let end = row_step(s, ChannelName::Book, is_snapshot, row, r);
            &&& forall|i: int|
                s.log.len() <= i < end.log.len() ==> spares_the_book((#[trigger] end.log[i]).0)
            &&& made(s.log, end.log, Request::HandlersFor(ChannelName::BookRaw))
            &&& end.drops == s.drops
        }),
{
    let symbol = row_symbol(json_of(row), r);
    let log = if json_of(row).str_at("symbol"@) is Some {
        asked(s.log, Request::ParseSymbol(r.name), Reply::Symbol(r.parsed))
    } else {
        s.log
    };
    let log = asked(
        log,
        Request::HandleUpdate(ChannelName::Book, symbol, is_snapshot, row),
        Reply::Book(r.outcome),
    );
    let gapped = gap_step(s.with_log(log), symbol, r);
    let end = row_step(s, ChannelName::Book, is_snapshot, row, r);
    raw_fan_spares_the_book(gapped, symbol, r.outcome, r.raw);
    assert(end == fan_step(
        gapped,
        ChannelName::Book,
        ChannelName::BookRaw,
        symbol,
        r.outcome,
        r.raw,
    ));
    assert(extends(s.log, gapped.log));
    assert forall|i: int| s.log.len() <= i < end.log.len() implies spares_the_book(
        (#[trigger] end.log[i]).0,
    ) by {
        if i < gapped.log.len() {
            assert(end.log[i] == gapped.log[i]);
        }
    }
}

/// Every handler of a channel gets a payload, once, in order.
pub proof fn delivering_extends(
    log: Log,
    channel: ChannelName,
    handlers: Seq<u64>,
    payload: u64,
    maintained: bool,
    count: nat,
)
    requires
        count <= handlers.len(),
    ensures
        ({
            let after = deliver_log(log, channel, handlers, payload, maintained, count);
            &&& extends(log, after)
            &&& after.len() == log.len() + count
            &&& forall|i: int|
                0 <= i < count ==> (#[trigger] after[log.len() + i]).0 == if maintained {
                    Request::DeliverMaintained(channel, handlers[i], payload)
                } else {
                    Request::DeliverDecoded(channel, handlers[i], payload)
                }
        }),
    decreases count,
{
    if count > 0 {
        delivering_extends(log, channel, handlers, payload, maintained, (count - 1) as nat);
    }
}

/// A status row without a handler is not counted as dropped, however often it
/// comes.
pub proof fn status_is_never_dropped(
    s: Routing,
    row: Value,
    is_snapshot: bool,
    r: RowAnswers,
)
    ensures
        row_step(s, ChannelName::Status, is_snapshot, row, r).drops == s.drops,
{
}

/// A row counts as dropped exactly when its own channel has no handler; one of a
/// book only when the raw book has none either.
pub proof fn only_an_unseen_row_is_dropped(
    s: Routing,
    channel: ChannelName,
    symbol: Option<Symbol>,
    outcome: BookDriveOutcome,
    f: FanAnswers,
)
    requires
        channel != ChannelName::Status,
        !(channel == ChannelName::Book && book_suspended(outcome)),
    ensures
        fan_step(s, channel, channel, symbol, outcome, f).drops == if f.handlers@.len() == 0 && (
        channel == ChannelName::Book ==> f.raw_handlers@.len() == 0) {
            drop_counts(s.drops, channel, f.clock.now)
        } else {
            s.drops
        },
{
}

/// A row asks for the recovery of its book exactly when it has a gap within its
/// budget and a pair to recover.
pub proof fn only_a_gap_is_recovered(
    s: Routing,
    channel: ChannelName,
    is_snapshot: bool,
    row: Value,
    r: RowAnswers,
)
    ensures
        row_step(s, channel, is_snapshot, row, r).gaps == match row_symbol(json_of(row), r) {
            Some(symbol) => if r.outcome is Gap {
                s.gaps.push(symbol)
            } else {
                s.gaps
            },
            None => s.gaps,
        },
{
}

/// A frame whose `data` is no array is counted as nothing, shown to nobody and
/// recovers nothing. All that can be announced is the loss that its number shows.
pub proof fn a_malformed_frame_is_only_warned_about(s: Routing, json: Json, a: RouteAnswers)
    requires
        json.array_at("data"@) is None,
        data_channel(json) is Some,
    ensures
        ({
            let end = route_step(s, json, a);
            let numbered = sequence_log(
                s.log,
                data_channel(json)->Some_0,
                data_kind(json)->Some_0,
                json,
                a,
            );
            &&& end.drops == s.drops
            &&& end.gaps == s.gaps
            &&& data_kind(json) is Some ==> grew_without(numbered, end.log, Effect::Announce)
            &&& !is_sequenced(data_channel(json)->Some_0) || a.lost is None || data_kind(json)
                is None ==> grew_without(s.log, end.log, Effect::Announce)
            &&& grew_without(s.log, end.log, Effect::Deliver)
            &&& grew_without(s.log, end.log, Effect::Send)
        }),
{
}

/// Frames of unknown channels and kinds are passed over: all that comes of one is a
/// line in the log of the program, and only where it carries data of a channel.
pub proof fn unknown_frames_are_passed_over(s: Routing, json: Json, a: RouteAnswers)
    requires
        data_channel(json) is None || data_kind(json) is None,
    ensures
        ({
            let end = route_step(s, json, a);
            &&& end.warns == s.warns && end.drops == s.drops && end.gaps == s.gaps
            &&& end.log == s.log || end.log.drop_last() == s.log && end.log.last().0 is Say
            &&& data_kind(json) is None || json.str_at("channel"@) is None ==> end.log == s.log
        }),
{
    let end = route_step(s, json, a);
    if is_unknown_data(json) {
        assert(end.log.drop_last() =~= s.log);
    }
}

proof fn a_fan_out_sends_nothing(
    s: Routing,
    channel: ChannelName,
    fan: ChannelName,
    symbol: Option<Symbol>,
    outcome: BookDriveOutcome,
    f: FanAnswers,
)
    ensures
        grew_without(
            s.log,
            fan_step(s, channel, fan, symbol, outcome, f).log,
            Effect::Send,
        ),
{
    let looked = asked(s.log, Request::HandlersFor(fan), Reply::Handlers(f.handlers));
    let end = fan_step(s, channel, fan, symbol, outcome, f);
    let count = f.handlers@.len();
    if fan == ChannelName::Book && book_suspended(outcome) {
    } else if count == 0 {
    } else if fan == ChannelName::Book && outcome is Maintained {
        let clocked = asked(looked, Request::BusClock, Reply::Clock(f.clock));
        let payload = outcome->Maintained_0;
        delivering_extends(clocked, fan, f.handlers@, payload, true, count);
        let after = deliver_log(clocked, fan, f.handlers@, payload, true, count);
        if f.clock.bus_alive {
            assert forall|i: int| s.log.len() <= i < after.len() implies (
            #[trigger] after[i]).0.effect() != Effect::Send by {
                if i >= clocked.len() {
                    let k = i - clocked.len();
                    assert(after[clocked.len() + k].0 == Request::DeliverMaintained(
                        fan,
                        f.handlers@[k],
                        payload,
                    ));
                } else {
                    assert(after[i] == clocked[i]);
                }
            }
        }
    } else if f.decoded is Deliver {
        let decoded = asked(
            looked,
            Request::Decode(fan, f.handlers@[0], f.envelope),
            Reply::Decoded(f.decoded),
        );
        let payload = f.decoded->Deliver_0;
        delivering_extends(decoded, fan, f.handlers@, payload, false, count);
        let after = deliver_log(decoded, fan, f.handlers@, payload, false, count);
        assert forall|i: int| s.log.len() <= i < after.len() implies (
        #[trigger] after[i]).0.effect() != Effect::Send by {
            if i >= decoded.len() {
                let k = i - decoded.len();
                assert(after[decoded.len() + k].0 == Request::DeliverDecoded(
                    fan,
                    f.handlers@[k],
                    payload,
                ));
            } else {
                assert(after[i] == decoded[i]);
            }
        }
    }
}

proof fn a_row_sends_nothing(
    s: Routing,
    channel: ChannelName,
    is_snapshot: bool,
    row: Value,
    r: RowAnswers,
)
    ensures
        grew_without(
            s.log,
            row_step(s, channel, is_snapshot, row, r).log,
            Effect::Send,
        ),
{
    let symbol = row_symbol(json_of(row), r);
    let log = if json_of(row).str_at("symbol"@) is Some {
        asked(s.log, Request::ParseSymbol(r.name), Reply::Symbol(r.parsed))
    } else {
        s.log
    };
    let log = asked(
        log,
        Request::HandleUpdate(channel, symbol, is_snapshot, row),
        Reply::Book(r.outcome),
    );
    let gapped = gap_step(s.with_log(log), symbol, r);
    assert(grew_without(s.log, gapped.log, Effect::Send));
    a_fan_out_sends_nothing(gapped, channel, channel, symbol, r.outcome, r.primary);
    let fanned = fan_step(gapped, channel, channel, symbol, r.outcome, r.primary);
    grew_without_together(s.log, gapped.log, fanned.log, Effect::Send);
    if channel == ChannelName::Book {
        a_fan_out_sends_nothing(
            fanned,
            channel,
            ChannelName::BookRaw,
            symbol,
            r.outcome,
            r.raw,
        );
        let end = fan_step(
            fanned,
            channel,
            ChannelName::BookRaw,
            symbol,
            r.outcome,
            r.raw,
        );
        grew_without_together(s.log, fanned.log, end.log, Effect::Send);
    }
}

proof fn rows_send_nothing(
    s: Routing,
    channel: ChannelName,
    is_snapshot: bool,
    rows: Seq<Value>,
    rs: Seq<RowAnswers>,
)
    ensures
        grew_without(
            s.log,
            rows_step(s, channel, is_snapshot, rows, rs).log,
            Effect::Send,
        ),
    decreases rs.len(),
{
    if rs.len() > 0 {
        let most = rows_step(s, channel, is_snapshot, rows, rs.drop_last());
        rows_send_nothing(s, channel, is_snapshot, rows, rs.drop_last());
        a_row_sends_nothing(most, channel, is_snapshot, rows[rs.len() - 1], rs.last());
        grew_without_together(
            s.log,
            most.log,
            rows_step(s, channel, is_snapshot, rows, rs).log,
            Effect::Send,
        );
    }
}

/// Routing a data frame sends nothing: what a gap asks for is sent afterwards.
pub proof fn routing_sends_nothing(s: Routing, json: Json, a: RouteAnswers)
    ensures
        grew_without(s.log, route_step(s, json, a).log, Effect::Send),
{
    if data_channel(json) is Some && data_kind(json) is Some {
        let channel = data_channel(json)->Some_0;
        let is_snapshot = data_kind(json)->Some_0;
        let numbered = s.with_log(sequence_log(s.log, channel, is_snapshot, json, a));
        assert(grew_without(s.log, numbered.log, Effect::Send));
        if json.array_at("data"@) is Some {
            rows_send_nothing(numbered, channel, is_snapshot, a.rows, a.answers);
            grew_without_together(
                s.log,
                numbered.log,
                route_step(s, json, a).log,
                Effect::Send,
            );
        }
    }
}

/// Whether a request is about a channel that a frame of `channel` is shown on: its
/// own, and for a book the raw one too.
pub open spec fn is_shown_on(channel: ChannelName, shown: ChannelName) -> bool {
    shown == channel || channel == ChannelName::Book && shown == ChannelName::BookRaw
}

/// What one row of a frame may ask for: the row itself is driven, decoded and
/// announced under the channel and the kind of the frame, and under nothing else.
pub open spec fn is_of_row(
    request: Request,
    channel: ChannelName,
    is_snapshot: bool,
    row: Value,
) -> bool {
    match request {
        Request::HandleUpdate(of, _, snapshot, driven) => of == channel && snapshot == is_snapshot
            && driven == row,
        Request::Decode(of, _, envelope) => {
            &&& is_shown_on(channel, of)
            &&& json_of(envelope).str_at("type"@) == Some(
                if is_snapshot {
                    "snapshot"@
                } else {
                    "update"@
                },
            )
            &&& json_of(envelope).get("data"@) == Some(json_of(row))
        },
        Request::HandlersFor(of) => is_shown_on(channel, of),
        Request::DeliverDecoded(of, _, _) => is_shown_on(channel, of),
        Request::DeliverMaintained(of, _, _) => of == ChannelName::Book && channel == of,
        Request::Publish(event) => event.request_id is None,
        Request::ParseSymbol(name) => json_of(row).str_at("symbol"@) == Some(name@),
        Request::BusClock | Request::Say(_) => true,
        _ => false,
    }
}

proof fn a_fan_out_is_of_its_row(
    s: Routing,
    channel: ChannelName,
    fan: ChannelName,
    is_snapshot: bool,
    row: Value,
    symbol: Option<Symbol>,
    outcome: BookDriveOutcome,
    f: FanAnswers,
)
    requires
        is_shown_on(channel, fan),
        decodes(fan, outcome, f) ==> json_of(f.envelope) == row_envelope(
            is_snapshot,
            json_of(row),
        ),
    ensures
        each_obeys(
            s.log,
            fan_step(s, channel, fan, symbol, outcome, f).log,
            |request: Request|
                is_of_row(request, channel, is_snapshot, row) && !(request is HandleUpdate),
        ),
{
    let rule = |request: Request|
        is_of_row(request, channel, is_snapshot, row) && !(request is HandleUpdate);
    let looked = asked(s.log, Request::HandlersFor(fan), Reply::Handlers(f.handlers));
    let end = fan_step(s, channel, fan, symbol, outcome, f);
    let count = f.handlers@.len();
    assert("type"@ != "data"@) by {
        reveal_strlit("type");
        reveal_strlit("data");
        assert("type"@[0] == 't');
        assert("data"@[0] == 'd');
    }
    if fan == ChannelName::Book && book_suspended(outcome) {
    } else if count == 0 {
        assert(each_obeys(s.log, end.log, rule));
    } else if fan == ChannelName::Book && outcome is Maintained {
        let clocked = asked(looked, Request::BusClock, Reply::Clock(f.clock));
        let payload = outcome->Maintained_0;
        delivering_extends(clocked, fan, f.handlers@, payload, true, count);
        let after = deliver_log(clocked, fan, f.handlers@, payload, true, count);
        if f.clock.bus_alive {
            assert forall|i: int| s.log.len() <= i < after.len() implies rule(
                (#[trigger] after[i]).0,
            ) by {
                if i >= clocked.len() {
                    let k = i - clocked.len();
                    assert(after[clocked.len() + k].0 == Request::DeliverMaintained(
                        fan,
                        f.handlers@[k],
                        payload,
                    ));
                } else {
                    assert(after[i] == clocked[i]);
                }
            }
        }
    } else {
        let decoded = asked(
            looked,
            Request::Decode(fan, f.handlers@[0], f.envelope),
            Reply::Decoded(f.decoded),
        );
        assert(each_obeys(s.log, decoded, rule));
        if f.decoded is Deliver {
            let payload = f.decoded->Deliver_0;
            delivering_extends(decoded, fan, f.handlers@, payload, false, count);
            let after = deliver_log(decoded, fan, f.handlers@, payload, false, count);
            assert forall|i: int| s.log.len() <= i < after.len() implies rule(
                (#[trigger] after[i]).0,
            ) by {
                if i >= decoded.len() {
                    let k = i - decoded.len();
                    assert(after[decoded.len() + k].0 == Request::DeliverDecoded(
                        fan,
                        f.handlers@[k],
                        payload,
                    ));
                } else {
                    assert(after[i] == decoded[i]);
                }
            }
        } else {
            assert(each_obeys(decoded, end.log, rule));
            each_obeys_together(s.log, decoded, end.log, rule);
        }
    }
}

/// A row is parsed for its pair, driven and shown as what it is: under the channel
/// and the kind of its frame, with the pair that its name stands for, and nothing
/// else is asked for on its account.
pub proof fn a_row_is_driven_as_it_came(
    s: Routing,
    channel: ChannelName,
    is_snapshot: bool,
    row: Value,
    r: RowAnswers,
)
    requires
        row_texts(channel, is_snapshot, json_of(row), r),
    ensures
        ({
            let after = row_step(s, channel, is_snapshot, row, r).log;
            let n = s.log.len() as int;
            &&& each_obeys(
                s.log,
                after,
                |request: Request| is_of_row(request, channel, is_snapshot, row),
            )
            &&& json_of(row).str_at("symbol"@) is None ==> after[n].0 == Request::HandleUpdate(
                channel,
                None,
                is_snapshot,
                row,
            )
            &&& json_of(row).str_at("symbol"@) is Some ==> {
                &&& after[n].0 is ParseSymbol
                &&& after[n].0->ParseSymbol_0@ == json_of(row).str_at("symbol"@)->Some_0
                &&& after[n].1 is Symbol
                &&& after[n + 1].0 == Request::HandleUpdate(
                    channel,
                    after[n].1->Symbol_0,
                    is_snapshot,
                    row,
                )
            }
            &&& picked(s.log, after, |request: Request| request is HandleUpdate).len() == 1
        }),
{
    let rule = |request: Request| is_of_row(request, channel, is_snapshot, row);
    let still = |request: Request|
        is_of_row(request, channel, is_snapshot, row) && !(request is HandleUpdate);
    let updates = |request: Request| request is HandleUpdate;
    let symbol = row_symbol(json_of(row), r);
    let named = json_of(row).str_at("symbol"@) is Some;
    let n = s.log.len() as int;
    let log = if named {
        asked(s.log, Request::ParseSymbol(r.name), Reply::Symbol(r.parsed))
    } else {
        s.log
    };
    let driven = asked(
        log,
        Request::HandleUpdate(channel, symbol, is_snapshot, row),
        Reply::Book(r.outcome),
    );
    let gapped = gap_step(s.with_log(driven), symbol, r);
    assert(each_obeys(s.log, driven, rule));
    assert(each_obeys(driven, gapped.log, still));
    picking(s.log, updates);
    let fanned = fan_step(gapped, channel, channel, symbol, r.outcome, r.primary);
    a_fan_out_is_of_its_row(
        gapped,
        channel,
        channel,
        is_snapshot,
        row,
        symbol,
        r.outcome,
        r.primary,
    );
    each_obeys_together(driven, gapped.log, fanned.log, still);
    let after = row_step(s, channel, is_snapshot, row, r).log;
    if channel == ChannelName::Book {
        a_fan_out_is_of_its_row(
            fanned,
            channel,
            ChannelName::BookRaw,
            is_snapshot,
            row,
            symbol,
            r.outcome,
            r.raw,
        );
        each_obeys_together(driven, fanned.log, after, still);
    }
    assert(each_obeys(driven, after, still));
    assert forall|i: int| driven.len() <= i < after.len() implies {
        &&& rule((#[trigger] after[i]).0)
        &&& !updates(after[i].0)
    } by {
        assert(still(after[i].0));
    }
    each_obeys_together(s.log, driven, after, rule);
    nothing_picked(driven, after, updates);
    picked_together(s.log, driven, after, updates);
    assert(after[n] == driven[n]);
    assert(after[driven.len() - 1] == driven[driven.len() - 1]);
    assert(picked(s.log, after, updates) =~= seq![driven.last()]);
}

/// The rows of a frame are driven in the order in which they came, each once, and
/// what they ask for is about one of them.
proof fn rows_are_driven_in_order(
    s: Routing,
    channel: ChannelName,
    is_snapshot: bool,
    rows: Seq<Value>,
    rs: Seq<RowAnswers>,
)
    requires
        rs.len() <= rows.len(),
        forall|i: int|
            0 <= i < rs.len() ==> row_texts(
                channel,
                is_snapshot,
                json_of(#[trigger] rows[i]),
                rs[i],
            ),
    ensures
        ({
            let after = rows_step(s, channel, is_snapshot, rows, rs).log;
            let updates = picked(s.log, after, |request: Request| request is HandleUpdate);
            &&& each_obeys(
                s.log,
                after,
                |request: Request|
                    exists|i: int|
                        0 <= i < rs.len() && is_of_row(
                            request,
                            channel,
                            is_snapshot,
                            #[trigger] rows[i],
                        ),
            )
            &&& updates.len() == rs.len()
            &&& forall|i: int|
                0 <= i < rs.len() ==> {
                    &&& (#[trigger] updates[i]).0 is HandleUpdate
                    &&& updates[i].0->HandleUpdate_0 == channel
                    &&& updates[i].0->HandleUpdate_2 == is_snapshot
                    &&& updates[i].0->HandleUpdate_3 == rows[i]
                }
        }),
    decreases rs.len(),
{
    let kind = |request: Request| request is HandleUpdate;
    let after = rows_step(s, channel, is_snapshot, rows, rs).log;
    picking(s.log, kind);
    if rs.len() > 0 {
        let last = rs.len() - 1;
        let most = rs.drop_last();
        let before = rows_step(s, channel, is_snapshot, rows, most);
        assert forall|i: int| 0 <= i < most.len() implies row_texts(
            channel,
            is_snapshot,
            json_of(#[trigger] rows[i]),
            most[i],
        ) by {
            assert(most[i] == rs[i]);
        }
        rows_are_driven_in_order(s, channel, is_snapshot, rows, most);
        assert(row_texts(channel, is_snapshot, json_of(rows[last]), rs[last]));
        a_row_is_driven_as_it_came(before, channel, is_snapshot, rows[last], rs[last]);
        let few = |request: Request|
            exists|i: int|
                0 <= i < most.len() && is_of_row(
                    request,
                    channel,
                    is_snapshot,
                    #[trigger] rows[i],
                );
        let all = |request: Request|
            exists|i: int|
                0 <= i < rs.len() && is_of_row(request, channel, is_snapshot, #[trigger] rows[i]);
        let one = |request: Request| is_of_row(request, channel, is_snapshot, rows[last]);
        assert(each_obeys(s.log, before.log, few));
        assert(each_obeys(before.log, after, one));
        assert forall|i: int| s.log.len() <= i < before.log.len() implies all(
            (#[trigger] before.log[i]).0,
        ) by {
            assert(few(before.log[i].0));
        }
        assert forall|i: int| before.log.len() <= i < after.len() implies all(
            (#[trigger] after[i]).0,
        ) by {
            assert(one(after[i].0));
        }
        each_obeys_together(s.log, before.log, after, all);
        picked_together(s.log, before.log, after, kind);
        let news = picked(before.log, after, kind);
        picked_is_of_kind(before.log, after, kind, 0);
    }
}

/// A frame of a known channel and kind is routed as what it says it is. Every row
/// is driven into the subscription state, once and in order, under the channel of
/// the frame, and as part of a snapshot exactly when the type of the frame is
/// `snapshot`. Its number is noted under the same, and whatever is decoded carries
/// the same type.
pub proof fn a_frame_is_routed_as_what_it_is(s: Routing, json: Json, a: RouteAnswers)
    requires
        route_rows(json, a),
    ensures
        ({
            let after = route_step(s, json, a).log;
            let updates = picked(s.log, after, |request: Request| request is HandleUpdate);
            let is_snapshot = json.str_at("type"@) == Some("snapshot"@);
            let known = json.str_at("channel"@) is Some && ChannelName::of_wire_str(
                json.str_at("channel"@)->Some_0,
            ) is Some && (is_snapshot || json.str_at("type"@) == Some("update"@));
            let channel = ChannelName::of_wire_str(json.str_at("channel"@)->Some_0)->Some_0;
            &&& extends(s.log, after)
            &&& forall|i: int|
                s.log.len() <= i < after.len() ==> match (#[trigger] after[i]).0 {
                    Request::HandleUpdate(of, _, snapshot, _) => known && of == channel && snapshot
                        == is_snapshot,
                    Request::NoteSequence(of, number, snapshot) => known && of == channel
                        && json.u64_at("sequence"@) == Some(number) && snapshot == is_snapshot,
                    Request::Decode(of, _, envelope) => known && is_shown_on(channel, of)
                        && json_of(envelope).str_at("type"@) == json.str_at("type"@),
                    Request::HandlersFor(of) => known && is_shown_on(channel, of),
                    Request::DeliverDecoded(of, _, _) => known && is_shown_on(channel, of),
                    Request::DeliverMaintained(of, _, _) => known && channel == ChannelName::Book
                        && of == channel,
                    Request::Publish(event) => known && event.request_id is None,
                    Request::ParseSymbol(_) | Request::BusClock | Request::Say(_) => true,
                    _ => false,
                }
            &&& match (known, json.array_at("data"@)) {
                (true, Some(rows)) => {
                    &&& updates.len() == rows.len()
                    &&& forall|i: int|
                        0 <= i < rows.len() ==> json_of((#[trigger] updates[i]).0->HandleUpdate_3)
                            == rows[i]
                },
                _ => updates.len() == 0,
            }
        }),
{
    let kind = |request: Request| request is HandleUpdate;
    let after = route_step(s, json, a).log;
    picking(s.log, kind);
    assert("snapshot"@ != "update"@) by {
        reveal_strlit("snapshot");
        reveal_strlit("update");
        assert("snapshot"@[0] == 's');
        assert("update"@[0] == 'u');
    }
    if data_channel(json) is Some && data_kind(json) is Some {
        let channel = data_channel(json)->Some_0;
        let is_snapshot = data_kind(json)->Some_0;
        let numbered = s.with_log(sequence_log(s.log, channel, is_snapshot, json, a));
        assert(extends(s.log, numbered.log));
        assert(picked(s.log, numbered.log, kind) =~= Log::empty());
        if json.array_at("data"@) is Some {
            let rule = |request: Request|
                exists|i: int|
                    0 <= i < a.answers.len() && is_of_row(
                        request,
                        channel,
                        is_snapshot,
                        #[trigger] a.rows[i],
                    );
            rows_are_driven_in_order(numbered, channel, is_snapshot, a.rows, a.answers);
            picked_together(s.log, numbered.log, after, kind);
            assert forall|i: int| numbered.log.len() <= i < after.len() implies rule(
                (#[trigger] after[i]).0,
            ) by {}
            assert forall|i: int| 0 <= i < numbered.log.len() implies #[trigger] after[i]
                == numbered.log[i] by {}
            assert(picked(s.log, after, kind) =~= picked(numbered.log, after, kind));
        } else {
            assert(picked(s.log, after, kind) =~= Log::empty());
        }
    } else {
        assert(picked(s.log, after, kind) =~= Log::empty());
    }
}

proof fn deliveries_are_picked(
    log: Log,
    channel: ChannelName,
    handlers: Seq<u64>,
    payload: u64,
    maintained: bool,
    count: nat,
)
    requires
        count <= handlers.len(),
    ensures
        ({
            let after = deliver_log(log, channel, handlers, payload, maintained, count);
            &&& extends(log, after)
            &&& happened(log, after, Effect::Deliver) == Seq::new(
                count,
                |i: int|
                    if maintained {
                        Request::DeliverMaintained(channel, handlers[i], payload)
                    } else {
                        Request::DeliverDecoded(channel, handlers[i], payload)
                    },
            )
            &&& happened(log, after, Effect::Announce) == Seq::<Request>::empty()
        }),
    decreases count,
{
    let after = deliver_log(log, channel, handlers, payload, maintained, count);
    if count > 0 {
        let fewer = deliver_log(log, channel, handlers, payload, maintained, (count - 1) as nat);
        deliveries_are_picked(log, channel, handlers, payload, maintained, (count - 1) as nat);
        assert(after.drop_last() =~= fewer);
    }
    assert(happened(log, after, Effect::Deliver) =~= Seq::new(
        count,
        |i: int|
            if maintained {
                Request::DeliverMaintained(channel, handlers[i], payload)
            } else {
                Request::DeliverDecoded(channel, handlers[i], payload)
            },
    ));
    assert(happened(log, after, Effect::Announce) =~= Seq::<Request>::empty());
}

/// Every handler of a channel gets a row, once and in order. A maintained book is
/// handed out as it is; anything else is decoded by the first handler's decoder,
/// and what that made of it goes to all of them. A book with a gap, or one that
/// waits for a snapshot, goes to nobody.
pub proof fn every_handler_gets_the_row(
    s: Routing,
    channel: ChannelName,
    fan: ChannelName,
    symbol: Option<Symbol>,
    outcome: BookDriveOutcome,
    f: FanAnswers,
)
    ensures
        ({
            let after = fan_step(s, channel, fan, symbol, outcome, f).log;
            let delivered = happened(s.log, after, Effect::Deliver);
            let decodings = picked(s.log, after, |request: Request| request is Decode);
            let maintained = fan == ChannelName::Book && outcome is Maintained;
            let hidden = fan == ChannelName::Book && (outcome is Gap || outcome
                is GapBudgetExhausted || outcome is AwaitingSnapshot);
            let count = f.handlers@.len();
            &&& extends(s.log, after)
            &&& hidden ==> after == s.log
            &&& !hidden ==> after[s.log.len() as int] == (
                Request::HandlersFor(fan),
                Reply::Handlers(f.handlers),
            )
            &&& !hidden && maintained && f.clock.bus_alive ==> delivered == Seq::new(
                count,
                |i: int|
                    Request::DeliverMaintained(fan, f.handlers@[i], outcome->Maintained_0),
            )
            &&& !hidden && !maintained && count > 0 ==> decodings.len() == 1 && decodings[0] == (
                Request::Decode(fan, f.handlers@[0], f.envelope),
                Reply::Decoded(f.decoded),
            )
            &&& hidden || maintained || count == 0 ==> decodings.len() == 0
            &&& !hidden && !maintained && f.decoded is Deliver ==> delivered == Seq::new(
                count,
                |i: int|
                    Request::DeliverDecoded(fan, f.handlers@[i], f.decoded->Deliver_0),
            )
            &&& hidden || !maintained && !(f.decoded is Deliver) || maintained
                && !f.clock.bus_alive ==> delivered.len() == 0
        }),
{
    let kind = |request: Request| request is Decode;
    let after = fan_step(s, channel, fan, symbol, outcome, f).log;
    let delivered = happened(s.log, after, Effect::Deliver);
    let looked = asked(s.log, Request::HandlersFor(fan), Reply::Handlers(f.handlers));
    let count = f.handlers@.len();
    picking(s.log, kind);
    if fan == ChannelName::Book && book_suspended(outcome) {
        nothing_happened(s.log, after, Effect::Deliver);
    } else if count == 0 {
        assert(grew_without(s.log, after, Effect::Deliver));
        nothing_happened(s.log, after, Effect::Deliver);
        nothing_picked(s.log, after, kind);
        assert(delivered =~= Seq::new(
            count,
            |i: int| Request::DeliverMaintained(fan, f.handlers@[i], outcome->Maintained_0),
        ));
        assert(delivered =~= Seq::new(
            count,
            |i: int| Request::DeliverDecoded(fan, f.handlers@[i], f.decoded->Deliver_0),
        ));
    } else if fan == ChannelName::Book && outcome is Maintained {
        let clocked = asked(looked, Request::BusClock, Reply::Clock(f.clock));
        assert(grew_without(s.log, clocked, Effect::Deliver));
        nothing_happened(s.log, clocked, Effect::Deliver);
        nothing_picked(s.log, clocked, kind);
        if f.clock.bus_alive {
            let payload = outcome->Maintained_0;
            deliveries_are_picked(clocked, fan, f.handlers@, payload, true, count);
            delivering_extends(clocked, fan, f.handlers@, payload, true, count);
            happened_together(s.log, clocked, after, Effect::Deliver);
            assert(delivered =~= Seq::new(
                count,
                |i: int| Request::DeliverMaintained(fan, f.handlers@[i], outcome->Maintained_0),
            ));
            assert forall|i: int| clocked.len() <= i < after.len() implies !kind(
                (#[trigger] after[i]).0,
            ) by {
                let k = i - clocked.len();
                assert(after[clocked.len() + k].0 is DeliverMaintained);
            }
            nothing_picked(clocked, after, kind);
            picked_together(s.log, clocked, after, kind);
            assert(after[s.log.len() as int] == clocked[s.log.len() as int]);
        }
    } else {
        let decoded = asked(
            looked,
            Request::Decode(fan, f.handlers@[0], f.envelope),
            Reply::Decoded(f.decoded),
        );
        assert(grew_without(s.log, decoded, Effect::Deliver));
        nothing_happened(s.log, decoded, Effect::Deliver);
        if f.decoded is Deliver {
            let payload = f.decoded->Deliver_0;
            deliveries_are_picked(decoded, fan, f.handlers@, payload, false, count);
            delivering_extends(decoded, fan, f.handlers@, payload, false, count);
            assert forall|i: int| decoded.len() <= i < after.len() implies !kind(
                (#[trigger] after[i]).0,
            ) by {
                let k = i - decoded.len();
                assert(after[decoded.len() + k].0 is DeliverDecoded);
            }
        } else {
            assert(grew_without(decoded, after, Effect::Deliver));
            nothing_happened(decoded, after, Effect::Deliver);
        }
        happened_together(s.log, decoded, after, Effect::Deliver);
        assert(f.decoded is Deliver ==> delivered =~= Seq::new(
            count,
            |i: int| Request::DeliverDecoded(fan, f.handlers@[i], f.decoded->Deliver_0),
        ));
        nothing_picked(decoded, after, kind);
        picked_together(s.log, decoded, after, kind);
        assert(after[s.log.len() as int] == decoded[s.log.len() as int]);
    }
}

/// A row that cannot be decoded is announced as a gap in its own subscription, and
/// a decoder that panicked as the panic of the handler that it belongs to, each
/// with the words and at the instant of the failure. Otherwise a fan-out announces
/// at most that messages found no handler.
pub proof fn a_failed_decoding_is_announced(
    s: Routing,
    channel: ChannelName,
    fan: ChannelName,
    symbol: Option<Symbol>,
    outcome: BookDriveOutcome,
    f: FanAnswers,
)
    ensures
        ({
            let after = fan_step(s, channel, fan, symbol, outcome, f).log;
            let announced = happened(s.log, after, Effect::Announce);
            let decoded = made(
                s.log,
                after,
                Request::Decode(fan, f.handlers@[0], f.envelope),
            );
            &&& decoded && f.decoded is DecodeFailed && symbol is Some ==> announced.len() == 1
                && announced[0] == Request::Publish(
                EventEnvelope {
                    event_version: 2,
                    timestamp: f.clock.now,
                    request_id: None,
                    payload: EventPayload::SubscriptionGap {
                        channel: fan,
                        symbol: symbol->Some_0,
                        dropped_count: 0,
                        cause: GapCause::MalformedFrame,
                    },
                },
            )
            &&& decoded && f.decoded is Panicked ==> announced.len() == 1 && announced[0]
                == Request::Publish(
                EventEnvelope {
                    event_version: 1,
                    timestamp: f.clock.now,
                    request_id: None,
                    payload: EventPayload::HandlerPanicWarning {
                        channel: fan,
                        handler_id: f.handlers@[0],
                        panic_message: f.decoded->Panicked_0,
                    },
                },
            )
            &&& decoded && (f.decoded is DecodeFailed && symbol is None || f.decoded is Deliver
                || f.decoded is NoBus) ==> announced.len() == 0
            &&& decoded && f.decoded is DecodeFailed && symbol is None ==> after
                == suppress_warn_log(
                s.log.push((Request::HandlersFor(fan), Reply::Handlers(f.handlers))).push(
                    (
                        Request::Decode(fan, f.handlers@[0], f.envelope),
                        Reply::Decoded(f.decoded),
                    ),
                ),
                s.warns,
                "decode-fail-no-symbol"@,
                Some(fan),
                Note::DecodeFailedWithoutSymbol { channel: fan },
                f.clock,
            )
        }),
{
    let after = fan_step(s, channel, fan, symbol, outcome, f).log;
    let announced = happened(s.log, after, Effect::Announce);
    let request = Request::Decode(fan, f.handlers@[0], f.envelope);
    let looked = asked(s.log, Request::HandlersFor(fan), Reply::Handlers(f.handlers));
    let count = f.handlers@.len();
    if fan == ChannelName::Book && book_suspended(outcome) {
    } else if count == 0 {
    } else if fan == ChannelName::Book && outcome is Maintained {
        let clocked = asked(looked, Request::BusClock, Reply::Clock(f.clock));
        if f.clock.bus_alive {
            delivering_extends(clocked, fan, f.handlers@, outcome->Maintained_0, true, count);
            assert forall|i: int| s.log.len() <= i < after.len() implies (
            #[trigger] after[i]).0 != request by {
                if i >= clocked.len() {
                    let k = i - clocked.len();
                    assert(after[clocked.len() + k].0 is DeliverMaintained);
                } else {
                    assert(after[i] == clocked[i]);
                }
            }
        }
    } else {
        let decoded = asked(looked, request, Reply::Decoded(f.decoded));
        nothing_happened(s.log, decoded, Effect::Announce);
        if f.decoded is Deliver {
            deliveries_are_picked(
                decoded,
                fan,
                f.handlers@,
                f.decoded->Deliver_0,
                false,
                count,
            );
            happened_together(s.log, decoded, after, Effect::Announce);
        } else if f.decoded is Panicked || f.decoded is DecodeFailed && symbol is Some {
            happened_once(s.log, after, Effect::Announce, after.len() - 1);
        } else {
            assert(grew_without(s.log, after, Effect::Announce));
            nothing_happened(s.log, after, Effect::Announce);
        }
    }
}

/// A book whose checksum does not match is warned about, with the two sums, or as
/// given up, and announced at once and twice, before anything is shown: as a gap of
/// the book and as a gap of its subscription, both for the pair of the row. Within its
/// budget it is also noted for recovery.
pub proof fn a_mismatched_book_is_announced(s: Routing, symbol: Symbol, r: RowAnswers)
    requires
        r.outcome is Gap || r.outcome is GapBudgetExhausted,
        r.clock.bus_alive,
    ensures
        ({
            let after = gap_step(s, Some(symbol), r);
            let cause = GapCause::OrderBookCrcMismatch;
            let channel = ChannelName::Book;
            let event = |payload: EventPayload|
                Request::Publish(
                    EventEnvelope {
                        event_version: 2,
                        timestamp: r.clock.now,
                        request_id: None,
                        payload,
                    },
                );
            &&& happened(s.log, after.log, Effect::Announce) == seq![
                event(EventPayload::OrderBookGap { channel, symbol, cause }),
                event(
                    EventPayload::SubscriptionGap { channel, symbol, dropped_count: 0, cause },
                ),
            ]
            &&& after.log[s.log.len() as int].0 == Request::Say(
                match r.outcome {
                    BookDriveOutcome::Gap { expected, computed } => Note::BookMismatch {
                        symbol,
                        expected,
                        computed,
                    },
                    _ => Note::BookBudgetExhausted { symbol },
                },
            )
            &&& after.gaps == if r.outcome is Gap {
                s.gaps.push(symbol)
            } else {
                s.gaps
            }
        }),
{
    let after = gap_step(s, Some(symbol), r).log;
    let first = after.drop_last();
    happened_once(s.log, first, Effect::Announce, first.len() - 1);
    happened_once(first, after, Effect::Announce, after.len() - 1);
    happened_together(s.log, first, after, Effect::Announce);
}

/// The numbered channels are those of the account, and the number of a frame is
/// noted whether or not its rows can be read. Frames that were lost are warned about
/// and announced, as many as there were, for the channel on which they were lost.
pub proof fn a_lost_frame_is_announced(s: Routing, json: Json, a: RouteAnswers)
    requires
        json.str_at("channel"@) is Some,
        ChannelName::of_wire_str(json.str_at("channel"@)->Some_0) is Some,
        json.str_at("type"@) == Some("snapshot"@) || json.str_at("type"@) == Some("update"@),
    ensures
        ({
            let after = route_step(s, json, a).log;
            let channel = ChannelName::of_wire_str(json.str_at("channel"@)->Some_0)->Some_0;
            let numbered = channel == ChannelName::Executions || channel == ChannelName::Balances;
            let n = s.log.len() as int;
            numbered && json.u64_at("sequence"@) is Some ==> {
                &&& after.len() > n
                &&& after[n] == (
                    Request::NoteSequence(
                        channel,
                        json.u64_at("sequence"@)->Some_0,
                        json.str_at("type"@) == Some("snapshot"@),
                    ),
                    Reply::Dropped(a.lost),
                )
                &&& a.lost is Some ==> after.len() > n + 1 && after[n + 1].0 == Request::Say(
                    Note::SequenceGap {
                        channel,
                        seq: json.u64_at("sequence"@)->Some_0,
                        dropped: a.lost->Some_0,
                    },
                )
                &&& a.lost is Some && a.lost_clock.bus_alive ==> after.len() > n + 3 && after[n
                    + 3].0 == Request::Publish(
                    EventEnvelope {
                        event_version: 1,
                        timestamp: a.lost_clock.now,
                        request_id: None,
                        payload: EventPayload::ChannelGap {
                            channel,
                            dropped_count: a.lost->Some_0,
                            cause: GapCause::SequenceGapDetected,
                        },
                    },
                )
            }
        }),
{
    let after = route_step(s, json, a).log;
    let channel = data_channel(json)->Some_0;
    let is_snapshot = json.str_at("type"@) == Some("snapshot"@);
    assert("snapshot"@ != "update"@) by {
        reveal_strlit("snapshot");
        reveal_strlit("update");
        assert("snapshot"@[0] == 's');
        assert("update"@[0] == 'u');
    }
    let numbered = s.with_log(sequence_log(s.log, channel, is_snapshot, json, a));
    if json.array_at("data"@) is Some {
        rows_send_nothing(numbered, channel, is_snapshot, a.rows, a.answers);
        assert(extends(numbered.log, after));
    }
    if is_sequenced(channel) && json.u64_at("sequence"@) is Some {
        let n = s.log.len() as int;
        assert(after[n] == numbered.log[n]);
        if a.lost is Some {
            assert(after[n + 1] == numbered.log[n + 1]);
            if a.lost_clock.bus_alive {
                assert(after[n + 3] == numbered.log[n + 3]);
            }
        }
    }
}

/// What the handlers of `fan` get of a row: nothing of a book that has a gap or
/// waits for a snapshot, the maintained book as it is where there is a bus, and of
/// anything else what it was decoded to.
pub open spec fn deliveries(
    fan: ChannelName,
    outcome: BookDriveOutcome,
    f: FanAnswers,
) -> Seq<Request> {
    let to = f.handlers@;
    match (fan, outcome, f.decoded) {
        (
            ChannelName::Book,
            BookDriveOutcome::Gap { .. }
            | BookDriveOutcome::GapBudgetExhausted
            | BookDriveOutcome::AwaitingSnapshot,
            _,
        ) => Seq::empty(),
        (ChannelName::Book, BookDriveOutcome::Maintained(book), _) => if f.clock.bus_alive {
            Seq::new(to.len(), |i: int| Request::DeliverMaintained(fan, to[i], book))
        } else {
            Seq::empty()
        },
        (_, _, Decoded::Deliver(payload)) => Seq::new(
            to.len(),
            |i: int| Request::DeliverDecoded(fan, to[i], payload),
        ),
        _ => Seq::empty(),
    }
}

/// A row goes to the handlers of its own channel, and a row of a book then to those
/// of the raw book too, whatever became of the maintained one.
pub proof fn a_row_reaches_its_handlers(
    s: Routing,
    channel: ChannelName,
    is_snapshot: bool,
    row: Value,
    r: RowAnswers,
)
    ensures
        ({
            let after = row_step(s, channel, is_snapshot, row, r).log;
            let own = deliveries(channel, r.outcome, r.primary);
            let raw = deliveries(ChannelName::BookRaw, r.outcome, r.raw);
            &&& extends(s.log, after)
            &&& happened(s.log, after, Effect::Deliver) == if channel == ChannelName::Book {
                own + raw
            } else {
                own
            }
            &&& channel == ChannelName::Book ==> made(
                s.log,
                after,
                Request::HandlersFor(ChannelName::BookRaw),
            )
        }),
{
    let symbol = row_symbol(json_of(row), r);
    let log = if json_of(row).str_at("symbol"@) is Some {
        asked(s.log, Request::ParseSymbol(r.name), Reply::Symbol(r.parsed))
    } else {
        s.log
    };
    let driven = asked(
        log,
        Request::HandleUpdate(channel, symbol, is_snapshot, row),
        Reply::Book(r.outcome),
    );
    let gapped = gap_step(s.with_log(driven), symbol, r);
    assert(grew_without(s.log, gapped.log, Effect::Deliver));
    nothing_happened(s.log, gapped.log, Effect::Deliver);
    let fanned = fan_step(gapped, channel, channel, symbol, r.outcome, r.primary);
    every_handler_gets_the_row(gapped, channel, channel, symbol, r.outcome, r.primary);
    happened_together(s.log, gapped.log, fanned.log, Effect::Deliver);
    let own = deliveries(channel, r.outcome, r.primary);
    assert(happened(gapped.log, fanned.log, Effect::Deliver) =~= own);
    assert(happened(s.log, fanned.log, Effect::Deliver) =~= own);
    let after = row_step(s, channel, is_snapshot, row, r).log;
    if channel == ChannelName::Book {
        let fan = ChannelName::BookRaw;
        let raw = deliveries(fan, r.outcome, r.raw);
        every_handler_gets_the_row(fanned, channel, fan, symbol, r.outcome, r.raw);
        happened_together(s.log, fanned.log, after, Effect::Deliver);
        assert(happened(fanned.log, after, Effect::Deliver) =~= raw);
        assert(after[fanned.log.len() as int].0 == Request::HandlersFor(fan));
    }
}

/// Data of a channel that is not known leaves one line, with the name of that channel
/// and whether it was a snapshot, and nothing else; a frame that names no channel, or
/// carries no data, leaves nothing.
pub proof fn data_of_an_unknown_channel_is_noted(s: Routing, json: Json, a: RouteAnswers)
    requires
        route_rows(json, a),
        json.str_at("channel"@) is None || ChannelName::of_wire_str(
            json.str_at("channel"@)->Some_0,
        ) is None,
    ensures
        ({
            let after = route_step(s, json, a);
            let is_snapshot = json.str_at("type"@) == Some("snapshot"@);
            let is_data = is_snapshot || json.str_at("type"@) == Some("update"@);
            let n = s.log.len() as int;
            &&& after.gaps == s.gaps && after.drops == s.drops && after.warns == s.warns
            &&& json.str_at("channel"@) is None || !is_data ==> after.log == s.log
            &&& json.str_at("channel"@) is Some && is_data ==> {
                &&& after.log.len() == n + 1
                &&& extends(s.log, after.log)
                &&& match after.log[n].0 {
                    Request::Say(Note::UnknownChannel { channel, is_snapshot: told }) =>
                        json.str_at("channel"@) == Some(channel@) && told == is_snapshot,
                    _ => false,
                }
            }
        }),
{
    assert("snapshot"@ != "update"@) by {
        reveal_strlit("snapshot");
        reveal_strlit("update");
        assert("snapshot"@[0] == 's');
        assert("update"@[0] == 'u');
    }
}

/// A gap in a row that names no pair has nothing to announce and nothing to recover: it
/// is warned about, at most once in a while. A row without a gap is not warned about at
/// all.
pub proof fn a_gap_without_a_pair_is_only_warned_about(s: Routing, r: RowAnswers)
    ensures
        ({
            let after = gap_step(s, None, r);
            let gap = r.outcome is Gap || r.outcome is GapBudgetExhausted;
            &&& after.gaps == s.gaps && after.drops == s.drops
            &&& grew_without(s.log, after.log, Effect::Announce)
            &&& after.log == if gap {
                suppress_warn_log(
                    s.log,
                    s.warns,
                    "crc-gap-no-symbol"@,
                    None,
                    Note::Bare { message: GAP_WITHOUT_SYMBOL },
                    r.clock,
                )
            } else {
                s.log
            }
            &&& forall|symbol: Symbol| !gap ==> gap_step(s, Some(symbol), r) == s
        }),
{
}

/// A frame of a known channel whose `data` is no array is warned about, with its
/// channel and its kind, at most once in a while for each channel.
pub proof fn data_that_is_no_array_is_warned_about(s: Routing, json: Json, a: RouteAnswers)
    requires
        json.str_at("channel"@) is Some,
        ChannelName::of_wire_str(json.str_at("channel"@)->Some_0) is Some,
        json.str_at("type"@) == Some("snapshot"@) || json.str_at("type"@) == Some("update"@),
        json.array_at("data"@) is None,
    ensures
        ({
            let after = route_step(s, json, a).log;
            let channel = ChannelName::of_wire_str(json.str_at("channel"@)->Some_0)->Some_0;
            let is_snapshot = json.str_at("type"@) == Some("snapshot"@);
            let due = !s.warns.contains_key(("non-array-data"@, Some(channel)))
                || a.warn_clock.now >= s.warns[("non-array-data"@, Some(channel))]
                + 1_000_000_000;
            &&& extends(s.log, after)
            &&& due ==> after.last().0 == Request::Say(Note::DataNotArray { channel, is_snapshot })
            &&& !due ==> after.last() == (Request::BusClock, Reply::Clock(a.warn_clock))
        }),
{
    assert("snapshot"@ != "update"@) by {
        reveal_strlit("snapshot");
        reveal_strlit("update");
        assert("snapshot"@[0] == 's');
        assert("update"@[0] == 'u');
    }
}

} // verus!
