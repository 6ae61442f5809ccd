//! Saying things at most once in a while: warnings per site and channel, and
//! unhandled messages per channel.

use crate::host::{
    asked, extends, happened, happened_once, happened_together, nothing_happened, picked, picking,
    said, told, BusClock, Effect, Link, Log, Reply, Request,
};
use crate::notes::Note;
use crate::text::same_text;
use crate::types::{ChannelName, EventEnvelope, EventPayload};
use vstd::prelude::*;

verus! {

/// The window within which a thing is said once, in nanoseconds.
pub const MESSAGE_DROPPED_PERIOD: u64 = 1_000_000_000;

/// Whether a window that began at `last` is over at `now`.
pub open spec fn window_over(last: u64, now: u64) -> bool {
    now >= last + MESSAGE_DROPPED_PERIOD
}

fn is_window_over(last: u64, now: u64) -> (over: bool)
    ensures
        over == window_over(last, now),
{
    now >= MESSAGE_DROPPED_PERIOD && now - MESSAGE_DROPPED_PERIOD >= last
}

/// When each site last warned about each channel.
pub type WarnTimes = Map<(Seq<char>, Option<ChannelName>), u64>;

/// Whether a warning is due: there was none yet, or its window is over.
pub open spec fn warn_due(
    times: WarnTimes,
    site: Seq<char>,
    channel: Option<ChannelName>,
    now: u64,
) -> bool {
    !times.contains_key((site, channel)) || window_over(times[(site, channel)], now)
}

/// The times after a site had something to warn about.
pub open spec fn warn_times(
    times: WarnTimes,
    site: Seq<char>,
    channel: Option<ChannelName>,
    now: u64,
) -> WarnTimes {
    if warn_due(times, site, channel, now) {
        times.insert((site, channel), now)
    } else {
        times
    }
}

struct WarnEntry {
    site: &'static str,
    channel: Option<ChannelName>,
    last: u64,
}

/// When each site last warned about each channel.
pub struct SuppressWarnTracker {
    entries: Vec<WarnEntry>,
}

spec fn warn_key(entry: WarnEntry) -> (Seq<char>, Option<ChannelName>) {
    (entry.site@, entry.channel)
}

/// The times in a list of entries, of which the first counts for its key.
spec fn warn_map(entries: Seq<WarnEntry>) -> WarnTimes
    decreases entries.len(),
{
    if entries.len() == 0 {
        Map::empty()
    } else {
        warn_map(entries.drop_first()).insert(warn_key(entries[0]), entries[0].last)
    }
}

/// Whether the entries before `i` have other keys.
spec fn no_warn_before(
    entries: Seq<WarnEntry>,
    i: int,
    key: (Seq<char>, Option<ChannelName>),
) -> bool {
    forall|k: int| 0 <= k < i ==> warn_key(#[trigger] entries[k]) != key
}

proof fn warn_map_at(entries: Seq<WarnEntry>, i: int)
    requires
        0 <= i < entries.len(),
        no_warn_before(entries, i, warn_key(entries[i])),
    ensures
        warn_map(entries).contains_key(warn_key(entries[i])),
        warn_map(entries)[warn_key(entries[i])] == entries[i].last,
    decreases i,
{
    if i > 0 {
        let rest = entries.drop_first();
        assert forall|k: int| 0 <= k < i - 1 implies warn_key(#[trigger] rest[k]) != warn_key(
            rest[i - 1],
        ) by {
            assert(rest[k] == entries[k + 1]);
        }
        warn_map_at(rest, i - 1);
        assert(warn_key(entries[0]) != warn_key(entries[i]));
    }
}

proof fn warn_map_update(entries: Seq<WarnEntry>, i: int, entry: WarnEntry)
    requires
        0 <= i < entries.len(),
        warn_key(entry) == warn_key(entries[i]),
        no_warn_before(entries, i, warn_key(entry)),
    ensures
        warn_map(entries.update(i, entry)) == warn_map(entries).insert(
            warn_key(entry),
            entry.last,
        ),
    decreases i,
{
    let updated = entries.update(i, entry);
    let rest = entries.drop_first();
    if i == 0 {
        assert(updated.drop_first() =~= rest);
    } else {
        assert(updated.drop_first() =~= rest.update(i - 1, entry));
        assert forall|k: int| 0 <= k < i - 1 implies warn_key(#[trigger] rest[k]) != warn_key(
            entry,
        ) by {
            assert(rest[k] == entries[k + 1]);
        }
        warn_map_update(rest, i - 1, entry);
        assert(warn_key(entries[0]) != warn_key(entry));
    }
    assert(warn_map(updated) =~= warn_map(entries).insert(warn_key(entry), entry.last));
}

proof fn warn_map_push(entries: Seq<WarnEntry>, entry: WarnEntry)
    requires
        no_warn_before(entries, entries.len() as int, warn_key(entry)),
    ensures
        !warn_map(entries).contains_key(warn_key(entry)),
        warn_map(entries.push(entry)) == warn_map(entries).insert(warn_key(entry), entry.last),
    decreases entries.len(),
{
    let pushed = entries.push(entry);
    if entries.len() == 0 {
        assert(pushed.drop_first() =~= entries);
    } else {
        let rest = entries.drop_first();
        assert(pushed.drop_first() =~= rest.push(entry));
        assert forall|k: int| 0 <= k < rest.len() implies warn_key(#[trigger] rest[k])
            != warn_key(entry) by {
            assert(rest[k] == entries[k + 1]);
        }
        warn_map_push(rest, entry);
        assert(warn_key(entries[0]) != warn_key(entry));
        assert(warn_map(pushed) =~= warn_map(entries).insert(warn_key(entry), entry.last));
    }
}

impl View for SuppressWarnTracker {
    type V = WarnTimes;

    closed spec fn view(&self) -> WarnTimes {
        warn_map(self.entries@)
    }
}

fn same_channel(a: Option<ChannelName>, b: Option<ChannelName>) -> (same: bool)
    ensures
        same == (a == b),
{
    match (a, b) {
        (Some(a), Some(b)) => a == b,
        (None, None) => true,
        _ => false,
    }
}

impl SuppressWarnTracker {
    /// A tracker that has seen no warning.
    pub fn new() -> (tracker: Self)
        ensures
            tracker@ == WarnTimes::empty(),
    {
        SuppressWarnTracker { entries: Vec::new() }
    }

    /// Notes that `site` has something to warn about; `true` if the warning is
    /// due.
    pub fn note(&mut self, site: &'static str, channel: Option<ChannelName>, now: u64) -> (due:
        bool)
        ensures
            due == warn_due(old(self)@, site@, channel, now),
            final(self)@ == warn_times(old(self)@, site@, channel, now),
    {
        let ghost key = (site@, channel);
        let mut i: usize = 0;
        while i < self.entries.len()
            invariant
                i <= self.entries@.len(),
                self.entries@ == old(self).entries@,
                key == (site@, channel),
                no_warn_before(self.entries@, i as int, key),
            decreases self.entries@.len() - i,
        {
            if same_text(self.entries[i].site, site) && same_channel(
                self.entries[i].channel,
                channel,
            ) {
                proof {
                    warn_map_at(self.entries@, i as int);
                }
                if !is_window_over(self.entries[i].last, now) {
                    return false;
                }
                let ghost entries = self.entries@;
                let entry = WarnEntry { site, channel, last: now };
                proof {
                    warn_map_update(entries, i as int, entry);
                }
                self.entries.set(i, entry);
                return true;
            }
            i += 1;
        }
        proof {
            warn_map_push(self.entries@, WarnEntry { site, channel, last: now });
        }
        self.entries.push(WarnEntry { site, channel, last: now });
        true
    }
}

pub open spec fn suppress_warn_log(
    log: Log,
    times: WarnTimes,
    site: Seq<char>,
    channel: Option<ChannelName>,
    warning: Note,
    clock: BusClock,
) -> Log {
    let log = asked(log, Request::BusClock, Reply::Clock(clock));
    if warn_due(times, site, channel, clock.now) {
        said(log, warning)
    } else {
        log
    }
}

/// Gives `warning` at most once in each window for a site and channel.
pub fn suppress_warn_throttled<F: Fn(Request) -> Reply>(
    host: &mut Link<F>,
    site: &'static str,
    channel: Option<ChannelName>,
    tracker: &mut SuppressWarnTracker,
    warning: Note,
)
    ensures
        exists|clock: BusClock|
            {
                &&& final(host).log() == #[trigger] suppress_warn_log(
                    old(host).log(),
                    old(tracker)@,
                    site@,
                    channel,
                    warning,
                    clock,
                )
                &&& final(tracker)@ == warn_times(old(tracker)@, site@, channel, clock.now)
            },
{
    let ghost before = host.log();
    let ghost times = tracker@;
    let ghost line = warning;
    let clock = host.bus_clock();
    if tracker.note(site, channel, clock.now) {
        host.say(warning);
    }
    proof {
        assert(host.log() == suppress_warn_log(before, times, site@, channel, line, clock));
    }
}

/// For each channel: when its drops were last told, and how many came since.
pub type DropCounts = Map<ChannelName, (u64, u32)>;

/// One more, as far as the type goes.
pub open spec fn one_more(count: u32) -> u32 {
    if count < u32::MAX {
        (count + 1) as u32
    } else {
        u32::MAX
    }
}

/// The count to tell after one more drop, if it is time to tell one: the first
/// drop at once, later ones together when the window is over.
pub open spec fn drops_to_tell(counts: DropCounts, channel: ChannelName, now: u64) -> Option<u32> {
    if !counts.contains_key(channel) {
        Some(1)
    } else if window_over(counts[channel].0, now) {
        Some(one_more(counts[channel].1))
    } else {
        None
    }
}

/// The counts after one more drop.
pub open spec fn drop_counts(counts: DropCounts, channel: ChannelName, now: u64) -> DropCounts {
    if drops_to_tell(counts, channel, now) is Some {
        counts.insert(channel, (now, 0))
    } else {
        counts.insert(channel, (counts[channel].0, one_more(counts[channel].1)))
    }
}

struct DropEntry {
    channel: ChannelName,
    last: u64,
    pending: u32,
}

/// For each channel: when its drops were last told, and how many came since.
pub struct DropTracker {
    entries: Vec<DropEntry>,
}

/// The counts in a list of entries, of which the first counts for its channel.
spec fn drop_map(entries: Seq<DropEntry>) -> DropCounts
    decreases entries.len(),
{
    if entries.len() == 0 {
        Map::empty()
    } else {
        drop_map(entries.drop_first()).insert(
            entries[0].channel,
            (entries[0].last, entries[0].pending),
        )
    }
}

/// Whether the entries before `i` are of other channels.
spec fn no_drop_before(entries: Seq<DropEntry>, i: int, channel: ChannelName) -> bool {
    forall|k: int| 0 <= k < i ==> (#[trigger] entries[k]).channel != channel
}

proof fn drop_map_at(entries: Seq<DropEntry>, i: int)
    requires
        0 <= i < entries.len(),
        no_drop_before(entries, i, entries[i].channel),
    ensures
        drop_map(entries).contains_key(entries[i].channel),
        drop_map(entries)[entries[i].channel] == (entries[i].last, entries[i].pending),
    decreases i,
{
    if i > 0 {
        let rest = entries.drop_first();
        assert forall|k: int| 0 <= k < i - 1 implies (#[trigger] rest[k]).channel != rest[i
            - 1].channel by {
            assert(rest[k] == entries[k + 1]);
        }
        drop_map_at(rest, i - 1);
        assert(entries[0].channel != entries[i].channel);
    }
}

proof fn drop_map_update(entries: Seq<DropEntry>, i: int, entry: DropEntry)
    requires
        0 <= i < entries.len(),
        entry.channel == entries[i].channel,
        no_drop_before(entries, i, entry.channel),
    ensures
        drop_map(entries.update(i, entry)) == drop_map(entries).insert(
            entry.channel,
            (entry.last, entry.pending),
        ),
    decreases i,
{
    let updated = entries.update(i, entry);
    let rest = entries.drop_first();
    if i == 0 {
        assert(updated.drop_first() =~= rest);
    } else {
        assert(updated.drop_first() =~= rest.update(i - 1, entry));
        assert forall|k: int| 0 <= k < i - 1 implies (#[trigger] rest[k]).channel
            != entry.channel by {
            assert(rest[k] == entries[k + 1]);
        }
        drop_map_update(rest, i - 1, entry);
        assert(entries[0].channel != entry.channel);
    }
    assert(drop_map(updated) =~= drop_map(entries).insert(
        entry.channel,
        (entry.last, entry.pending),
    ));
}

proof fn drop_map_push(entries: Seq<DropEntry>, entry: DropEntry)
    requires
        no_drop_before(entries, entries.len() as int, entry.channel),
    ensures
        !drop_map(entries).contains_key(entry.channel),
        drop_map(entries.push(entry)) == drop_map(entries).insert(
            entry.channel,
            (entry.last, entry.pending),
        ),
    decreases entries.len(),
{
    let pushed = entries.push(entry);
    if entries.len() == 0 {
        assert(pushed.drop_first() =~= entries);
    } else {
        let rest = entries.drop_first();
        assert(pushed.drop_first() =~= rest.push(entry));
        assert forall|k: int| 0 <= k < rest.len() implies (#[trigger] rest[k]).channel
            != entry.channel by {
            assert(rest[k] == entries[k + 1]);
        }
        drop_map_push(rest, entry);
        assert(entries[0].channel != entry.channel);
        assert(drop_map(pushed) =~= drop_map(entries).insert(
            entry.channel,
            (entry.last, entry.pending),
        ));
    }
}

impl View for DropTracker {
    type V = DropCounts;

    closed spec fn view(&self) -> DropCounts {
        drop_map(self.entries@)
    }
}

impl DropTracker {
    /// A tracker that has seen no drop.
    pub fn new() -> (tracker: Self)
        ensures
            tracker@ == DropCounts::empty(),
    {
        DropTracker { entries: Vec::new() }
    }

    /// Counts one drop; the number to tell, if it is time to tell one.
    pub fn note(&mut self, channel: ChannelName, now: u64) -> (told: Option<u32>)
        ensures
            told == drops_to_tell(old(self)@, channel, now),
            final(self)@ == drop_counts(old(self)@, channel, now),
    {
        let mut i: usize = 0;
        while i < self.entries.len()
            invariant
                i <= self.entries@.len(),
                self.entries@ == old(self).entries@,
                no_drop_before(self.entries@, i as int, channel),
            decreases self.entries@.len() - i,
        {
            if self.entries[i].channel == channel {
                let last: u64 = self.entries[i].last;
                let pending: u32 = self.entries[i].pending;
                let more: u32 = pending.saturating_add(1);
                proof {
                    drop_map_at(self.entries@, i as int);
                    assert(more == one_more(pending));
                }
                let ghost entries = self.entries@;
                if is_window_over(last, now) {
                    let entry = DropEntry { channel, last: now, pending: 0 };
                    proof {
                        drop_map_update(entries, i as int, entry);
                    }
                    self.entries.set(i, entry);
                    return Some(more);
                }
                let entry = DropEntry { channel, last, pending: more };
                proof {
                    drop_map_update(entries, i as int, entry);
                }
                self.entries.set(i, entry);
                return None;
            }
            i += 1;
        }
        proof {
            drop_map_push(self.entries@, DropEntry { channel, last: now, pending: 0 });
        }
        self.entries.push(DropEntry { channel, last: now, pending: 0 });
        Some(1)
    }
}

/// The event that tells how many messages of a channel found no handler.
pub open spec fn dropped_event(channel: ChannelName, count: u32, now: u64) -> EventEnvelope {
    EventEnvelope {
        event_version: 1,
        timestamp: now,
        request_id: None,
        payload: EventPayload::MessageDroppedNoHandler {
            channel,
            count,
            period_ns: MESSAGE_DROPPED_PERIOD,
        },
    }
}

pub open spec fn record_drop_log(
    log: Log,
    counts: DropCounts,
    channel: ChannelName,
    clock: BusClock,
) -> Log {
    let log = asked(log, Request::BusClock, Reply::Clock(clock));
    match drops_to_tell(counts, channel, clock.now) {
        Some(count) => if clock.bus_alive {
            told(log, Request::Publish(dropped_event(channel, count, clock.now)))
        } else {
            log
        },
        None => log,
    }
}

/// Counts a message that found no handler, and tells the count at most once in
/// each window.
pub fn record_drop_and_maybe_emit<F: Fn(Request) -> Reply>(
    host: &mut Link<F>,
    channel: ChannelName,
    tracker: &mut DropTracker,
)
    ensures
        exists|clock: BusClock|
            {
                &&& final(host).log() == #[trigger] record_drop_log(
                    old(host).log(),
                    old(tracker)@,
                    channel,
                    clock,
                )
                &&& final(tracker)@ == drop_counts(old(tracker)@, channel, clock.now)
            },
{
    let ghost before = host.log();
    let ghost counts = tracker@;
    let clock = host.bus_clock();
    match tracker.note(channel, clock.now) {
        Some(count) => {
            if clock.bus_alive {
                host.tell(
                    Request::Publish(
                        EventEnvelope {
                            event_version: 1,
                            timestamp: clock.now,
                            request_id: None,
                            payload: EventPayload::MessageDroppedNoHandler {
                                channel,
                                count,
                                period_ns: MESSAGE_DROPPED_PERIOD,
                            },
                        },
                    ),
                );
            }
        },
        None => {},
    }
    proof {
        assert(host.log() == record_drop_log(before, counts, channel, clock));
    }
}

/// A site warns about a channel at most once in each window: after a warning the
/// next one is due only when its window is over.
pub proof fn one_warning_per_window(
    times: WarnTimes,
    site: Seq<char>,
    channel: Option<ChannelName>,
    first: u64,
    next: u64,
)
    requires
        warn_due(times, site, channel, first),
    ensures
        warn_due(warn_times(times, site, channel, first), site, channel, next) <==> next >= first
            + MESSAGE_DROPPED_PERIOD,
{
}

/// Sites and channels have windows of their own: what one says does not keep
/// another from speaking.
pub proof fn windows_are_independent(
    times: WarnTimes,
    site: Seq<char>,
    channel: Option<ChannelName>,
    other_site: Seq<char>,
    other_channel: Option<ChannelName>,
    now: u64,
    then: u64,
)
    requires
        (site, channel) != (other_site, other_channel),
    ensures
        warn_due(warn_times(times, site, channel, now), other_site, other_channel, then)
            == warn_due(times, other_site, other_channel, then),
{
}

/// The drops of a channel that are not told yet.
pub open spec fn untold(counts: DropCounts, channel: ChannelName) -> nat {
    if counts.contains_key(channel) {
        counts[channel].1 as nat
    } else {
        0
    }
}

/// A drop: the channel, and the clock at that moment.
pub type DropAt = (ChannelName, BusClock);

/// The counts after some drops, of whatever channels.
pub open spec fn counts_after(counts: DropCounts, drops: Seq<DropAt>) -> DropCounts
    decreases drops.len(),
{
    if drops.len() == 0 {
        counts
    } else {
        drop_counts(counts_after(counts, drops.drop_last()), drops.last().0, drops.last().1.now)
    }
}

/// The requests of recording some drops, one after the other.
pub open spec fn record_drops_log(log: Log, counts: DropCounts, drops: Seq<DropAt>) -> Log
    decreases drops.len(),
{
    if drops.len() == 0 {
        log
    } else {
        record_drop_log(
            record_drops_log(log, counts, drops.drop_last()),
            counts_after(counts, drops.drop_last()),
            drops.last().0,
            drops.last().1,
        )
    }
}

/// One telling of a channel's drops.
pub struct Telling {
    pub channel: ChannelName,
    pub count: u32,
    pub now: u64,
}

/// What is told of some drops, in order.
pub open spec fn tellings(counts: DropCounts, drops: Seq<DropAt>) -> Seq<Telling>
    decreases drops.len(),
{
    if drops.len() == 0 {
        Seq::empty()
    } else {
        let earlier = tellings(counts, drops.drop_last());
        let channel = drops.last().0;
        let now = drops.last().1.now;
        match drops_to_tell(counts_after(counts, drops.drop_last()), channel, now) {
            Some(count) => earlier.push(Telling { channel, count, now }),
            None => earlier,
        }
    }
}

/// How many drops of a channel some tellings tell in all.
pub open spec fn told_total(tellings: Seq<Telling>, channel: ChannelName) -> nat
    decreases tellings.len(),
{
    if tellings.len() == 0 {
        0
    } else {
        told_total(tellings.drop_last(), channel) + if tellings.last().channel == channel {
            tellings.last().count as nat
        } else {
            0
        }
    }
}

/// How many of some drops are of a channel.
pub open spec fn drops_of(drops: Seq<DropAt>, channel: ChannelName) -> nat
    decreases drops.len(),
{
    if drops.len() == 0 {
        0
    } else {
        drops_of(drops.drop_last(), channel) + if drops.last().0 == channel {
            1nat
        } else {
            0
        }
    }
}

/// The events of some tellings, in order.
pub open spec fn telling_events(tellings: Seq<Telling>) -> Seq<Request> {
    Seq::new(
        tellings.len(),
        |i: int| Request::Publish(
            dropped_event(tellings[i].channel, tellings[i].count, tellings[i].now),
        ),
    )
}

/// With a bus, recording drops announces exactly their tellings, in order.
pub proof fn tellings_are_announced(log: Log, counts: DropCounts, drops: Seq<DropAt>)
    requires
        forall|i: int| 0 <= i < drops.len() ==> (#[trigger] drops[i]).1.bus_alive,
    ensures
        extends(log, record_drops_log(log, counts, drops)),
        happened(log, record_drops_log(log, counts, drops), Effect::Announce) == telling_events(
            tellings(counts, drops),
        ),
    decreases drops.len(),
{
    let after = record_drops_log(log, counts, drops);
    if drops.len() == 0 {
        assert(happened(log, after, Effect::Announce) =~= telling_events(
            tellings(counts, drops),
        ));
    } else {
        let most = drops.drop_last();
        let last = drops[drops.len() - 1];
        let before = record_drops_log(log, counts, most);
        let told_before = counts_after(counts, most);
        assert forall|i: int| 0 <= i < most.len() implies (#[trigger] most[i]).1.bus_alive by {
            assert(most[i] == drops[i]);
        }
        tellings_are_announced(log, counts, most);
        assert(last.1.bus_alive);
        assert(extends(before, after));
        if drops_to_tell(told_before, last.0, last.1.now) is Some {
            happened_once(before, after, Effect::Announce, before.len() as int + 1);
        } else {
            nothing_happened(before, after, Effect::Announce);
        }
        happened_together(log, before, after, Effect::Announce);
        assert(happened(log, after, Effect::Announce) =~= telling_events(
            tellings(counts, drops),
        ));
    }
}

/// No drop is lost and none is told twice: of each channel, what was told and what
/// is still to be told make up all its drops, whatever other channels drop in
/// between. More drops within one window than the count can hold are left aside.
pub proof fn every_drop_is_told_once(counts: DropCounts, channel: ChannelName, drops: Seq<DropAt>)
    requires
        untold(counts, channel) + drops_of(drops, channel) <= u32::MAX,
    ensures
        told_total(tellings(counts, drops), channel) + untold(
            counts_after(counts, drops),
            channel,
        ) == untold(counts, channel) + drops_of(drops, channel),
    decreases drops.len(),
{
    if drops.len() > 0 {
        let most = drops.drop_last();
        every_drop_is_told_once(counts, channel, most);
        let earlier = tellings(counts, most);
        let all = tellings(counts, drops);
        if all.len() > earlier.len() {
            assert(all.drop_last() =~= earlier);
        }
        let last = drops.last();
        if last.0 != channel {
            channels_count_apart(counts_after(counts, most), last.0, channel, last.1.now);
        }
    }
}

/// A channel that does not drop keeps its count.
proof fn undropped_channel_stays(counts: DropCounts, channel: ChannelName, drops: Seq<DropAt>)
    requires
        drops_of(drops, channel) == 0,
    ensures
        counts_after(counts, drops).contains_key(channel) == counts.contains_key(channel),
        counts.contains_key(channel) ==> counts_after(counts, drops)[channel] == counts[channel],
    decreases drops.len(),
{
    if drops.len() > 0 {
        let most = drops.drop_last();
        undropped_channel_stays(counts, channel, most);
        channels_count_apart(
            counts_after(counts, most),
            drops.last().0,
            channel,
            drops.last().1.now,
        );
    }
}

/// The first drop of a channel is told at once and alone, whatever other channels
/// dropped before.
pub proof fn the_first_drop_is_told_at_once(
    counts: DropCounts,
    channel: ChannelName,
    clock: BusClock,
    others: Seq<DropAt>,
)
    requires
        !counts.contains_key(channel),
        drops_of(others, channel) == 0,
    ensures
        tellings(counts, others.push((channel, clock))) == tellings(counts, others).push(
            Telling { channel, count: 1, now: clock.now },
        ),
{
    undropped_channel_stays(counts, channel, others);
    assert(others.push((channel, clock)).drop_last() =~= others);
}

/// A channel that was told about has its window counted from its last telling.
proof fn tellings_open_windows(counts: DropCounts, drops: Seq<DropAt>)
    ensures
        forall|i: int|
            0 <= i < tellings(counts, drops).len() ==> {
                let t = #[trigger] tellings(counts, drops)[i];
                &&& counts_after(counts, drops).contains_key(t.channel)
                &&& counts_after(counts, drops)[t.channel].0 >= t.now
            },
    decreases drops.len(),
{
    if drops.len() > 0 {
        let most = drops.drop_last();
        let earlier = tellings(counts, most);
        let all = tellings(counts, drops);
        tellings_open_windows(counts, most);
        assert forall|i: int| 0 <= i < all.len() implies {
            let t = #[trigger] all[i];
            &&& counts_after(counts, drops).contains_key(t.channel)
            &&& counts_after(counts, drops)[t.channel].0 >= t.now
        } by {
            if i < earlier.len() {
                assert(all[i] == earlier[i]);
            }
        }
    }
}

/// The tellings of one channel are at least a window apart.
pub proof fn tellings_are_a_window_apart(counts: DropCounts, drops: Seq<DropAt>, i: int, j: int)
    requires
        0 <= i < j < tellings(counts, drops).len(),
        tellings(counts, drops)[i].channel == tellings(counts, drops)[j].channel,
    ensures
        tellings(counts, drops)[j].now >= tellings(counts, drops)[i].now + MESSAGE_DROPPED_PERIOD,
    decreases drops.len(),
{
    let most = drops.drop_last();
    let earlier = tellings(counts, most);
    let all = tellings(counts, drops);
    assert(all[i] == earlier[i]);
    if j < earlier.len() {
        assert(all[j] == earlier[j]);
        tellings_are_a_window_apart(counts, most, i, j);
    } else {
        tellings_open_windows(counts, most);
        let t = earlier[i];
        assert(counts_after(counts, most).contains_key(t.channel));
    }
}

/// The drops of one channel do not touch the count of another.
pub proof fn channels_count_apart(
    counts: DropCounts,
    channel: ChannelName,
    other: ChannelName,
    now: u64,
)
    requires
        channel != other,
    ensures
        drop_counts(counts, channel, now).contains_key(other) == counts.contains_key(other),
        counts.contains_key(other) ==> drop_counts(counts, channel, now)[other] == counts[other],
{
}

/// A warning is given, as it is, exactly when its site has not warned about its channel
/// yet, or did so a second ago or more; the window then begins anew, and a warning that
/// is held back leaves it as it was.
pub proof fn a_warning_is_given_when_it_is_due(
    log: Log,
    times: WarnTimes,
    site: Seq<char>,
    channel: Option<ChannelName>,
    warning: Note,
    clock: BusClock,
)
    ensures
        ({
            let after = suppress_warn_log(log, times, site, channel, warning, clock);
            let then = warn_times(times, site, channel, clock.now);
            let given = picked(log, after, |request: Request| request is Say);
            let due = !times.contains_key((site, channel)) || clock.now >= times[(site, channel)]
                + 1_000_000_000;
            &&& extends(log, after)
            &&& after[log.len() as int] == (Request::BusClock, Reply::Clock(clock))
            &&& given == if due {
                seq![(Request::Say(warning), Reply::Done)]
            } else {
                Log::empty()
            }
            &&& then.contains_key((site, channel))
            &&& then[(site, channel)] == if due {
                clock.now
            } else {
                times[(site, channel)]
            }
        }),
{
    let kind = |request: Request| request is Say;
    let after = suppress_warn_log(log, times, site, channel, warning, clock);
    picking(log, kind);
    assert(picked(log, after, kind) =~= if warn_due(times, site, channel, clock.now) {
        seq![(Request::Say(warning), Reply::Done)]
    } else {
        Log::empty()
    });
}

/// A drop is told at once if it is the first of its channel, and with all that came
/// since the last telling if that was a second ago or more; the event says for which
/// channel, how many, and within which window. Otherwise it is counted and nothing is
/// said. The count goes as far as its type.
pub proof fn a_drop_is_told_or_counted(
    log: Log,
    counts: DropCounts,
    channel: ChannelName,
    clock: BusClock,
)
    ensures
        ({
            let after = record_drop_log(log, counts, channel, clock);
            let then = drop_counts(counts, channel, clock.now);
            let first = !counts.contains_key(channel);
            let over = !first && clock.now >= counts[channel].0 + 1_000_000_000;
            let more = if counts[channel].1 == u32::MAX {
                u32::MAX as int
            } else {
                counts[channel].1 + 1
            };
            let count = if first {
                1
            } else {
                more
            };
            &&& extends(log, after)
            &&& after[log.len() as int] == (Request::BusClock, Reply::Clock(clock))
            &&& then.contains_key(channel)
            &&& first || over ==> then[channel] == (clock.now, 0u32)
            &&& !first && !over ==> then[channel].0 == counts[channel].0 && then[channel].1 == more
            &&& happened(log, after, Effect::Announce) == if (first || over) && clock.bus_alive {
                seq![
                    Request::Publish(
                        EventEnvelope {
                            event_version: 1,
                            timestamp: clock.now,
                            request_id: None,
                            payload: EventPayload::MessageDroppedNoHandler {
                                channel,
                                count: count as u32,
                                period_ns: 1_000_000_000,
                            },
                        },
                    ),
                ]
            } else {
                Seq::empty()
            }
        }),
{
    let after = record_drop_log(log, counts, channel, clock);
    if drops_to_tell(counts, channel, clock.now) is Some && clock.bus_alive {
        happened_once(log, after, Effect::Announce, log.len() as int + 1);
    } else {
        nothing_happened(log, after, Effect::Announce);
    }
}

} // verus!
