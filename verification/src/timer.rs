//! The timers of the connections: which is due first, and taking a fired one out.

use crate::types::{ChannelName, FsmEvent, Key, TimerId, WsUrl};
use vstd::prelude::*;

verus! {

/// What a per-subscription timer is kept under.
pub type EntryKey = (ChannelName, Option<Seq<char>>);

/// Timers of single subscriptions.
pub struct EntryTimers {
    entries: Vec<(Key, u64)>,
}

/// The timers in a list of entries whose keys are distinct.
spec fn entry_map(entries: Seq<(Key, u64)>) -> Map<EntryKey, u64>
    decreases entries.len(),
{
    if entries.len() == 0 {
        Map::empty()
    } else {
        entry_map(entries.drop_last()).insert(entries.last().0@, entries.last().1)
    }
}

/// Whether no key stands twice in a list of entries.
spec fn distinct(entries: Seq<(Key, u64)>) -> bool {
    forall|i: int, j: int|
        0 <= i < j < entries.len() ==> (#[trigger] entries[i]).0@ != (#[trigger] entries[j]).0@
}

proof fn entry_map_at(entries: Seq<(Key, u64)>, i: int)
    requires
        distinct(entries),
        0 <= i < entries.len(),
    ensures
        entry_map(entries).contains_key(entries[i].0@),
        entry_map(entries)[entries[i].0@] == entries[i].1,
    decreases entries.len(),
{
    if i < entries.len() - 1 {
        entry_map_at(entries.drop_last(), i);
        assert(entries[i].0@ != entries[entries.len() - 1].0@);
    }
}

proof fn entry_map_has(entries: Seq<(Key, u64)>, key: EntryKey) -> (i: int)
    requires
        entry_map(entries).contains_key(key),
    ensures
        0 <= i < entries.len(),
        entries[i].0@ == key,
    decreases entries.len(),
{
    if entries.last().0@ == key {
        entries.len() - 1
    } else {
        entry_map_has(entries.drop_last(), key)
    }
}

impl View for EntryTimers {
    type V = Map<EntryKey, u64>;

    closed spec fn view(&self) -> Map<EntryKey, u64> {
        entry_map(self.entries@)
    }
}

impl EntryTimers {
    pub closed spec fn wf(self) -> bool {
        distinct(self.entries@)
    }

    pub fn new() -> (timers: Self)
        ensures
            timers.wf(),
            timers@ == Map::<EntryKey, u64>::empty(),
    {
        EntryTimers { entries: Vec::new() }
    }

    /// Takes the timer of `key` out.
    pub fn remove(&mut self, key: &Key)
        requires
            old(self).wf(),
        ensures
            final(self).wf(),
            final(self)@ == old(self)@.remove(key@),
    {
        let mut kept: Vec<(Key, u64)> = Vec::new();
        let mut i: usize = 0;
        while i < self.entries.len()
            invariant
                i <= self.entries@.len(),
                self.entries@ == old(self).entries@,
                distinct(self.entries@),
                distinct(kept@),
                entry_map(kept@) == entry_map(self.entries@.take(i as int)).remove(key@),
                forall|k: int|
                    0 <= k < kept@.len() ==> exists|j: int|
                        0 <= j < i && (#[trigger] kept@[k]).0@ == (#[trigger] self.entries@[j]).0@,
            decreases self.entries@.len() - i,
        {
            let ghost taken = self.entries@.take(i as int);
            let ghost longer = self.entries@.take(i + 1);
            let ghost entry = self.entries@[i as int];
            proof {
                assert(longer.drop_last() =~= taken);
                assert(longer.last() == entry);
            }
            if self.entries[i].0.same(key) {
                proof {
                    assert(entry_map(longer).remove(key@) =~= entry_map(taken).remove(key@));
                }
            } else {
                let ghost before = kept@;
                kept.push((self.entries[i].0.clone(), self.entries[i].1));
                proof {
                    assert(kept@.drop_last() =~= before);
                    assert(entry_map(kept@) =~= entry_map(longer).remove(key@));
                    assert forall|a: int, b: int| 0 <= a < b < kept@.len() implies (
                    #[trigger] kept@[a]).0@ != (#[trigger] kept@[b]).0@ by {
                        if b == kept@.len() - 1 {
                            assert(kept@[a] == before[a]);
                            let j = choose|j: int|
                                0 <= j < i && before[a].0@ == (#[trigger] self.entries@[j]).0@;
                            assert(self.entries@[j].0@ != self.entries@[i as int].0@);
                        } else {
                            assert(kept@[a] == before[a] && kept@[b] == before[b]);
                        }
                    }
                    assert forall|k: int| 0 <= k < kept@.len() implies exists|j: int|
                        0 <= j < i + 1 && (#[trigger] kept@[k]).0@ == (
                        #[trigger] self.entries@[j]).0@ by {
                        if k < before.len() {
                            assert(kept@[k] == before[k]);
                            let j = choose|j: int|
                                0 <= j < i && before[k].0@ == (#[trigger] self.entries@[j]).0@;
                            assert(kept@[k].0@ == self.entries@[j].0@);
                        } else {
                            assert(kept@[k].0@ == self.entries@[i as int].0@);
                        }
                    }
                }
            }
            i += 1;
        }
        proof {
            assert(self.entries@.take(i as int) =~= self.entries@);
        }
        self.entries = kept;
    }

    /// Sets the timer of `key`.
    pub fn arm(&mut self, key: &Key, due: u64)
        requires
            old(self).wf(),
        ensures
            final(self).wf(),
            final(self)@ == old(self)@.insert(key@, due),
    {
        self.remove(key);
        let ghost rest = self.entries@;
        self.entries.push((key.clone(), due));
        proof {
            assert(self.entries@.drop_last() =~= rest);
            assert(entry_map(self.entries@) =~= old(self)@.insert(key@, due));
            assert forall|a: int, b: int| 0 <= a < b < self.entries@.len() implies (
            #[trigger] self.entries@[a]).0@ != (#[trigger] self.entries@[b]).0@ by {
                if b == rest.len() {
                    entry_map_at(rest, a);
                    assert(self.entries@[a] == rest[a]);
                } else {
                    assert(self.entries@[a] == rest[a] && self.entries@[b] == rest[b]);
                }
            }
        }
    }

    /// The subscription whose timer is due first.
    pub fn first(&self) -> (first: Option<(u64, Key)>)
        requires
            self.wf(),
        ensures
            match first {
                Some((due, key)) => {
                    &&& self@.contains_key(key@)
                    &&& self@[key@] == due
                    &&& forall|other: EntryKey| #[trigger]
                        self@.contains_key(other) ==> due <= self@[other]
                },
                None => forall|other: EntryKey| !(#[trigger] self@.contains_key(other)),
            },
    {
        if self.entries.len() == 0 {
            return None;
        }
        let mut best: usize = 0;
        let mut i: usize = 1;
        while i < self.entries.len()
            invariant
                0 < i <= self.entries@.len(),
                best < i,
                forall|k: int| 0 <= k < i ==> self.entries@[best as int].1 <= (
                #[trigger] self.entries@[k]).1,
            decreases self.entries@.len() - i,
        {
            if self.entries[i].1 < self.entries[best].1 {
                best = i;
            }
            i += 1;
        }
        proof {
            entry_map_at(self.entries@, best as int);
            assert forall|other: EntryKey| #[trigger]
                self@.contains_key(other) implies self.entries@[best as int].1 <= self@[other] by {
                let k = entry_map_has(self.entries@, other);
                entry_map_at(self.entries@, k);
            }
        }
        Some((self.entries[best].1, self.entries[best].0.clone()))
    }
}

/// The timers of one connection, each with the instant at which it is due.
pub struct Timers {
    pub backoff_due_at: Option<u64>,
    pub upgrade_timeout_due_at: Option<u64>,
    pub staleness_due_at: Option<u64>,
    pub close_timeout_due_at: Option<u64>,
    pub rate_budget_window_advanced_at: Option<u64>,
    pub token_refresh_due_at: Option<u64>,
    pub per_entry_subscribe_ack_timeouts: EntryTimers,
    pub per_entry_subscribe_resend_due: EntryTimers,
    pub per_entry_book_reseed_snapshot: EntryTimers,
}

/// The timers of one connection, as plain values.
pub struct TimersView {
    pub backoff: Option<u64>,
    pub upgrade_timeout: Option<u64>,
    pub staleness: Option<u64>,
    pub close_timeout: Option<u64>,
    pub rate_budget_window: Option<u64>,
    pub token_refresh: Option<u64>,
    pub subscribe_ack: Map<EntryKey, u64>,
    pub subscribe_resend: Map<EntryKey, u64>,
    pub book_reseed: Map<EntryKey, u64>,
}

/// The instant under `key`.
pub open spec fn due_at(timers: Map<EntryKey, u64>, key: EntryKey) -> Option<u64> {
    if timers.contains_key(key) {
        Some(timers[key])
    } else {
        None
    }
}

impl TimersView {
    /// When a timer is due.
    pub open spec fn due_of(self, timer: TimerId) -> Option<u64> {
        match timer {
            TimerId::Backoff => self.backoff,
            TimerId::UpgradeTimeout => self.upgrade_timeout,
            TimerId::Staleness => self.staleness,
            TimerId::CloseTimeout => self.close_timeout,
            TimerId::RateBudgetWindow => self.rate_budget_window,
            TimerId::TokenRefresh => self.token_refresh,
            TimerId::SubscribeAck(key) => due_at(self.subscribe_ack, key@),
            TimerId::SubscribeResend(key) => due_at(self.subscribe_resend, key@),
            TimerId::BookReseedSnapshot(key) => due_at(self.book_reseed, key@),
        }
    }

    /// When the timer behind an event is due; nothing for an event of no timer.
    pub open spec fn due(self, event: FsmEvent) -> Option<u64> {
        match timer_of(event) {
            Some(timer) => self.due_of(timer),
            None => None,
        }
    }

    /// The timers without one of them.
    pub open spec fn without(self, timer: TimerId) -> TimersView {
        match timer {
            TimerId::Backoff => TimersView { backoff: None, ..self },
            TimerId::UpgradeTimeout => TimersView { upgrade_timeout: None, ..self },
            TimerId::Staleness => TimersView { staleness: None, ..self },
            TimerId::CloseTimeout => TimersView { close_timeout: None, ..self },
            TimerId::RateBudgetWindow => TimersView { rate_budget_window: None, ..self },
            TimerId::TokenRefresh => TimersView { token_refresh: None, ..self },
            TimerId::SubscribeAck(key) => TimersView {
                subscribe_ack: self.subscribe_ack.remove(key@),
                ..self
            },
            TimerId::SubscribeResend(key) => TimersView {
                subscribe_resend: self.subscribe_resend.remove(key@),
                ..self
            },
            TimerId::BookReseedSnapshot(key) => TimersView {
                book_reseed: self.book_reseed.remove(key@),
                ..self
            },
        }
    }

    /// The timers without the one behind `event`.
    pub open spec fn popped(self, event: FsmEvent) -> TimersView {
        match timer_of(event) {
            Some(timer) => self.without(timer),
            None => self,
        }
    }

    /// Whether no timer is armed.
    pub open spec fn idle(self) -> bool {
        forall|event: FsmEvent| #[trigger] self.due(event) is None
    }

    /// Whether every timer is due after `instant`.
    pub open spec fn all_after(self, instant: u64) -> bool {
        forall|event: FsmEvent| #[trigger]
            self.due(event) is Some ==> instant < self.due(event)->Some_0
    }

    /// Whether no timer is due before `instant`.
    pub open spec fn none_before(self, instant: u64) -> bool {
        forall|event: FsmEvent| #[trigger]
            self.due(event) is Some ==> instant <= self.due(event)->Some_0
    }
}

impl View for Timers {
    type V = TimersView;

    open spec fn view(&self) -> TimersView {
        TimersView {
            backoff: self.backoff_due_at,
            upgrade_timeout: self.upgrade_timeout_due_at,
            staleness: self.staleness_due_at,
            close_timeout: self.close_timeout_due_at,
            rate_budget_window: self.rate_budget_window_advanced_at,
            token_refresh: self.token_refresh_due_at,
            subscribe_ack: self.per_entry_subscribe_ack_timeouts@,
            subscribe_resend: self.per_entry_subscribe_resend_due@,
            book_reseed: self.per_entry_book_reseed_snapshot@,
        }
    }
}

/// The earlier of two timers; the first where they are due together.
fn earlier(a: Option<(u64, FsmEvent)>, b: Option<(u64, FsmEvent)>) -> (first: Option<
    (u64, FsmEvent),
>)
    ensures
        first == a || first == b,
        a is Some ==> first is Some && first->Some_0.0 <= a->Some_0.0,
        b is Some ==> first is Some && first->Some_0.0 <= b->Some_0.0,
{
    match (a, b) {
        (Some(a), Some(b)) => if a.0 <= b.0 {
            Some(a)
        } else {
            Some(b)
        },
        (Some(a), None) => Some(a),
        (None, b) => b,
    }
}

fn with_event(due: Option<u64>, event: FsmEvent) -> (timer: Option<(u64, FsmEvent)>)
    ensures
        match due {
            Some(due) => timer == Some((due, event)),
            None => timer is None,
        },
{
    match due {
        Some(due) => Some((due, event)),
        None => None,
    }
}

impl Timers {
    pub open spec fn wf(self) -> bool {
        &&& self.per_entry_subscribe_ack_timeouts.wf()
        &&& self.per_entry_subscribe_resend_due.wf()
        &&& self.per_entry_book_reseed_snapshot.wf()
    }

    pub fn new() -> (timers: Self)
        ensures
            timers.wf(),
            timers@.idle(),
    {
        Timers {
            backoff_due_at: None,
            upgrade_timeout_due_at: None,
            staleness_due_at: None,
            close_timeout_due_at: None,
            rate_budget_window_advanced_at: None,
            token_refresh_due_at: None,
            per_entry_subscribe_ack_timeouts: EntryTimers::new(),
            per_entry_subscribe_resend_due: EntryTimers::new(),
            per_entry_book_reseed_snapshot: EntryTimers::new(),
        }
    }

    /// The timer that is due first, with its event.
    pub fn next_timer_due(&self) -> (next: Option<(u64, FsmEvent)>)
        requires
            self.wf(),
        ensures
            match next {
                Some((due, event)) => self@.due(event) == Some(due) && self@.none_before(due),
                None => self@.idle(),
            },
    {
        let next = with_event(self.backoff_due_at, FsmEvent::TimerBackoffElapsed);
        let next = earlier(
            next,
            with_event(self.upgrade_timeout_due_at, FsmEvent::TimerUpgradeTimeout),
        );
        let next = earlier(
            next,
            with_event(self.staleness_due_at, FsmEvent::TimerStalenessElapsed),
        );
        let next = earlier(
            next,
            with_event(self.close_timeout_due_at, FsmEvent::TimerCloseTimeout),
        );
        let next = earlier(
            next,
            with_event(
                self.rate_budget_window_advanced_at,
                FsmEvent::TimerRateBudgetWindowAdvanced,
            ),
        );
        let next = earlier(
            next,
            with_event(self.token_refresh_due_at, FsmEvent::TimerTokenRefreshDue),
        );
        let ack = match self.per_entry_subscribe_ack_timeouts.first() {
            Some((due, key)) => Some((due, FsmEvent::TimerSubscribeAckTimeout { key })),
            None => None,
        };
        let resend = match self.per_entry_subscribe_resend_due.first() {
            Some((due, key)) => Some((due, FsmEvent::TimerSubscribeResendDue { key })),
            None => None,
        };
        let reseed = match self.per_entry_book_reseed_snapshot.first() {
            Some((due, key)) => Some((due, FsmEvent::TimerBookReseedSnapshot { key })),
            None => None,
        };
        earlier(earlier(earlier(next, ack), resend), reseed)
    }
}

/// Takes one timer out.
pub fn pop_timer(timers: &mut Timers, timer: &TimerId)
    requires
        old(timers).wf(),
    ensures
        final(timers).wf(),
        final(timers)@ == old(timers)@.without(*timer),
{
    match timer {
        TimerId::Backoff => {
            timers.backoff_due_at = None;
        },
        TimerId::UpgradeTimeout => {
            timers.upgrade_timeout_due_at = None;
        },
        TimerId::Staleness => {
            timers.staleness_due_at = None;
        },
        TimerId::CloseTimeout => {
            timers.close_timeout_due_at = None;
        },
        TimerId::RateBudgetWindow => {
            timers.rate_budget_window_advanced_at = None;
        },
        TimerId::TokenRefresh => {
            timers.token_refresh_due_at = None;
        },
        TimerId::SubscribeAck(key) => {
            timers.per_entry_subscribe_ack_timeouts.remove(key);
        },
        TimerId::SubscribeResend(key) => {
            timers.per_entry_subscribe_resend_due.remove(key);
        },
        TimerId::BookReseedSnapshot(key) => {
            timers.per_entry_book_reseed_snapshot.remove(key);
        },
    }
}

/// Takes the timer behind a fired event out, so that it does not fire again. An
/// event of no timer changes nothing.
pub fn pop_timer_for_event(timers: &mut Timers, event: &FsmEvent)
    requires
        old(timers).wf(),
    ensures
        final(timers).wf(),
        final(timers)@ == old(timers)@.popped(*event),
{
    match timer_id(event) {
        Some(timer) => {
            pop_timer(timers, &timer);
        },
        None => {},
    }
}

/// The timer behind an event.
pub open spec fn timer_of(event: FsmEvent) -> Option<TimerId> {
    match event {
        FsmEvent::TimerBackoffElapsed => Some(TimerId::Backoff),
        FsmEvent::TimerUpgradeTimeout => Some(TimerId::UpgradeTimeout),
        FsmEvent::TimerStalenessElapsed => Some(TimerId::Staleness),
        FsmEvent::TimerCloseTimeout => Some(TimerId::CloseTimeout),
        FsmEvent::TimerRateBudgetWindowAdvanced => Some(TimerId::RateBudgetWindow),
        FsmEvent::TimerTokenRefreshDue => Some(TimerId::TokenRefresh),
        FsmEvent::TimerSubscribeAckTimeout { key } => Some(TimerId::SubscribeAck(key)),
        FsmEvent::TimerSubscribeResendDue { key } => Some(TimerId::SubscribeResend(key)),
        FsmEvent::TimerBookReseedSnapshot { key } => Some(TimerId::BookReseedSnapshot(key)),
        _ => None,
    }
}

pub fn timer_id(event: &FsmEvent) -> (timer: Option<TimerId>)
    ensures
        timer == timer_of(*event),
{
    match event {
        FsmEvent::TimerBackoffElapsed => Some(TimerId::Backoff),
        FsmEvent::TimerUpgradeTimeout => Some(TimerId::UpgradeTimeout),
        FsmEvent::TimerStalenessElapsed => Some(TimerId::Staleness),
        FsmEvent::TimerCloseTimeout => Some(TimerId::CloseTimeout),
        FsmEvent::TimerRateBudgetWindowAdvanced => Some(TimerId::RateBudgetWindow),
        FsmEvent::TimerTokenRefreshDue => Some(TimerId::TokenRefresh),
        FsmEvent::TimerSubscribeAckTimeout { key } => Some(TimerId::SubscribeAck(key.clone())),
        FsmEvent::TimerSubscribeResendDue { key } => Some(TimerId::SubscribeResend(key.clone())),
        FsmEvent::TimerBookReseedSnapshot { key } => Some(
            TimerId::BookReseedSnapshot(key.clone()),
        ),
        _ => None,
    }
}

/// The timers of a connection, with what its own clock says.
pub struct ConnTimers<'a> {
    pub url: WsUrl,
    pub timers: &'a Timers,
    pub now: u64,
}

/// What is left from `now` to `due`; nothing where it is over.
pub open spec fn delay_until(due: u64, now: u64) -> u64 {
    if due >= now {
        (due - now) as u64
    } else {
        0
    }
}

/// Whether the timer of connection `i` behind `event` is the earliest of all, the
/// first of those that are due together, and `delay` the time until it fires by the
/// clock of its own connection.
pub open spec fn is_earliest(
    conns: Seq<ConnTimers<'_>>,
    i: int,
    url: WsUrl,
    delay: u64,
    event: FsmEvent,
) -> bool {
    &&& 0 <= i < conns.len()
    &&& conns[i].url == url
    &&& conns[i].timers@.due(event) is Some
    &&& delay == delay_until(conns[i].timers@.due(event)->Some_0, conns[i].now)
    &&& forall|j: int|
        0 <= j < conns.len() ==> (#[trigger] conns[j]).timers@.none_before(
            conns[i].timers@.due(event)->Some_0,
        )
    &&& forall|j: int|
        0 <= j < i ==> (#[trigger] conns[j]).timers@.all_after(
            conns[i].timers@.due(event)->Some_0,
        )
}

/// The earliest timer of all connections: whose it is, how long it is until it
/// fires, and its event. The delay is by the clock against which the timer was
/// set.
pub fn earliest_timer_delay(conns: &Vec<ConnTimers<'_>>) -> (earliest: Option<
    (WsUrl, u64, FsmEvent),
>)
    requires
        forall|i: int| 0 <= i < conns@.len() ==> (#[trigger] conns@[i]).timers.wf(),
    ensures
        match earliest {
            Some(found) => exists|i: int| #[trigger]
                is_earliest(conns@, i, found.0, found.1, found.2),
            None => forall|i: int| 0 <= i < conns@.len() ==> (#[trigger] conns@[i]).timers@.idle(),
        },
{
    let mut earliest: Option<(usize, u64, FsmEvent)> = None;
    let mut i: usize = 0;
    while i < conns.len()
        invariant
            i <= conns@.len(),
            forall|k: int| 0 <= k < conns@.len() ==> (#[trigger] conns@[k]).timers.wf(),
            match earliest {
                Some((at, due, event)) => {
                    &&& at < i
                    &&& conns@[at as int].timers@.due(event) == Some(due)
                    &&& forall|k: int|
                        0 <= k < i ==> (#[trigger] conns@[k]).timers@.none_before(due)
                    &&& forall|k: int|
                        0 <= k < at ==> (#[trigger] conns@[k]).timers@.all_after(due)
                },
                None => forall|k: int| 0 <= k < i ==> (#[trigger] conns@[k]).timers@.idle(),
            },
        decreases conns@.len() - i,
    {
        match conns[i].timers.next_timer_due() {
            Some((due, event)) => {
                let keep = match &earliest {
                    Some((_, current, _)) => *current <= due,
                    None => false,
                };
                if !keep {
                    proof {
                        assert forall|k: int| 0 <= k < i implies (
                        #[trigger] conns@[k]).timers@.none_before(due) by {
                            if earliest is Some {
                                let current = earliest->Some_0.1;
                                assert(conns@[k].timers@.none_before(current));
                            } else {
                                assert(conns@[k].timers@.idle());
                            }
                        }
                        assert forall|k: int| 0 <= k < i implies (
                        #[trigger] conns@[k]).timers@.all_after(due) by {
                            if earliest is Some {
                                let current = earliest->Some_0.1;
                                assert(conns@[k].timers@.none_before(current));
                            } else {
                                assert(conns@[k].timers@.idle());
                            }
                        }
                    }
                    earliest = Some((i, due, event));
                }
            },
            None => {},
        }
        i += 1;
    }
    match earliest {
        Some((at, due, event)) => {
            let url = conns[at].url;
            let delay: u64 = due.saturating_sub(conns[at].now);
            let found = Some((url, delay, event));
            proof {
                assert(is_earliest(
                    conns@,
                    at as int,
                    found->Some_0.0,
                    found->Some_0.1,
                    found->Some_0.2,
                ));
            }
            found
        },
        None => {
            proof {
                assert forall|k: int| 0 <= k < conns@.len() implies (
                #[trigger] conns@[k]).timers@.idle() by {}
            }
            None
        },
    }
}

/// A timer that was popped is not due any more, and every other stays as it was.
pub proof fn popped_timer_is_gone(timers: TimersView, event: FsmEvent, other: FsmEvent)
    ensures
        timers.popped(event).due(event) is None,
        timers.due(other) is None ==> timers.popped(event).due(other) is None,
        timers.popped(event).due(other) is Some ==> timers.popped(event).due(other) == timers.due(
            other,
        ),
{
}

/// Popping changes no timer but the one that fired.
pub proof fn other_timers_stay(timers: TimersView, event: FsmEvent, other: FsmEvent)
    requires
        timer_of(other) is Some,
        match (timer_of(event), timer_of(other)) {
            (Some(TimerId::SubscribeAck(a)), Some(TimerId::SubscribeAck(b))) => a@ != b@,
            (Some(TimerId::SubscribeResend(a)), Some(TimerId::SubscribeResend(b))) => a@ != b@,
            (Some(TimerId::BookReseedSnapshot(a)), Some(TimerId::BookReseedSnapshot(b))) => a@
                != b@,
            (a, b) => a != b,
        },
    ensures
        timers.popped(event).due(other) == timers.due(other),
{
}

/// Each timer fires as the event of its own name, at the instant that it was set to, and
/// a timer of a subscription as that of its own key; no other event is that of a timer.
pub proof fn each_timer_fires_as_its_own_event(timers: TimersView, key: Key, event: FsmEvent)
    ensures
        timers.due(FsmEvent::TimerBackoffElapsed) == timers.backoff,
        timers.due(FsmEvent::TimerUpgradeTimeout) == timers.upgrade_timeout,
        timers.due(FsmEvent::TimerStalenessElapsed) == timers.staleness,
        timers.due(FsmEvent::TimerCloseTimeout) == timers.close_timeout,
        timers.due(FsmEvent::TimerRateBudgetWindowAdvanced) == timers.rate_budget_window,
        timers.due(FsmEvent::TimerTokenRefreshDue) == timers.token_refresh,
        timers.due(FsmEvent::TimerSubscribeAckTimeout { key }) == due_at(
            timers.subscribe_ack,
            key@,
        ),
        timers.due(FsmEvent::TimerSubscribeResendDue { key }) == due_at(
            timers.subscribe_resend,
            key@,
        ),
        timers.due(FsmEvent::TimerBookReseedSnapshot { key }) == due_at(
            timers.book_reseed,
            key@,
        ),
        timer_of(event) is Some <==> (event is TimerBackoffElapsed || event is TimerUpgradeTimeout
            || event is TimerStalenessElapsed || event is TimerCloseTimeout || event
            is TimerRateBudgetWindowAdvanced || event is TimerTokenRefreshDue || event
            is TimerSubscribeAckTimeout || event is TimerSubscribeResendDue || event
            is TimerBookReseedSnapshot),
{
}

/// What is taken out is the timer behind the event: the one that can be set again under
/// the same name, and for a subscription under the same key.
pub proof fn a_popped_timer_is_the_one_that_fired(key: Key)
    ensures
        timer_of(FsmEvent::TimerBackoffElapsed) == Some(TimerId::Backoff),
        timer_of(FsmEvent::TimerUpgradeTimeout) == Some(TimerId::UpgradeTimeout),
        timer_of(FsmEvent::TimerStalenessElapsed) == Some(TimerId::Staleness),
        timer_of(FsmEvent::TimerCloseTimeout) == Some(TimerId::CloseTimeout),
        timer_of(FsmEvent::TimerRateBudgetWindowAdvanced) == Some(TimerId::RateBudgetWindow),
        timer_of(FsmEvent::TimerTokenRefreshDue) == Some(TimerId::TokenRefresh),
        timer_of(FsmEvent::TimerSubscribeAckTimeout { key }) == Some(TimerId::SubscribeAck(key)),
        timer_of(FsmEvent::TimerSubscribeResendDue { key }) == Some(
            TimerId::SubscribeResend(key),
        ),
        timer_of(FsmEvent::TimerBookReseedSnapshot { key }) == Some(
            TimerId::BookReseedSnapshot(key),
        ),
{
}

/// The time until a timer fires is what is left until its instant, and nothing where
/// that is over: waiting for it ends at that instant or at once, and never before.
pub proof fn a_delay_ends_at_the_instant(due: u64, now: u64)
    ensures
        now <= due ==> now + delay_until(due, now) == due,
        now > due ==> delay_until(due, now) == 0,
{
}

/// The earliest timer is the one to wait for: no armed timer of any connection is due
/// before it, and none of an earlier connection together with it. It belongs to the
/// connection that is named, and by the clock of that connection the wait ends at its
/// instant, or at once where that is over.
pub proof fn the_earliest_timer_fires_first(
    conns: Seq<ConnTimers<'_>>,
    i: int,
    url: WsUrl,
    delay: u64,
    event: FsmEvent,
    j: int,
    other: FsmEvent,
)
    requires
        is_earliest(conns, i, url, delay, event),
        0 <= j < conns.len(),
        conns[j].timers@.due(other) is Some,
    ensures
        ({
            let due = conns[i].timers@.due(event)->Some_0;
            let others = conns[j].timers@.due(other)->Some_0;
            &&& 0 <= i < conns.len()
            &&& conns[i].url == url
            &&& conns[i].timers@.due(event) is Some
            &&& due <= others
            &&& j < i ==> due < others
            &&& conns[i].now <= due ==> conns[i].now + delay == due
            &&& conns[i].now > due ==> delay == 0
        }),
{
}

/// Where no timer is armed there is nothing to wait for, and where every timer is due
/// after an instant none is due before it.
pub proof fn an_idle_connection_waits_for_nothing(timers: TimersView, event: FsmEvent, instant: u64)
    ensures
        timers.idle() ==> timers.due(event) is None,
        timers.none_before(instant) && timers.due(event) is Some ==> instant <= timers.due(
            event,
        )->Some_0,
        timers.all_after(instant) && timers.due(event) is Some ==> instant < timers.due(
            event,
        )->Some_0,
{
}

} // verus!
