use io_reactor::timer::{earliest_timer_delay, pop_timer_for_event, ConnTimers, Timers};
use io_reactor::types::{ChannelName, FsmEvent, Key, Symbol, WsUrl};

fn key(pair: &str) -> Key {
    Key {
        channel: ChannelName::Ticker,
        pair: Some(Symbol { name: pair.to_string() }),
    }
}

#[test]
fn earliest_timer_delay_uses_owning_mc_injected_clock() {
    let now = 1_000_000 * 1_000_000_000u64;
    let expected = 10_000_000_000u64;
    let mut timers = Timers::new();
    timers.upgrade_timeout_due_at = Some(now + expected);
    let conns = vec![ConnTimers { url: WsUrl::Public, timers: &timers, now }];

    let (url, delay, ev) = earliest_timer_delay(&conns).expect("upgrade-timeout timer is armed");
    assert_eq!(url, WsUrl::Public);
    assert!(
        matches!(ev, FsmEvent::TimerUpgradeTimeout),
        "expected upgrade-timeout event, got {ev:?}"
    );
    assert_eq!(
        delay, expected,
        "delay must be measured against the injected clock"
    );
}

#[test]
fn earliest_timer_delay_none_when_no_timers() {
    let conns: Vec<ConnTimers<'_>> = Vec::new();
    assert!(earliest_timer_delay(&conns).is_none());
    let none = Timers::new();
    let idle = vec![ConnTimers { url: WsUrl::Auth, timers: &none, now: 7 }];
    assert!(earliest_timer_delay(&idle).is_none());
}

#[test]
fn the_earliest_of_two_connections_wins_and_an_overdue_one_fires_at_once() {
    let mut public = Timers::new();
    public.staleness_due_at = Some(500);
    public.per_entry_subscribe_ack_timeouts.arm(&key("BTC/USD"), 300);
    public.per_entry_subscribe_ack_timeouts.arm(&key("ETH/USD"), 200);
    let mut auth = Timers::new();
    auth.token_refresh_due_at = Some(250);
    let conns = vec![
        ConnTimers { url: WsUrl::Auth, timers: &auth, now: 100 },
        ConnTimers { url: WsUrl::Public, timers: &public, now: 1_000 },
    ];
    let (url, delay, ev) = earliest_timer_delay(&conns).expect("timers are armed");
    assert_eq!(url, WsUrl::Public);
    assert_eq!(delay, 0);
    match ev {
        FsmEvent::TimerSubscribeAckTimeout { key } => {
            assert_eq!(key.pair.expect("a pair").name, "ETH/USD");
        }
        other => panic!("expected the ack timeout of ETH/USD, got {other:?}"),
    }
}

#[test]
fn a_popped_timer_is_gone_and_the_others_stay() {
    let mut timers = Timers::new();
    timers.backoff_due_at = Some(1);
    timers.close_timeout_due_at = Some(2);
    timers.rate_budget_window_advanced_at = Some(3);
    timers.per_entry_subscribe_resend_due.arm(&key("BTC/USD"), 4);
    timers.per_entry_subscribe_resend_due.arm(&key("ETH/USD"), 5);
    timers.per_entry_book_reseed_snapshot.arm(&key("BTC/USD"), 6);

    pop_timer_for_event(&mut timers, &FsmEvent::TimerBackoffElapsed);
    assert_eq!(timers.backoff_due_at, None);
    assert_eq!(timers.close_timeout_due_at, Some(2));

    pop_timer_for_event(
        &mut timers,
        &FsmEvent::TimerSubscribeResendDue { key: key("BTC/USD") },
    );
    let (due, left) = timers.per_entry_subscribe_resend_due.first().expect("one is left");
    assert_eq!(due, 5);
    assert_eq!(left.pair.expect("a pair").name, "ETH/USD");
    assert!(timers.per_entry_book_reseed_snapshot.first().is_some());

    pop_timer_for_event(&mut timers, &FsmEvent::WireAuthHandshakeOk);
    assert_eq!(timers.rate_budget_window_advanced_at, Some(3));
    pop_timer_for_event(&mut timers, &FsmEvent::TimerCloseTimeout);
    pop_timer_for_event(&mut timers, &FsmEvent::TimerRateBudgetWindowAdvanced);
    assert_eq!(timers.close_timeout_due_at, None);
    assert_eq!(timers.rate_budget_window_advanced_at, None);
}
