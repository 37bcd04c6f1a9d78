//! Timer bookkeeping.
use tab_quicksearch::timers::{
    TimerKind, Timers, BLINK_INTERVAL, JUMP_TIMEOUT, MAX_PENDING_TIMERS, TIMER_SLACK,
};

/// Milliseconds in the unit of the timers.
fn ms(n: u64) -> u64 {
    n * 1_000_000
}

#[test]
fn timers_resolve_oldest_eligible_entry() {
    let mut t = Timers::default();
    t.armed(TimerKind::Blink, BLINK_INTERVAL);
    t.armed(TimerKind::Jump { generation: 1 }, JUMP_TIMEOUT);
    assert!(t.blink_in_flight());
    // The 0.4 s jump timer fires first; the older blink entry is not
    // eligible yet, so it must not be consumed.
    assert_eq!(t.resolve(ms(401)), Some(TimerKind::Jump { generation: 1 }));
    assert!(t.blink_in_flight());
    assert_eq!(t.resolve(ms(500)), Some(TimerKind::Blink));
    assert!(!t.blink_in_flight());
    assert_eq!(t.resolve(ms(500)), None);
}

#[test]
fn timers_late_event_never_starves_a_jump() {
    let mut t = Timers::default();
    t.armed(TimerKind::Blink, BLINK_INTERVAL);
    t.armed(TimerKind::Jump { generation: 1 }, JUMP_TIMEOUT);
    // A jump event delayed past 0.5 s is attributed to the older blink
    // entry; the following blink event then resolves to the jump, so
    // both handlers still run exactly once.
    assert_eq!(t.resolve(ms(550)), Some(TimerKind::Blink));
    assert_eq!(t.resolve(ms(500)), Some(TimerKind::Jump { generation: 1 }));
    // Below every requested duration (clock skew): fall back to oldest.
    t.armed(TimerKind::Jump { generation: 2 }, JUMP_TIMEOUT);
    assert_eq!(t.resolve(ms(100)), Some(TimerKind::Jump { generation: 2 }));
}

#[test]
fn timers_queue_is_bounded_and_generations_advance() {
    let mut t = Timers::default();
    for _ in 0..(MAX_PENDING_TIMERS + 3) {
        t.armed(TimerKind::Blink, BLINK_INTERVAL);
    }
    assert_eq!(t.pending.len(), MAX_PENDING_TIMERS);
    assert_eq!(t.new_jump_generation(), 1);
    assert_eq!(t.new_jump_generation(), 2);
    assert_eq!(t.jump_generation, 2);
}

#[test]
fn timers_eviction_keeps_the_blink_entry() {
    let mut t = Timers::default();
    let newest = u32::try_from(MAX_PENDING_TIMERS).unwrap() + 2;
    t.armed(TimerKind::Blink, BLINK_INTERVAL);
    for generation in 1..=newest {
        t.armed(TimerKind::Jump { generation }, JUMP_TIMEOUT);
    }
    assert_eq!(t.pending.len(), MAX_PENDING_TIMERS);
    assert!(t.blink_in_flight());
    // The oldest jump timers were evicted, the newest survive.
    assert_eq!(t.pending.front().map(|(k, _)| *k), Some(TimerKind::Blink));
    assert_eq!(
        t.pending.back().map(|(k, _)| *k),
        Some(TimerKind::Jump { generation: newest })
    );
}

#[test]
fn slack_covers_rounding_only() {
    let mut t = Timers::default();
    t.armed(TimerKind::Blink, BLINK_INTERVAL);
    t.armed(TimerKind::Jump { generation: 7 }, JUMP_TIMEOUT);
    // Ten milliseconds early still counts as due, a nanosecond less does not.
    assert_eq!(
        t.resolve(JUMP_TIMEOUT - TIMER_SLACK),
        Some(TimerKind::Jump { generation: 7 })
    );
    t.armed(TimerKind::Jump { generation: 8 }, JUMP_TIMEOUT);
    assert_eq!(t.resolve(JUMP_TIMEOUT - TIMER_SLACK - 1), Some(TimerKind::Blink));
    assert_eq!(t.resolve(u64::MAX), Some(TimerKind::Jump { generation: 8 }));
}

#[test]
fn durations_are_half_a_second_and_four_tenths() {
    assert_eq!(BLINK_INTERVAL, ms(500));
    assert_eq!(JUMP_TIMEOUT, ms(400));
    assert_eq!(TIMER_SLACK, ms(10));
}

#[test]
fn generations_wrap_around() {
    let mut t = Timers::default();
    t.jump_generation = u32::MAX;
    assert_eq!(t.new_jump_generation(), 0);
}
