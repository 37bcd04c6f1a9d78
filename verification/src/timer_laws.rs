//! What holds of the timer bookkeeping.
use crate::timers::{
    first_or_oldest, is_due, is_first, not_blink, TimerKind, TimersModel, MAX_PENDING_TIMERS,
};
use vstd::prelude::*;

verus! {

/// No more timers than there is room for, and at most one blink tick among them.
pub open spec fn is_orderly(timers: TimersModel) -> bool {
    &&& timers.pending.len() <= MAX_PENDING_TIMERS
    &&& forall|i: int, j: int|
        0 <= i < timers.pending.len() && 0 <= j < timers.pending.len() && (
        #[trigger] timers.pending[i]).0 is Blink && (#[trigger] timers.pending[j]).0 is Blink ==> i
            == j
}

proof fn lemma_first_exists<T>(s: Seq<T>, wanted: spec_fn(T) -> bool, i: int)
    requires
        0 <= i < s.len(),
        wanted(s[i]),
    ensures
        is_first(s, wanted, first_or_oldest(s, wanted)),
    decreases i,
{
    if !is_first(s, wanted, i) {
        let k = choose|k: int| 0 <= k < i && wanted(#[trigger] s[k]);
        lemma_first_exists(s, wanted, k);
    }
}

proof fn lemma_first_in_range<T>(s: Seq<T>, wanted: spec_fn(T) -> bool)
    requires
        s.len() > 0,
    ensures
        0 <= first_or_oldest(s, wanted) < s.len(),
{
}

/// A new timer finds its place: the queue never holds more than it has room
/// for, a blink tick in flight survives any number of new timers, and the new
/// timer is the youngest one.
pub proof fn law_armed_timer_has_its_place(timers: TimersModel, kind: TimerKind, duration: u64)
    requires
        is_orderly(timers),
        kind is Blink ==> !timers.blink_in_flight(),
    ensures
        is_orderly(timers.armed(kind, duration)),
        timers.armed(kind, duration).pending.last() == (kind, duration),
        timers.armed(kind, duration).blink_in_flight() <==> timers.blink_in_flight()
            || kind is Blink,
        timers.armed(kind, duration).jump_generation == timers.jump_generation,
        timers.armed(kind, duration).bell_blink_on == timers.bell_blink_on,
{
    let s = timers.pending;
    let after = timers.armed(kind, duration).pending;
    if s.len() >= MAX_PENDING_TIMERS {
        if s[0].0 is Blink {
            assert(s[1].0 !is Blink);
            lemma_first_exists(s, not_blink(), 1);
        } else {
            lemma_first_exists(s, not_blink(), 0);
        }
        let victim = first_or_oldest(s, not_blink());
        assert(s[victim].0 !is Blink);
        if timers.blink_in_flight() {
            let i = choose|i: int| 0 <= i < s.len() && (#[trigger] s[i]).0 is Blink;
            if i < victim {
                assert(after[i] == s[i]);
            } else {
                assert(after[i - 1] == s[i]);
            }
        }
        assert forall|i: int| 0 <= i < after.len() - 1 implies (#[trigger] after[i]) == (if i
            < victim {
            s[i]
        } else {
            s[i + 1]
        }) by {}
    } else {
        if timers.blink_in_flight() {
            let i = choose|i: int| 0 <= i < s.len() && (#[trigger] s[i]).0 is Blink;
            assert(after[i] == s[i]);
        }
    }
    if kind is Blink {
        assert(after[after.len() - 1].0 is Blink);
    }
}

/// A timer event takes exactly one timer out of the queue, the one whose kind
/// it reports, so each handler runs once for each of its timers.
pub proof fn law_timer_event_takes_one(timers: TimersModel, elapsed: u64)
    requires
        timers.pending.len() > 0,
    ensures
        ({
            let fired = timers.fired(elapsed);
            &&& 0 <= fired < timers.pending.len()
            &&& timers.resolved_kind(elapsed) == Some(timers.pending[fired].0)
            &&& timers.resolved(elapsed).pending == timers.pending.remove(fired)
            &&& timers.pending.to_multiset() == timers.resolved(
                elapsed,
            ).pending.to_multiset().insert(timers.pending[fired])
        }),
{
    broadcast use vstd::seq_lib::group_to_multiset_ensures;

    lemma_first_in_range(timers.pending, is_due(elapsed));
    let fired = timers.fired(elapsed);
    let s = timers.pending;
    assert(s.to_multiset().count(s[fired]) > 0) by {
        assert(s.contains(s[fired]));
    }
    assert(s.remove(fired).to_multiset() =~= s.to_multiset().remove(s[fired]));
    assert(s.to_multiset().remove(s[fired]).insert(s[fired]) =~= s.to_multiset());
}

/// A timer event is attributed to the oldest timer that is due, and to the
/// oldest one when none is.
pub proof fn law_oldest_due_timer_fires(timers: TimersModel, elapsed: u64)
    ensures
        is_first(timers.pending, is_due(elapsed), timers.fired(elapsed)) || (timers.fired(elapsed)
            == 0 && forall|k: int|
            0 <= k < timers.pending.len() ==> !is_due(elapsed)(#[trigger] timers.pending[k])),
{
    if exists|k: int|
        0 <= k < timers.pending.len() && is_due(elapsed)(#[trigger] timers.pending[k]) {
        let k = choose|k: int|
            0 <= k < timers.pending.len() && is_due(elapsed)(#[trigger] timers.pending[k]);
        lemma_first_exists(timers.pending, is_due(elapsed), k);
    }
}

/// Taking a timer out keeps the queue orderly, and takes the blink tick
/// exactly if it reports one.
pub proof fn law_resolving_keeps_order(timers: TimersModel, elapsed: u64)
    requires
        is_orderly(timers),
    ensures
        is_orderly(timers.resolved(elapsed)),
        timers.resolved(elapsed).blink_in_flight() <==> timers.blink_in_flight()
            && timers.resolved_kind(elapsed) != Some(TimerKind::Blink),
{
    let s = timers.pending;
    if s.len() > 0 {
        lemma_first_in_range(s, is_due(elapsed));
        let fired = timers.fired(elapsed);
        let after = timers.resolved(elapsed).pending;
        assert forall|i: int| 0 <= i < after.len() implies (#[trigger] after[i]) == (if i < fired {
            s[i]
        } else {
            s[i + 1]
        }) by {}
        if timers.blink_in_flight() && s[fired].0 !is Blink {
            let i = choose|i: int| 0 <= i < s.len() && (#[trigger] s[i]).0 is Blink;
            if i < fired {
                assert(after[i] == s[i]);
            } else {
                assert(after[i - 1] == s[i]);
            }
        }
        if timers.resolved(elapsed).blink_in_flight() {
            let k = choose|k: int| 0 <= k < after.len() && (#[trigger] after[k]).0 is Blink;
            let i = if k < fired {
                k
            } else {
                k + 1
            };
            assert(s[i].0 is Blink);
        }
    } else {
        assert(timers.resolved(elapsed) == timers);
    }
}

/// A new generation differs from the one before.
pub proof fn law_generations_differ(timers: TimersModel)
    ensures
        timers.next_generation() != timers.jump_generation,
        timers.with_new_generation().jump_generation == timers.next_generation(),
{
}

} // verus!
