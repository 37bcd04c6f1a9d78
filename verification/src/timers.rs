//! Bookkeeping of host timers.
use std::collections::VecDeque;
use vstd::prelude::*;

verus! {

/// Blink interval for the bell background (toggle per tick), in nanoseconds.
pub const BLINK_INTERVAL: u64 = 500_000_000;

/// Time after the penultimate digit before a quickjump fires on the buffered
/// number, in nanoseconds. Long enough for the user to type the final digit
/// of a known multi-digit position, but short enough to feel responsive
/// for a deliberate single-digit jump.
pub const JUMP_TIMEOUT: u64 = 400_000_000;

/// Tolerance when attributing an elapsed time to the requested duration of a
/// pending timer, in nanoseconds: covers float rounding only, the host never
/// fires a timer early.
pub const TIMER_SLACK: u64 = 10_000_000;

/// Upper bound for the timer bookkeeping queue. Only reachable if the host
/// ever drops a timer event; the oldest entry is then taken for lost.
pub const MAX_PENDING_TIMERS: usize = 8;

/// What a pending host timer is for. The host has no way to cancel a timer
/// and its timer event carries no id, only the elapsed time, so the picker
/// keeps its own bookkeeping to tell the two timer sources apart.
#[derive(Clone, Copy, Debug, PartialEq, Eq, Structural)]
pub enum TimerKind {
    /// Bell-blink tick. At most one is ever in flight.
    Blink,
    /// Quickjump timeout. Only the newest generation may act.
    Jump { generation: u32 },
}

pub struct Timers {
    /// Toggles per blink tick: drives the bell-row background colour.
    pub bell_blink_on: bool,
    /// In-flight host timers, oldest first, with their requested duration.
    pub pending: VecDeque<(TimerKind, u64)>,
    /// Bumped by every new jump timer and when the picker closes; a `Jump`
    /// entry with an older generation is void.
    pub jump_generation: u32,
}

/// What `Timers` holds.
#[verifier::ext_equal]
pub struct TimersModel {
    pub bell_blink_on: bool,
    pub pending: Seq<(TimerKind, u64)>,
    pub jump_generation: u32,
}

impl View for Timers {
    type V = TimersModel;

    open spec fn view(&self) -> TimersModel {
        TimersModel {
            bell_blink_on: self.bell_blink_on,
            pending: self.pending@,
            jump_generation: self.jump_generation,
        }
    }
}

/// `i` is the first position in `s` at which `wanted` holds.
pub open spec fn is_first<T>(s: Seq<T>, wanted: spec_fn(T) -> bool, i: int) -> bool {
    0 <= i < s.len() && wanted(s[i]) && forall|k: int| 0 <= k < i ==> !wanted(#[trigger] s[k])
}

/// The first position at which `wanted` holds, or 0 if it holds nowhere.
pub open spec fn first_or_oldest<T>(s: Seq<T>, wanted: spec_fn(T) -> bool) -> int {
    if exists|i: int| is_first(s, wanted, i) {
        choose|i: int| is_first(s, wanted, i)
    } else {
        0
    }
}

pub proof fn lemma_first<T>(s: Seq<T>, wanted: spec_fn(T) -> bool, i: int)
    requires
        is_first(s, wanted, i),
    ensures
        first_or_oldest(s, wanted) == i,
{
    let j = first_or_oldest(s, wanted);
    assert(is_first(s, wanted, j));
    if j < i {
        assert(!wanted(s[j]));
    }
    if i < j {
        assert(!wanted(s[i]));
    }
}

pub proof fn lemma_none<T>(s: Seq<T>, wanted: spec_fn(T) -> bool)
    requires
        forall|k: int| 0 <= k < s.len() ==> !wanted(#[trigger] s[k]),
    ensures
        first_or_oldest(s, wanted) == 0,
{
}

/// The entry is not a blink tick.
pub open spec fn not_blink() -> spec_fn((TimerKind, u64)) -> bool {
    |entry: (TimerKind, u64)| entry.0 !is Blink
}

/// The requested duration of the entry is over.
pub open spec fn is_due(elapsed: u64) -> spec_fn((TimerKind, u64)) -> bool {
    |entry: (TimerKind, u64)| entry.1 <= elapsed + TIMER_SLACK
}

impl TimersModel {
    /// A blink tick is on its way.
    pub open spec fn blink_in_flight(self) -> bool {
        exists|i: int| 0 <= i < self.pending.len() && (#[trigger] self.pending[i]).0 is Blink
    }

    /// After a timer was requested from the host. At capacity the oldest
    /// entry that is no blink tick makes room.
    pub open spec fn armed(self, kind: TimerKind, duration: u64) -> TimersModel {
        let kept = if self.pending.len() >= MAX_PENDING_TIMERS {
            self.pending.remove(first_or_oldest(self.pending, not_blink()))
        } else {
            self.pending
        };
        TimersModel { pending: kept.push((kind, duration)), ..self }
    }

    /// The entry that a timer event belongs to: the oldest one that is due,
    /// else the oldest one.
    pub open spec fn fired(self, elapsed: u64) -> int {
        first_or_oldest(self.pending, is_due(elapsed))
    }

    /// After a timer event was attributed to its entry.
    pub open spec fn resolved(self, elapsed: u64) -> TimersModel {
        if self.pending.len() == 0 {
            self
        } else {
            TimersModel { pending: self.pending.remove(self.fired(elapsed)), ..self }
        }
    }

    /// What a timer event was for.
    pub open spec fn resolved_kind(self, elapsed: u64) -> Option<TimerKind> {
        if self.pending.len() == 0 {
            None
        } else {
            Some(self.pending[self.fired(elapsed)].0)
        }
    }

    /// The generation after this one.
    pub open spec fn next_generation(self) -> u32 {
        if self.jump_generation == u32::MAX {
            0
        } else {
            (self.jump_generation + 1) as u32
        }
    }

    /// After a new quickjump generation began.
    pub open spec fn with_new_generation(self) -> TimersModel {
        TimersModel { jump_generation: self.next_generation(), ..self }
    }
}

impl Default for Timers {
    /// No timer in flight.
    fn default() -> (timers: Timers)
        ensures
            timers@ == (TimersModel { bell_blink_on: false, pending: seq![], jump_generation: 0 }),
    {
        Timers { bell_blink_on: false, pending: VecDeque::new(), jump_generation: 0 }
    }
}

impl Timers {
    /// Whether a blink tick is on its way.
    pub fn blink_in_flight(&self) -> (in_flight: bool)
        ensures
            in_flight == self@.blink_in_flight(),
    {
        let mut i: usize = 0;
        while i < self.pending.len()
            invariant
                i <= self.pending@.len(),
                forall|k: int| 0 <= k < i ==> (#[trigger] self.pending@[k]).0 !is Blink,
            decreases self.pending@.len() - i,
        {
            let entry: (TimerKind, u64) = self.pending[i];
            if entry.0 == TimerKind::Blink {
                return true;
            }
            i += 1;
        }
        false
    }

    /// Records a timer that was just requested from the host. At capacity
    /// the oldest non-blink entry is dropped first, so the blink singleton
    /// survives even a burst of superseded jump timers.
    pub fn armed(&mut self, kind: TimerKind, duration: u64)
        ensures
            final(self)@ == old(self)@.armed(kind, duration),
    {
        if self.pending.len() >= MAX_PENDING_TIMERS {
            let mut victim: usize = 0;
            let mut i: usize = 0;
            let ghost pending = self.pending@;
            while i < self.pending.len()
                invariant_except_break
                    i <= pending.len(),
                    self.pending@ == pending,
                    victim == 0,
                    forall|k: int| 0 <= k < i ==> !not_blink()(#[trigger] pending[k]),
                invariant
                    self.bell_blink_on == old(self).bell_blink_on,
                    self.jump_generation == old(self).jump_generation,
                ensures
                    self.pending@ == pending,
                    victim == first_or_oldest(pending, not_blink()),
                    pending.len() > 0 ==> victim < pending.len(),
                decreases pending.len() - i,
            {
                let entry: (TimerKind, u64) = self.pending[i];
                if entry.0 != TimerKind::Blink {
                    victim = i;
                    proof {
                        lemma_first(pending, not_blink(), i as int);
                    }
                    break;
                }
                i += 1;
                proof {
                    if i == pending.len() {
                        lemma_none(pending, not_blink());
                    }
                }
            }
            let _ = self.pending.remove(victim);
        }
        self.pending.push_back((kind, duration));
    }

    /// The position of the entry that an elapsed time belongs to.
    fn fired(&self, elapsed: u64) -> (fired: usize)
        requires
            self.pending@.len() > 0,
        ensures
            fired == self@.fired(elapsed),
            fired < self.pending@.len(),
    {
        let ghost pending = self.pending@;
        let mut i: usize = 0;
        while i < self.pending.len()
            invariant
                i <= pending.len(),
                pending == self.pending@,
                forall|k: int| 0 <= k < i ==> !is_due(elapsed)(#[trigger] pending[k]),
            decreases pending.len() - i,
        {
            let entry: (TimerKind, u64) = self.pending[i];
            if entry.1 <= TIMER_SLACK || entry.1 - TIMER_SLACK <= elapsed {
                proof {
                    lemma_first(pending, is_due(elapsed), i as int);
                }
                return i;
            }
            i += 1;
        }
        proof {
            lemma_none(pending, is_due(elapsed));
        }
        0
    }

    /// What an elapsed time is for: see `resolve`, which also removes the entry.
    pub fn kind_at(&self, elapsed: u64) -> (kind: Option<TimerKind>)
        ensures
            kind == self@.resolved_kind(elapsed),
    {
        if self.pending.len() == 0 {
            None
        } else {
            let entry: (TimerKind, u64) = self.pending[self.fired(elapsed)];
            Some(entry.0)
        }
    }

    /// Attributes an elapsed time to a pending timer and removes it: the
    /// oldest entry whose requested duration is over. Host timers fire in
    /// deadline order and are delivered in order, so that is the one that
    /// fired; only a late-delivered event can be attributed to a sibling of
    /// equal duration, which merely swaps two handlers. Falls back to the
    /// oldest entry when none is eligible.
    pub fn resolve(&mut self, elapsed: u64) -> (kind: Option<TimerKind>)
        ensures
            kind == old(self)@.resolved_kind(elapsed),
            final(self)@ == old(self)@.resolved(elapsed),
    {
        if self.pending.len() == 0 {
            return None;
        }
        let fired: usize = self.fired(elapsed);
        match self.pending.remove(fired) {
            Some(entry) => Some(entry.0),
            None => None,
        }
    }

    /// Starts a new quickjump generation, voiding every pending jump timer.
    pub fn new_jump_generation(&mut self) -> (generation: u32)
        ensures
            generation == old(self)@.next_generation(),
            final(self)@ == old(self)@.with_new_generation(),
    {
        self.jump_generation = self.jump_generation.wrapping_add(1);
        self.jump_generation
    }
}

} // verus!
