//! Keeping real time.
//!
//! Times are nanoseconds on a clock that does not run backwards.

use vstd::prelude::*;

verus! {

/// Lets steps take as long as they take in the game.
pub struct Pacer {
    next: u64,
    step: u64,
}

/// When the next step is due, and how long a step takes.
pub struct PacerView {
    pub next: u64,
    pub step: u64,
}

impl View for Pacer {
    type V = PacerView;

    closed spec fn view(&self) -> PacerView {
        PacerView { next: self.next, step: self.step }
    }
}

/// How long `tick_skip` ticks take, to the nearest nanosecond.
pub open spec fn step_nanos(tick_skip: u32) -> int {
    (tick_skip * 1_000_000_000 + 60) / 120
}

/// A pacer after a step at `now`: the next one is due a step after this one was due,
/// or after it was taken if it was late.
pub open spec fn paced(p: PacerView, now: u64) -> PacerView {
    let due = if now > p.next {
        now
    } else {
        p.next
    };
    PacerView { next: (due + p.step) as u64, step: p.step }
}

/// How long to wait at `now` until the step is due.
pub open spec fn waits(p: PacerView, now: u64) -> int {
    if p.next > now {
        p.next - now
    } else {
        0
    }
}

impl Pacer {
    /// A pacer whose first step, of `tick_skip` ticks, is due at `now`.
    pub fn new(tick_skip: u32, now: u64) -> (p: Pacer)
        ensures
            p@.next == now,
            p@.step == step_nanos(tick_skip),
    {
        Pacer { next: now, step: (tick_skip as u64 * 1_000_000_000 + 60) / 120 }
    }

    /// How long to wait at `now` until the step is due.
    pub fn wait(&self, now: u64) -> (w: u64)
        ensures
            w == waits(self@, now),
            w == if self@.next > now {
                self@.next - now
            } else {
                0
            },
    {
        if self.next > now {
            self.next - now
        } else {
            0
        }
    }

    /// Takes the step at `now`, after any wait: the next one is due a step after
    /// this one was due, or after it was taken if it was late.
    pub fn pace(&mut self, now: u64)
        requires
            old(self)@.next + old(self)@.step <= u64::MAX,
            now + old(self)@.step <= u64::MAX,
        ensures
            final(self)@ == paced(old(self)@, now),
            final(self)@.step == old(self)@.step,
            final(self)@.next == (if now > old(self)@.next {
                now
            } else {
                old(self)@.next
            }) + old(self)@.step,
    {
        let due: u64 = if now > self.next {
            now
        } else {
            self.next
        };
        self.next = due + self.step;
    }
}

/// Steps are due at least a step apart, and a late step delays the ones after it
/// instead of letting them bunch up. A pacer that is waited for takes its step when it
/// is due and no later than it must.
pub proof fn law_steps_keep_apart(p: PacerView, now: u64)
    requires
        p.next + p.step <= u64::MAX,
        now + p.step <= u64::MAX,
    ensures
        paced(p, now).step == p.step,
        paced(p, now).next >= p.next + p.step,
        paced(p, now).next >= now + p.step,
        now <= p.next ==> paced(p, now).next == p.next + p.step,
        now >= p.next ==> paced(p, now).next == now + p.step,
        now + waits(p, now) >= p.next,
        now >= p.next ==> waits(p, now) == 0,
        now <= p.next ==> now + waits(p, now) == p.next,
{
}

/// There are 120 ticks to a second, up to half a nanosecond per step.
pub proof fn law_ticks_take_their_time(tick_skip: u32)
    ensures
        -60 <= 120 * step_nanos(tick_skip) - tick_skip * 1_000_000_000 <= 60,
{
}

} // verus!
