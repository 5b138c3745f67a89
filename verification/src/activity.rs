//! When an idle control center ends itself.

use vstd::prelude::*;

verus! {

/// After how many idle seconds the control center ends itself: ten minutes.
pub const IDLE_SECONDS: u64 = 600;

/// How often the control center looks whether it is idle, in seconds.
pub const IDLE_CHECK_SECONDS: u64 = 30;

/// How many requests are being handled, and when one last began or ended.
#[derive(Clone, Copy, Debug, PartialEq, Eq)]
pub struct Activity {
    pub active: usize,
    pub last: u64,
}

/// That a request begins or ends, with the time.
pub enum ActivityEvent {
    Begin(u64),
    End(u64),
}

impl ActivityEvent {
    /// When it happens.
    pub open spec fn time(self) -> u64 {
        match self {
            ActivityEvent::Begin(now) => now,
            ActivityEvent::End(now) => now,
        }
    }
}

impl Activity {
    /// The activity after an event. The count wraps around at its ends.
    pub open spec fn after(self, event: ActivityEvent) -> Activity {
        match event {
            ActivityEvent::Begin(now) => Activity { active: self.active.wrapping_add(1), last: now },
            ActivityEvent::End(now) => Activity { active: self.active.wrapping_sub(1), last: now },
        }
    }

    /// The activity after a row of events.
    pub open spec fn after_all(self, events: Seq<ActivityEvent>) -> Activity
        decreases events.len(),
    {
        if events.len() == 0 {
            self
        } else {
            self.after_all(events.drop_last()).after(events.last())
        }
    }

    /// Whether the control center has been idle for long enough.
    pub open spec fn idle(self, now: u64) -> bool {
        self.active == 0 && now - self.last >= IDLE_SECONDS
    }

    /// A control center that starts now.
    pub fn new(now: u64) -> (r: Self)
        ensures
            r == (Activity { active: 0, last: now }),
    {
        Activity { active: 0, last: now }
    }

    /// A request begins.
    pub fn begin(&mut self, now: u64)
        ensures
            *final(self) == old(self).after(ActivityEvent::Begin(now)),
    {
        self.active = self.active.wrapping_add(1);
        self.last = now;
    }

    /// A request ends.
    pub fn end(&mut self, now: u64)
        ensures
            *final(self) == old(self).after(ActivityEvent::End(now)),
    {
        self.active = self.active.wrapping_sub(1);
        self.last = now;
    }

    /// Whether the control center has been idle for long enough.
    pub fn expired(&self, now: u64) -> (r: bool)
        ensures
            r == self.idle(now),
    {
        self.active == 0 && now.saturating_sub(self.last) >= IDLE_SECONDS
    }
}

/// How many of the requests that began in `events` have not ended there.
pub open spec fn in_flight(events: Seq<ActivityEvent>) -> int
    decreases events.len(),
{
    if events.len() == 0 {
        0
    } else {
        in_flight(events.drop_last()) + match events.last() {
            ActivityEvent::Begin(_) => 1int,
            ActivityEvent::End(_) => -1int,
        }
    }
}

/// Whether no request ends before it begins, and no more are handled at once
/// than can be counted.
pub open spec fn orderly(events: Seq<ActivityEvent>) -> bool {
    forall|n: int| 0 <= n <= events.len() ==> 0 <= #[trigger] in_flight(events.take(n)) <= usize::MAX
}

proof fn lemma_count_is_in_flight(start: Activity, events: Seq<ActivityEvent>)
    requires
        start.active == 0,
        orderly(events),
    ensures
        start.after_all(events).active == in_flight(events),
        start.after_all(events).last == (if events.len() > 0 {
            events.last().time()
        } else {
            start.last
        }),
    decreases events.len(),
{
    if events.len() > 0 {
        let before = events.drop_last();
        assert forall|n: int| 0 <= n <= before.len() implies 0 <= #[trigger] in_flight(before.take(n)) <= usize::MAX by {
            assert(before.take(n) =~= events.take(n));
        }
        lemma_count_is_in_flight(start, before);
        assert(events.take(events.len() as int) =~= events);
        assert(0 <= in_flight(events.take(events.len() as int)) <= usize::MAX);
    }
}

/// A control center ends itself only when every request that began has ended,
/// and only when nothing has begun or ended for ten minutes.
pub proof fn law_only_an_idle_control_center_ends(started: u64, events: Seq<ActivityEvent>, now: u64)
    requires
        orderly(events),
        (Activity { active: 0, last: started }).after_all(events).idle(now),
    ensures
        in_flight(events) == 0,
        events.len() > 0 ==> now - events.last().time() >= IDLE_SECONDS,
        events.len() == 0 ==> now - started >= IDLE_SECONDS,
{
    lemma_count_is_in_flight(Activity { active: 0, last: started }, events);
}

/// A control center on which every request has ended and on which nothing has begun or
/// ended for ten minutes ends itself, and no other does. A request that begins is one
/// more to wait for, and one that ends is one less.
pub proof fn law_an_idle_control_center_ends_after_ten_minutes(
    started: u64,
    events: Seq<ActivityEvent>,
    now: u64,
)
    requires
        orderly(events),
    ensures
        (Activity { active: 0, last: started }).after_all(events).idle(now) <==> in_flight(events) == 0 && now - (
        match (events.len() > 0, events.last()) {
            (false, _) => started,
            (true, ActivityEvent::Begin(at)) => at,
            (true, ActivityEvent::End(at)) => at,
        }) >= 10 * 60,
{
    lemma_count_is_in_flight(Activity { active: 0, last: started }, events);
}

/// How many requests are in flight grows by one with each that begins and shrinks by one
/// with each that ends.
pub proof fn law_requests_in_flight_are_counted(events: Seq<ActivityEvent>, now: u64)
    ensures
        in_flight(Seq::<ActivityEvent>::empty()) == 0,
        in_flight(events.push(ActivityEvent::Begin(now))) == in_flight(events) + 1,
        in_flight(events.push(ActivityEvent::End(now))) == in_flight(events) - 1,
{
    assert(events.push(ActivityEvent::Begin(now)).drop_last() =~= events);
    assert(events.push(ActivityEvent::End(now)).drop_last() =~= events);
}

} // verus!
