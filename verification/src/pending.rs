//! The requests of one connection that wait for their answers.

use vstd::prelude::*;
use crate::string_map::{keys_of, StringMap};

verus! {

/// The requests of one connection that wait for their answers, each with the
/// means to hand its answer over, and whether the connection has died.
#[derive(Debug, PartialEq)]
pub struct Pending<S> {
    pub waiting: StringMap<S>,
    pub dead: bool,
}

impl<S> Pending<S> {
    /// The identifiers of the requests that wait.
    pub open spec fn ids(self) -> Set<Seq<char>> {
        Set::new(|id: Seq<char>| self.waiting.at(id) is Some)
    }

    /// A live connection on which nothing waits.
    pub fn new() -> (r: Self)
        ensures
            r.waiting.entries() == Seq::<(String, S)>::empty(),
            r.ids() == Set::<Seq<char>>::empty(),
            !r.dead,
    {
        let r = Pending { waiting: StringMap::new(), dead: false };
        assert(r.ids() =~= Set::<Seq<char>>::empty());
        r
    }

    /// Lets the request with this identifier wait.
    pub fn register(&mut self, id: String, sender: S) -> (r: Option<S>)
        ensures
            r == old(self).waiting.at(id@),
            final(self).waiting.at(id@) == Some(sender),
            forall|other: Seq<char>|
                other != id@ ==> #[trigger] final(self).waiting.at(other) == old(self).waiting.at(other),
            final(self).ids() == waiting_after(old(self).ids(), PendingEvent::Registered(id@)),
            final(self).dead == old(self).dead,
    {
        let ghost before = *self;
        let r = self.waiting.insert(id, sender);
        assert(self.ids() =~= before.ids().insert(id@));
        r
    }

    /// Takes the request with this identifier out: it has been answered, or was
    /// never sent. An identifier that nothing waits for changes nothing.
    pub fn take(&mut self, id: &str) -> (r: Option<S>)
        ensures
            r == old(self).waiting.at(id@),
            final(self).waiting.at(id@) is None,
            forall|other: Seq<char>|
                other != id@ ==> #[trigger] final(self).waiting.at(other) == old(self).waiting.at(other),
            r is None ==> *final(self) == *old(self),
            final(self).ids() == waiting_after(old(self).ids(), PendingEvent::Taken(id@)),
            r is Some <==> hands_over(old(self).ids(), PendingEvent::Taken(id@), id@),
            final(self).dead == old(self).dead,
    {
        let ghost before = *self;
        let r = self.waiting.remove(id);
        assert(self.ids() =~= before.ids().remove(id@));
        r
    }

    /// Marks the connection as dead and takes out everything that waits on it.
    pub fn fail(&mut self) -> (r: Vec<(String, S)>)
        ensures
            r@ == old(self).waiting.entries(),
            final(self).waiting.entries() == Seq::<(String, S)>::empty(),
            final(self).ids() == waiting_after(old(self).ids(), PendingEvent::Failed),
            forall|id: Seq<char>|
                hands_over(old(self).ids(), PendingEvent::Failed, id) <==> #[trigger] keys_of(r@).contains(id),
            final(self).dead,
    {
        let ghost before = *self;
        self.dead = true;
        let mut waiting: StringMap<S> = StringMap::new();
        std::mem::swap(&mut waiting, &mut self.waiting);
        assert(self.ids() =~= Set::<Seq<char>>::empty());
        let r = waiting.into_entries();
        proof {
            assert forall|id: Seq<char>|
                before.ids().contains(id) <==> #[trigger] keys_of(r@).contains(id) by {
                assert(keys_of(r@) == before.waiting.keys());
            }
        }
        r
    }

    /// Marks the connection as dead.
    pub fn mark_dead(&mut self)
        ensures
            final(self).dead,
            final(self).waiting == old(self).waiting,
    {
        self.dead = true;
    }
}

/// What can happen on a connection.
pub enum PendingEvent {
    /// A request is sent.
    Registered(Seq<char>),
    /// A frame with this identifier arrives, or the request could not be sent.
    Taken(Seq<char>),
    /// The connection fails.
    Failed,
}

/// Which requests wait after an event.
pub open spec fn waiting_after(waiting: Set<Seq<char>>, event: PendingEvent) -> Set<Seq<char>> {
    match event {
        PendingEvent::Registered(id) => waiting.insert(id),
        PendingEvent::Taken(id) => waiting.remove(id),
        PendingEvent::Failed => Set::empty(),
    }
}

/// Which requests wait after a row of events.
pub open spec fn waiting_after_all(waiting: Set<Seq<char>>, events: Seq<PendingEvent>) -> Set<Seq<char>>
    decreases events.len(),
{
    if events.len() == 0 {
        waiting
    } else {
        waiting_after_all(waiting_after(waiting, events[0]), events.drop_first())
    }
}

/// Whether an event hands something over to the waiter for `id`.
pub open spec fn hands_over(waiting: Set<Seq<char>>, event: PendingEvent, id: Seq<char>) -> bool {
    waiting.contains(id) && (event == PendingEvent::Taken(id) || event == PendingEvent::Failed)
}

/// How often something is handed over to the waiter for `id` while `events`
/// happen.
pub open spec fn handed_over(waiting: Set<Seq<char>>, events: Seq<PendingEvent>, id: Seq<char>) -> nat
    decreases events.len(),
{
    if events.len() == 0 {
        0
    } else {
        (if hands_over(waiting, events[0], id) {
            1nat
        } else {
            0nat
        }) + handed_over(waiting_after(waiting, events[0]), events.drop_first(), id)
    }
}

/// How often a request with this identifier is registered in `events`.
pub open spec fn registered(events: Seq<PendingEvent>, id: Seq<char>) -> nat
    decreases events.len(),
{
    if events.len() == 0 {
        0
    } else {
        (if events[0] == PendingEvent::Registered(id) {
            1nat
        } else {
            0nat
        }) + registered(events.drop_first(), id)
    }
}

/// A request that is registered once is handed an answer or a failure once at
/// most, whatever arrives; what was never registered is handed nothing.
pub proof fn law_no_request_is_answered_twice(
    waiting: Set<Seq<char>>,
    events: Seq<PendingEvent>,
    id: Seq<char>,
)
    ensures
        handed_over(waiting, events, id) <= registered(events, id) + (if waiting.contains(id) {
            1nat
        } else {
            0nat
        }),
    decreases events.len(),
{
    if events.len() > 0 {
        law_no_request_is_answered_twice(waiting_after(waiting, events[0]), events.drop_first(), id);
    }
}

/// A request that waits is handed its answer when a frame with its identifier arrives,
/// and a failure when the connection fails, and waits no longer; no frame with another
/// identifier changes anything for it. A request that does not wait is handed nothing.
pub proof fn law_answers_go_to_those_who_wait(waiting: Set<Seq<char>>, id: Seq<char>, other: Seq<char>)
    ensures
        hands_over(waiting, PendingEvent::Taken(id), id) <==> waiting.contains(id),
        hands_over(waiting, PendingEvent::Failed, id) <==> waiting.contains(id),
        !hands_over(waiting, PendingEvent::Registered(other), id),
        other != id ==> !hands_over(waiting, PendingEvent::Taken(other), id),
        waiting_after(waiting, PendingEvent::Registered(id)).contains(id),
        !waiting_after(waiting, PendingEvent::Taken(id)).contains(id),
        !waiting_after(waiting, PendingEvent::Failed).contains(id),
        other != id ==> (waiting_after(waiting, PendingEvent::Registered(other)).contains(id) <==> waiting.contains(id)),
        other != id ==> (waiting_after(waiting, PendingEvent::Taken(other)).contains(id) <==> waiting.contains(id)),
{
}

} // verus!
