use vstd::prelude::*;
use vstd::seq_lib::*;
use vstd::std_specs::vec::vec_index_mut;
use crate::math::Ray;
use crate::world::EntityID;

verus! {

/// Identifies one of the fixed pipeline systems that consume engine events.
#[derive(Clone, Copy, Debug, PartialEq, Eq, Structural)]
pub enum SystemType {
    RenderSystem,
    PhysicsSystem,
}

/// Payload of a ray-cast request: a caller-chosen request id and the ray.
#[derive(Clone, Copy, Debug)]
pub struct CastRayDat {
    pub id: usize,
    pub ray: Ray,
}

/// Outcome of a ray cast: the request id it answers and the entity hit first
/// along the ray, if any.
#[derive(Clone, Copy, Debug, PartialEq)]
pub struct CastedRay {
    pub id: usize,
    pub entity: Option<EntityID>,
}

/// Semantic engine events, as opposed to raw window events: those stay with
/// the input collaborator and only their translation reaches the bus.
#[derive(Clone, Copy, Debug)]
pub enum EventType {
    EntityCreated(EntityID),
    EntityRemoved(EntityID),
    CastRay(CastRayDat),
    RayCasted(CastedRay),
}

/// Mathematical image of an [`Event`]: its id, payload and the set of systems
/// still blocked on it, the latter as a sequence in registration order.
pub struct EventView {
    pub id: u64,
    pub event_type: EventType,
    pub tags: Seq<SystemType>,
}

/// An engine event. The id is handed out once by the owning
/// [`EventManager`] and is what pending-set bookkeeping goes by; the tag list
/// records which systems deferred the event and are owed a redelivery.
#[derive(Debug)]
pub struct Event {
    pub id: u64,
    pub event_type: EventType,
    pub pending_systems: Vec<SystemType>,
}

impl View for Event {
    type V = EventView;

    open spec fn view(&self) -> EventView {
        EventView { id: self.id, event_type: self.event_type, tags: self.pending_systems@ }
    }
}

/// First position of `t` in `v`, or `None` when absent.
fn tag_index(v: &Vec<SystemType>, t: SystemType) -> (r: Option<usize>)
    ensures
        match r {
            Some(i) => i < v@.len() && v@[i as int] == t && (forall|j: int|
                0 <= j < i ==> v@[j] != t),
            None => !v@.contains(t),
        },
{
    let mut i: usize = 0;
    while i < v.len()
        invariant
            i <= v@.len(),
            forall|j: int| 0 <= j < i ==> v@[j] != t,
        decreases v@.len() - i,
    {
        if v[i] == t {
            return Some(i);
        }
        i += 1;
    }
    None
}

impl Event {
    /// The event is well formed when no system is registered twice.
    pub open spec fn wf(self) -> bool {
        self@.tags.no_duplicates()
    }

    /// A fresh event carries no pending systems. Ids are normally assigned by
    /// [`EventManager::create_event`], which keeps them unique.
    pub fn new(id: u64, event_type: EventType) -> (e: Event)
        ensures
            e@.id == id,
            e@.event_type == event_type,
            e@.tags == Seq::<SystemType>::empty(),
            e.wf(),
    {
        Event { id, event_type, pending_systems: Vec::new() }
    }

    /// Record that `register_system` is not yet done with this event; a
    /// second registration of the same system changes nothing.
    pub fn register_pending_system(&mut self, register_system: SystemType)
        ensures
            final(self)@.id == old(self)@.id,
            final(self)@.event_type == old(self)@.event_type,
            final(self)@.tags == (if old(self)@.tags.contains(register_system) {
                old(self)@.tags
            } else {
                old(self)@.tags.push(register_system)
            }),
            old(self).wf() ==> final(self).wf(),
    {
        if tag_index(&self.pending_systems, register_system).is_some() {
            return ;
        }
        self.pending_systems.push(register_system);
        proof {
            if old(self).wf() {
                assert(final(self)@.tags.no_duplicates()) by {
                    let t = final(self)@.tags;
                    let t0 = old(self)@.tags;
                    assert forall|p: int, q: int|
                        0 <= p < t.len() && 0 <= q < t.len() && p != q implies t[p] != t[q] by {
                        if p < t0.len() && q < t0.len() {
                            assert(t0.no_duplicates());
                        } else if p == t0.len() {
                            assert(!t0.contains(register_system));
                            assert(t0[q] != register_system);
                        } else if q == t0.len() {
                            assert(!t0.contains(register_system));
                            assert(t0[p] != register_system);
                        }
                    }
                }
            }
        }
    }

    /// Drop `remove_system` from the pending tags; absent tags are left
    /// alone. Library events never register a system twice, so removing the
    /// first occurrence removes the only one.
    pub fn remove_pending_system(&mut self, remove_system: SystemType)
        ensures
            final(self)@.id == old(self)@.id,
            final(self)@.event_type == old(self)@.event_type,
            final(self)@.tags == old(self)@.tags.remove_value(remove_system),
            old(self).wf() ==> final(self).wf(),
    {
        proof {
            self.pending_systems@.index_of_first_ensures(remove_system);
        }
        match tag_index(&self.pending_systems, remove_system) {
            Some(i) => {
                self.pending_systems.remove(i);
                proof {
                    let t0 = old(self)@.tags;
                    assert(t0.index_of_first(remove_system) == Some(i as int));
                    if old(self).wf() {
                        assert(final(self)@.tags.no_duplicates()) by {
                            let t = final(self)@.tags;
                            assert forall|p: int, q: int|
                                0 <= p < t.len() && 0 <= q < t.len() && p != q implies t[p]
                                != t[q] by {
                                assert(t0.no_duplicates());
                            }
                        }
                    }
                }
            },
            None => {
                proof {
                    assert(old(self)@.tags.index_of_first(remove_system) is None);
                }
            },
        }
    }

    /// The systems still blocked on this event, in registration order.
    pub fn get_pending_system(&self) -> (r: &Vec<SystemType>)
        ensures
            r@ == self@.tags,
    {
        &self.pending_systems
    }

    /// Whether `system` still has to act on this event.
    pub fn is_pending_for(&self, system: SystemType) -> (r: bool)
        ensures
            r == self@.tags.contains(system),
    {
        tag_index(&self.pending_systems, system).is_some()
    }

    /// A copy of the event, equal to it in every observable way.
    pub fn duplicate(&self) -> (r: Event)
        ensures
            r@ == self@,
    {
        let mut tags: Vec<SystemType> = Vec::new();
        let mut i: usize = 0;
        while i < self.pending_systems.len()
            invariant
                i <= self.pending_systems@.len(),
                tags@ == self.pending_systems@.take(i as int),
            decreases self.pending_systems@.len() - i,
        {
            tags.push(self.pending_systems[i]);
            proof {
                assert(tags@ =~= self.pending_systems@.take(i + 1));
            }
            i += 1;
        }
        proof {
            assert(tags@ =~= self.pending_systems@);
        }
        Event { id: self.id, event_type: self.event_type, pending_systems: tags }
    }
}

/// The views of a sequence of events, element by element.
pub open spec fn event_views(s: Seq<Event>) -> Seq<EventView> {
    s.map_values(|e: Event| e@)
}

/// First position in `v` of an event with the given id, or `None`.
fn event_index_by_id(v: &Vec<Event>, id: u64) -> (r: Option<usize>)
    ensures
        match r {
            Some(i) => i < v@.len() && v@[i as int]@.id == id && (forall|j: int|
                0 <= j < i ==> v@[j]@.id != id),
            None => forall|j: int| 0 <= j < v@.len() ==> v@[j]@.id != id,
        },
{
    let mut i: usize = 0;
    while i < v.len()
        invariant
            i <= v@.len(),
            forall|j: int| 0 <= j < i ==> v@[j]@.id != id,
        decreases v@.len() - i,
    {
        if v[i].id == id {
            return Some(i);
        }
        i += 1;
    }
    None
}

/// Every id occurs at most once in `s`.
pub open spec fn ids_distinct(s: Seq<EventView>) -> bool {
    forall|i: int, j: int| 0 <= i < j < s.len() ==> s[i].id != s[j].id
}

/// Tracked (pending or staged) events name at least one blocked system and
/// register no system twice.
pub open spec fn tracked_tags_wf(s: Seq<EventView>) -> bool {
    forall|i: int|
        0 <= i < s.len() ==> ((#[trigger] s[i]).tags.len() > 0 && s[i].tags.no_duplicates())
}

/// Buffered events register no system twice.
pub open spec fn buffer_tags_wf(s: Seq<EventView>) -> bool {
    forall|i: int| 0 <= i < s.len() ==> (#[trigger] s[i]).tags.no_duplicates()
}

/// `post` is `pre` with `t` newly registered on it: same id and payload, and
/// `t` appended to the tags unless it was already there.
pub open spec fn registers(pre: EventView, post: EventView, t: SystemType) -> bool {
    &&& post.id == pre.id
    &&& post.event_type == pre.event_type
    &&& post.tags == (if pre.tags.contains(t) {
        pre.tags
    } else {
        pre.tags.push(t)
    })
}

/// Registering a system on one tracked event keeps the tracked collection
/// well formed and leaves every id in place.
proof fn lemma_register_update_wf(pre: Seq<EventView>, post: Seq<EventView>, i: int, t: SystemType)
    requires
        0 <= i < pre.len(),
        post.len() == pre.len(),
        forall|k: int| 0 <= k < pre.len() && k != i ==> post[k] == #[trigger] pre[k],
        registers(pre[i], post[i], t),
        ids_distinct(pre),
        tracked_tags_wf(pre),
    ensures
        ids_distinct(post),
        tracked_tags_wf(post),
        forall|k: int| 0 <= k < post.len() ==> (#[trigger] post[k]).id == pre[k].id,
{
    assert forall|k: int| 0 <= k < post.len() implies (#[trigger] post[k]).id == pre[k].id by {}
    assert(post[i].tags.no_duplicates()) by {
        if !pre[i].tags.contains(t) {
            let t0 = pre[i].tags;
            let t1 = post[i].tags;
            assert forall|p: int, q: int|
                0 <= p < t1.len() && 0 <= q < t1.len() && p != q implies t1[p] != t1[q] by {
                if p < t0.len() && q < t0.len() {
                    assert(t0.no_duplicates());
                } else if p == t0.len() {
                    assert(t0[q] != t);
                } else if q == t0.len() {
                    assert(t0[p] != t);
                }
            }
        }
    }
}

/// Removing one tracked event keeps the tracked collection well formed.
proof fn lemma_remove_keeps_wf(pre: Seq<EventView>, i: int)
    requires
        0 <= i < pre.len(),
        ids_distinct(pre),
        tracked_tags_wf(pre),
    ensures
        ids_distinct(pre.remove(i)),
        tracked_tags_wf(pre.remove(i)),
{
    pre.remove_ensures(i);
    let post = pre.remove(i);
    assert forall|p: int, q: int| 0 <= p < q < post.len() implies (#[trigger] post[p]).id
        != (#[trigger] post[q]).id by {
        let p0: int = if p < i { p } else { p + 1 };
        let q0: int = if q < i { q } else { q + 1 };
        assert(post[p] == pre[p0]);
        assert(post[q] == pre[q0]);
        assert(pre[p0].id != pre[q0].id);
    }
    assert forall|k: int| 0 <= k < post.len() implies ((#[trigger] post[k]).tags.len() > 0
        && post[k].tags.no_duplicates()) by {
        if k < i {
            assert(post[k] == pre[k]);
        } else {
            assert(post[k] == pre[k + 1]);
        }
    }
}

/// The double-buffered event bus.
///
/// One buffer (the current one) is drained by the systems during a cycle
/// while the other accumulates events for the next cycle; [`EventManager::clear`]
/// swaps their roles. A disjoint pending collection survives the swap and is
/// unioned into every delivery until the deferring systems release each
/// event; events newly deferred during a cycle wait in a staging list so they
/// are not retried within the cycle that deferred them.
#[derive(Debug)]
pub struct EventManager {
    which_buff: bool,
    engine_events: Vec<Event>,
    engine_events1: Vec<Event>,
    pending_events: Vec<Event>,
    pending_events_for_the_next_cycle: Vec<Event>,
    next_event_id: u64,
}

impl EventManager {
    /// Events delivered to systems in the running cycle (without pending).
    pub closed spec fn current_buffer(self) -> Seq<EventView> {
        if self.which_buff {
            event_views(self.engine_events@)
        } else {
            event_views(self.engine_events1@)
        }
    }

    /// Events accumulating for the next cycle.
    pub closed spec fn next_buffer(self) -> Seq<EventView> {
        if self.which_buff {
            event_views(self.engine_events1@)
        } else {
            event_views(self.engine_events@)
        }
    }

    /// The live pending collection, redelivered every cycle.
    pub closed spec fn pending(self) -> Seq<EventView> {
        event_views(self.pending_events@)
    }

    /// Events deferred during the running cycle; they join `pending` at the
    /// next [`EventManager::clear`].
    pub closed spec fn staged(self) -> Seq<EventView> {
        event_views(self.pending_events_for_the_next_cycle@)
    }

    /// What [`EventManager::get_engine_events`] hands the systems: the
    /// current buffer followed by the full pending collection.
    pub open spec fn delivered(self) -> Seq<EventView> {
        self.current_buffer() + self.pending()
    }

    /// The id the next created event will get.
    pub closed spec fn next_id(self) -> u64 {
        self.next_event_id
    }

    /// Whether an event with this id sits in the pending collection.
    pub open spec fn has_pending(self, id: u64) -> bool {
        exists|i: int| 0 <= i < self.pending().len() && #[trigger] self.pending()[i].id == id
    }

    /// Whether an event with this id sits in the staging list.
    pub open spec fn has_staged(self, id: u64) -> bool {
        exists|i: int| 0 <= i < self.staged().len() && #[trigger] self.staged()[i].id == id
    }

    /// The position of the pending event with this id; meaningful under
    /// `wf()` and `has_pending(id)`, where it is unique.
    pub open spec fn pending_index_of(self, id: u64) -> int {
        choose|i: int| 0 <= i < self.pending().len() && #[trigger] self.pending()[i].id == id
    }

    /// Bus invariant: ids are unique within the pending collection and the
    /// staging list and shared by neither; a tracked event always names at
    /// least one blocked system; no event registers a system twice.
    pub open spec fn wf(self) -> bool {
        &&& ids_distinct(self.pending())
        &&& ids_distinct(self.staged())
        &&& (forall|i: int, j: int|
            0 <= i < self.pending().len() && 0 <= j < self.staged().len()
                ==> #[trigger] self.pending()[i].id != #[trigger] self.staged()[j].id)
        &&& tracked_tags_wf(self.pending())
        &&& tracked_tags_wf(self.staged())
        &&& buffer_tags_wf(self.current_buffer())
        &&& buffer_tags_wf(self.next_buffer())
    }

    /// An empty bus.
    pub fn new() -> (em: EventManager)
        ensures
            em.wf(),
            em.current_buffer() == Seq::<EventView>::empty(),
            em.next_buffer() == Seq::<EventView>::empty(),
            em.pending() == Seq::<EventView>::empty(),
            em.staged() == Seq::<EventView>::empty(),
            em.next_id() == 0,
    {
        let em = EventManager {
            which_buff: true,
            engine_events: Vec::new(),
            engine_events1: Vec::new(),
            pending_events: Vec::new(),
            pending_events_for_the_next_cycle: Vec::new(),
            next_event_id: 0,
        };
        proof {
            assert(em.current_buffer() =~= Seq::<EventView>::empty());
            assert(em.next_buffer() =~= Seq::<EventView>::empty());
            assert(em.pending() =~= Seq::<EventView>::empty());
            assert(em.staged() =~= Seq::<EventView>::empty());
        }
        em
    }

    /// Mint an event with a fresh, never reused id.
    pub fn create_event(&mut self, event_type: EventType) -> (e: Event)
        requires
            old(self).next_id() < u64::MAX,
        ensures
            e@.id == old(self).next_id(),
            e@.event_type == event_type,
            e@.tags == Seq::<SystemType>::empty(),
            e.wf(),
            final(self).next_id() == old(self).next_id() + 1,
            final(self).current_buffer() == old(self).current_buffer(),
            final(self).next_buffer() == old(self).next_buffer(),
            final(self).pending() == old(self).pending(),
            final(self).staged() == old(self).staged(),
            final(self).wf() == old(self).wf(),
    {
        let id = self.next_event_id;
        self.next_event_id = self.next_event_id + 1;
        Event::new(id, event_type)
    }

    /// Push an event for delivery in the running cycle; producers that feed
    /// the bus at the top of a tick use this.
    pub fn add_event(&mut self, event: Event)
        ensures
            final(self).current_buffer() == old(self).current_buffer().push(event@),
            final(self).next_buffer() == old(self).next_buffer(),
            final(self).pending() == old(self).pending(),
            final(self).staged() == old(self).staged(),
            final(self).next_id() == old(self).next_id(),
            old(self).wf() && event.wf() ==> final(self).wf(),
    {
        if self.which_buff {
            self.engine_events.push(event);
        } else {
            self.engine_events1.push(event);
        }
        proof {
            assert(self.current_buffer() =~= old(self).current_buffer().push(event@));
            if old(self).wf() && event.wf() {
                assert forall|k: int| 0 <= k < self.current_buffer().len() implies (
                #[trigger] self.current_buffer()[k]).tags.no_duplicates() by {
                    if k < old(self).current_buffer().len() {
                        assert(self.current_buffer()[k] == old(self).current_buffer()[k]);
                    } else {
                        assert(self.current_buffer()[k] == event@);
                    }
                }
            }
        }
    }

    /// Push an event produced mid-cycle by a system; it lands in the buffer
    /// for the next cycle, so what the running cycle sees does not change.
    pub fn add_engine_event(&mut self, event: Event)
        ensures
            add_engine_event_rel(*old(self), *final(self), event@),
            final(self).delivered() == old(self).delivered(),
            final(self).next_id() == old(self).next_id(),
            old(self).wf() && event.wf() ==> final(self).wf(),
    {
        if !self.which_buff {
            self.engine_events.push(event);
        } else {
            self.engine_events1.push(event);
        }
        proof {
            assert(self.next_buffer() =~= old(self).next_buffer().push(event@));
            if old(self).wf() && event.wf() {
                assert forall|k: int| 0 <= k < self.next_buffer().len() implies (
                #[trigger] self.next_buffer()[k]).tags.no_duplicates() by {
                    if k < old(self).next_buffer().len() {
                        assert(self.next_buffer()[k] == old(self).next_buffer()[k]);
                    } else {
                        assert(self.next_buffer()[k] == event@);
                    }
                }
            }
        }
    }

    /// The events a system must look at this cycle: a snapshot of the
    /// current buffer followed by every pending event. An event can occur
    /// twice (just delivered and already pending), so consumers de-duplicate
    /// by id — see [`dedup_events_by_id`].
    pub fn get_engine_events(&self) -> (r: Vec<Event>)
        ensures
            event_views(r@) == self.delivered(),
    {
        let mut out: Vec<Event> = Vec::new();
        let buf = if self.which_buff {
            &self.engine_events
        } else {
            &self.engine_events1
        };
        let ghost cur = self.current_buffer();
        let ghost pen = self.pending();
        let mut i: usize = 0;
        while i < buf.len()
            invariant
                i <= buf@.len(),
                event_views(buf@) == cur,
                out@.len() == i,
                forall|k: int| 0 <= k < i ==> #[trigger] out@[k]@ == cur[k],
            decreases buf@.len() - i,
        {
            out.push(buf[i].duplicate());
            proof {
                assert(event_views(buf@)[i as int] == buf@[i as int]@);
            }
            i += 1;
        }
        let mut j: usize = 0;
        while j < self.pending_events.len()
            invariant
                j <= self.pending_events@.len(),
                pen == event_views(self.pending_events@),
                cur == self.current_buffer(),
                out@.len() == cur.len() + j,
                forall|k: int| 0 <= k < cur.len() ==> #[trigger] out@[k]@ == cur[k],
                forall|k: int| 0 <= k < j ==> #[trigger] out@[cur.len() + k]@ == pen[k],
            decreases self.pending_events@.len() - j,
        {
            out.push(self.pending_events[j].duplicate());
            proof {
                assert(event_views(self.pending_events@)[j as int]
                    == self.pending_events@[j as int]@);
            }
            j += 1;
        }
        proof {
            assert forall|k: int| 0 <= k < out@.len() implies event_views(out@)[k]
                == self.delivered()[k] by {
                assert(event_views(out@)[k] == out@[k]@);
                if k >= cur.len() {
                    assert(out@[cur.len() + (k - cur.len())]@ == pen[k - cur.len()]);
                }
            }
            assert(event_views(out@) =~= self.delivered());
        }
        out
    }

    /// Defer an event for `system_type`. If the event is already tracked
    /// (pending or staged), the system is registered on the tracked copy —
    /// registering twice changes nothing. A newly deferred event goes to the
    /// staging list so it is not retried in the very cycle that deferred it.
    pub fn add_pending(&mut self, event: Event, system_type: SystemType)
        requires
            old(self).wf(),
            event.wf(),
        ensures
            final(self).wf(),
            add_pending_rel(*old(self), *final(self), event@, system_type),
            final(self).current_buffer() == old(self).current_buffer(),
            final(self).next_buffer() == old(self).next_buffer(),
            final(self).next_id() == old(self).next_id(),
    {
        proof {
            assert forall|k: int| 0 <= k < old(self).pending().len() implies #[trigger] old(
                self,
            ).pending()[k] == old(self).pending_events@[k]@ by {}
            assert forall|k: int| 0 <= k < old(self).staged().len() implies #[trigger] old(
                self,
            ).staged()[k] == old(self).pending_events_for_the_next_cycle@[k]@ by {}
        }
        match event_index_by_id(&self.pending_events, event.id) {
            Some(i) => {
                let ev = vec_index_mut(&mut self.pending_events, i);
                ev.register_pending_system(system_type);
                proof {
                    let p0 = old(self).pending();
                    assert(p0[i as int].id == event@.id);
                    assert(old(self).has_pending(event@.id));
                    assert forall|k: int| 0 <= k < p0.len() implies #[trigger] self.pending()[k]
                        == self.pending_events@[k]@ by {}
                    assert forall|k: int|
                        0 <= k < p0.len() && k != i as int implies self.pending()[k] == #[trigger] p0[k] by {}
                    assert(registers(p0[i as int], self.pending()[i as int], system_type));
                    assert forall|k: int|
                        0 <= k < p0.len() && p0[k].id == event@.id implies registers(
                        p0[k],
                        self.pending()[k],
                        system_type,
                    ) by {
                        if k != i as int {
                            assert(p0[k].id != p0[i as int].id);
                        }
                    }
                    assert(self.staged() =~= old(self).staged());
                    lemma_register_update_wf(p0, self.pending(), i as int, system_type);
                    assert forall|p: int, q: int|
                        0 <= p < self.pending().len() && 0 <= q < self.staged().len() implies (
                    #[trigger] self.pending()[p].id) != (#[trigger] self.staged()[q].id) by {
                        assert(self.pending()[p].id == p0[p].id);
                        assert(self.staged()[q] == old(self).staged()[q]);
                        assert(p0[p].id != old(self).staged()[q].id);
                    }
                }
            },
            None => {
                match event_index_by_id(&self.pending_events_for_the_next_cycle, event.id) {
                    Some(i) => {
                        let ev = vec_index_mut(&mut self.pending_events_for_the_next_cycle, i);
                        ev.register_pending_system(system_type);
                        proof {
                            let s0 = old(self).staged();
                            assert(!old(self).has_pending(event@.id));
                            assert(s0[i as int].id == event@.id);
                            assert(old(self).has_staged(event@.id));
                            assert forall|k: int| 0 <= k < s0.len() implies #[trigger] self.staged(
                            )[k] == self.pending_events_for_the_next_cycle@[k]@ by {}
                            assert forall|k: int|
                                0 <= k < s0.len() && k != i as int implies self.staged()[k]
                                == #[trigger] s0[k] by {}
                            assert(registers(s0[i as int], self.staged()[i as int], system_type));
                            assert forall|k: int|
                                0 <= k < s0.len() && s0[k].id == event@.id implies registers(
                                s0[k],
                                self.staged()[k],
                                system_type,
                            ) by {
                                if k != i as int {
                                    assert(s0[k].id != s0[i as int].id);
                                }
                            }
                            assert(self.pending() =~= old(self).pending());
                            lemma_register_update_wf(s0, self.staged(), i as int, system_type);
                            assert forall|p: int, q: int|
                                0 <= p < self.pending().len() && 0 <= q < self.staged().len()
                                implies (#[trigger] self.pending()[p].id) != (
                            #[trigger] self.staged()[q].id) by {
                                assert(self.staged()[q].id == s0[q].id);
                                assert(self.pending()[p] == old(self).pending()[p]);
                                assert(old(self).pending()[p].id != s0[q].id);
                            }
                        }
                    },
                    None => {
                        let mut e = event;
                        e.register_pending_system(system_type);
                        self.pending_events_for_the_next_cycle.push(e);
                        proof {
                            assert(!old(self).has_pending(event@.id));
                            assert(!old(self).has_staged(event@.id));
                            assert(self.pending() =~= old(self).pending());
                            assert forall|k: int| 0 <= k < self.staged().len() implies #[trigger] self.staged()[k]
                                == self.pending_events_for_the_next_cycle@[k]@ by {}
                            assert(self.staged() =~= old(self).staged().push(e@));
                            assert(self.staged().last() == e@);
                            if !event@.tags.contains(system_type) {
                                assert(e@.tags == event@.tags.push(system_type));
                                assert(e@.tags[e@.tags.len() - 1] == system_type);
                            }
                            assert(e@.tags.contains(system_type));
                            assert(self.staged().take(old(self).staged().len() as int)
                                =~= old(self).staged());
                            assert(registers(event@, self.staged().last(), system_type));
                            let s0 = old(self).staged();
                            assert(e@.tags.no_duplicates());
                            assert(e@.tags.len() > 0);
                            assert(e@.id == event@.id);
                            assert forall|p: int, q: int|
                                0 <= p < q < self.staged().len() implies (
                            #[trigger] self.staged()[p].id) != (#[trigger] self.staged()[q].id) by {
                                if q < s0.len() {
                                    assert(s0[p].id != s0[q].id);
                                } else {
                                    assert(self.staged()[q] == e@);
                                    assert(s0[p].id != event@.id);
                                }
                            }
                            assert forall|k: int|
                                0 <= k < self.staged().len() implies ((
                            #[trigger] self.staged()[k]).tags.len() > 0
                                && self.staged()[k].tags.no_duplicates()) by {
                                if k < s0.len() {
                                    assert(self.staged()[k] == s0[k]);
                                }
                            }
                            assert forall|p: int, q: int|
                                0 <= p < self.pending().len() && 0 <= q < self.staged().len()
                                implies (#[trigger] self.pending()[p].id) != (
                            #[trigger] self.staged()[q].id) by {
                                assert(self.pending()[p] == old(self).pending()[p]);
                                if q < s0.len() {
                                    assert(self.staged()[q] == s0[q]);
                                    assert(old(self).pending()[p].id != s0[q].id);
                                } else {
                                    assert(self.staged()[q] == e@);
                                    assert(old(self).pending()[p].id != event@.id);
                                }
                            }
                        }
                    },
                }
            },
        }
    }

    /// Release `system_type`'s hold on the pending event with this id; when
    /// the last blocked system lets go the event is evicted from the pending
    /// collection. Calling this for an untracked id is a programming error,
    /// so the id is required to be tracked.
    pub fn remove_pending(&mut self, event_id: u64, system_type: SystemType)
        requires
            old(self).wf(),
            old(self).has_pending(event_id),
        ensures
            final(self).wf(),
            remove_pending_rel(*old(self), *final(self), event_id, system_type),
            final(self).current_buffer() == old(self).current_buffer(),
            final(self).next_buffer() == old(self).next_buffer(),
            final(self).next_id() == old(self).next_id(),
    {
        let i = match event_index_by_id(&self.pending_events, event_id) {
            Some(i) => i,
            None => {
                proof {
                    assert(false);
                }
                0
            },
        };
        proof {
            assert forall|k: int| 0 <= k < old(self).pending().len() implies #[trigger] old(
                self,
            ).pending()[k] == old(self).pending_events@[k]@ by {}
            let pi = old(self).pending_index_of(event_id);
            assert(0 <= pi < old(self).pending().len() && old(self).pending()[pi].id == event_id);
            assert(old(self).pending()[i as int].id == event_id);
            assert(pi == i as int) by {
                if pi != i as int {
                    assert(old(self).pending()[pi].id != old(self).pending()[i as int].id);
                }
            }
        }
        let ev = vec_index_mut(&mut self.pending_events, i);
        ev.remove_pending_system(system_type);
        let now_empty = self.pending_events[i].get_pending_system().len() == 0;
        proof {
            let kept = old(self).pending()[i as int].tags.remove_value(system_type);
            assert(self.pending_events@[i as int]@.tags == kept);
            assert(now_empty == (kept.len() == 0));
        }
        if now_empty {
            self.pending_events.remove(i);
            proof {
                let p0 = old(self).pending();
                p0.remove_ensures(i as int);
                assert forall|k: int| 0 <= k < self.pending().len() implies #[trigger] self.pending()[k]
                    == p0.remove(i as int)[k] by {
                    assert(self.pending()[k] == self.pending_events@[k]@);
                    assert(self.pending_events@[k] == old(self).pending_events@.remove(
                        i as int,
                    )[k]);
                    if k < i as int {
                        assert(old(self).pending_events@.remove(i as int)[k] == old(
                            self,
                        ).pending_events@[k]);
                        assert(p0.remove(i as int)[k] == p0[k]);
                    } else {
                        assert(old(self).pending_events@.remove(i as int)[k] == old(
                            self,
                        ).pending_events@[k + 1]);
                        assert(p0.remove(i as int)[k] == p0[k + 1]);
                    }
                }
                assert(self.pending() =~= p0.remove(i as int));
                assert(self.staged() =~= old(self).staged());
                lemma_remove_keeps_wf(p0, i as int);
                assert forall|p: int, q: int|
                    0 <= p < self.pending().len() && 0 <= q < self.staged().len() implies (
                #[trigger] self.pending()[p].id) != (#[trigger] self.staged()[q].id) by {
                    let p1: int = if p < i as int { p } else { p + 1 };
                    assert(self.pending()[p] == p0[p1]);
                    assert(self.staged()[q] == old(self).staged()[q]);
                    assert(p0[p1].id != old(self).staged()[q].id);
                }
            }
        } else {
            proof {
                let p0 = old(self).pending();
                assert forall|k: int| 0 <= k < p0.len() implies #[trigger] self.pending()[k]
                    == self.pending_events@[k]@ by {}
                assert forall|k: int|
                    0 <= k < p0.len() && k != i as int implies self.pending()[k] == #[trigger] p0[k] by {}
                assert(self.staged() =~= old(self).staged());
                assert(self.pending()[i as int].id == p0[i as int].id);
                assert(self.pending()[i as int].tags.no_duplicates());
                assert forall|p: int, q: int|
                    0 <= p < q < self.pending().len() implies (#[trigger] self.pending()[p].id)
                    != (#[trigger] self.pending()[q].id) by {
                    assert(self.pending()[p].id == p0[p].id);
                    assert(self.pending()[q].id == p0[q].id);
                    assert(p0[p].id != p0[q].id);
                }
                assert forall|k: int|
                    0 <= k < self.pending().len() implies ((
                #[trigger] self.pending()[k]).tags.len() > 0
                    && self.pending()[k].tags.no_duplicates()) by {
                    if k != i as int {
                        assert(self.pending()[k] == p0[k]);
                    }
                }
                assert forall|p: int, q: int|
                    0 <= p < self.pending().len() && 0 <= q < self.staged().len() implies (
                #[trigger] self.pending()[p].id) != (#[trigger] self.staged()[q].id) by {
                    assert(self.pending()[p].id == p0[p].id);
                    assert(self.staged()[q] == old(self).staged()[q]);
                    assert(p0[p].id != old(self).staged()[q].id);
                }
            }
        }
    }

    /// End the cycle: drop the drained buffer, swap buffer roles, and merge
    /// the staging list into the pending collection so newly deferred events
    /// become retryable from the next cycle on.
    pub fn clear(&mut self)
        requires
            old(self).wf(),
        ensures
            final(self).wf(),
            clear_rel(*old(self), *final(self)),
            final(self).next_id() == old(self).next_id(),
    {
        if self.which_buff {
            self.engine_events.clear();
        } else {
            self.engine_events1.clear();
        }
        self.which_buff = !self.which_buff;
        self.pending_events.append(&mut self.pending_events_for_the_next_cycle);
        proof {
            let p0 = old(self).pending();
            let s0 = old(self).staged();
            assert forall|k: int| 0 <= k < self.pending().len() implies #[trigger] self.pending()[k]
                == (p0 + s0)[k] by {
                assert(self.pending()[k] == self.pending_events@[k]@);
                if k < p0.len() {
                    assert(self.pending_events@[k] == old(self).pending_events@[k]);
                } else {
                    assert(self.pending_events@[k]
                        == old(self).pending_events_for_the_next_cycle@[k - p0.len()]);
                }
            }
            assert(self.current_buffer() =~= old(self).next_buffer());
            assert(self.next_buffer() =~= Seq::<EventView>::empty());
            assert(self.pending() =~= p0 + s0);
            assert(self.staged() =~= Seq::<EventView>::empty());
            assert forall|p: int, q: int| 0 <= p < q < self.pending().len() implies (
            #[trigger] self.pending()[p].id) != (#[trigger] self.pending()[q].id) by {
                if q < p0.len() {
                    assert(p0[p].id != p0[q].id);
                } else if p >= p0.len() {
                    assert(s0[p - p0.len()].id != s0[q - p0.len()].id);
                } else {
                    assert(p0[p].id != s0[q - p0.len()].id);
                }
            }
            assert forall|k: int| 0 <= k < self.pending().len() implies ((
            #[trigger] self.pending()[k]).tags.len() > 0
                && self.pending()[k].tags.no_duplicates()) by {
                if k < p0.len() {
                    assert(self.pending()[k] == p0[k]);
                } else {
                    assert(self.pending()[k] == s0[k - p0.len()]);
                }
            }
        }
    }
}

/// How [`EventManager::add_engine_event`] changes the bus: the event joins
/// the next cycle's buffer and nothing else moves.
pub open spec fn add_engine_event_rel(pre: EventManager, post: EventManager, e: EventView) -> bool {
    &&& post.next_buffer() == pre.next_buffer().push(e)
    &&& post.current_buffer() == pre.current_buffer()
    &&& post.pending() == pre.pending()
    &&& post.staged() == pre.staged()
}

/// How [`EventManager::add_pending`] changes the bus, by the three cases of
/// where the event's id already lives.
pub open spec fn add_pending_rel(
    pre: EventManager,
    post: EventManager,
    e: EventView,
    t: SystemType,
) -> bool {
    if pre.has_pending(e.id) {
        &&& post.staged() == pre.staged()
        &&& post.pending().len() == pre.pending().len()
        &&& (forall|i: int|
            0 <= i < pre.pending().len() && pre.pending()[i].id != e.id
                ==> post.pending()[i] == #[trigger] pre.pending()[i])
        &&& (forall|i: int|
            0 <= i < pre.pending().len() && pre.pending()[i].id == e.id ==> registers(
                #[trigger] pre.pending()[i],
                post.pending()[i],
                t,
            ))
    } else if pre.has_staged(e.id) {
        &&& post.pending() == pre.pending()
        &&& post.staged().len() == pre.staged().len()
        &&& (forall|i: int|
            0 <= i < pre.staged().len() && pre.staged()[i].id != e.id
                ==> post.staged()[i] == #[trigger] pre.staged()[i])
        &&& (forall|i: int|
            0 <= i < pre.staged().len() && pre.staged()[i].id == e.id ==> registers(
                #[trigger] pre.staged()[i],
                post.staged()[i],
                t,
            ))
    } else {
        &&& post.pending() == pre.pending()
        &&& post.staged().len() == pre.staged().len() + 1
        &&& post.staged().take(pre.staged().len() as int) == pre.staged()
        &&& registers(e, post.staged().last(), t)
        &&& post.staged().last().tags.contains(t)
    }
}

/// How [`EventManager::remove_pending`] changes the bus: the tracked event
/// loses the tag, and leaves the pending collection entirely once no tag
/// remains.
pub open spec fn remove_pending_rel(
    pre: EventManager,
    post: EventManager,
    event_id: u64,
    t: SystemType,
) -> bool {
    let i = pre.pending_index_of(event_id);
    let e = pre.pending()[i];
    let kept = e.tags.remove_value(t);
    &&& post.staged() == pre.staged()
    &&& (if kept.len() == 0 {
        post.pending() == pre.pending().remove(i)
    } else {
        &&& post.pending().len() == pre.pending().len()
        &&& (forall|j: int|
            0 <= j < pre.pending().len() && j != i ==> post.pending()[j] == #[trigger] pre.pending()[j])
        &&& post.pending()[i].id == e.id
        &&& post.pending()[i].event_type == e.event_type
        &&& post.pending()[i].tags == kept
    })
}

/// How [`EventManager::clear`] changes the bus: buffers swap (the drained
/// one now empty), and the staging list joins the pending collection.
pub open spec fn clear_rel(pre: EventManager, post: EventManager) -> bool {
    &&& post.current_buffer() == pre.next_buffer()
    &&& post.next_buffer().len() == 0
    &&& post.pending() == pre.pending() + pre.staged()
    &&& post.staged().len() == 0
}

impl EventManager {
    /// The id the next created event will get. Callers that mint events in
    /// an unbounded loop check it stays below the id space.
    pub fn event_id_counter(&self) -> (r: u64)
        ensures
            r == self.next_id(),
    {
        self.next_event_id
    }

    /// Whether an event with this id is tracked as pending right now.
    pub fn is_pending(&self, id: u64) -> (r: bool)
        ensures
            r == self.has_pending(id),
    {
        let found = event_index_by_id(&self.pending_events, id);
        proof {
            match found {
                Some(i) => {
                    assert(self.pending()[i as int].id == id);
                },
                None => {
                    assert forall|k: int|
                        0 <= k < self.pending().len() implies (#[trigger] self.pending()[k]).id
                        != id by {
                        assert(self.pending()[k] == self.pending_events@[k]@);
                    }
                },
            }
        }
        found.is_some()
    }
}

/// Whether any event in `s` carries this id.
pub open spec fn views_contain_id(s: Seq<EventView>, id: u64) -> bool {
    exists|i: int| 0 <= i < s.len() && (#[trigger] s[i]).id == id
}

/// The id-deduplicated event list: the events in delivery order, keeping
/// only the first event of each id. Working through the list front to back,
/// an event whose id was already kept is dropped, any other is appended.
pub open spec fn dedup_views(s: Seq<EventView>) -> Seq<EventView>
    decreases s.len(),
{
    if s.len() == 0 {
        Seq::empty()
    } else {
        let rest = dedup_views(s.drop_last());
        if views_contain_id(rest, s.last().id) {
            rest
        } else {
            rest.push(s.last())
        }
    }
}

/// Every deduplicated event is one of the originals.
pub proof fn lemma_dedup_views_sound(s: Seq<EventView>)
    ensures
        forall|k: int|
            0 <= k < dedup_views(s).len() ==> exists|j: int|
                0 <= j < s.len() && (#[trigger] dedup_views(s)[k]) == s[j],
    decreases s.len(),
{
    if s.len() > 0 {
        lemma_dedup_views_sound(s.drop_last());
        let rest = dedup_views(s.drop_last());
        let d = dedup_views(s);
        assert forall|k: int| 0 <= k < d.len() implies exists|j: int|
            0 <= j < s.len() && (#[trigger] d[k]) == s[j] by {
            if k < rest.len() {
                assert(d[k] == rest[k]);
                assert(exists|j: int|
                    0 <= j < s.drop_last().len() && (#[trigger] rest[k]) == s.drop_last()[j]);
                let j0 = choose|j: int|
                    0 <= j < s.drop_last().len() && (#[trigger] rest[k]) == s.drop_last()[j];
                assert(s.drop_last()[j0] == s[j0]);
                assert(d[k] == s[j0]);
            } else {
                assert(d[k] == s.last());
                assert(d[k] == s[s.len() - 1]);
            }
        }
    }
}

/// Law: after de-duplication no id occurs twice, so a system working
/// through the deduplicated list never acts on the same event twice in one
/// cycle.
pub proof fn lemma_dedup_views_distinct(s: Seq<EventView>)
    ensures
        ids_distinct(dedup_views(s)),
    decreases s.len(),
{
    if s.len() > 0 {
        lemma_dedup_views_distinct(s.drop_last());
        let rest = dedup_views(s.drop_last());
        let d = dedup_views(s);
        if !views_contain_id(rest, s.last().id) {
            assert forall|p: int, q: int| 0 <= p < q < d.len() implies d[p].id != d[q].id by {
                if q < rest.len() {
                    assert(rest[p].id != rest[q].id);
                } else {
                    assert(d[q] == s.last());
                    assert(d[p] == rest[p]);
                    assert(rest[p].id != s.last().id);
                }
            }
        }
    }
}

/// Keep the first event of each id, dropping later duplicates. Systems use
/// this on [`EventManager::get_engine_events`] snapshots, where an event can
/// occur both as freshly delivered and as pending. The result is pinned
/// exactly: it is [`dedup_views`] of the input.
pub fn dedup_events_by_id(events: &Vec<Event>) -> (r: Vec<Event>)
    ensures
        event_views(r@) == dedup_views(event_views(events@)),
{
    let ghost full = event_views(events@);
    let mut out: Vec<Event> = Vec::new();
    proof {
        assert(full.take(0) =~= Seq::<EventView>::empty());
        assert(event_views(out@) =~= Seq::<EventView>::empty());
    }
    let mut i: usize = 0;
    while i < events.len()
        invariant
            i <= events@.len(),
            full == event_views(events@),
            event_views(out@) == dedup_views(full.take(i as int)),
        decreases events@.len() - i,
    {
        let ghost prev = out@;
        proof {
            let t1 = full.take(i + 1);
            assert(t1.drop_last() =~= full.take(i as int));
            assert(event_views(events@)[i as int] == events@[i as int]@);
            assert(t1.last() == events@[i as int]@);
        }
        match event_index_by_id(&out, events[i].id) {
            Some(k) => {
                proof {
                    assert(event_views(prev)[k as int] == prev[k as int]@);
                    assert(views_contain_id(event_views(prev), events@[i as int]@.id));
                    assert(dedup_views(full.take(i + 1)) == event_views(prev));
                }
            },
            None => {
                out.push(events[i].duplicate());
                proof {
                    assert forall|j: int| 0 <= j < prev.len() implies (
                    #[trigger] event_views(prev)[j]).id != events@[i as int]@.id by {
                        assert(event_views(prev)[j] == prev[j]@);
                    }
                    assert(!views_contain_id(event_views(prev), events@[i as int]@.id));
                    assert(event_views(out@) =~= event_views(prev).push(events@[i as int]@));
                    assert(dedup_views(full.take(i + 1)) == event_views(prev).push(
                        events@[i as int]@,
                    ));
                }
            },
        }
        i += 1;
    }
    proof {
        assert(full.take(events@.len() as int) =~= full);
    }
    out
}

/// Law: an event held in the pending collection is part of what
/// [`EventManager::get_engine_events`] delivers this cycle.
pub proof fn lemma_event_delivered_while_pending(em: EventManager, id: u64)
    requires
        em.wf(),
        em.has_pending(id),
    ensures
        exists|i: int| 0 <= i < em.delivered().len() && (#[trigger] em.delivered()[i]).id == id,
{
    let i = em.pending_index_of(id);
    assert(em.delivered()[em.current_buffer().len() + i].id == id);
}

/// Law: ending a cycle never drops a pending event; it stays tracked (and so
/// keeps being delivered) across [`EventManager::clear`].
pub proof fn lemma_pending_survives_clear(pre: EventManager, post: EventManager, id: u64)
    requires
        pre.has_pending(id),
        clear_rel(pre, post),
    ensures
        post.has_pending(id),
{
    let i = pre.pending_index_of(id);
    assert(post.pending()[i].id == id);
}

/// Law: an event pending for two systems is delivered exactly until both
/// resolve it. After the first system releases it the event is still
/// tracked — and so still delivered — and after the second releases it the
/// event leaves the pending collection for good.
pub proof fn lemma_event_delivery_exactly_until_resolved(
    em0: EventManager,
    em1: EventManager,
    em2: EventManager,
    id: u64,
    a: SystemType,
    b: SystemType,
)
    requires
        em0.wf(),
        em1.wf(),
        a != b,
        em0.has_pending(id),
        em0.pending()[em0.pending_index_of(id)].tags == seq![a, b],
        remove_pending_rel(em0, em1, id, a),
        remove_pending_rel(em1, em2, id, b),
    ensures
        em1.has_pending(id),
        exists|i: int| 0 <= i < em1.delivered().len() && (#[trigger] em1.delivered()[i]).id == id,
        !em2.has_pending(id),
{
    let i0 = em0.pending_index_of(id);
    let tags0: Seq<SystemType> = seq![a, b];
    tags0.index_of_first_ensures(a);
    assert(tags0.contains(a)) by {
        assert(tags0[0] == a);
    }
    assert(tags0.index_of_first(a) == Some(0int)) by {
        let j = tags0.index_of_first(a)->Some_0;
        if j != 0 {
            assert(tags0[0] != a);
        }
    }
    assert(tags0.remove_value(a) =~= seq![b]);
    assert(em1.pending()[i0].id == id);
    assert(em1.has_pending(id));
    lemma_event_delivered_while_pending(em1, id);
    let i1 = em1.pending_index_of(id);
    assert(0 <= i1 < em1.pending().len() && em1.pending()[i1].id == id);
    assert(i1 == i0) by {
        if i1 != i0 {
            assert(em1.pending()[i1].id != em1.pending()[i0].id);
        }
    }
    let tags1: Seq<SystemType> = seq![b];
    tags1.index_of_first_ensures(b);
    assert(tags1.contains(b)) by {
        assert(tags1[0] == b);
    }
    assert(tags1.index_of_first(b) == Some(0int)) by {
        let j = tags1.index_of_first(b)->Some_0;
        if j != 0 {
            assert(tags1[0] != b);
        }
    }
    assert(tags1.remove_value(b) =~= Seq::<SystemType>::empty());
    assert(em1.pending()[i1].tags == tags1);
    assert(em2.pending() == em1.pending().remove(i1));
    em1.pending().remove_ensures(i1);
    assert forall|k: int| 0 <= k < em2.pending().len() implies (#[trigger] em2.pending()[k]).id
        != id by {
        if k < i1 {
            assert(em2.pending()[k] == em1.pending()[k]);
            assert(em1.pending()[k].id != em1.pending()[i1].id);
        } else {
            assert(em2.pending()[k] == em1.pending()[k + 1]);
            assert(em1.pending()[k + 1].id != em1.pending()[i1].id);
        }
    }
}

/// Law: an event a system hands to [`EventManager::add_engine_event`] during
/// cycle N is invisible to every consumer for the rest of cycle N, and is
/// delivered in cycle N + 1, after the [`EventManager::clear`] that ends
/// cycle N.
pub proof fn lemma_no_same_cycle_reentrancy(
    em0: EventManager,
    em1: EventManager,
    em2: EventManager,
    e: EventView,
)
    requires
        add_engine_event_rel(em0, em1, e),
        clear_rel(em1, em2),
        forall|i: int| 0 <= i < em0.delivered().len() ==> (#[trigger] em0.delivered()[i]).id != e.id,
    ensures
        forall|i: int| 0 <= i < em1.delivered().len() ==> (#[trigger] em1.delivered()[i]).id != e.id,
        exists|i: int| 0 <= i < em2.delivered().len() && #[trigger] em2.delivered()[i] == e,
{
    assert(em1.delivered() == em0.delivered());
    let n = em0.next_buffer().len() as int;
    assert(em2.current_buffer()[n] == e);
    assert(em2.delivered()[n] == e);
}

} // verus!

