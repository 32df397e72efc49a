use vstd::prelude::*;
use crate::components::PhysicsComponent;
use crate::events::{
    add_engine_event_rel, add_pending_rel, dedup_events_by_id, dedup_views, event_views,
    lemma_dedup_views_sound, remove_pending_rel, CastRayDat, CastedRay, Event, EventType,
    EventView, SystemType,
};
use crate::math::Vec3;
use crate::world::{world_frame_except_em, EntityID, World};

verus! {

/// A ray-collider intersection as the collision collaborator reports it:
/// the collider's handle and the time of impact along the ray, fixed-point
/// like all geometry here.
#[derive(Clone, Copy, Debug, PartialEq, Eq, Structural)]
pub struct RayHit {
    pub collider: usize,
    pub toi: u64,
}

/// The collision shape to build for a new body: a triangle mesh from a
/// loaded mesh entry, or the default bounding ball for an entity without
/// geometry.
#[derive(Debug)]
pub enum ColliderShape {
    TriMesh(String),
    Ball,
}

/// Work the physics system asks its rigid-body collaborator to do. The
/// collaborator answers a body build with [`complete_body_creation`] and a
/// ray query with [`Physics::resolve_ray_cast`] plus [`emit_ray_casted`].
#[derive(Debug)]
pub enum PhysicsAction {
    BuildBody { entity: EntityID, shape: ColliderShape },
    QueryRay(CastRayDat),
}

/// Whether this component slot holds a body using the given collider.
pub open spec fn matches_collider(slot: Option<PhysicsComponent>, collider: usize) -> bool {
    match slot {
        Some(pc) => pc.collider_handle == Some(collider),
        None => false,
    }
}

/// `e` is the entity the collider maps back to: the first component slot
/// holding that collider handle.
pub open spec fn is_owner(comps: Seq<Option<PhysicsComponent>>, collider: usize, e: int) -> bool {
    &&& 0 <= e < comps.len()
    &&& matches_collider(comps[e], collider)
    &&& (forall|j: int| 0 <= j < e ==> !matches_collider(#[trigger] comps[j], collider))
}

/// Whether any component slot holds this collider handle.
pub open spec fn has_owner(comps: Seq<Option<PhysicsComponent>>, collider: usize) -> bool {
    exists|e: int| #[trigger] is_owner(comps, collider, e)
}

/// First component slot holding the collider handle.
fn find_owner(comps: &Vec<Option<PhysicsComponent>>, collider: usize) -> (r: Option<usize>)
    ensures
        match r {
            Some(e) => is_owner(comps@, collider, e as int),
            None => !has_owner(comps@, collider),
        },
{
    let mut i: usize = 0;
    while i < comps.len()
        invariant
            i <= comps@.len(),
            forall|j: int| 0 <= j < i ==> !matches_collider(#[trigger] comps@[j], collider),
        decreases comps@.len() - i,
    {
        let hit = match &comps[i] {
            Some(pc) => {
                match pc.collider_handle {
                    Some(h) => h == collider,
                    None => false,
                }
            },
            None => false,
        };
        if hit {
            return Some(i);
        }
        i += 1;
    }
    proof {
        assert forall|e: int| !is_owner(comps@, collider, e) by {
            if 0 <= e < comps@.len() {
                assert(!matches_collider(comps@[e], collider));
            }
        }
    }
    None
}

/// The running best while scanning hits in report order: `None` while no
/// hit so far maps to an entity; otherwise the owner and time of the first
/// hit attaining the least time of impact seen so far.
pub open spec fn best_so_far(
    comps: Seq<Option<PhysicsComponent>>,
    hits: Seq<RayHit>,
    upto: int,
    best: Option<(EntityID, u64)>,
    bk: int,
) -> bool {
    match best {
        None => forall|j: int| 0 <= j < upto ==> !has_owner(comps, (#[trigger] hits[j]).collider),
        Some(em) => {
            &&& 0 <= bk < upto
            &&& hits[bk].toi == em.1
            &&& is_owner(comps, hits[bk].collider, em.0 as int)
            &&& (forall|j: int|
                0 <= j < upto && has_owner(comps, (#[trigger] hits[j]).collider) ==> hits[j].toi
                    >= em.1)
            &&& (forall|j: int|
                0 <= j < bk && has_owner(comps, (#[trigger] hits[j]).collider) ==> hits[j].toi
                    > em.1)
        },
    }
}

/// The physics system. The mechanical and geometrical worlds, body and
/// collider sets live with the rigid-body collaborator; this side makes
/// every decision about them.
pub struct Physics {
}

impl Physics {
    pub fn new() -> (p: Physics) {
        Physics {  }
    }

    /// Map a ray query's hits back to the entity hit first: among all hits
    /// whose collider belongs to an entity, the one with the least time of
    /// impact wins, and between equal times the hit reported first wins —
    /// a fixed policy, since the collision collaborator leaves the order of
    /// equal-time hits open. No owned hit means no entity was hit.
    pub fn resolve_ray_cast(
        components: &Vec<Option<PhysicsComponent>>,
        hits: &Vec<RayHit>,
        ray_id: usize,
    ) -> (r: CastedRay)
        ensures
            r.id == ray_id,
            (r.entity is None) <==> (forall|k: int|
                0 <= k < hits@.len() ==> !has_owner(components@, (#[trigger] hits@[k]).collider)),
            r.entity matches Some(e) ==> exists|k: int|
                {
                    &&& 0 <= k < hits@.len()
                    &&& is_owner(components@, (#[trigger] hits@[k]).collider, e as int)
                    &&& (forall|j: int|
                        0 <= j < hits@.len() && has_owner(
                            components@,
                            (#[trigger] hits@[j]).collider,
                        ) ==> hits@[j].toi >= hits@[k].toi)
                    &&& (forall|j: int|
                        0 <= j < k && has_owner(components@, (#[trigger] hits@[j]).collider)
                            ==> hits@[j].toi > hits@[k].toi)
                },
    {
        let mut best: Option<(EntityID, u64)> = None;
        let ghost mut bk: int = 0;
        let mut k: usize = 0;
        while k < hits.len()
            invariant
                k <= hits@.len(),
                best_so_far(components@, hits@, k as int, best, bk),
            decreases hits@.len() - k,
        {
            let hit = hits[k];
            match find_owner(components, hit.collider) {
                Some(e) => {
                    proof {
                        assert(has_owner(components@, hit.collider)) by {
                            assert(is_owner(components@, hit.collider, e as int));
                        }
                    }
                    let better = match best {
                        None => true,
                        Some(em) => hit.toi < em.1,
                    };
                    if better {
                        best = Some((e, hit.toi));
                        proof {
                            bk = k as int;
                        }
                    }
                },
                None => {},
            }
            k += 1;
        }
        let entity = match best {
            Some(em) => Some(em.0),
            None => None,
        };
        proof {
            if best is Some {
                assert(has_owner(components@, hits@[bk].collider)) by {
                    assert(is_owner(components@, hits@[bk].collider, best->Some_0.0 as int));
                }
            }
        }
        CastedRay { id: ray_id, entity }
    }
}

/// An `EntityCreated` event never names a drawable entity whose mesh entry
/// is missing from the cache: requesting the mesh and attaching the render
/// component travel together, so a missing entry is a programming error.
pub open spec fn created_event_mesh_known(w: World, ev: EventView) -> bool {
    match ev.event_type {
        EventType::EntityCreated(id) => (id < w.components.slot_count()
            && w.components.physics@[id as int] is Some && w.components.positionable@[id as int]
            is Some && w.components.renderables@[id as int] is Some) ==> w.resources.has_mesh(
            w.components.renderables@[id as int]->Some_0.mesh_label@,
        ),
        _ => true,
    }
}

/// What [`Physics::handle_created_event`] decides for one event, and how
/// the pending bookkeeping moves: a body is built only once the mesh is
/// loaded; until then the system defers itself on the event exactly once,
/// and on success it releases a deferred event exactly once.
pub open spec fn physics_created_rel(
    pre: World,
    post: World,
    ev: EventView,
    r: Option<PhysicsAction>,
) -> bool {
    match ev.event_type {
        EventType::EntityCreated(id) => {
            if !(id < pre.components.slot_count() && pre.components.physics@[id as int] is Some
                && pre.components.positionable@[id as int] is Some) {
                &&& post == pre
                &&& r is None
            } else {
                match pre.components.renderables@[id as int] {
                    Some(rc) => {
                        if pre.resources.mesh_loaded(rc.mesh_label@) {
                            &&& (r matches Some(a) && (a matches PhysicsAction::BuildBody {
                                entity,
                                shape,
                            } && (entity == id && (shape matches ColliderShape::TriMesh(k) && k@
                                == rc.mesh_label@))))
                            &&& (if ev.tags.contains(SystemType::PhysicsSystem)
                                && pre.event_manager.has_pending(ev.id) {
                                remove_pending_rel(
                                    pre.event_manager,
                                    post.event_manager,
                                    ev.id,
                                    SystemType::PhysicsSystem,
                                )
                            } else {
                                post.event_manager == pre.event_manager
                            })
                        } else {
                            &&& r is None
                            &&& (if !ev.tags.contains(SystemType::PhysicsSystem) {
                                add_pending_rel(
                                    pre.event_manager,
                                    post.event_manager,
                                    ev,
                                    SystemType::PhysicsSystem,
                                )
                            } else {
                                post.event_manager == pre.event_manager
                            })
                        }
                    },
                    None => {
                        &&& (r matches Some(a) && (a matches PhysicsAction::BuildBody {
                            entity,
                            shape,
                        } && (entity == id && shape is Ball)))
                        &&& post.event_manager == pre.event_manager
                    },
                }
            }
        },
        _ => {
            &&& post == pre
            &&& r is None
        },
    }
}

impl Physics {
    /// Decide what to do about one `EntityCreated` event. An entity with
    /// physics and transform components gets a body: with a triangle-mesh
    /// collider when it is drawable and its mesh has loaded, with the
    /// default ball when it has no geometry. A drawable entity whose mesh
    /// is still loading is deferred through the pending mechanism and
    /// retried next cycle; nothing else is touched for it, so no partial
    /// state is left behind.
    pub fn handle_created_event(world: &mut World, event: &Event) -> (r: Option<PhysicsAction>)
        requires
            old(world).wf(),
            event@.tags.no_duplicates(),
            created_event_mesh_known(*old(world), event@),
        ensures
            final(world).wf(),
            world_frame_except_em(*old(world), *final(world)),
            final(world).event_manager.current_buffer() == old(
                world,
            ).event_manager.current_buffer(),
            final(world).event_manager.next_buffer() == old(world).event_manager.next_buffer(),
            final(world).event_manager.next_id() == old(world).event_manager.next_id(),
            physics_created_rel(*old(world), *final(world), event@, r),
    {
        let id: EntityID = match event.event_type {
            EventType::EntityCreated(id) => id,
            _ => {
                return None;
            },
        };
        if id >= world.components.physics.len() {
            return None;
        }
        if world.components.physics[id].is_none() {
            return None;
        }
        if world.components.positionable[id].is_none() {
            return None;
        }
        let label_opt: Option<String> = match &world.components.renderables[id] {
            Some(rc) => Some(rc.mesh_label.clone()),
            None => None,
        };
        match label_opt {
            Some(label) => {
                if world.resources.is_mesh_loaded(&label) {
                    if event.is_pending_for(SystemType::PhysicsSystem) && world.event_manager.is_pending(
                        event.id,
                    ) {
                        world.event_manager.remove_pending(event.id, SystemType::PhysicsSystem);
                    }
                    Some(PhysicsAction::BuildBody { entity: id, shape: ColliderShape::TriMesh(label) })
                } else {
                    if !event.is_pending_for(SystemType::PhysicsSystem) {
                        world.event_manager.add_pending(
                            event.duplicate(),
                            SystemType::PhysicsSystem,
                        );
                    }
                    None
                }
            },
            None => Some(PhysicsAction::BuildBody { entity: id, shape: ColliderShape::Ball }),
        }
    }
}

/// An action the physics system may hand out is justified by the world it
/// was decided against: bodies are built only for entities holding both a
/// physics and a transform component, with a triangle mesh only from a
/// loaded mesh entry of that entity's render component, and a ball only for
/// entities without geometry; ray queries only repeat a delivered request.
pub open spec fn physics_action_justified(w: World, a: PhysicsAction) -> bool {
    match a {
        PhysicsAction::BuildBody { entity, shape } => {
            &&& entity < w.components.slot_count()
            &&& w.components.physics@[entity as int] is Some
            &&& w.components.positionable@[entity as int] is Some
            &&& (match shape {
                ColliderShape::TriMesh(key) => w.components.renderables@[entity as int] matches Some(
                    rc,
                ) && rc.mesh_label@ == key@ && w.resources.mesh_loaded(key@),
                ColliderShape::Ball => w.components.renderables@[entity as int] is None,
            })
        },
        PhysicsAction::QueryRay(dat) => exists|i: int|
            0 <= i < w.event_manager.delivered().len() && (
            #[trigger] w.event_manager.delivered()[i]).event_type == EventType::CastRay(dat),
    }
}

/// How one deduplicated event moves the physics system: an `EntityCreated`
/// event is decided by [`Physics::handle_created_event`] (emitting its
/// action, if any), a `CastRay` request always emits exactly one matching
/// query action and changes nothing, and every other event is ignored.
pub open spec fn physics_step_rel(
    pre: World,
    post: World,
    ev: EventView,
    emitted: Seq<PhysicsAction>,
) -> bool {
    match ev.event_type {
        EventType::EntityCreated(_) => exists|r: Option<PhysicsAction>|
            {
                &&& #[trigger] physics_created_rel(pre, post, ev, r)
                &&& world_frame_except_em(pre, post)
                &&& post.event_manager.current_buffer() == pre.event_manager.current_buffer()
                &&& post.event_manager.next_buffer() == pre.event_manager.next_buffer()
                &&& post.event_manager.next_id() == pre.event_manager.next_id()
                &&& (match r {
                    Some(a) => emitted == seq![a],
                    None => emitted == Seq::<PhysicsAction>::empty(),
                })
            },
        EventType::CastRay(dat) => {
            &&& post == pre
            &&& emitted == seq![PhysicsAction::QueryRay(dat)]
        },
        _ => {
            &&& post == pre
            &&& emitted == Seq::<PhysicsAction>::empty()
        },
    }
}

/// The whole cycle of the physics system, as the fold of
/// [`physics_step_rel`] over the events in delivery order: the final world
/// and the full action list come from working through every event, each
/// step starting from the state the previous one left.
pub open spec fn physics_cycle_rel(
    pre: World,
    post: World,
    events: Seq<EventView>,
    actions: Seq<PhysicsAction>,
) -> bool
    decreases events.len(),
{
    if events.len() == 0 {
        &&& post == pre
        &&& actions == Seq::<PhysicsAction>::empty()
    } else {
        exists|mid: World, k: int|
            {
                &&& 0 <= k <= actions.len()
                &&& physics_cycle_rel(pre, mid, events.drop_last(), actions.take(k))
                &&& #[trigger] physics_step_rel(mid, post, events.last(), actions.skip(k))
            }
    }
}

/// Law: a cycle run answers every ray request. Whenever a cycle of the
/// physics system processed an event list containing a `CastRay` request,
/// the action list it produced contains the matching query action — so a
/// delivered ray request is never dropped, and
/// [`Physics::resolve_ray_cast`] with [`emit_ray_casted`] then turn that
/// query's hits into exactly one next-cycle `RayCasted` answer.
pub proof fn lemma_physics_cycle_queries_every_ray(
    pre: World,
    post: World,
    events: Seq<EventView>,
    actions: Seq<PhysicsAction>,
    k: int,
)
    requires
        physics_cycle_rel(pre, post, events, actions),
        0 <= k < events.len(),
        events[k].event_type matches EventType::CastRay(_),
    ensures
        exists|m: int|
            0 <= m < actions.len() && #[trigger] actions[m] == PhysicsAction::QueryRay(
                events[k].event_type->CastRay_0,
            ),
    decreases events.len(),
{
    let (mid, kk) = choose|mid: World, kk: int|
        {
            &&& 0 <= kk <= actions.len()
            &&& physics_cycle_rel(pre, mid, events.drop_last(), actions.take(kk))
            &&& #[trigger] physics_step_rel(mid, post, events.last(), actions.skip(kk))
        };
    if k == events.len() - 1 {
        let dat = events[k].event_type->CastRay_0;
        assert(actions.skip(kk) == seq![PhysicsAction::QueryRay(dat)]);
        assert(actions.skip(kk)[0] == actions[kk]);
        assert(actions[kk] == PhysicsAction::QueryRay(dat));
    } else {
        assert(events.drop_last()[k] == events[k]);
        lemma_physics_cycle_queries_every_ray(pre, mid, events.drop_last(), actions.take(kk), k);
        let m = choose|m: int|
            0 <= m < actions.take(kk).len() && #[trigger] actions.take(kk)[m]
                == PhysicsAction::QueryRay(events.drop_last()[k].event_type->CastRay_0);
        assert(actions.take(kk)[m] == actions[m]);
        assert(actions[m] == PhysicsAction::QueryRay(events[k].event_type->CastRay_0));
    }
}

/// Extending a cycle by one more event: a run over the prefix followed by
/// one step over the last event is a run over the whole list.
proof fn lemma_physics_cycle_extend(
    pre: World,
    mid: World,
    post: World,
    events: Seq<EventView>,
    actions: Seq<PhysicsAction>,
    k: int,
)
    requires
        0 <= k <= actions.len(),
        events.len() > 0,
        physics_cycle_rel(pre, mid, events.drop_last(), actions.take(k)),
        physics_step_rel(mid, post, events.last(), actions.skip(k)),
    ensures
        physics_cycle_rel(pre, post, events, actions),
{
    assert(exists|m: World, kk: int|
        {
            &&& 0 <= kk <= actions.len()
            &&& physics_cycle_rel(pre, m, events.drop_last(), actions.take(kk))
            &&& #[trigger] physics_step_rel(m, post, events.last(), actions.skip(kk))
        });
}

impl Physics {
    /// One cycle of the physics system's event work: drain this cycle's
    /// events, de-duplicated by id, and decide each one in delivery order.
    /// When the resource store is locked by a writer this cycle
    /// (`store_readable` false) the system does nothing and retries next
    /// cycle, never blocking the frame; otherwise the final state and the
    /// returned actions are exactly the fold of the per-event decisions
    /// over the deduplicated delivered events, so in particular every
    /// delivered ray request yields its query action. The rigid-body
    /// collaborator performs the actions and reports back through
    /// [`complete_body_creation`], [`Physics::resolve_ray_cast`] and
    /// [`emit_ray_casted`].
    pub fn handle_world_events(&self, world: &mut World, store_readable: bool) -> (actions: Vec<
        PhysicsAction,
    >)
        requires
            old(world).wf(),
            forall|i: int|
                0 <= i < old(world).event_manager.delivered().len() ==> created_event_mesh_known(
                    *old(world),
                    #[trigger] old(world).event_manager.delivered()[i],
                ),
        ensures
            final(world).wf(),
            world_frame_except_em(*old(world), *final(world)),
            final(world).event_manager.current_buffer() == old(
                world,
            ).event_manager.current_buffer(),
            final(world).event_manager.next_buffer() == old(world).event_manager.next_buffer(),
            final(world).event_manager.next_id() == old(world).event_manager.next_id(),
            !store_readable ==> *final(world) == *old(world) && actions@.len() == 0,
            store_readable ==> physics_cycle_rel(
                *old(world),
                *final(world),
                dedup_views(old(world).event_manager.delivered()),
                actions@,
            ),
            forall|k: int|
                0 <= k < actions@.len() ==> physics_action_justified(
                    *old(world),
                    #[trigger] actions@[k],
                ),
    {
        let mut actions: Vec<PhysicsAction> = Vec::new();
        if !store_readable {
            return actions;
        }
        let snapshot = world.event_manager.get_engine_events();
        let events = dedup_events_by_id(&snapshot);
        let ghost delivered = old(world).event_manager.delivered();
        let ghost devents = dedup_views(delivered);
        proof {
            assert(event_views(events@) == devents);
            lemma_dedup_views_sound(delivered);
            assert(devents.take(0) =~= Seq::<EventView>::empty());
            assert(actions@ =~= Seq::<PhysicsAction>::empty());
            assert(physics_cycle_rel(*old(world), *world, devents.take(0), actions@));
        }
        let mut i: usize = 0;
        while i < events.len()
            invariant
                i <= events@.len(),
                world.wf(),
                world_frame_except_em(*old(world), *world),
                world.event_manager.current_buffer() == old(world).event_manager.current_buffer(),
                world.event_manager.next_buffer() == old(world).event_manager.next_buffer(),
                world.event_manager.next_id() == old(world).event_manager.next_id(),
                delivered == old(world).event_manager.delivered(),
                devents == dedup_views(delivered),
                event_views(events@) == devents,
                old(world).wf(),
                forall|k: int|
                    0 <= k < devents.len() ==> exists|j: int|
                        0 <= j < delivered.len() && (#[trigger] devents[k]) == delivered[j],
                forall|j: int|
                    0 <= j < delivered.len() ==> created_event_mesh_known(
                        *old(world),
                        #[trigger] delivered[j],
                    ),
                physics_cycle_rel(*old(world), *world, devents.take(i as int), actions@),
                forall|k: int|
                    0 <= k < actions@.len() ==> physics_action_justified(
                        *old(world),
                        #[trigger] actions@[k],
                    ),
            decreases events@.len() - i,
        {
            proof {
                assert(event_views(events@)[i as int] == events@[i as int]@);
                assert(devents[i as int] == events@[i as int]@);
                assert(exists|j: int|
                    0 <= j < delivered.len() && (#[trigger] devents[i as int]) == delivered[j]);
                let j = choose|j: int|
                    0 <= j < delivered.len() && (#[trigger] devents[i as int]) == delivered[j];
                assert(created_event_mesh_known(*old(world), events@[i as int]@));
                assert(events@[i as int]@.tags.no_duplicates()) by {
                    let c = old(world).event_manager.current_buffer();
                    let p = old(world).event_manager.pending();
                    assert(delivered == c + p);
                    if j < c.len() {
                        assert((c + p)[j] == c[j]);
                    } else {
                        assert((c + p)[j] == p[j - c.len()]);
                    }
                }
                assert(devents.take(i + 1).drop_last() =~= devents.take(i as int));
                assert(devents.take(i + 1).last() == devents[i as int]);
            }
            let ghost w_pre = *world;
            let ghost a_pre = actions@;
            match events[i].event_type {
                EventType::EntityCreated(_) => {
                    let r = Physics::handle_created_event(world, &events[i]);
                    let ghost gr = r;
                    proof {
                        if r is Some {
                            assert(physics_action_justified(*old(world), r->0));
                        }
                    }
                    match r {
                        Some(a) => {
                            actions.push(a);
                        },
                        None => {},
                    }
                    proof {
                        let n = a_pre.len() as int;
                        assert(actions@.take(n) =~= a_pre);
                        assert(physics_step_rel(
                            w_pre,
                            *world,
                            events@[i as int]@,
                            actions@.skip(n),
                        )) by {
                            assert(physics_created_rel(w_pre, *world, events@[i as int]@, gr));
                            match gr {
                                Some(a) => {
                                    assert(actions@.skip(n) =~= seq![a]);
                                },
                                None => {
                                    assert(actions@.skip(n) =~= Seq::<PhysicsAction>::empty());
                                },
                            }
                        }
                        assert(physics_cycle_rel(
                            *old(world),
                            w_pre,
                            devents.take(i as int),
                            actions@.take(n),
                        ));
                        assert(physics_cycle_rel(
                            *old(world),
                            w_pre,
                            devents.take(i + 1).drop_last(),
                            actions@.take(n),
                        ));
                        assert(physics_step_rel(
                            w_pre,
                            *world,
                            devents.take(i + 1).last(),
                            actions@.skip(n),
                        ));
                        lemma_physics_cycle_extend(
                            *old(world),
                            w_pre,
                            *world,
                            devents.take(i + 1),
                            actions@,
                            n,
                        );
                    }
                },
                EventType::CastRay(dat) => {
                    proof {
                        let j = choose|j: int|
                            0 <= j < delivered.len() && (#[trigger] devents[i as int])
                                == delivered[j];
                        assert(delivered[j].event_type == EventType::CastRay(dat));
                    }
                    actions.push(PhysicsAction::QueryRay(dat));
                    proof {
                        let n = a_pre.len() as int;
                        assert(actions@.take(n) =~= a_pre);
                        assert(actions@.skip(n) =~= seq![PhysicsAction::QueryRay(dat)]);
                        assert(physics_step_rel(
                            w_pre,
                            *world,
                            events@[i as int]@,
                            actions@.skip(n),
                        ));
                        assert(physics_cycle_rel(
                            *old(world),
                            w_pre,
                            devents.take(i as int),
                            actions@.take(n),
                        ));
                        assert(physics_cycle_rel(
                            *old(world),
                            w_pre,
                            devents.take(i + 1).drop_last(),
                            actions@.take(n),
                        ));
                        assert(physics_step_rel(
                            w_pre,
                            *world,
                            devents.take(i + 1).last(),
                            actions@.skip(n),
                        ));
                        lemma_physics_cycle_extend(
                            *old(world),
                            w_pre,
                            *world,
                            devents.take(i + 1),
                            actions@,
                            n,
                        );
                    }
                },
                _ => {
                    proof {
                        let n = a_pre.len() as int;
                        assert(actions@.take(n) =~= a_pre);
                        assert(actions@.skip(n) =~= Seq::<PhysicsAction>::empty());
                        assert(physics_step_rel(
                            w_pre,
                            *world,
                            events@[i as int]@,
                            actions@.skip(n),
                        ));
                        assert(physics_cycle_rel(
                            *old(world),
                            w_pre,
                            devents.take(i as int),
                            actions@.take(n),
                        ));
                        assert(physics_cycle_rel(
                            *old(world),
                            w_pre,
                            devents.take(i + 1).drop_last(),
                            actions@.take(n),
                        ));
                        assert(physics_step_rel(
                            w_pre,
                            *world,
                            devents.take(i + 1).last(),
                            actions@.skip(n),
                        ));
                        lemma_physics_cycle_extend(
                            *old(world),
                            w_pre,
                            *world,
                            devents.take(i + 1),
                            actions@,
                            n,
                        );
                    }
                },
            }
            i += 1;
        }
        proof {
            assert(devents.take(events@.len() as int) =~= devents);
        }
        actions
    }
}

/// Record the handles the rigid-body collaborator minted for an entity's
/// body and collider.
pub fn complete_body_creation(world: &mut World, id: EntityID, rigid: usize, collider: usize)
    requires
        old(world).wf(),
        id < old(world).components.slot_count(),
        old(world).components.physics@[id as int] is Some,
    ensures
        final(world).wf(),
        final(world).components.physics@ == old(world).components.physics@.update(
            id as int,
            Some(
                PhysicsComponent {
                    rigid_handle: Some(rigid),
                    collider_handle: Some(collider),
                    ..old(world).components.physics@[id as int]->Some_0
                },
            ),
        ),
        final(world).components.renderables@ == old(world).components.renderables@,
        final(world).components.positionable@ == old(world).components.positionable@,
        final(world).components.highlightable@ == old(world).components.highlightable@,
        final(world).entities@ == old(world).entities@,
        final(world).deleted_entities@ == old(world).deleted_entities@,
        final(world).allocated() == old(world).allocated(),
        final(world).resources == old(world).resources,
        final(world).event_manager == old(world).event_manager,
{
    let slot = vstd::std_specs::vec::vec_index_mut(&mut world.components.physics, id);
    match slot {
        Some(pc) => {
            pc.rigid_handle = Some(rigid);
            pc.collider_handle = Some(collider);
        },
        None => {},
    }
}

/// Write a body's new pose back into the entity's transform, as the
/// per-tick synchronization does for every simulated body. An id without
/// both a physics and a transform component is left untouched.
pub fn sync_body_transform(world: &mut World, id: EntityID, translation: Vec3, rotation: Vec3)
    requires
        old(world).wf(),
    ensures
        final(world).wf(),
        (id < old(world).components.slot_count() && old(world).components.physics@[id as int] is Some
            && old(world).components.positionable@[id as int] is Some)
            ==> final(world).components.positionable@
            == old(world).components.positionable@.update(
            id as int,
            Some(
                crate::components::TransformComponent {
                    translation,
                    rotation,
                    scale: old(world).components.positionable@[id as int]->Some_0.scale,
                },
            ),
        ),
        !(id < old(world).components.slot_count() && old(world).components.physics@[id as int]
            is Some && old(world).components.positionable@[id as int] is Some)
            ==> final(world).components.positionable@ == old(world).components.positionable@,
        final(world).components.renderables@ == old(world).components.renderables@,
        final(world).components.physics@ == old(world).components.physics@,
        final(world).components.highlightable@ == old(world).components.highlightable@,
        final(world).entities@ == old(world).entities@,
        final(world).deleted_entities@ == old(world).deleted_entities@,
        final(world).allocated() == old(world).allocated(),
        final(world).resources == old(world).resources,
        final(world).event_manager == old(world).event_manager,
{
    if id >= world.components.positionable.len() {
        return ;
    }
    let has_physics = world.components.physics[id].is_some();
    if !has_physics {
        return ;
    }
    let slot = vstd::std_specs::vec::vec_index_mut(&mut world.components.positionable, id);
    match slot {
        Some(tc) => {
            tc.translation = translation;
            tc.rotation = rotation;
        },
        None => {},
    }
    proof {
        if !(old(world).components.positionable@[id as int] is Some) {
            assert(world.components.positionable@ =~= old(world).components.positionable@);
        }
    }
}

/// Turn a resolved ray cast into a `RayCasted` engine event. It goes
/// through the next-cycle buffer, so the running cycle never observes the
/// answer to a query it issued itself.
pub fn emit_ray_casted(world: &mut World, result: CastedRay)
    requires
        old(world).wf(),
        old(world).event_manager.next_id() < u64::MAX,
    ensures
        final(world).wf(),
        add_engine_event_rel(
            old(world).event_manager,
            final(world).event_manager,
            EventView {
                id: old(world).event_manager.next_id(),
                event_type: EventType::RayCasted(result),
                tags: Seq::<SystemType>::empty(),
            },
        ),
        final(world).event_manager.delivered() == old(world).event_manager.delivered(),
        final(world).event_manager.next_id() == old(world).event_manager.next_id() + 1,
        final(world).components == old(world).components,
        final(world).entities@ == old(world).entities@,
        final(world).deleted_entities@ == old(world).deleted_entities@,
        final(world).allocated() == old(world).allocated(),
        final(world).resources == old(world).resources,
{
    let ev = world.event_manager.create_event(EventType::RayCasted(result));
    proof {
        assert(ev.wf());
    }
    world.event_manager.add_engine_event(ev);
}

/// Split a flat index list into triangles, three indices each. The list
/// length must be a multiple of three — the mesh processing guarantees it.
pub fn divide_indices(ind: &Vec<u32>) -> (r: Vec<(usize, usize, usize)>)
    requires
        ind@.len() % 3 == 0,
    ensures
        r@.len() == ind@.len() / 3,
        forall|i: int|
            0 <= i < r@.len() ==> #[trigger] r@[i] == (
                ind@[3 * i] as usize,
                ind@[3 * i + 1] as usize,
                ind@[3 * i + 2] as usize,
            ),
{
    let mut out: Vec<(usize, usize, usize)> = Vec::new();
    let mut i: usize = 0;
    while i < ind.len()
        invariant
            ind@.len() % 3 == 0,
            i % 3 == 0,
            i <= ind@.len(),
            out@.len() == i / 3,
            forall|k: int|
                0 <= k < out@.len() ==> #[trigger] out@[k] == (
                    ind@[3 * k] as usize,
                    ind@[3 * k + 1] as usize,
                    ind@[3 * k + 2] as usize,
                ),
        decreases ind@.len() - i,
    {
        proof {
            assert(i + 3 <= ind@.len()) by {
                assert((ind@.len() - i) % 3 == 0) by (nonlinear_arith)
                    requires
                        ind@.len() % 3 == 0,
                        i % 3 == 0,
                        i <= ind@.len(),
                ;
            }
        }
        let a = ind[i] as usize;
        let b = ind[i + 1] as usize;
        let c = ind[i + 2] as usize;
        out.push((a, b, c));
        proof {
            assert(out@.last() == (ind@[3 * (i as int / 3)] as usize,
            ind@[3 * (i as int / 3) + 1] as usize, ind@[3 * (i as int / 3) + 2] as usize));
        }
        i += 3;
    }
    out
}

} // verus!
