use vstd::prelude::*;
use crate::draw::RenderObject;
use crate::events::{
    add_pending_rel, dedup_events_by_id, dedup_views, event_views, lemma_dedup_views_sound,
    remove_pending_rel, Event, EventType, EventView, SystemType,
};
use crate::world::{world_frame_except_em, EntityID, MeshType, World};

verus! {

/// Work the render system asks the graphics collaborator to do: allocate
/// GPU geometry for an entity from a loaded mesh, or delete the buffers of
/// a freed entity. Allocations are reported back through
/// [`Renderer::complete_normal_allocation`] and
/// [`Renderer::complete_textured_allocation`]; frees carry the forgotten
/// object out.
#[derive(Debug)]
pub enum RenderAction {
    AllocateNormal { entity: EntityID, mesh: String },
    AllocateTextured { entity: EntityID, mesh: String },
    FreeNormal { entity: EntityID, object: RenderObject },
    FreeTextured { entity: EntityID, object: RenderObject },
}

/// Why the render system could not finish an event this cycle. `StoreBusy`
/// and `NotLoaded` are the transient cases the pending mechanism retries;
/// the rest are logical no-ops reported per the error taxonomy.
#[derive(Clone, Copy, Debug, PartialEq, Eq, Structural)]
pub enum RenderError {
    AlreadyAllocated,
    ComponentNotFound,
    StoreBusy,
    MeshNotFound,
    NotLoaded,
    NotAllocated,
}

/// First position in the object list owned by this entity.
fn object_index(v: &Vec<(EntityID, RenderObject)>, id: EntityID) -> (r: Option<usize>)
    ensures
        match r {
            Some(i) => i < v@.len() && v@[i as int].0 == id && (forall|j: int|
                0 <= j < i ==> v@[j].0 != id),
            None => forall|j: int| 0 <= j < v@.len() ==> v@[j].0 != id,
        },
{
    let mut i: usize = 0;
    while i < v.len()
        invariant
            i <= v@.len(),
            forall|j: int| 0 <= j < i ==> v@[j].0 != id,
        decreases v@.len() - i,
    {
        if v[i].0 == id {
            return Some(i);
        }
        i += 1;
    }
    None
}

/// The render system's bookkeeping: which entities own GPU geometry. The
/// buffers themselves live with the graphics collaborator; the screen quad
/// state is filled in by it at startup.
pub struct Renderer {
    pub normal_objects: Vec<(EntityID, RenderObject)>,
    pub textured_objects: Vec<(EntityID, RenderObject)>,
    pub screen_vao: Option<u32>,
    pub screen_shader_program: Option<u32>,
}

impl Renderer {
    /// The untextured allocations, in allocation order.
    pub open spec fn normal_entries(self) -> Seq<(EntityID, RenderObject)> {
        self.normal_objects@
    }

    /// The textured allocations, in allocation order.
    pub open spec fn textured_entries(self) -> Seq<(EntityID, RenderObject)> {
        self.textured_objects@
    }

    /// Whether this entity owns untextured GPU geometry.
    pub open spec fn has_normal(self, id: EntityID) -> bool {
        exists|i: int|
            0 <= i < self.normal_entries().len() && (#[trigger] self.normal_entries()[i]).0 == id
    }

    /// Whether this entity owns textured GPU geometry.
    pub open spec fn has_textured(self, id: EntityID) -> bool {
        exists|i: int|
            0 <= i < self.textured_entries().len() && (#[trigger] self.textured_entries()[i]).0
                == id
    }

    /// Each entity owns at most one object of each kind.
    pub open spec fn wf(self) -> bool {
        &&& (forall|i: int, j: int|
            0 <= i < j < self.normal_entries().len() ==> (#[trigger] self.normal_entries()[i]).0
                != (#[trigger] self.normal_entries()[j]).0)
        &&& (forall|i: int, j: int|
            0 <= i < j < self.textured_entries().len() ==> (
            #[trigger] self.textured_entries()[i]).0 != (#[trigger] self.textured_entries()[j]).0)
    }

    /// A renderer owning nothing yet.
    pub fn new() -> (r: Renderer)
        ensures
            r.wf(),
            r.normal_entries() == Seq::<(EntityID, RenderObject)>::empty(),
            r.textured_entries() == Seq::<(EntityID, RenderObject)>::empty(),
            r.screen_vao is None,
            r.screen_shader_program is None,
    {
        Renderer {
            normal_objects: Vec::new(),
            textured_objects: Vec::new(),
            screen_vao: None,
            screen_shader_program: None,
        }
    }

    /// Exec query for [`Renderer::has_normal`].
    pub fn has_normal_object(&self, id: EntityID) -> (r: bool)
        ensures
            r == self.has_normal(id),
    {
        let found = object_index(&self.normal_objects, id);
        proof {
            if found is Some {
                assert(self.normal_entries()[found->Some_0 as int].0 == id);
            }
        }
        found.is_some()
    }

    /// Exec query for [`Renderer::has_textured`].
    pub fn has_textured_object(&self, id: EntityID) -> (r: bool)
        ensures
            r == self.has_textured(id),
    {
        let found = object_index(&self.textured_objects, id);
        proof {
            if found is Some {
                assert(self.textured_entries()[found->Some_0 as int].0 == id);
            }
        }
        found.is_some()
    }

    /// The position of this entity's untextured object; unique under `wf`.
    pub open spec fn normal_index_of(self, id: EntityID) -> int {
        choose|i: int|
            0 <= i < self.normal_entries().len() && (#[trigger] self.normal_entries()[i]).0 == id
    }

    /// The position of this entity's textured object; unique under `wf`.
    pub open spec fn textured_index_of(self, id: EntityID) -> int {
        choose|i: int|
            0 <= i < self.textured_entries().len() && (#[trigger] self.textured_entries()[i]).0
                == id
    }

    /// Record the GPU object the graphics collaborator allocated for an
    /// entity's untextured mesh. At most one allocation per entity ever
    /// exists, so completing one for an already supplied entity is required
    /// away.
    pub fn complete_normal_allocation(&mut self, id: EntityID, object: RenderObject)
        requires
            old(self).wf(),
            !old(self).has_normal(id),
        ensures
            final(self).wf(),
            final(self).normal_entries() == old(self).normal_entries().push((id, object)),
            final(self).textured_entries() == old(self).textured_entries(),
            final(self).has_normal(id),
    {
        self.normal_objects.push((id, object));
        proof {
            let n0 = old(self).normal_entries();
            assert(self.normal_entries()[n0.len() as int].0 == id);
            assert forall|p: int, q: int|
                0 <= p < q < self.normal_entries().len() implies (
            #[trigger] self.normal_entries()[p]).0 != (#[trigger] self.normal_entries()[q]).0 by {
                if q < n0.len() {
                    assert(n0[p].0 != n0[q].0);
                } else {
                    assert(self.normal_entries()[q].0 == id);
                    assert(n0[p].0 != id);
                }
            }
            assert forall|p: int, q: int|
                0 <= p < q < self.textured_entries().len() implies (
            #[trigger] self.textured_entries()[p]).0 != (#[trigger] self.textured_entries()[q]).0 by {
                assert(old(self).textured_entries()[p].0 != old(self).textured_entries()[q].0);
            }
        }
    }

    /// Record a textured allocation.
    pub fn complete_textured_allocation(&mut self, id: EntityID, object: RenderObject)
        requires
            old(self).wf(),
            !old(self).has_textured(id),
        ensures
            final(self).wf(),
            final(self).textured_entries() == old(self).textured_entries().push((id, object)),
            final(self).normal_entries() == old(self).normal_entries(),
            final(self).has_textured(id),
    {
        self.textured_objects.push((id, object));
        proof {
            let t0 = old(self).textured_entries();
            assert(self.textured_entries()[t0.len() as int].0 == id);
            assert forall|p: int, q: int|
                0 <= p < q < self.textured_entries().len() implies (
            #[trigger] self.textured_entries()[p]).0 != (#[trigger] self.textured_entries()[q]).0 by {
                if q < t0.len() {
                    assert(t0[p].0 != t0[q].0);
                } else {
                    assert(self.textured_entries()[q].0 == id);
                    assert(t0[p].0 != id);
                }
            }
            assert forall|p: int, q: int|
                0 <= p < q < self.normal_entries().len() implies (
            #[trigger] self.normal_entries()[p]).0 != (#[trigger] self.normal_entries()[q]).0 by {
                assert(old(self).normal_entries()[p].0 != old(self).normal_entries()[q].0);
            }
        }
    }
}

/// What [`Renderer::handle_entity_creation`] decides for one
/// `EntityCreated` event and how the pending bookkeeping moves. GPU
/// geometry is requested only once the entity's mesh is loaded; while the
/// store is busy or the mesh still loading the system defers itself on the
/// event exactly once, and on success it releases a deferred event.
pub open spec fn render_created_rel(
    pre_r: Renderer,
    post_r: Renderer,
    pre_w: World,
    post_w: World,
    ev: EventView,
    store_readable: bool,
    r: Result<RenderAction, RenderError>,
) -> bool {
    match ev.event_type {
        EventType::EntityCreated(id) => {
            if pre_r.has_normal(id) || pre_r.has_textured(id) {
                &&& r == Err::<RenderAction, RenderError>(RenderError::AlreadyAllocated)
                &&& post_r == pre_r
                &&& post_w.event_manager == pre_w.event_manager
            } else if !(id < pre_w.components.slot_count()
                && pre_w.components.renderables@[id as int] is Some) {
                &&& r == Err::<RenderAction, RenderError>(RenderError::ComponentNotFound)
                &&& post_r == pre_r
                &&& post_w.event_manager == pre_w.event_manager
            } else {
                let key = pre_w.components.renderables@[id as int]->Some_0.mesh_label@;
                if !store_readable {
                    &&& r == Err::<RenderAction, RenderError>(RenderError::StoreBusy)
                    &&& post_r == pre_r
                    &&& (if !ev.tags.contains(SystemType::RenderSystem) {
                        add_pending_rel(
                            pre_w.event_manager,
                            post_w.event_manager,
                            ev,
                            SystemType::RenderSystem,
                        )
                    } else {
                        post_w.event_manager == pre_w.event_manager
                    })
                } else if !pre_w.resources.has_mesh(key) {
                    &&& r == Err::<RenderAction, RenderError>(RenderError::MeshNotFound)
                    &&& post_r == pre_r
                    &&& post_w.event_manager == pre_w.event_manager
                } else {
                    match pre_w.resources.mesh_at(key).payload() {
                        None => {
                            &&& r == Err::<RenderAction, RenderError>(RenderError::NotLoaded)
                            &&& post_r == pre_r
                            &&& (if !ev.tags.contains(SystemType::RenderSystem) {
                                add_pending_rel(
                                    pre_w.event_manager,
                                    post_w.event_manager,
                                    ev,
                                    SystemType::RenderSystem,
                                )
                            } else {
                                post_w.event_manager == pre_w.event_manager
                            })
                        },
                        Some(MeshType::Normal(_)) => {
                            &&& (r matches Ok(a) && (a matches RenderAction::AllocateNormal {
                                entity,
                                mesh,
                            } && (entity == id && mesh@ == key)))
                            &&& post_r == pre_r
                            &&& (if ev.tags.contains(SystemType::RenderSystem)
                                && pre_w.event_manager.has_pending(ev.id) {
                                remove_pending_rel(
                                    pre_w.event_manager,
                                    post_w.event_manager,
                                    ev.id,
                                    SystemType::RenderSystem,
                                )
                            } else {
                                post_w.event_manager == pre_w.event_manager
                            })
                        },
                        Some(MeshType::Textured(_)) => {
                            &&& (r matches Ok(a) && (a matches RenderAction::AllocateTextured {
                                entity,
                                mesh,
                            } && (entity == id && mesh@ == key)))
                            &&& post_r == pre_r
                            &&& post_w.event_manager == pre_w.event_manager
                        },
                    }
                }
            }
        },
        _ => {
            &&& r == Err::<RenderAction, RenderError>(RenderError::ComponentNotFound)
            &&& post_r == pre_r
            &&& post_w.event_manager == pre_w.event_manager
        },
    }
}

/// What [`Renderer::handle_entity_removal`] decides for one `EntityRemoved`
/// event: the entity's object leaves the bookkeeping and travels out in the
/// action for the graphics collaborator to delete.
pub open spec fn render_removed_rel(
    pre_r: Renderer,
    post_r: Renderer,
    pre_w: World,
    post_w: World,
    ev: EventView,
    store_readable: bool,
    r: Result<RenderAction, RenderError>,
) -> bool {
    match ev.event_type {
        EventType::EntityRemoved(id) => {
            if !(id < pre_w.components.slot_count() && pre_w.components.renderables@[id as int]
                is Some) {
                &&& r == Err::<RenderAction, RenderError>(RenderError::ComponentNotFound)
                &&& post_r == pre_r
                &&& post_w.event_manager == pre_w.event_manager
            } else {
                let key = pre_w.components.renderables@[id as int]->Some_0.mesh_label@;
                if !store_readable {
                    &&& r == Err::<RenderAction, RenderError>(RenderError::StoreBusy)
                    &&& post_r == pre_r
                    &&& add_pending_rel(
                        pre_w.event_manager,
                        post_w.event_manager,
                        ev,
                        SystemType::RenderSystem,
                    )
                } else if !pre_w.resources.has_mesh(key) {
                    &&& r == Err::<RenderAction, RenderError>(RenderError::MeshNotFound)
                    &&& post_r == pre_r
                    &&& post_w.event_manager == pre_w.event_manager
                } else {
                    match pre_w.resources.mesh_at(key).payload() {
                        None => {
                            &&& r == Err::<RenderAction, RenderError>(RenderError::NotLoaded)
                            &&& post_r == pre_r
                            &&& post_w.event_manager == pre_w.event_manager
                        },
                        Some(MeshType::Normal(_)) => {
                            if pre_r.has_normal(id) {
                                &&& (r matches Ok(a) && (a matches RenderAction::FreeNormal {
                                    entity,
                                    object,
                                } && (entity == id && object == pre_r.normal_entries()[pre_r.normal_index_of(id)].1)))
                                &&& post_r.normal_entries() == pre_r.normal_entries().remove(
                                    pre_r.normal_index_of(id),
                                )
                                &&& post_r.textured_entries() == pre_r.textured_entries()
                                &&& (if ev.tags.contains(SystemType::RenderSystem)
                                    && pre_w.event_manager.has_pending(ev.id) {
                                    remove_pending_rel(
                                        pre_w.event_manager,
                                        post_w.event_manager,
                                        ev.id,
                                        SystemType::RenderSystem,
                                    )
                                } else {
                                    post_w.event_manager == pre_w.event_manager
                                })
                            } else {
                                &&& r == Err::<RenderAction, RenderError>(RenderError::NotAllocated)
                                &&& post_r == pre_r
                                &&& post_w.event_manager == pre_w.event_manager
                            }
                        },
                        Some(MeshType::Textured(_)) => {
                            if pre_r.has_textured(id) {
                                &&& (r matches Ok(a) && (a matches RenderAction::FreeTextured {
                                    entity,
                                    object,
                                } && (entity == id && object == pre_r.textured_entries()[pre_r.textured_index_of(id)].1)))
                                &&& post_r.textured_entries() == pre_r.textured_entries().remove(
                                    pre_r.textured_index_of(id),
                                )
                                &&& post_r.normal_entries() == pre_r.normal_entries()
                                &&& (if ev.tags.contains(SystemType::RenderSystem)
                                    && pre_w.event_manager.has_pending(ev.id) {
                                    remove_pending_rel(
                                        pre_w.event_manager,
                                        post_w.event_manager,
                                        ev.id,
                                        SystemType::RenderSystem,
                                    )
                                } else {
                                    post_w.event_manager == pre_w.event_manager
                                })
                            } else {
                                &&& r == Err::<RenderAction, RenderError>(RenderError::NotAllocated)
                                &&& post_r == pre_r
                                &&& post_w.event_manager == pre_w.event_manager
                            }
                        },
                    }
                }
            }
        },
        _ => {
            &&& r == Err::<RenderAction, RenderError>(RenderError::ComponentNotFound)
            &&& post_r == pre_r
            &&& post_w.event_manager == pre_w.event_manager
        },
    }
}

impl Renderer {
    /// Decide what to do about one `EntityCreated` event, per the gating
    /// contract: allocate GPU geometry only from a fully loaded mesh; defer
    /// on a busy store or a mesh still loading, without any partial state;
    /// report an entity that already owns geometry, lacks a render
    /// component or names an unknown mesh as the matching error.
    pub fn handle_entity_creation(
        &mut self,
        world: &mut World,
        event: &Event,
        store_readable: bool,
    ) -> (r: Result<RenderAction, RenderError>)
        requires
            old(self).wf(),
            old(world).wf(),
            event@.tags.no_duplicates(),
        ensures
            final(self).wf(),
            final(world).wf(),
            world_frame_except_em(*old(world), *final(world)),
            final(world).event_manager.current_buffer() == old(
                world,
            ).event_manager.current_buffer(),
            final(world).event_manager.next_buffer() == old(world).event_manager.next_buffer(),
            final(world).event_manager.next_id() == old(world).event_manager.next_id(),
            render_created_rel(
                *old(self),
                *final(self),
                *old(world),
                *final(world),
                event@,
                store_readable,
                r,
            ),
    {
        let id: EntityID = match event.event_type {
            EventType::EntityCreated(id) => id,
            _ => {
                return Err(RenderError::ComponentNotFound);
            },
        };
        if self.has_normal_object(id) || self.has_textured_object(id) {
            return Err(RenderError::AlreadyAllocated);
        }
        let label_opt: Option<String> = if id < world.components.renderables.len() {
            match &world.components.renderables[id] {
                Some(rc) => Some(rc.mesh_label.clone()),
                None => None,
            }
        } else {
            None
        };
        let label = match label_opt {
            Some(label) => label,
            None => {
                return Err(RenderError::ComponentNotFound);
            },
        };
        if !store_readable {
            if !event.is_pending_for(SystemType::RenderSystem) {
                world.event_manager.add_pending(event.duplicate(), SystemType::RenderSystem);
            }
            return Err(RenderError::StoreBusy);
        }
        let mesh_kind: Option<bool> = match world.resources.get_mesh(&label) {
            Some(mesh) => {
                match &mesh.mesh_type {
                    Some(MeshType::Normal(_)) => Some(true),
                    Some(MeshType::Textured(_)) => Some(false),
                    None => None,
                }
            },
            None => {
                return Err(RenderError::MeshNotFound);
            },
        };
        match mesh_kind {
            None => {
                if !event.is_pending_for(SystemType::RenderSystem) {
                    world.event_manager.add_pending(event.duplicate(), SystemType::RenderSystem);
                }
                Err(RenderError::NotLoaded)
            },
            Some(true) => {
                if event.is_pending_for(SystemType::RenderSystem) && world.event_manager.is_pending(
                    event.id,
                ) {
                    world.event_manager.remove_pending(event.id, SystemType::RenderSystem);
                }
                Ok(RenderAction::AllocateNormal { entity: id, mesh: label })
            },
            Some(false) => Ok(RenderAction::AllocateTextured { entity: id, mesh: label }),
        }
    }

    /// Decide what to do about one `EntityRemoved` event: give the entity's
    /// GPU object back to the graphics collaborator for deletion, deferring
    /// while the store is busy, and reporting the defensive errors of the
    /// taxonomy instead of failing on an entity that was never allocated.
    pub fn handle_entity_removal(
        &mut self,
        world: &mut World,
        event: &Event,
        store_readable: bool,
    ) -> (r: Result<RenderAction, RenderError>)
        requires
            old(self).wf(),
            old(world).wf(),
            event@.tags.no_duplicates(),
        ensures
            final(self).wf(),
            final(world).wf(),
            world_frame_except_em(*old(world), *final(world)),
            final(world).event_manager.current_buffer() == old(
                world,
            ).event_manager.current_buffer(),
            final(world).event_manager.next_buffer() == old(world).event_manager.next_buffer(),
            final(world).event_manager.next_id() == old(world).event_manager.next_id(),
            render_removed_rel(
                *old(self),
                *final(self),
                *old(world),
                *final(world),
                event@,
                store_readable,
                r,
            ),
    {
        let id: EntityID = match event.event_type {
            EventType::EntityRemoved(id) => id,
            _ => {
                return Err(RenderError::ComponentNotFound);
            },
        };
        let label_opt: Option<String> = if id < world.components.renderables.len() {
            match &world.components.renderables[id] {
                Some(rc) => Some(rc.mesh_label.clone()),
                None => None,
            }
        } else {
            None
        };
        let label = match label_opt {
            Some(label) => label,
            None => {
                return Err(RenderError::ComponentNotFound);
            },
        };
        if !store_readable {
            world.event_manager.add_pending(event.duplicate(), SystemType::RenderSystem);
            return Err(RenderError::StoreBusy);
        }
        let mesh_kind: Option<bool> = match world.resources.get_mesh(&label) {
            Some(mesh) => {
                match &mesh.mesh_type {
                    Some(MeshType::Normal(_)) => Some(true),
                    Some(MeshType::Textured(_)) => Some(false),
                    None => None,
                }
            },
            None => {
                return Err(RenderError::MeshNotFound);
            },
        };
        match mesh_kind {
            None => Err(RenderError::NotLoaded),
            Some(true) => {
                match object_index(&self.normal_objects, id) {
                    Some(i) => {
                        proof {
                            assert(old(self).normal_entries()[i as int].0 == id);
                            let ni = old(self).normal_index_of(id);
                            assert(0 <= ni < old(self).normal_entries().len() && old(
                                self,
                            ).normal_entries()[ni].0 == id);
                            assert(ni == i as int) by {
                                if ni != i as int {
                                    assert(old(self).normal_entries()[ni].0 != old(
                                        self,
                                    ).normal_entries()[i as int].0);
                                }
                            }
                        }
                        let pair = self.normal_objects.remove(i);
                        proof {
                            old(self).normal_entries().remove_ensures(i as int);
                            assert forall|p: int, q: int|
                                0 <= p < q < self.normal_entries().len() implies (
                            #[trigger] self.normal_entries()[p]).0 != (
                            #[trigger] self.normal_entries()[q]).0 by {
                                let p0: int = if p < i as int {
                                    p
                                } else {
                                    p + 1
                                };
                                let q0: int = if q < i as int {
                                    q
                                } else {
                                    q + 1
                                };
                                assert(self.normal_entries()[p] == old(self).normal_entries()[p0]);
                                assert(self.normal_entries()[q] == old(self).normal_entries()[q0]);
                                assert(old(self).normal_entries()[p0].0 != old(
                                    self,
                                ).normal_entries()[q0].0);
                            }
                        }
                        if event.is_pending_for(SystemType::RenderSystem)
                            && world.event_manager.is_pending(event.id) {
                            world.event_manager.remove_pending(event.id, SystemType::RenderSystem);
                        }
                        Ok(RenderAction::FreeNormal { entity: id, object: pair.1 })
                    },
                    None => {
                        proof {
                            assert forall|k: int|
                                0 <= k < self.normal_entries().len() implies (
                            #[trigger] self.normal_entries()[k]).0 != id by {}
                        }
                        Err(RenderError::NotAllocated)
                    },
                }
            },
            Some(false) => {
                match object_index(&self.textured_objects, id) {
                    Some(i) => {
                        proof {
                            assert(old(self).textured_entries()[i as int].0 == id);
                            let ti = old(self).textured_index_of(id);
                            assert(0 <= ti < old(self).textured_entries().len() && old(
                                self,
                            ).textured_entries()[ti].0 == id);
                            assert(ti == i as int) by {
                                if ti != i as int {
                                    assert(old(self).textured_entries()[ti].0 != old(
                                        self,
                                    ).textured_entries()[i as int].0);
                                }
                            }
                        }
                        let pair = self.textured_objects.remove(i);
                        proof {
                            old(self).textured_entries().remove_ensures(i as int);
                            assert forall|p: int, q: int|
                                0 <= p < q < self.textured_entries().len() implies (
                            #[trigger] self.textured_entries()[p]).0 != (
                            #[trigger] self.textured_entries()[q]).0 by {
                                let p0: int = if p < i as int {
                                    p
                                } else {
                                    p + 1
                                };
                                let q0: int = if q < i as int {
                                    q
                                } else {
                                    q + 1
                                };
                                assert(self.textured_entries()[p] == old(
                                    self,
                                ).textured_entries()[p0]);
                                assert(self.textured_entries()[q] == old(
                                    self,
                                ).textured_entries()[q0]);
                                assert(old(self).textured_entries()[p0].0 != old(
                                    self,
                                ).textured_entries()[q0].0);
                            }
                        }
                        if event.is_pending_for(SystemType::RenderSystem)
                            && world.event_manager.is_pending(event.id) {
                            world.event_manager.remove_pending(event.id, SystemType::RenderSystem);
                        }
                        Ok(RenderAction::FreeTextured { entity: id, object: pair.1 })
                    },
                    None => {
                        proof {
                            assert forall|k: int|
                                0 <= k < self.textured_entries().len() implies (
                            #[trigger] self.textured_entries()[k]).0 != id by {}
                        }
                        Err(RenderError::NotAllocated)
                    },
                }
            },
        }
    }
}

/// A render action is justified by the states it was decided against:
/// allocations only for entities whose render component names a mesh of
/// the right kind, fully loaded, and not yet allocated; frees only hand
/// out objects the renderer actually held.
pub open spec fn render_action_justified(w: World, a: RenderAction) -> bool {
    match a {
        RenderAction::AllocateNormal { entity, mesh } => {
            &&& entity < w.components.slot_count()
            &&& (w.components.renderables@[entity as int] matches Some(rc) && rc.mesh_label@
                == mesh@)
            &&& w.resources.has_mesh(mesh@)
            &&& (w.resources.mesh_at(mesh@).payload() matches Some(MeshType::Normal(_)))
        },
        RenderAction::AllocateTextured { entity, mesh } => {
            &&& entity < w.components.slot_count()
            &&& (w.components.renderables@[entity as int] matches Some(rc) && rc.mesh_label@
                == mesh@)
            &&& w.resources.has_mesh(mesh@)
            &&& (w.resources.mesh_at(mesh@).payload() matches Some(MeshType::Textured(_)))
        },
        RenderAction::FreeNormal { entity, object: _ } => {
            &&& entity < w.components.slot_count()
            &&& w.components.renderables@[entity as int] is Some
            &&& w.resources.has_mesh(w.components.renderables@[entity as int]->Some_0.mesh_label@)
        },
        RenderAction::FreeTextured { entity, object: _ } => {
            &&& entity < w.components.slot_count()
            &&& w.components.renderables@[entity as int] is Some
            &&& w.resources.has_mesh(w.components.renderables@[entity as int]->Some_0.mesh_label@)
        },
    }
}

/// How one deduplicated event moves the render system: an `EntityCreated`
/// event is decided by [`Renderer::handle_entity_creation`], an
/// `EntityRemoved` event by [`Renderer::handle_entity_removal`] — each
/// emitting its action exactly when it succeeded — and every other event is
/// ignored.
pub open spec fn render_step_rel(
    pre_r: Renderer,
    post_r: Renderer,
    pre_w: World,
    post_w: World,
    ev: EventView,
    store_readable: bool,
    emitted: Seq<RenderAction>,
) -> bool {
    match ev.event_type {
        EventType::EntityCreated(_) => exists|r: Result<RenderAction, RenderError>|
            {
                &&& #[trigger] render_created_rel(
                    pre_r,
                    post_r,
                    pre_w,
                    post_w,
                    ev,
                    store_readable,
                    r,
                )
                &&& world_frame_except_em(pre_w, post_w)
                &&& post_w.event_manager.current_buffer() == pre_w.event_manager.current_buffer()
                &&& post_w.event_manager.next_buffer() == pre_w.event_manager.next_buffer()
                &&& post_w.event_manager.next_id() == pre_w.event_manager.next_id()
                &&& (match r {
                    Ok(a) => emitted == seq![a],
                    Err(_) => emitted == Seq::<RenderAction>::empty(),
                })
            },
        EventType::EntityRemoved(_) => exists|r: Result<RenderAction, RenderError>|
            {
                &&& #[trigger] render_removed_rel(
                    pre_r,
                    post_r,
                    pre_w,
                    post_w,
                    ev,
                    store_readable,
                    r,
                )
                &&& world_frame_except_em(pre_w, post_w)
                &&& post_w.event_manager.current_buffer() == pre_w.event_manager.current_buffer()
                &&& post_w.event_manager.next_buffer() == pre_w.event_manager.next_buffer()
                &&& post_w.event_manager.next_id() == pre_w.event_manager.next_id()
                &&& (match r {
                    Ok(a) => emitted == seq![a],
                    Err(_) => emitted == Seq::<RenderAction>::empty(),
                })
            },
        _ => {
            &&& post_r == pre_r
            &&& post_w == pre_w
            &&& emitted == Seq::<RenderAction>::empty()
        },
    }
}

/// The whole cycle of the render system, as the fold of
/// [`render_step_rel`] over the events in delivery order: the final
/// renderer and world and the full action list come from working through
/// every event, each step starting from the state the previous one left.
pub open spec fn render_cycle_rel(
    pre_r: Renderer,
    post_r: Renderer,
    pre_w: World,
    post_w: World,
    events: Seq<EventView>,
    store_readable: bool,
    actions: Seq<RenderAction>,
) -> bool
    decreases events.len(),
{
    if events.len() == 0 {
        &&& post_r == pre_r
        &&& post_w == pre_w
        &&& actions == Seq::<RenderAction>::empty()
    } else {
        exists|mid_r: Renderer, mid_w: World, k: int|
            {
                &&& 0 <= k <= actions.len()
                &&& render_cycle_rel(
                    pre_r,
                    mid_r,
                    pre_w,
                    mid_w,
                    events.drop_last(),
                    store_readable,
                    actions.take(k),
                )
                &&& #[trigger] render_step_rel(
                    mid_r,
                    post_r,
                    mid_w,
                    post_w,
                    events.last(),
                    store_readable,
                    actions.skip(k),
                )
            }
    }
}

/// Extending a cycle by one more event: a run over the prefix followed by
/// one step over the last event is a run over the whole list.
proof fn lemma_render_cycle_extend(
    pre_r: Renderer,
    mid_r: Renderer,
    post_r: Renderer,
    pre_w: World,
    mid_w: World,
    post_w: World,
    events: Seq<EventView>,
    store_readable: bool,
    actions: Seq<RenderAction>,
    k: int,
)
    requires
        0 <= k <= actions.len(),
        events.len() > 0,
        render_cycle_rel(pre_r, mid_r, pre_w, mid_w, events.drop_last(), store_readable, actions.take(k)),
        render_step_rel(mid_r, post_r, mid_w, post_w, events.last(), store_readable, actions.skip(k)),
    ensures
        render_cycle_rel(pre_r, post_r, pre_w, post_w, events, store_readable, actions),
{
}

impl Renderer {
    /// One cycle of the render system's event work: drain this cycle's
    /// events de-duplicated by id and decide each one in delivery order —
    /// allocate for created entities whose mesh is ready, free removed
    /// entities' objects, defer what is not ready through the pending
    /// mechanism. The final state and the returned actions are exactly the
    /// fold of the per-event decisions over the deduplicated delivered
    /// events, and every returned action is justified by the state the
    /// decisions were made against.
    pub fn handle_system_events(&mut self, world: &mut World, store_readable: bool) -> (actions:
        Vec<RenderAction>)
        requires
            old(self).wf(),
            old(world).wf(),
        ensures
            final(self).wf(),
            final(world).wf(),
            world_frame_except_em(*old(world), *final(world)),
            final(world).event_manager.current_buffer() == old(
                world,
            ).event_manager.current_buffer(),
            final(world).event_manager.next_buffer() == old(world).event_manager.next_buffer(),
            final(world).event_manager.next_id() == old(world).event_manager.next_id(),
            final(self).normal_entries().len() <= old(self).normal_entries().len(),
            final(self).textured_entries().len() <= old(self).textured_entries().len(),
            render_cycle_rel(
                *old(self),
                *final(self),
                *old(world),
                *final(world),
                dedup_views(old(world).event_manager.delivered()),
                store_readable,
                actions@,
            ),
            forall|k: int|
                0 <= k < actions@.len() ==> render_action_justified(
                    *old(world),
                    #[trigger] actions@[k],
                ),
    {
        let mut actions: Vec<RenderAction> = Vec::new();
        let snapshot = world.event_manager.get_engine_events();
        let events = dedup_events_by_id(&snapshot);
        let ghost delivered = old(world).event_manager.delivered();
        let ghost devents = dedup_views(delivered);
        proof {
            assert(event_views(events@) == devents);
            lemma_dedup_views_sound(delivered);
            assert(devents.take(0) =~= Seq::<EventView>::empty());
            assert(actions@ =~= Seq::<RenderAction>::empty());
            assert(render_cycle_rel(
                *old(self),
                *self,
                *old(world),
                *world,
                devents.take(0),
                store_readable,
                actions@,
            ));
        }
        let mut i: usize = 0;
        while i < events.len()
            invariant
                i <= events@.len(),
                self.wf(),
                world.wf(),
                old(self).wf(),
                old(world).wf(),
                world_frame_except_em(*old(world), *world),
                world.event_manager.current_buffer() == old(world).event_manager.current_buffer(),
                world.event_manager.next_buffer() == old(world).event_manager.next_buffer(),
                world.event_manager.next_id() == old(world).event_manager.next_id(),
                delivered == old(world).event_manager.delivered(),
                devents == dedup_views(delivered),
                event_views(events@) == devents,
                forall|k: int|
                    0 <= k < devents.len() ==> exists|j: int|
                        0 <= j < delivered.len() && (#[trigger] devents[k]) == delivered[j],
                self.normal_entries().len() <= old(self).normal_entries().len(),
                self.textured_entries().len() <= old(self).textured_entries().len(),
                render_cycle_rel(
                    *old(self),
                    *self,
                    *old(world),
                    *world,
                    devents.take(i as int),
                    store_readable,
                    actions@,
                ),
                forall|k: int|
                    0 <= k < actions@.len() ==> render_action_justified(
                        *old(world),
                        #[trigger] actions@[k],
                    ),
            decreases events@.len() - i,
        {
            proof {
                assert(event_views(events@)[i as int] == events@[i as int]@);
                assert(devents[i as int] == events@[i as int]@);
                assert(exists|j: int|
                    0 <= j < delivered.len() && (#[trigger] devents[i as int]) == delivered[j]);
                let j = choose|j: int|
                    0 <= j < delivered.len() && (#[trigger] devents[i as int]) == delivered[j];
                assert(events@[i as int]@.tags.no_duplicates()) by {
                    let c = old(world).event_manager.current_buffer();
                    let p = old(world).event_manager.pending();
                    assert(delivered == c + p);
                    if j < c.len() {
                        assert((c + p)[j] == c[j]);
                    } else {
                        assert((c + p)[j] == p[j - c.len()]);
                    }
                }
                assert(devents.take(i + 1).drop_last() =~= devents.take(i as int));
                assert(devents.take(i + 1).last() == devents[i as int]);
            }
            let ghost self_pre = *self;
            let ghost world_pre = *world;
            let ghost a_pre = actions@;
            match events[i].event_type {
                EventType::EntityCreated(_) => {
                    let r = self.handle_entity_creation(world, &events[i], store_readable);
                    let ghost gr = r;
                    match r {
                        Ok(a) => {
                            proof {
                                assert(render_action_justified(*old(world), a));
                            }
                            actions.push(a);
                        },
                        Err(_) => {},
                    }
                    proof {
                        let n = a_pre.len() as int;
                        assert(actions@.take(n) =~= a_pre);
                        assert(render_step_rel(
                            self_pre,
                            *self,
                            world_pre,
                            *world,
                            events@[i as int]@,
                            store_readable,
                            actions@.skip(n),
                        )) by {
                            assert(render_created_rel(
                                self_pre,
                                *self,
                                world_pre,
                                *world,
                                events@[i as int]@,
                                store_readable,
                                gr,
                            ));
                            match gr {
                                Ok(a) => {
                                    assert(actions@.skip(n) =~= seq![a]);
                                },
                                Err(_) => {
                                    assert(actions@.skip(n) =~= Seq::<RenderAction>::empty());
                                },
                            }
                        }
                        assert(render_cycle_rel(
                            *old(self),
                            self_pre,
                            *old(world),
                            world_pre,
                            devents.take(i as int),
                            store_readable,
                            actions@.take(n),
                        ));
                        assert(render_cycle_rel(
                            *old(self),
                            self_pre,
                            *old(world),
                            world_pre,
                            devents.take(i + 1).drop_last(),
                            store_readable,
                            actions@.take(n),
                        ));
                        assert(render_step_rel(
                            self_pre,
                            *self,
                            world_pre,
                            *world,
                            devents.take(i + 1).last(),
                            store_readable,
                            actions@.skip(n),
                        ));
                        lemma_render_cycle_extend(
                            *old(self),
                            self_pre,
                            *self,
                            *old(world),
                            world_pre,
                            *world,
                            devents.take(i + 1),
                            store_readable,
                            actions@,
                            n,
                        );
                    }
                },
                EventType::EntityRemoved(_) => {
                    let r = self.handle_entity_removal(world, &events[i], store_readable);
                    let ghost gr = r;
                    match r {
                        Ok(a) => {
                            actions.push(a);
                        },
                        Err(_) => {},
                    }
                    proof {
                        let n = a_pre.len() as int;
                        assert(actions@.take(n) =~= a_pre);
                        assert(render_step_rel(
                            self_pre,
                            *self,
                            world_pre,
                            *world,
                            events@[i as int]@,
                            store_readable,
                            actions@.skip(n),
                        )) by {
                            assert(render_removed_rel(
                                self_pre,
                                *self,
                                world_pre,
                                *world,
                                events@[i as int]@,
                                store_readable,
                                gr,
                            ));
                            match gr {
                                Ok(a) => {
                                    assert(actions@.skip(n) =~= seq![a]);
                                },
                                Err(_) => {
                                    assert(actions@.skip(n) =~= Seq::<RenderAction>::empty());
                                },
                            }
                        }
                        assert(render_cycle_rel(
                            *old(self),
                            self_pre,
                            *old(world),
                            world_pre,
                            devents.take(i as int),
                            store_readable,
                            actions@.take(n),
                        ));
                        assert(render_cycle_rel(
                            *old(self),
                            self_pre,
                            *old(world),
                            world_pre,
                            devents.take(i + 1).drop_last(),
                            store_readable,
                            actions@.take(n),
                        ));
                        assert(render_step_rel(
                            self_pre,
                            *self,
                            world_pre,
                            *world,
                            devents.take(i + 1).last(),
                            store_readable,
                            actions@.skip(n),
                        ));
                        lemma_render_cycle_extend(
                            *old(self),
                            self_pre,
                            *self,
                            *old(world),
                            world_pre,
                            *world,
                            devents.take(i + 1),
                            store_readable,
                            actions@,
                            n,
                        );
                    }
                },
                _ => {
                    proof {
                        let n = a_pre.len() as int;
                        assert(actions@.take(n) =~= a_pre);
                        assert(actions@.skip(n) =~= Seq::<RenderAction>::empty());
                        assert(render_step_rel(
                            self_pre,
                            *self,
                            world_pre,
                            *world,
                            events@[i as int]@,
                            store_readable,
                            actions@.skip(n),
                        ));
                        assert(render_cycle_rel(
                            *old(self),
                            self_pre,
                            *old(world),
                            world_pre,
                            devents.take(i as int),
                            store_readable,
                            actions@.take(n),
                        ));
                        assert(render_cycle_rel(
                            *old(self),
                            self_pre,
                            *old(world),
                            world_pre,
                            devents.take(i + 1).drop_last(),
                            store_readable,
                            actions@.take(n),
                        ));
                        assert(render_step_rel(
                            self_pre,
                            *self,
                            world_pre,
                            *world,
                            devents.take(i + 1).last(),
                            store_readable,
                            actions@.skip(n),
                        ));
                        lemma_render_cycle_extend(
                            *old(self),
                            self_pre,
                            *self,
                            *old(world),
                            world_pre,
                            *world,
                            devents.take(i + 1),
                            store_readable,
                            actions@,
                            n,
                        );
                    }
                },
            }
            i += 1;
        }
        proof {
            assert(devents.take(events@.len() as int) =~= devents);
        }
        actions
    }

    /// Look the screen shader up and remember its program; fails fatally
    /// when the program is unknown or still compiling, per the startup
    /// error taxonomy. The screen quad geometry itself is the graphics
    /// collaborator's and lands in `screen_vao` separately.
    pub fn init(&mut self, world: &World, shader_name: &String) -> (r: Result<(), RenderError>)
        requires
            world.wf(),
        ensures
            final(self).normal_entries() == old(self).normal_entries(),
            final(self).textured_entries() == old(self).textured_entries(),
            (r is Ok) <==> (world.resources.has_shader(shader_name@)
                && world.resources.shader_at(shader_name@) is Some),
            r is Ok ==> final(self).screen_shader_program == world.resources.shader_at(
                shader_name@,
            ),
            r is Err ==> *final(self) == *old(self),
    {
        match world.resources.get_shader(shader_name) {
            Some(Some(program)) => {
                self.screen_shader_program = Some(program);
                Ok(())
            },
            Some(None) => Err(RenderError::NotLoaded),
            None => Err(RenderError::MeshNotFound),
        }
    }
}

} // verus!
