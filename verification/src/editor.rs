use vstd::prelude::*;
use vstd::std_specs::vec::vec_index_mut;
use crate::components::{
    BodyStatus, HighlightComponent, PhysicsComponent, RenderComponent, TransformComponent,
};
use crate::events::{EventType, EventView, SystemType};
use crate::math::Vec3;
use crate::world::{AssetSource, EntityID, ObjType, World};

verus! {

/// The editor: it spawns entities with a chosen mesh and the default
/// shader, and highlights whatever entity the latest ray cast selected.
/// The widget tree it is drawn with lives with the UI collaborator.
pub struct Editor {
    pub shader_label: String,
    pub selected_entity: Option<EntityID>,
    pub spawn_counter: i64,
}

/// The highlight put on a ray-selected entity: full green, in the
/// fixed-point thousandths scale the demo uses.
pub open spec fn spec_selection_highlight() -> HighlightComponent {
    HighlightComponent { color: Vec3 { x: 0, y: 1000, z: 0 } }
}

/// Exec twin of [`spec_selection_highlight`].
pub fn selection_highlight() -> (h: HighlightComponent)
    ensures
        h == spec_selection_highlight(),
{
    HighlightComponent { color: Vec3 { x: 0, y: 1000, z: 0 } }
}

/// The highlight array after acting on a list of events in order: every
/// `RayCasted` event that reports a hit entity with a slot paints that
/// slot; everything else changes nothing.
pub open spec fn apply_highlights(
    h: Seq<Option<HighlightComponent>>,
    events: Seq<EventView>,
) -> Seq<Option<HighlightComponent>>
    decreases events.len(),
{
    if events.len() == 0 {
        h
    } else {
        let rest = apply_highlights(h, events.drop_last());
        match events.last().event_type {
            EventType::RayCasted(cr) => match cr.entity {
                Some(e) => if e < rest.len() {
                    rest.update(e as int, Some(spec_selection_highlight()))
                } else {
                    rest
                },
                None => rest,
            },
            _ => rest,
        }
    }
}

impl Editor {
    /// An editor that spawns with this shader and has nothing selected.
    pub fn new(shader_label: String) -> (e: Editor)
        ensures
            e.shader_label == shader_label,
            e.selected_entity is None,
            e.spawn_counter == 0,
    {
        Editor { shader_label, selected_entity: None, spawn_counter: 0 }
    }

    /// Spawn an entity for the asset the user picked: allocate it, request
    /// its mesh (starting a load only if none is cached), and give it a
    /// render, transform and static-body physics component. Each spawn
    /// lands a step further along the x axis.
    pub fn create_entity(&mut self, world: &mut World, file_name: String) -> (id: EntityID)
        requires
            old(world).wf(),
            old(world).allocated() < usize::MAX,
            old(world).event_manager.next_id() < u64::MAX,
            old(self).spawn_counter < i64::MAX / 5000,
            old(self).spawn_counter >= 0,
        ensures
            final(world).wf(),
            final(self).shader_label == old(self).shader_label,
            final(self).spawn_counter == old(self).spawn_counter + 1,
            final(self).selected_entity == Some(id),
            final(world).entities@ == old(world).entities@.push(id),
            !old(world).alive(id),
            final(world).alive(id),
            id < final(world).allocated(),
            (final(world).components.renderables@[id as int] matches Some(rc)
                && rc.mesh_label@ == file_name@ && rc.shader_label@ == old(self).shader_label@),
            (final(world).components.positionable@[id as int] matches Some(tc)
                && tc.translation == (Vec3 { x: (5000 * old(self).spawn_counter) as i64, y: 0, z: 10000 })
                && tc.scale == 1000),
            (final(world).components.physics@[id as int] matches Some(pc)
                && pc.status == BodyStatus::Static && pc.mass == 1000 && !pc.gravity
                && pc.rigid_handle is None && pc.collider_handle is None),
            old(world).resources.has_mesh(file_name@) ==> final(world).resources.mesh_entries()
                == old(world).resources.mesh_entries(),
            !old(world).resources.has_mesh(file_name@) ==> (
            final(world).resources.mesh_entries().len()
                == old(world).resources.mesh_entries().len() + 1
                && final(world).resources.mesh_entries().last().0 == file_name@
                && !final(world).resources.mesh_entries().last().1.loaded()),
            final(world).resources.shader_entries() == old(world).resources.shader_entries(),
            final(world).resources.has_mesh(file_name@),
            final(world).event_manager.current_buffer() == old(
                world,
            ).event_manager.current_buffer().push(
                (EventView {
                    id: old(world).event_manager.next_id(),
                    event_type: EventType::EntityCreated(id),
                    tags: Seq::<SystemType>::empty(),
                }),
            ),
            final(world).event_manager.pending() == old(world).event_manager.pending(),
            final(world).event_manager.staged() == old(world).event_manager.staged(),
            final(world).event_manager.next_buffer() == old(world).event_manager.next_buffer(),
    {
        let id = world.create_entity();
        let (_res, _outcome) = world.add_resource(
            AssetSource::Mesh(ObjType::Normal, file_name.clone()),
        );
        proof {
            if !old(world).resources.has_mesh(file_name@) {
                assert(world.resources.mesh_entries().last().0 == file_name@);
            }
        }
        let render = RenderComponent::new(file_name, self.shader_label.clone());
        *vec_index_mut(&mut world.components.renderables, id) = Some(render);
        let translation = Vec3::new(5000 * self.spawn_counter, 0, 10000);
        let transform = TransformComponent::new(translation, Vec3::new(0, 1000, 0), 1000);
        *vec_index_mut(&mut world.components.positionable, id) = Some(transform);
        let physics = PhysicsComponent::new(
            1000,
            false,
            BodyStatus::Static,
            Vec3::zero(),
            300,
            800,
        );
        *vec_index_mut(&mut world.components.physics, id) = Some(physics);
        self.spawn_counter = self.spawn_counter + 1;
        self.selected_entity = Some(id);
        proof {
            assert(world.entities@[world.entities@.len() - 1] == id);
        }
        id
    }
}

/// Drain this cycle's events for the editor: every ray cast that reported
/// a hit paints the hit entity with the selection highlight. A reported
/// entity without a slot is ignored as a recoverable no-op.
#[verifier::rlimit(50)]
pub fn handle_world_events(world: &mut World)
    requires
        old(world).wf(),
    ensures
        final(world).wf(),
        final(world).components.highlightable@ == apply_highlights(
            old(world).components.highlightable@,
            old(world).event_manager.delivered(),
        ),
        final(world).components.renderables@ == old(world).components.renderables@,
        final(world).components.positionable@ == old(world).components.positionable@,
        final(world).components.physics@ == old(world).components.physics@,
        final(world).entities@ == old(world).entities@,
        final(world).deleted_entities@ == old(world).deleted_entities@,
        final(world).allocated() == old(world).allocated(),
        final(world).resources == old(world).resources,
        final(world).event_manager == old(world).event_manager,
{
    let events = world.event_manager.get_engine_events();
    let ghost delivered = old(world).event_manager.delivered();
    let mut i: usize = 0;
    while i < events.len()
        invariant
            i <= events@.len(),
            world.wf(),
            crate::events::event_views(events@) == delivered,
            world.components.highlightable@ == apply_highlights(
                old(world).components.highlightable@,
                delivered.take(i as int),
            ),
            world.components.renderables@ == old(world).components.renderables@,
            world.components.positionable@ == old(world).components.positionable@,
            world.components.physics@ == old(world).components.physics@,
            world.entities@ == old(world).entities@,
            world.deleted_entities@ == old(world).deleted_entities@,
            world.allocated() == old(world).allocated(),
            world.resources == old(world).resources,
            world.event_manager == old(world).event_manager,
        decreases events@.len() - i,
    {
        proof {
            assert(crate::events::event_views(events@)[i as int] == events@[i as int]@);
            let t1 = delivered.take(i + 1);
            assert(t1.drop_last() =~= delivered.take(i as int));
            assert(t1.last() == delivered[i as int]);
        }
        match events[i].event_type {
            EventType::RayCasted(cr) => {
                match cr.entity {
                    Some(e) => {
                        if e < world.components.highlightable.len() {
                            *vec_index_mut(&mut world.components.highlightable, e) = Some(
                                selection_highlight(),
                            );
                        }
                    },
                    None => {},
                }
            },
            _ => {},
        }
        i += 1;
    }
    proof {
        assert(delivered.take(delivered.len() as int) =~= delivered);
    }
}

} // verus!
