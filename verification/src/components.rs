use vstd::prelude::*;
use crate::math::{Scalar, Vec3};

verus! {

/// How the rigid-body collaborator should integrate a body.
#[derive(Clone, Copy, Debug, PartialEq, Eq, Structural)]
pub enum BodyStatus {
    Static,
    Kinematic,
    Dynamic,
}

/// Marks an entity for the outline pass; the color is fixed-point RGB.
#[derive(Clone, Copy, Debug, PartialEq, Eq, Structural)]
pub struct HighlightComponent {
    pub color: Vec3,
}

/// What an entity needs drawn: which mesh and shader, by logical name.
#[derive(Debug)]
pub struct RenderComponent {
    pub should_update: bool,
    pub mesh_label: String,
    pub shader_label: String,
    pub textures: Vec<String>,
}

impl RenderComponent {
    pub fn new(mesh_label: String, shader_label: String) -> (c: RenderComponent)
        ensures
            c.should_update,
            c.mesh_label == mesh_label,
            c.shader_label == shader_label,
            c.textures@.len() == 0,
    {
        RenderComponent { should_update: true, mesh_label, shader_label, textures: Vec::new() }
    }
}

/// Where an entity sits and how large it is, in fixed-point units.
#[derive(Clone, Copy, Debug, PartialEq, Eq, Structural)]
pub struct TransformComponent {
    pub translation: Vec3,
    pub rotation: Vec3,
    pub scale: Scalar,
}

impl TransformComponent {
    pub fn new(translation: Vec3, rotation: Vec3, scale: Scalar) -> (c: TransformComponent)
        ensures
            c == (TransformComponent { translation, rotation, scale }),
    {
        TransformComponent { translation, rotation, scale }
    }
}

/// Rigid-body state for an entity. The handles index into the physics
/// collaborator's body and collider sets and are filled in once that
/// collaborator has built the objects; the material is carried as its two
/// coefficients.
#[derive(Clone, Copy, Debug, PartialEq, Eq, Structural)]
pub struct PhysicsComponent {
    pub rigid_handle: Option<usize>,
    pub collider_handle: Option<usize>,
    pub mass: Scalar,
    pub gravity: bool,
    pub status: BodyStatus,
    pub velocity: Vec3,
    pub restitution: Scalar,
    pub friction: Scalar,
}

impl PhysicsComponent {
    pub fn new(
        mass: Scalar,
        gravity: bool,
        status: BodyStatus,
        initial_velocity: Vec3,
        restitution: Scalar,
        friction: Scalar,
    ) -> (c: PhysicsComponent)
        ensures
            c.rigid_handle is None,
            c.collider_handle is None,
            c.mass == mass,
            c.gravity == gravity,
            c.status == status,
            c.velocity == initial_velocity,
            c.restitution == restitution,
            c.friction == friction,
    {
        PhysicsComponent {
            rigid_handle: None,
            collider_handle: None,
            mass,
            gravity,
            status,
            velocity: initial_velocity,
            restitution,
            friction,
        }
    }
}

/// The component arrays, one slot per allocated entity id in each.
pub struct Components {
    pub renderables: Vec<Option<RenderComponent>>,
    pub positionable: Vec<Option<TransformComponent>>,
    pub physics: Vec<Option<PhysicsComponent>>,
    pub highlightable: Vec<Option<HighlightComponent>>,
}

impl Components {
    /// All four arrays are the same length: one slot per allocated entity.
    pub open spec fn aligned(self) -> bool {
        &&& self.positionable@.len() == self.renderables@.len()
        &&& self.physics@.len() == self.renderables@.len()
        &&& self.highlightable@.len() == self.renderables@.len()
    }

    /// How many entity ids have slots.
    pub open spec fn slot_count(self) -> nat {
        self.renderables@.len()
    }

    /// Empty arrays with room for `capacity` entities.
    pub fn new(capacity: usize) -> (c: Components)
        ensures
            c.aligned(),
            c.slot_count() == 0,
    {
        Components {
            renderables: Vec::with_capacity(capacity),
            positionable: Vec::with_capacity(capacity),
            physics: Vec::with_capacity(capacity),
            highlightable: Vec::with_capacity(capacity),
        }
    }

    /// Append one blank slot to every array, atomically from the caller's
    /// point of view: afterwards all arrays are one longer and equal again.
    pub fn create_entry(&mut self)
        ensures
            final(self).renderables@ == old(self).renderables@.push(None),
            final(self).positionable@ == old(self).positionable@.push(None),
            final(self).physics@ == old(self).physics@.push(None),
            final(self).highlightable@ == old(self).highlightable@.push(None),
            old(self).aligned() ==> final(self).aligned(),
            final(self).slot_count() == old(self).slot_count() + 1,
    {
        self.renderables.push(None);
        self.positionable.push(None);
        self.physics.push(None);
        self.highlightable.push(None);
    }

    /// Blank every slot of one entity id.
    pub fn clear_entry(&mut self, id: usize)
        requires
            old(self).aligned(),
            id < old(self).slot_count(),
        ensures
            final(self).renderables@ == old(self).renderables@.update(id as int, None),
            final(self).positionable@ == old(self).positionable@.update(id as int, None),
            final(self).physics@ == old(self).physics@.update(id as int, None),
            final(self).highlightable@ == old(self).highlightable@.update(id as int, None),
            final(self).aligned(),
            final(self).slot_count() == old(self).slot_count(),
    {
        *vstd::std_specs::vec::vec_index_mut(&mut self.renderables, id) = None;
        *vstd::std_specs::vec::vec_index_mut(&mut self.positionable, id) = None;
        *vstd::std_specs::vec::vec_index_mut(&mut self.physics, id) = None;
        *vstd::std_specs::vec::vec_index_mut(&mut self.highlightable, id) = None;
    }
}

} // verus!
