use imara::components::{HighlightComponent, PhysicsComponent, RenderComponent, TransformComponent};
use imara::editor::Editor;
use imara::events::EventType;
use imara::math::{Vec3, Vec4};
use imara::parser::NormalObj;
use imara::world::{
    AssetSource, EntitySnapshot, Mesh, MeshType, ObjType, RenderData, RequestOutcome,
    ResourceResult, Resources, TransformData, World,
};

fn small_mesh() -> MeshType {
    MeshType::Normal(NormalObj {
        vertices: vec![
            Vec4::new(0, 0, 0, 1000),
            Vec4::new(1000, 0, 0, 1000),
            Vec4::new(0, 1000, 0, 1000),
        ],
        normals: vec![
            Vec3::new(0, 0, 1000),
            Vec3::new(0, 0, 1000),
            Vec3::new(0, 0, 1000),
        ],
        indices: vec![0, 1, 2],
    })
}

#[test]
fn create_assigns_fresh_sequential_ids() {
    let mut world = World::new();
    assert_eq!(world.create_entity(), 0);
    assert_eq!(world.create_entity(), 1);
    assert_eq!(world.create_entity(), 2);
    assert_eq!(world.entities, vec![0, 1, 2]);
    assert!(world.is_alive(1));
    assert!(!world.is_alive(3));
}

#[test]
fn component_arrays_stay_aligned_after_creates() {
    let mut world = World::new();
    for _ in 0..5 {
        world.create_entity();
    }
    let n = world.components.renderables.len();
    assert_eq!(n, 5);
    assert_eq!(world.components.positionable.len(), n);
    assert_eq!(world.components.physics.len(), n);
    assert_eq!(world.components.highlightable.len(), n);
}

#[test]
fn removed_entity_is_recycled_with_blank_slots() {
    let mut world = World::new();
    let a = world.create_entity();
    let b = world.create_entity();
    world.components.renderables[a] = Some(RenderComponent::new(
        "cube.obj".to_string(),
        "default".to_string(),
    ));
    world.components.highlightable[a] = Some(HighlightComponent {
        color: Vec3::new(0, 1000, 0),
    });
    world.remove_entity(a);
    assert!(!world.is_alive(a));
    assert!(world.is_alive(b));
    // slots are blanked before the id can be reused
    assert!(world.components.renderables[a].is_none());
    assert!(world.components.positionable[a].is_none());
    assert!(world.components.physics[a].is_none());
    assert!(world.components.highlightable[a].is_none());
    // the freed id is recycled before any new id is minted
    let c = world.create_entity();
    assert_eq!(c, a);
    assert!(world.is_alive(c));
    assert_eq!(world.components.renderables.len(), 2);
}

#[test]
fn create_and_remove_emit_engine_events() {
    let mut world = World::new();
    let id = world.create_entity();
    world.remove_entity(id);
    let events = world.event_manager.get_engine_events();
    assert_eq!(events.len(), 2);
    assert!(matches!(events[0].event_type, EventType::EntityCreated(0)));
    assert!(matches!(events[1].event_type, EventType::EntityRemoved(0)));
}

#[test]
fn mesh_request_is_idempotent_until_loaded() {
    let mut store = Resources::new();
    let key = "cube.obj".to_string();
    let (res1, out1) = store.add_resource(AssetSource::Mesh(ObjType::Normal, key.clone()));
    assert!(matches!(res1, ResourceResult::Mesh(ref k) if *k == key));
    assert_eq!(out1, RequestOutcome::Started);
    // a racing second request starts nothing
    let (_res2, out2) = store.add_resource(AssetSource::Mesh(ObjType::Normal, key.clone()));
    assert_eq!(out2, RequestOutcome::InFlight);
    assert!(store.has_mesh_entry(&key));
    assert!(!store.is_mesh_loaded(&key));
    store.complete_mesh_load(&key, small_mesh());
    assert!(store.is_mesh_loaded(&key));
    // both callers observe the same final payload
    let mesh: &Mesh = store.get_mesh(&key).unwrap();
    assert!(mesh.is_loaded());
    assert!(matches!(mesh.mesh_type, Some(MeshType::Normal(_))));
    let (_res3, out3) = store.add_resource(AssetSource::Mesh(ObjType::Normal, key.clone()));
    assert_eq!(out3, RequestOutcome::AlreadyLoaded);
}

#[test]
fn shader_request_holds_placeholder_until_compiled() {
    let mut store = Resources::new();
    let name = "default".to_string();
    let (res, out) = store.add_resource(AssetSource::Shader(
        name.clone(),
        "vert.glsl".to_string(),
        "frag.glsl".to_string(),
        None,
    ));
    assert!(matches!(res, ResourceResult::Shader(ref k) if *k == name));
    assert_eq!(out, RequestOutcome::Started);
    assert_eq!(store.get_shader(&name), Some(None));
    store.complete_shader_load(&name, 42);
    assert_eq!(store.get_shader(&name), Some(Some(42)));
    assert_eq!(store.get_shader(&"missing".to_string()), None);
}

#[test]
fn texture_requests_are_ignored() {
    let mut store = Resources::new();
    let (res, out) = store.add_resource(AssetSource::Texture("bricks".to_string()));
    assert!(matches!(res, ResourceResult::Texture(ref k) if *k == "bricks"));
    assert_eq!(out, RequestOutcome::Ignored);
}

#[test]
fn editor_spawns_fully_equipped_entities() {
    let mut world = World::new();
    let mut editor = Editor::new("default".to_string());
    let a = editor.create_entity(&mut world, "cube.obj".to_string());
    let b = editor.create_entity(&mut world, "cube.obj".to_string());
    assert_eq!(a, 0);
    assert_eq!(b, 1);
    assert_eq!(editor.selected_entity, Some(b));
    let rc = world.components.renderables[a].as_ref().unwrap();
    assert_eq!(rc.mesh_label, "cube.obj");
    assert_eq!(rc.shader_label, "default");
    let ta = world.components.positionable[a].as_ref().unwrap();
    let tb = world.components.positionable[b].as_ref().unwrap();
    assert_eq!(ta.translation, Vec3::new(0, 0, 10000));
    assert_eq!(tb.translation, Vec3::new(5000, 0, 10000));
    let pc: &PhysicsComponent = world.components.physics[a].as_ref().unwrap();
    assert_eq!(pc.mass, 1000);
    assert!(pc.rigid_handle.is_none());
    // the shared mesh was requested exactly once
    assert!(world.resources.has_mesh_entry(&"cube.obj".to_string()));
    assert!(!world.resources.is_mesh_loaded(&"cube.obj".to_string()));
}

#[test]
fn snapshots_round_trip_through_the_registry() {
    let mut world = World::new();
    let id = world.create_entity();
    world.components.renderables[id] = Some(RenderComponent::new(
        "cube.obj".to_string(),
        "default".to_string(),
    ));
    world.components.positionable[id] = Some(TransformComponent::new(
        Vec3::new(1000, 2000, 3000),
        Vec3::new(0, 0, 0),
        1000,
    ));
    let snapshots = world.enumerate_entities();
    assert_eq!(snapshots.len(), 1);
    let (sid, snap) = &snapshots[0];
    assert_eq!(*sid, id);
    assert_eq!(snap.transform.is_present, 1);
    assert_eq!(snap.transform.translation, Vec3::new(1000, 2000, 3000));
    assert_eq!(snap.render.is_present, 1);
    assert_eq!(snap.render.mesh, "cube.obj");

    let mut restored = World::new();
    let (rid, outcome) = restored.create_entity_from_snapshot(snap);
    assert_eq!(outcome, RequestOutcome::Started);
    let rc = restored.components.renderables[rid].as_ref().unwrap();
    assert_eq!(rc.mesh_label, "cube.obj");
    assert_eq!(rc.shader_label, "default");
    let tc = restored.components.positionable[rid].as_ref().unwrap();
    assert_eq!(tc.translation, Vec3::new(1000, 2000, 3000));
    assert_eq!(tc.scale, 1000);
    assert!(restored.resources.has_mesh_entry(&"cube.obj".to_string()));
}

#[test]
fn snapshot_without_components_restores_blank_entity() {
    let mut world = World::new();
    let snap = EntitySnapshot {
        transform: TransformData {
            is_present: 0,
            translation: Vec3::new(0, 0, 0),
            rotation: Vec3::new(0, 0, 0),
            scale: 1000,
        },
        render: RenderData::default(),
    };
    let (id, outcome) = world.create_entity_from_snapshot(&snap);
    assert_eq!(outcome, RequestOutcome::Ignored);
    assert!(world.components.renderables[id].is_none());
    assert!(world.components.positionable[id].is_none());
    assert_eq!(world.resources.mesh_entry_count(), 0);
}

#[test]
fn save_header_counts_entities() {
    let mut world = World::new();
    world.create_entity();
    world.create_entity();
    assert_eq!(world.save_header().total_entities, 2);
}

#[test]
fn render_pass_visits_only_fully_equipped_entities() {
    let mut world = World::new();
    let a = world.create_entity();
    let b = world.create_entity();
    let c = world.create_entity();
    world.components.renderables[a] = Some(RenderComponent::new(
        "m".to_string(),
        "s".to_string(),
    ));
    world.components.positionable[a] = Some(TransformComponent::new(
        Vec3::new(0, 0, 0),
        Vec3::new(0, 0, 0),
        1000,
    ));
    world.components.renderables[b] = Some(RenderComponent::new(
        "m".to_string(),
        "s".to_string(),
    ));
    world.components.positionable[c] = Some(TransformComponent::new(
        Vec3::new(0, 0, 0),
        Vec3::new(0, 0, 0),
        1000,
    ));
    assert_eq!(world.get_render_components(), vec![a]);
    assert!(world.get_render_component(a).is_some());
    assert!(world.get_render_component(b).is_some());
    assert!(world.get_render_component(99).is_none());
}
