use imara::components::{BodyStatus, PhysicsComponent, RenderComponent, TransformComponent};
use imara::draw::{process_normal_mesh, RenderObject};
use imara::editor::{self, Editor};
use imara::events::{CastRayDat, EventType};
use imara::math::{Ray, Vec3, Vec4};
use imara::parser::NormalObj;
use imara::physics_system::{
    complete_body_creation, divide_indices, emit_ray_casted, sync_body_transform, Physics,
    PhysicsAction, RayHit,
};
use imara::render_system::{RenderAction, RenderError, Renderer};
use imara::world::{MeshType, World};

fn small_obj() -> NormalObj {
    NormalObj {
        vertices: vec![
            Vec4::new(0, 0, 0, 1000),
            Vec4::new(1000, 0, 0, 1000),
            Vec4::new(0, 1000, 0, 1000),
        ],
        normals: vec![
            Vec3::new(0, 0, 1000),
            Vec3::new(0, 0, 1000),
            Vec3::new(0, 0, 1000),
        ],
        indices: vec![0, 1, 2],
    }
}

fn dummy_object(n: u32) -> RenderObject {
    RenderObject {
        vertex_buffer: n,
        element_buffer: n + 1,
        vertex_array_object: n + 2,
        size_of_elements: 3,
    }
}

#[test]
fn test_divide_indices() {
    let list_of_indices = vec![1, 2, 3, 4, 5, 6, 7, 8, 9];
    let result = divide_indices(&list_of_indices);
    println!("{:?}", result);
    assert!(result.len() == 3);
}

#[test]
fn divide_indices_groups_triples_in_order() {
    let flat = vec![9, 8, 7, 6, 5, 4];
    let triples = divide_indices(&flat);
    assert_eq!(triples, vec![(9, 8, 7), (6, 5, 4)]);
    let empty: Vec<u32> = Vec::new();
    assert!(divide_indices(&empty).is_empty());
}

#[test]
fn ray_cast_picks_minimum_time_of_impact() {
    let mut world = World::new();
    let a = world.create_entity();
    let b = world.create_entity();
    world.components.physics[a] = Some(PhysicsComponent::new(
        1000,
        false,
        BodyStatus::Static,
        Vec3::new(0, 0, 0),
        300,
        800,
    ));
    world.components.physics[b] = Some(PhysicsComponent::new(
        1000,
        false,
        BodyStatus::Static,
        Vec3::new(0, 0, 0),
        300,
        800,
    ));
    complete_body_creation(&mut world, a, 100, 10);
    complete_body_creation(&mut world, b, 101, 11);
    // two overlapping colliders: times of impact 5.0 and 2.0 (thousandths)
    let hits = vec![
        RayHit { collider: 11, toi: 5000 },
        RayHit { collider: 10, toi: 2000 },
    ];
    let result = Physics::resolve_ray_cast(&world.components.physics, &hits, 7);
    assert_eq!(result.id, 7);
    assert_eq!(result.entity, Some(a));
}

#[test]
fn ray_cast_breaks_ties_by_first_reported_hit() {
    let mut world = World::new();
    let a = world.create_entity();
    let b = world.create_entity();
    world.components.physics[a] = Some(PhysicsComponent::new(
        1000,
        false,
        BodyStatus::Static,
        Vec3::new(0, 0, 0),
        300,
        800,
    ));
    world.components.physics[b] = Some(PhysicsComponent::new(
        1000,
        false,
        BodyStatus::Static,
        Vec3::new(0, 0, 0),
        300,
        800,
    ));
    complete_body_creation(&mut world, a, 100, 10);
    complete_body_creation(&mut world, b, 101, 11);
    let hits = vec![
        RayHit { collider: 11, toi: 2000 },
        RayHit { collider: 10, toi: 2000 },
    ];
    let result = Physics::resolve_ray_cast(&world.components.physics, &hits, 0);
    assert_eq!(result.entity, Some(b));
}

#[test]
fn ray_cast_without_owned_hits_reports_none() {
    let world = World::new();
    let hits = vec![RayHit { collider: 3, toi: 1000 }];
    let result = Physics::resolve_ray_cast(&world.components.physics, &hits, 1);
    assert_eq!(result.entity, None);
    let no_hits: Vec<RayHit> = Vec::new();
    let result2 = Physics::resolve_ray_cast(&world.components.physics, &no_hits, 2);
    assert_eq!(result2.entity, None);
}

#[test]
fn ray_cast_answer_arrives_next_cycle() {
    let mut world = World::new();
    let hit = imara::events::CastedRay { id: 0, entity: Some(2) };
    emit_ray_casted(&mut world, hit);
    assert!(world.event_manager.get_engine_events().is_empty());
    world.event_manager.clear();
    let events = world.event_manager.get_engine_events();
    assert_eq!(events.len(), 1);
    assert!(matches!(
        events[0].event_type,
        EventType::RayCasted(imara::events::CastedRay { id: 0, entity: Some(2) })
    ));
}

#[test]
fn editor_highlights_ray_selected_entity() {
    let mut world = World::new();
    let id = world.create_entity();
    let hit = imara::events::CastedRay { id: 0, entity: Some(id) };
    emit_ray_casted(&mut world, hit);
    world.event_manager.clear();
    editor::handle_world_events(&mut world);
    assert!(world.components.highlightable[id].is_some());
}

#[test]
fn physics_queues_ray_queries_for_the_collaborator() {
    let mut world = World::new();
    let physics = Physics::new();
    let dat = CastRayDat {
        id: 3,
        ray: Ray::new(Vec3::new(0, 0, 0), Vec3::new(0, 0, 1000)),
    };
    let ev = world.event_manager.create_event(EventType::CastRay(dat));
    world.event_manager.add_event(ev);
    let actions = physics.handle_world_events(&mut world, true);
    assert_eq!(actions.len(), 1);
    assert!(matches!(actions[0], PhysicsAction::QueryRay(CastRayDat { id: 3, .. })));
}

#[test]
fn physics_skips_cycle_when_store_is_locked() {
    let mut world = World::new();
    let physics = Physics::new();
    let ev = world.event_manager.create_event(EventType::EntityCreated(0));
    world.event_manager.add_event(ev);
    let actions = physics.handle_world_events(&mut world, false);
    assert!(actions.is_empty());
}

#[test]
fn sync_body_transform_updates_only_simulated_entities() {
    let mut world = World::new();
    let a = world.create_entity();
    let b = world.create_entity();
    world.components.positionable[a] = Some(TransformComponent::new(
        Vec3::new(0, 0, 0),
        Vec3::new(0, 0, 0),
        2000,
    ));
    world.components.physics[a] = Some(PhysicsComponent::new(
        1000,
        true,
        BodyStatus::Dynamic,
        Vec3::new(0, 0, 0),
        300,
        800,
    ));
    world.components.positionable[b] = Some(TransformComponent::new(
        Vec3::new(0, 0, 0),
        Vec3::new(0, 0, 0),
        1000,
    ));
    sync_body_transform(&mut world, a, Vec3::new(0, -500, 0), Vec3::new(0, 0, 0));
    sync_body_transform(&mut world, b, Vec3::new(9000, 0, 0), Vec3::new(0, 0, 0));
    let ta = world.components.positionable[a].as_ref().unwrap();
    assert_eq!(ta.translation, Vec3::new(0, -500, 0));
    assert_eq!(ta.scale, 2000);
    // no physics component: the body sync leaves the transform alone
    let tb = world.components.positionable[b].as_ref().unwrap();
    assert_eq!(tb.translation, Vec3::new(0, 0, 0));
}

#[test]
fn three_entities_resolve_once_shared_mesh_loads() {
    let mut world = World::new();
    let mut editor = Editor::new("default".to_string());
    let mut renderer = Renderer::new();
    let physics = Physics::new();
    let key = "cube.obj".to_string();
    let ids = vec![
        editor.create_entity(&mut world, key.clone()),
        editor.create_entity(&mut world, key.clone()),
        editor.create_entity(&mut world, key.clone()),
    ];
    assert_eq!(ids, vec![0, 1, 2]);

    // cycle 1: the shared mesh is still loading, both systems defer
    let render_actions = renderer.handle_system_events(&mut world, true);
    assert!(render_actions.is_empty());
    let physics_actions = physics.handle_world_events(&mut world, true);
    assert!(physics_actions.is_empty());
    world.event_manager.clear();
    for id in 0..3u64 {
        assert!(world.event_manager.is_pending(id));
    }

    // the background load completes between the cycles
    world
        .resources
        .complete_mesh_load(&key, MeshType::Normal(small_obj()));

    // cycle 2: both systems resolve every deferred event
    let render_actions = renderer.handle_system_events(&mut world, true);
    assert_eq!(render_actions.len(), 3);
    for (n, action) in render_actions.iter().enumerate() {
        match action {
            RenderAction::AllocateNormal { entity, mesh } => {
                assert_eq!(*entity, n);
                assert_eq!(*mesh, key);
                renderer.complete_normal_allocation(*entity, dummy_object(10 * n as u32));
            }
            _ => panic!("expected an untextured allocation"),
        }
    }
    let physics_actions = physics.handle_world_events(&mut world, true);
    assert_eq!(physics_actions.len(), 3);
    for (n, action) in physics_actions.iter().enumerate() {
        match action {
            PhysicsAction::BuildBody { entity, shape } => {
                assert_eq!(*entity, n);
                assert!(matches!(shape, imara::physics_system::ColliderShape::TriMesh(k) if *k == key));
                complete_body_creation(&mut world, *entity, 100 + n, 200 + n);
            }
            _ => panic!("expected a body build"),
        }
    }
    world.event_manager.clear();

    // every entity got exactly one GPU object and one body, and nothing is
    // pending or delivered any more
    for id in 0..3usize {
        assert!(renderer.has_normal_object(id));
        let pc = world.components.physics[id].as_ref().unwrap();
        assert_eq!(pc.rigid_handle, Some(100 + id));
        assert_eq!(pc.collider_handle, Some(200 + id));
        assert!(!world.event_manager.is_pending(id as u64));
    }
    assert!(world.event_manager.get_engine_events().is_empty());
    let no_more = renderer.handle_system_events(&mut world, true);
    assert!(no_more.is_empty());
}

#[test]
fn renderer_reports_double_allocation_as_error() {
    let mut world = World::new();
    let mut renderer = Renderer::new();
    let key = "cube.obj".to_string();
    let id = world.create_entity();
    world.components.renderables[id] = Some(RenderComponent::new(
        key.clone(),
        "default".to_string(),
    ));
    world
        .resources
        .add_resource(imara::world::AssetSource::Mesh(
            imara::world::ObjType::Normal,
            key.clone(),
        ));
    world
        .resources
        .complete_mesh_load(&key, MeshType::Normal(small_obj()));
    renderer.complete_normal_allocation(id, dummy_object(1));
    let events = world.event_manager.get_engine_events();
    let r = renderer.handle_entity_creation(&mut world, &events[0], true);
    assert!(matches!(r, Err(RenderError::AlreadyAllocated)));
}

#[test]
fn renderer_defers_while_store_is_locked() {
    let mut world = World::new();
    let mut renderer = Renderer::new();
    let id = world.create_entity();
    world.components.renderables[id] = Some(RenderComponent::new(
        "cube.obj".to_string(),
        "default".to_string(),
    ));
    let events = world.event_manager.get_engine_events();
    let r = renderer.handle_entity_creation(&mut world, &events[0], false);
    assert!(matches!(r, Err(RenderError::StoreBusy)));
    world.event_manager.clear();
    assert!(world.event_manager.is_pending(events[0].id));
}

#[test]
fn renderer_frees_objects_of_removed_entities() {
    let mut world = World::new();
    let mut renderer = Renderer::new();
    let key = "cube.obj".to_string();
    let id = world.create_entity();
    world.components.renderables[id] = Some(RenderComponent::new(
        key.clone(),
        "default".to_string(),
    ));
    world
        .resources
        .add_resource(imara::world::AssetSource::Mesh(
            imara::world::ObjType::Normal,
            key.clone(),
        ));
    world
        .resources
        .complete_mesh_load(&key, MeshType::Normal(small_obj()));
    renderer.complete_normal_allocation(id, dummy_object(5));
    let removal = world.event_manager.create_event(EventType::EntityRemoved(id));
    let r = renderer.handle_entity_removal(&mut world, &removal, true);
    match r {
        Ok(RenderAction::FreeNormal { entity, object }) => {
            assert_eq!(entity, id);
            assert_eq!(object.vertex_buffer, 5);
        }
        other => panic!("expected a free action, got {:?}", other),
    }
    assert!(!renderer.has_normal_object(id));
    // a second removal finds nothing allocated
    let r2 = renderer.handle_entity_removal(&mut world, &removal, true);
    assert!(matches!(r2, Err(RenderError::NotAllocated)));
}

#[test]
fn renderer_reports_missing_component() {
    let mut world = World::new();
    let mut renderer = Renderer::new();
    let id = world.create_entity();
    let events = world.event_manager.get_engine_events();
    let r = renderer.handle_entity_creation(&mut world, &events[0], true);
    assert!(matches!(r, Err(RenderError::ComponentNotFound)));
    let _ = id;
}

#[test]
fn renderer_defers_until_mesh_is_loaded() {
    let mut world = World::new();
    let mut renderer = Renderer::new();
    let key = "cube.obj".to_string();
    let id = world.create_entity();
    world.components.renderables[id] = Some(RenderComponent::new(
        key.clone(),
        "default".to_string(),
    ));
    world
        .resources
        .add_resource(imara::world::AssetSource::Mesh(
            imara::world::ObjType::Normal,
            key.clone(),
        ));
    let events = world.event_manager.get_engine_events();
    let r = renderer.handle_entity_creation(&mut world, &events[0], true);
    assert!(matches!(r, Err(RenderError::NotLoaded)));
    world.event_manager.clear();
    assert!(world.event_manager.is_pending(events[0].id));
}

#[test]
fn renderer_reports_unknown_mesh() {
    let mut world = World::new();
    let mut renderer = Renderer::new();
    let id = world.create_entity();
    world.components.renderables[id] = Some(RenderComponent::new(
        "never-requested.obj".to_string(),
        "default".to_string(),
    ));
    let events = world.event_manager.get_engine_events();
    let r = renderer.handle_entity_creation(&mut world, &events[0], true);
    assert!(matches!(r, Err(RenderError::MeshNotFound)));
}

#[test]
fn renderer_init_needs_a_compiled_screen_shader() {
    let mut world = World::new();
    let mut renderer = Renderer::new();
    let name = "screen_shader".to_string();
    assert!(renderer.init(&world, &name).is_err());
    world.add_resource(imara::world::AssetSource::Shader(
        name.clone(),
        "screen_vert.glsl".to_string(),
        "screen_frag.glsl".to_string(),
        None,
    ));
    assert!(renderer.init(&world, &name).is_err());
    world.resources.complete_shader_load(&name, 9);
    assert!(renderer.init(&world, &name).is_ok());
    assert_eq!(renderer.screen_shader_program, Some(9));
}

#[test]
fn process_normal_mesh_interleaves_positions_and_normals() {
    let obj = small_obj();
    let (vertices, indices) = process_normal_mesh(&obj);
    assert_eq!(vertices.len(), 3);
    assert_eq!(vertices[1].position, Vec3::new(1000, 0, 0));
    assert_eq!(vertices[1].normal, Vec3::new(0, 0, 1000));
    assert_eq!(indices, vec![0, 1, 2]);
}
