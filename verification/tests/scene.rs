use ray_picking::bounds::Aabb3d;
use ray_picking::camera::Camera;
use ray_picking::ray::RayCast3d;
use ray_picking::rotation::IQuat;
use ray_picking::scene::{
    report_once, single_camera, Entity, EntityId, Outline, PickError, Scene,
};
use ray_picking::shape::{Cuboid, Shape};
use ray_picking::state::ActiveState;
use ray_picking::transform::Transform;
use ray_picking::vector::{IVec2, IVec3};

const CUTOFF: u32 = 30_000;

fn unit_cube() -> Shape {
    Shape::Box(Cuboid::new(500, 500, 500).unwrap())
}

fn at(x: i64, y: i64, z: i64) -> Transform {
    Transform::from_xyz(x, y, z).unwrap()
}

/// A camera twelve units up that looks straight down, on a view of 800 by 600.
fn overhead() -> Vec<(Camera, Transform)> {
    vec![(
        Camera { viewport: None, target_size: IVec2::new(800, 600), focal_length: 724 },
        at(0, 12_000, 0).with_rotation(IQuat::new(1, -1, 0, 0).unwrap()),
    )]
}

fn centre() -> IVec2 {
    IVec2::new(400, 300)
}

fn hover(scene: &Scene, index: usize) -> bool {
    scene.get(EntityId { index }).unwrap().state.hover
}

fn downwards(x: i64, z: i64) -> RayCast3d {
    RayCast3d::new(IVec3::new(x, 12_000, z), IVec3::new(0, -1, 0), 30_000).unwrap()
}

#[test]
fn a_new_scene_is_empty() {
    let scene = Scene::new();
    assert_eq!(scene.len(), 0);
    assert!(scene.get(EntityId { index: 0 }).is_none());
    assert!(scene.render_active_shapes().is_empty());
}

#[test]
fn spawn_numbers_the_entities_in_order() {
    let mut scene = Scene::new();
    assert_eq!(scene.spawn(unit_cube(), at(0, 0, 0)), Some(EntityId { index: 0 }));
    assert_eq!(scene.spawn(unit_cube(), at(1, 2, 3)), Some(EntityId { index: 1 }));
    assert_eq!(scene.len(), 2);
    let entity: Entity = scene.get(EntityId { index: 1 }).unwrap();
    assert_eq!(entity.shape, unit_cube());
    assert_eq!(entity.transform, at(1, 2, 3));
    assert_eq!(entity.volume, None);
    assert_eq!(entity.state, ActiveState::default());
    assert!(entity.changed);
    assert!(scene.get(EntityId { index: 2 }).is_none());
}

#[test]
fn spawn_refuses_what_is_not_valid() {
    let mut scene = Scene::new();
    let too_large = Shape::Box(Cuboid { half_size: IVec3::new(1, 1, 3_000_000) });
    assert_eq!(scene.spawn(too_large, at(0, 0, 0)), None);
    let unturned = Transform {
        translation: IVec3::new(0, 0, 0),
        rotation: IQuat { w: 0, x: 0, y: 0, z: 0 },
    };
    assert_eq!(scene.spawn(unit_cube(), unturned), None);
    let too_far = Transform { translation: IVec3::new(0, 9_000_000, 0), rotation: IQuat::identity() };
    assert_eq!(scene.spawn(unit_cube(), too_far), None);
    assert_eq!(scene.len(), 0);
}

#[test]
fn the_updater_fills_in_the_bounding_boxes() {
    let mut scene = Scene::new();
    scene.spawn(unit_cube(), at(0, 1500, 0));
    scene.spawn(Shape::Box(Cuboid::new(500, 1000, 500).unwrap()), at(100, 200, 300)
        .with_rotation(IQuat::new(408, -169, 0, 0).unwrap()));
    scene.update_aabbes();
    let first = scene.get(EntityId { index: 0 }).unwrap();
    assert_eq!(
        first.volume,
        Some(Aabb3d { min: IVec3::new(-500, 1000, -500), max: IVec3::new(500, 2000, 500) })
    );
    assert!(!first.changed);
    let second = scene.get(EntityId { index: 1 }).unwrap();
    assert_eq!(
        second.volume,
        Some(Aabb3d { min: IVec3::new(-400, -861, -761), max: IVec3::new(600, 1261, 1361) })
    );
    assert!(!second.changed);
}

#[test]
fn the_updater_run_twice_gives_the_same_boxes() {
    let mut scene = Scene::new();
    for k in 0..20 {
        let rotation = IQuat::new(7 + k, k - 3, 2 * k, 5).unwrap();
        scene.spawn(
            Shape::Box(Cuboid::new(500 + k, 1000, 260 + 3 * k).unwrap()),
            at(100 * k, -50 * k, 7 * k).with_rotation(rotation),
        );
    }
    scene.update_aabbes();
    let once: Vec<Entity> = (0..20).map(|index| scene.get(EntityId { index }).unwrap()).collect();
    scene.update_aabbes();
    for index in 0..20 {
        let twice = scene.get(EntityId { index }).unwrap();
        assert!(twice.volume.is_some());
        assert_eq!(twice.volume, once[index].volume);
        assert_eq!(twice.changed, once[index].changed);
        assert_eq!(twice.state, once[index].state);
        // Computed afresh from the same shape and transform, the box is the same again.
        assert_eq!(twice.volume, Some(twice.shape.aabb(&twice.transform)));
    }
}

#[test]
fn moving_an_entity_marks_its_box_as_out_of_date() {
    let mut scene = Scene::new();
    let id = scene.spawn(unit_cube(), at(0, 0, 0)).unwrap();
    scene.update_aabbes();
    assert!(scene.set_transform(id, at(1000, 0, 0)));
    let moved = scene.get(id).unwrap();
    assert!(moved.changed);
    assert_eq!(moved.transform, at(1000, 0, 0));
    // The box is the old one until the updater has run.
    assert_eq!(
        moved.volume,
        Some(Aabb3d { min: IVec3::splat(-500), max: IVec3::splat(500) })
    );
    scene.update_aabbes();
    let refreshed = scene.get(id).unwrap();
    assert!(!refreshed.changed);
    assert_eq!(
        refreshed.volume,
        Some(Aabb3d { min: IVec3::new(500, -500, -500), max: IVec3::new(1500, 500, 500) })
    );
}

#[test]
fn set_transform_refuses_unknown_entities_and_invalid_placements() {
    let mut scene = Scene::new();
    let id = scene.spawn(unit_cube(), at(0, 0, 0)).unwrap();
    scene.update_aabbes();
    assert!(!scene.set_transform(EntityId { index: 1 }, at(1, 1, 1)));
    let too_far = Transform { translation: IVec3::new(0, 9_000_000, 0), rotation: IQuat::identity() };
    assert!(!scene.set_transform(id, too_far));
    let untouched = scene.get(id).unwrap();
    assert_eq!(untouched.transform, at(0, 0, 0));
    assert!(!untouched.changed);
}

#[test]
fn cursor_at_the_centre_hovers_the_box_below_the_camera() {
    let mut scene = Scene::new();
    // Directly below, its top ten units from the camera.
    let below = scene.spawn(unit_cube(), at(0, 1500, 0)).unwrap();
    // On the axis too, but more than thirty units away.
    let beyond = scene.spawn(unit_cube(), at(0, -25_000, 0)).unwrap();
    // At the right height, but off the axis.
    let beside = scene.spawn(unit_cube(), at(5000, 1500, 0)).unwrap();
    scene.update_aabbes();
    assert_eq!(scene.cursor_moved(&overhead(), centre(), CUTOFF), Ok(()));
    assert!(scene.get(below).unwrap().state.hover);
    assert!(!scene.get(beyond).unwrap().state.hover);
    assert!(!scene.get(beside).unwrap().state.hover);
}

#[test]
fn the_cutoff_decides_how_far_the_pointer_reaches() {
    let mut scene = Scene::new();
    let beyond = scene.spawn(unit_cube(), at(0, -25_000, 0)).unwrap();
    scene.update_aabbes();
    // The top of the box is 36.5 units below the camera.
    assert_eq!(scene.cursor_moved(&overhead(), centre(), 36_499), Ok(()));
    assert!(!scene.get(beyond).unwrap().state.hover);
    assert_eq!(scene.cursor_moved(&overhead(), centre(), 36_500), Ok(()));
    assert!(scene.get(beyond).unwrap().state.hover);
}

#[test]
fn two_boxes_on_one_ray_are_both_hovered() {
    let mut scene = Scene::new();
    let upper = scene.spawn(unit_cube(), at(0, 1500, 0)).unwrap();
    let lower = scene.spawn(unit_cube(), at(200, 1000, -100)).unwrap();
    let hidden = scene.spawn(unit_cube(), at(0, -3000, 0)).unwrap();
    scene.update_aabbes();
    assert_eq!(scene.cursor_moved(&overhead(), centre(), CUTOFF), Ok(()));
    assert!(scene.get(upper).unwrap().state.hover);
    assert!(scene.get(lower).unwrap().state.hover);
    assert!(scene.get(hidden).unwrap().state.hover);
}

#[test]
fn moving_the_cursor_off_clears_every_hover() {
    let mut scene = Scene::new();
    scene.spawn(unit_cube(), at(0, 1500, 0));
    scene.spawn(unit_cube(), at(0, -1500, 0));
    scene.update_aabbes();
    assert_eq!(scene.cursor_moved(&overhead(), centre(), CUTOFF), Ok(()));
    assert!(hover(&scene, 0) && hover(&scene, 1));
    // The corner of the view looks past both boxes.
    assert_eq!(scene.cursor_moved(&overhead(), IVec2::new(0, 0), CUTOFF), Ok(()));
    assert!(!hover(&scene, 0) && !hover(&scene, 1));
    assert!(scene.render_active_shapes().is_empty());
}

#[test]
fn an_entity_without_a_box_is_never_hovered() {
    let mut scene = Scene::new();
    scene.spawn(unit_cube(), at(0, 1500, 0));
    // No updater pass yet.
    scene.pick(&downwards(0, 0));
    assert!(!hover(&scene, 0));
    scene.update_aabbes();
    scene.pick(&downwards(0, 0));
    assert!(hover(&scene, 0));
}

#[test]
fn pick_uses_the_box_of_the_last_update() {
    let mut scene = Scene::new();
    let id = scene.spawn(unit_cube(), at(0, 1500, 0)).unwrap();
    scene.update_aabbes();
    scene.set_transform(id, at(5000, 1500, 0));
    scene.pick(&downwards(0, 0));
    assert!(hover(&scene, 0));
    scene.update_aabbes();
    scene.pick(&downwards(0, 0));
    assert!(!hover(&scene, 0));
    scene.pick(&downwards(5000, 0));
    assert!(hover(&scene, 0));
}

#[test]
fn pick_changes_nothing_but_hover() {
    let mut scene = Scene::new();
    let id = scene.spawn(unit_cube(), at(0, 1500, 0)).unwrap();
    scene.update_aabbes();
    let before = scene.get(id).unwrap();
    scene.pick(&downwards(0, 0));
    let after = scene.get(id).unwrap();
    assert_eq!(after.shape, before.shape);
    assert_eq!(after.transform, before.transform);
    assert_eq!(after.volume, before.volume);
    assert_eq!(after.changed, before.changed);
    assert_eq!(after.state, ActiveState { hover: true, selected: false });
}

#[test]
fn without_a_camera_nothing_is_picked() {
    let mut scene = Scene::new();
    scene.spawn(unit_cube(), at(0, 1500, 0));
    scene.update_aabbes();
    scene.pick(&downwards(0, 0));
    let none: Vec<(Camera, Transform)> = Vec::new();
    assert_eq!(scene.cursor_moved(&none, IVec2::new(0, 0), CUTOFF), Err(PickError::NoCamera));
    assert!(hover(&scene, 0));
    assert_eq!(single_camera(&none).err(), Some(PickError::NoCamera));
}

#[test]
fn with_two_cameras_nothing_is_picked() {
    let mut scene = Scene::new();
    scene.spawn(unit_cube(), at(0, 1500, 0));
    scene.update_aabbes();
    scene.pick(&downwards(0, 0));
    let mut two = overhead();
    two.push(overhead()[0]);
    assert_eq!(scene.cursor_moved(&two, IVec2::new(0, 0), CUTOFF), Err(PickError::MultipleCameras));
    assert!(hover(&scene, 0));
    assert_eq!(single_camera(&two).err(), Some(PickError::MultipleCameras));
}

#[test]
fn single_camera_returns_the_only_camera() {
    let (camera, transform) = single_camera(&overhead()).unwrap();
    assert_eq!(camera.focal_length, 724);
    assert_eq!(camera.target_size, IVec2::new(800, 600));
    assert_eq!(transform.translation, IVec3::new(0, 12_000, 0));
}

#[test]
fn a_cursor_off_the_view_changes_no_hover() {
    let mut scene = Scene::new();
    scene.spawn(unit_cube(), at(0, 1500, 0));
    scene.spawn(unit_cube(), at(5000, 1500, 0));
    scene.update_aabbes();
    assert_eq!(scene.cursor_moved(&overhead(), centre(), CUTOFF), Ok(()));
    assert_eq!(
        scene.cursor_moved(&overhead(), IVec2::new(-5, 300), CUTOFF),
        Err(PickError::ProjectionFailure)
    );
    assert!(hover(&scene, 0));
    assert!(!hover(&scene, 1));
}

#[test]
fn the_last_event_of_a_frame_wins() {
    let mut scene = Scene::new();
    scene.spawn(unit_cube(), at(0, 1500, 0));
    scene.update_aabbes();
    let events = vec![IVec2::new(0, 0), centre()];
    assert_eq!(scene.mouse_events_system(&events, &overhead(), CUTOFF), Ok(2));
    assert!(hover(&scene, 0));
    let events = vec![centre(), IVec2::new(0, 0)];
    assert_eq!(scene.mouse_events_system(&events, &overhead(), CUTOFF), Ok(2));
    assert!(!hover(&scene, 0));
}

#[test]
fn events_without_a_line_of_sight_are_skipped() {
    let mut scene = Scene::new();
    scene.spawn(unit_cube(), at(0, 1500, 0));
    scene.update_aabbes();
    let events = vec![IVec2::new(0, 0), centre(), IVec2::new(900, 300), IVec2::new(400, -1)];
    assert_eq!(scene.mouse_events_system(&events, &overhead(), CUTOFF), Ok(2));
    assert!(hover(&scene, 0));
}

#[test]
fn a_frame_without_events_needs_no_camera() {
    let mut scene = Scene::new();
    scene.spawn(unit_cube(), at(0, 1500, 0));
    scene.update_aabbes();
    scene.pick(&downwards(0, 0));
    let none: Vec<(Camera, Transform)> = Vec::new();
    assert_eq!(scene.mouse_events_system(&Vec::new(), &none, CUTOFF), Ok(0));
    assert!(hover(&scene, 0));
}

#[test]
fn a_frame_with_events_needs_exactly_one_camera() {
    let mut scene = Scene::new();
    scene.spawn(unit_cube(), at(0, 1500, 0));
    scene.update_aabbes();
    let events = vec![centre()];
    let none: Vec<(Camera, Transform)> = Vec::new();
    assert_eq!(scene.mouse_events_system(&events, &none, CUTOFF), Err(PickError::NoCamera));
    assert!(!hover(&scene, 0));
    let mut two = overhead();
    two.push(overhead()[0]);
    assert_eq!(scene.mouse_events_system(&events, &two, CUTOFF), Err(PickError::MultipleCameras));
    assert!(!hover(&scene, 0));
}

#[test]
fn only_active_entities_are_outlined() {
    let mut scene = Scene::new();
    let turned = at(0, 1500, 0).with_rotation(IQuat::new(1, 0, 1, 0).unwrap());
    scene.spawn(unit_cube(), at(5000, 1500, 0));
    scene.spawn(unit_cube(), turned);
    scene.spawn(unit_cube(), at(-5000, 1500, 0));
    scene.spawn(Shape::Box(Cuboid::new(1, 2, 3).unwrap()), at(0, -2000, 0));
    scene.update_aabbes();
    assert!(scene.render_active_shapes().is_empty());
    scene.pick(&downwards(0, 0));
    assert_eq!(
        scene.render_active_shapes(),
        vec![
            Outline { entity: EntityId { index: 1 }, shape: unit_cube(), transform: turned },
            Outline {
                entity: EntityId { index: 3 },
                shape: Shape::Box(Cuboid::new(1, 2, 3).unwrap()),
                transform: at(0, -2000, 0),
            },
        ]
    );
}

#[test]
fn a_box_around_the_camera_is_not_hovered() {
    let mut scene = Scene::new();
    let around = scene.spawn(Shape::Box(Cuboid::new(2000, 2000, 2000).unwrap()), at(0, 12_000, 0))
        .unwrap();
    let below = scene.spawn(unit_cube(), at(0, 1500, 0)).unwrap();
    // Its top face passes through the camera, which looks into it.
    let under = scene.spawn(Shape::Box(Cuboid::new(2000, 1000, 2000).unwrap()), at(0, 11_000, 0))
        .unwrap();
    scene.update_aabbes();
    assert_eq!(scene.cursor_moved(&overhead(), centre(), CUTOFF), Ok(()));
    assert!(!scene.get(around).unwrap().state.hover);
    assert!(scene.get(below).unwrap().state.hover);
    assert!(scene.get(under).unwrap().state.hover);
}

#[test]
fn a_fault_is_reported_when_it_is_new() {
    assert_eq!(
        report_once(None, 1, Err(PickError::NoCamera)),
        (Some(PickError::NoCamera), true)
    );
    assert_eq!(
        report_once(Some(PickError::NoCamera), 1, Err(PickError::MultipleCameras)),
        (Some(PickError::MultipleCameras), true)
    );
    assert_eq!(
        report_once(Some(PickError::MultipleCameras), 3, Err(PickError::ProjectionFailure)),
        (Some(PickError::ProjectionFailure), true)
    );
}

#[test]
fn a_fault_that_lasts_is_not_reported_again() {
    assert_eq!(
        report_once(Some(PickError::NoCamera), 2, Err(PickError::NoCamera)),
        (Some(PickError::NoCamera), false)
    );
    // A frame without events says nothing of the cameras.
    assert_eq!(report_once(Some(PickError::NoCamera), 0, Ok(0)), (Some(PickError::NoCamera), false));
    assert_eq!(report_once(None, 0, Ok(0)), (None, false));
}

#[test]
fn a_fault_that_is_gone_is_forgotten() {
    assert_eq!(report_once(Some(PickError::NoCamera), 2, Ok(2)), (None, false));
    assert_eq!(report_once(Some(PickError::NoCamera), 2, Ok(0)), (None, false));
    assert_eq!(report_once(None, 1, Ok(1)), (None, false));
}

#[test]
fn a_fault_is_reported_once_over_quiet_frames() {
    let mut scene = Scene::new();
    scene.spawn(unit_cube(), at(0, 1500, 0));
    scene.update_aabbes();
    let none: Vec<(Camera, Transform)> = Vec::new();
    let frames: Vec<Vec<IVec2>> = vec![
        vec![centre()],
        Vec::new(),
        vec![centre(), IVec2::new(0, 0)],
        Vec::new(),
        Vec::new(),
        vec![centre()],
    ];
    let mut reported = None;
    let mut reports = 0;
    for events in &frames {
        let outcome = scene.mouse_events_system(events, &none, CUTOFF);
        let (next, report) = report_once(reported, events.len(), outcome);
        if report {
            reports += 1;
        }
        reported = next;
    }
    assert_eq!(reports, 1);
    assert_eq!(reported, Some(PickError::NoCamera));
    // With a camera the fault is forgotten, and reported anew when it returns.
    let outcome = scene.mouse_events_system(&frames[0], &overhead(), CUTOFF);
    assert_eq!(report_once(reported, 1, outcome), (None, false));
    let outcome = scene.mouse_events_system(&frames[0], &none, CUTOFF);
    assert_eq!(report_once(None, 1, outcome), (Some(PickError::NoCamera), true));
}
