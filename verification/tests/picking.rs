use ray_picking::bounds::Aabb3d;
use ray_picking::camera::{ray_from_screenspace, Camera, Viewport, PIXEL_LIMIT};
use ray_picking::ray::{Ray3d, RayCast3d, DISTANCE_LIMIT};
use ray_picking::rotation::IQuat;
use ray_picking::transform::Transform;
use ray_picking::vector::{IVec2, IVec3};

fn unit_box() -> Aabb3d {
    Aabb3d::new(IVec3::splat(-500), IVec3::splat(500)).unwrap()
}

fn cast(origin: (i64, i64, i64), direction: (i64, i64, i64), max: i64) -> RayCast3d {
    RayCast3d::new(
        IVec3::new(origin.0, origin.1, origin.2),
        IVec3::new(direction.0, direction.1, direction.2),
        max,
    )
    .unwrap()
}

#[test]
fn ray_aimed_at_the_centre_hits_at_the_gap_to_the_face() {
    let aabb = unit_box();
    assert_eq!(cast((0, 0, 5000), (0, 0, -1), 30_000).aabb_intersection_at(&aabb), Some(4500));
    assert_eq!(cast((0, 0, -5000), (0, 0, 1), 30_000).aabb_intersection_at(&aabb), Some(4500));
    assert_eq!(cast((7000, 0, 0), (-1, 0, 0), 30_000).aabb_intersection_at(&aabb), Some(6500));
    assert_eq!(cast((0, -600, 0), (0, 1, 0), 30_000).aabb_intersection_at(&aabb), Some(100));
}

#[test]
fn the_length_of_the_direction_does_not_matter() {
    let aabb = unit_box();
    assert_eq!(cast((0, 0, 5000), (0, 0, -7), 30_000).aabb_intersection_at(&aabb), Some(4500));
    assert_eq!(
        cast((0, 0, 5000), (0, 0, -137_438_953_472), 30_000).aabb_intersection_at(&aabb),
        Some(4500)
    );
}

#[test]
fn a_slanted_ray_reports_the_whole_part_of_the_distance() {
    let aabb = unit_box();
    // Enters at (500, 500, 500), which is 2500 * sqrt(3) = 4330.1 ticks away.
    assert_eq!(
        cast((3000, 3000, 3000), (-1, -1, -1), 30_000).aabb_intersection_at(&aabb),
        Some(4330)
    );
    // Enters through the face x = 500 at (500, 250, 0).
    // The way there is 2500 along x and 250 along y: sqrt(6312500) = 2512.4.
    assert_eq!(
        cast((3000, 500, 0), (-10, -1, 0), 30_000).aabb_intersection_at(&aabb),
        Some(2512)
    );
}

#[test]
fn a_box_beyond_the_cutoff_is_not_hit() {
    let far = Aabb3d::new(IVec3::new(-500, -500, -50_500), IVec3::new(500, 500, -49_500)).unwrap();
    assert_eq!(cast((0, 0, 0), (0, 0, -1), 30_000).aabb_intersection_at(&far), None);
    assert_eq!(cast((0, 0, 0), (0, 0, -1), 49_499).aabb_intersection_at(&far), None);
    assert_eq!(cast((0, 0, 0), (0, 0, -1), 49_500).aabb_intersection_at(&far), Some(49_500));
}

#[test]
fn the_cutoff_is_measured_along_a_slanted_ray() {
    let aabb = unit_box();
    // The entry point is 4330.1 ticks away.
    assert_eq!(cast((3000, 3000, 3000), (-1, -1, -1), 4330).aabb_intersection_at(&aabb), None);
    assert_eq!(
        cast((3000, 3000, 3000), (-1, -1, -1), 4331).aabb_intersection_at(&aabb),
        Some(4330)
    );
}

#[test]
fn a_ray_that_starts_inside_misses() {
    let aabb = unit_box();
    assert_eq!(cast((0, 0, 0), (0, 0, -1), 30_000).aabb_intersection_at(&aabb), None);
    assert_eq!(cast((0, 0, 0), (1, 2, 3), 30_000).aabb_intersection_at(&aabb), None);
    assert_eq!(cast((499, -499, 499), (-1, 0, 0), 30_000).aabb_intersection_at(&aabb), None);
    // Inside along the axis it moves on, on the faces of the two others.
    assert_eq!(cast((0, 500, -500), (1, 0, 0), 30_000).aabb_intersection_at(&aabb), None);
}

#[test]
fn a_ray_from_a_face_into_the_box_hits_at_zero() {
    let aabb = unit_box();
    assert_eq!(cast((0, 0, 500), (0, 0, -1), 30_000).aabb_intersection_at(&aabb), Some(0));
    assert_eq!(cast((-500, 0, 0), (3, 1, 1), 30_000).aabb_intersection_at(&aabb), Some(0));
    assert_eq!(cast((500, 500, 500), (-1, -1, -1), 0).aabb_intersection_at(&aabb), Some(0));
}

#[test]
fn a_ray_from_a_face_out_of_the_box_misses() {
    let aabb = unit_box();
    // The line entered the box at the far face, behind the origin.
    assert_eq!(cast((0, 0, 500), (0, 0, 1), 30_000).aabb_intersection_at(&aabb), None);
    assert_eq!(cast((500, 500, 500), (1, 1, 1), 30_000).aabb_intersection_at(&aabb), None);
}

#[test]
fn a_ray_that_points_away_misses() {
    let aabb = unit_box();
    assert_eq!(cast((0, 0, 5000), (0, 0, 1), 30_000).aabb_intersection_at(&aabb), None);
    assert_eq!(cast((0, 0, 5000), (1, 0, 0), 30_000).aabb_intersection_at(&aabb), None);
}

#[test]
fn a_ray_that_passes_beside_the_box_misses() {
    let aabb = unit_box();
    assert_eq!(cast((501, 0, 5000), (0, 0, -1), 30_000).aabb_intersection_at(&aabb), None);
    assert_eq!(cast((2000, 0, 5000), (-1, 0, -5), 30_000).aabb_intersection_at(&aabb), None);
    assert_eq!(cast((2000, 0, 5000), (-2, 0, -5), 30_000).aabb_intersection_at(&aabb), Some(4846));
}

#[test]
fn a_ray_along_a_face_grazes_the_box() {
    let aabb = unit_box();
    assert_eq!(cast((500, 0, 5000), (0, 0, -1), 30_000).aabb_intersection_at(&aabb), Some(4500));
    assert_eq!(cast((500, -500, 5000), (0, 0, -1), 30_000).aabb_intersection_at(&aabb), Some(4500));
    // Through the corner (500, 500, 500) alone.
    assert_eq!(cast((1000, 1000, 500), (-1, -1, 0), 30_000).aabb_intersection_at(&aabb), Some(707));
    assert_eq!(cast((1000, 0, 500), (-1, 1, 0), 30_000).aabb_intersection_at(&aabb), Some(707));
    assert_eq!(cast((1001, 0, 500), (-1, 1, 0), 30_000).aabb_intersection_at(&aabb), None);
}

#[test]
fn ray_cast_new_checks_its_parts() {
    let origin = IVec3::new(0, 0, 0);
    assert!(RayCast3d::new(origin, IVec3::new(0, 0, 0), 1).is_none());
    assert!(RayCast3d::new(origin, IVec3::new(0, 0, 1), -1).is_none());
    assert!(RayCast3d::new(origin, IVec3::new(0, 0, 1), DISTANCE_LIMIT).is_some());
    assert!(RayCast3d::new(origin, IVec3::new(0, 0, 1), DISTANCE_LIMIT + 1).is_none());
    assert!(RayCast3d::new(IVec3::new(16_777_217, 0, 0), IVec3::new(0, 0, 1), 1).is_none());
    assert!(RayCast3d::new(origin, IVec3::new(137_438_953_473, 0, 0), 1).is_none());
    assert!(Ray3d::new(origin, IVec3::new(0, 0, 0)).is_none());
    assert!(Ray3d::new(origin, IVec3::new(0, -1, 0)).is_some());
}

#[test]
fn from_ray_cuts_the_distance_to_the_limit() {
    let ray = Ray3d::new(IVec3::new(1, 2, 3), IVec3::new(0, 0, -1)).unwrap();
    let near = RayCast3d::from_ray(ray, 30_000).unwrap();
    assert_eq!(near.max, 30_000);
    assert_eq!(near.origin, IVec3::new(1, 2, 3));
    assert_eq!(near.direction, IVec3::new(0, 0, -1));
    let far = RayCast3d::from_ray(ray, u32::MAX).unwrap();
    assert_eq!(far.max, DISTANCE_LIMIT);
    let invalid = Ray3d { origin: IVec3::new(0, 0, 0), direction: IVec3::new(0, 0, 0) };
    assert!(RayCast3d::from_ray(invalid, 1).is_none());
}

#[test]
fn the_farthest_box_is_within_the_distance_limit() {
    let aabb = Aabb3d::new(IVec3::splat(16_777_216), IVec3::splat(16_777_216)).unwrap();
    let ray = Ray3d::new(IVec3::splat(-16_777_216), IVec3::new(1, 1, 1)).unwrap();
    let cast = RayCast3d::from_ray(ray, u32::MAX).unwrap();
    // 33554432 * sqrt(3) = 58117981.1
    assert_eq!(cast.aabb_intersection_at(&aabb), Some(58_117_981));
}

fn camera(width: i64, height: i64, focal_length: i64) -> Camera {
    Camera { viewport: None, target_size: IVec2::new(width, height), focal_length }
}

fn looking_down(height: i64) -> Transform {
    Transform::from_xyz(0, height, 0).unwrap().with_rotation(IQuat::new(1, -1, 0, 0).unwrap())
}

#[test]
fn the_centre_of_the_view_looks_along_the_optical_axis() {
    let ray = ray_from_screenspace(
        IVec2::new(400, 300),
        &camera(800, 600, 724),
        &Transform::from_xyz(1, 2, 3).unwrap(),
    )
    .unwrap();
    assert_eq!(ray.origin, IVec3::new(1, 2, 3));
    assert_eq!(ray.direction, IVec3::new(0, 0, -1448));
}

#[test]
fn the_corners_of_the_view_look_sideways() {
    let transform = Transform::from_xyz(0, 0, 0).unwrap();
    let top_left = ray_from_screenspace(IVec2::new(0, 0), &camera(800, 600, 724), &transform)
        .unwrap();
    assert_eq!(top_left.direction, IVec3::new(-800, 600, -1448));
    let bottom_right = ray_from_screenspace(IVec2::new(800, 600), &camera(800, 600, 724), &transform)
        .unwrap();
    assert_eq!(bottom_right.direction, IVec3::new(800, -600, -1448));
}

#[test]
fn a_camera_turned_down_looks_down() {
    let ray = ray_from_screenspace(IVec2::new(400, 300), &camera(800, 600, 724), &looking_down(12_000))
        .unwrap();
    assert_eq!(ray.origin, IVec3::new(0, 12_000, 0));
    assert_eq!(ray.direction, IVec3::new(0, -2896, 0));
    // To the right on the screen stays +x, up on the screen is now -z.
    let ray = ray_from_screenspace(IVec2::new(500, 200), &camera(800, 600, 724), &looking_down(12_000))
        .unwrap();
    assert_eq!(ray.direction, IVec3::new(400, -2896, -400));
}

#[test]
fn the_cursor_is_taken_relative_to_the_viewport() {
    let transform = Transform::from_xyz(0, 0, 0).unwrap();
    let whole = camera(800, 600, 724);
    let part = Camera {
        viewport: Some(Viewport {
            physical_position: IVec2::new(100, 50),
            physical_size: IVec2::new(800, 600),
        }),
        target_size: IVec2::new(1920, 1080),
        focal_length: 724,
    };
    let direct = ray_from_screenspace(IVec2::new(250, 125), &whole, &transform).unwrap();
    let shifted = ray_from_screenspace(IVec2::new(350, 175), &part, &transform).unwrap();
    assert_eq!(direct, shifted);
    assert_eq!(shifted.direction, IVec3::new(-300, 350, -1448));
}

#[test]
fn there_is_no_ray_off_the_view() {
    let transform = Transform::from_xyz(0, 0, 0).unwrap();
    let whole = camera(800, 600, 724);
    assert!(ray_from_screenspace(IVec2::new(-1, 300), &whole, &transform).is_none());
    assert!(ray_from_screenspace(IVec2::new(801, 300), &whole, &transform).is_none());
    assert!(ray_from_screenspace(IVec2::new(400, 601), &whole, &transform).is_none());
    assert!(ray_from_screenspace(IVec2::new(i64::MIN, i64::MAX), &whole, &transform).is_none());
    let part = Camera {
        viewport: Some(Viewport {
            physical_position: IVec2::new(100, 50),
            physical_size: IVec2::new(200, 200),
        }),
        target_size: IVec2::new(800, 600),
        focal_length: 724,
    };
    assert!(ray_from_screenspace(IVec2::new(99, 100), &part, &transform).is_none());
    assert!(ray_from_screenspace(IVec2::new(100, 50), &part, &transform).is_some());
    assert!(ray_from_screenspace(IVec2::new(300, 250), &part, &transform).is_some());
    assert!(ray_from_screenspace(IVec2::new(301, 250), &part, &transform).is_none());
}

#[test]
fn a_camera_that_cannot_project_has_no_ray() {
    let transform = Transform::from_xyz(0, 0, 0).unwrap();
    let cursor = IVec2::new(0, 0);
    assert!(ray_from_screenspace(cursor, &camera(0, 600, 724), &transform).is_none());
    assert!(ray_from_screenspace(cursor, &camera(800, 0, 724), &transform).is_none());
    assert!(ray_from_screenspace(cursor, &camera(800, 600, 0), &transform).is_none());
    assert!(ray_from_screenspace(cursor, &camera(PIXEL_LIMIT + 1, 600, 724), &transform).is_none());
    assert!(ray_from_screenspace(cursor, &camera(800, 600, PIXEL_LIMIT + 1), &transform).is_none());
    assert!(ray_from_screenspace(cursor, &camera(PIXEL_LIMIT, PIXEL_LIMIT, PIXEL_LIMIT), &transform)
        .is_some());
    let unplaced = Transform {
        translation: IVec3::new(0, 0, 0),
        rotation: IQuat { w: 0, x: 0, y: 0, z: 0 },
    };
    assert!(ray_from_screenspace(cursor, &camera(800, 600, 724), &unplaced).is_none());
}

#[test]
fn the_widest_view_with_the_largest_rotation_still_has_a_ray() {
    let transform = Transform::from_xyz(0, 0, 0)
        .unwrap()
        .with_rotation(IQuat::new(1024, 1024, 1024, 1024).unwrap());
    let ray = ray_from_screenspace(
        IVec2::new(0, 0),
        &camera(PIXEL_LIMIT, PIXEL_LIMIT, PIXEL_LIMIT),
        &transform,
    )
    .unwrap();
    assert!(ray.is_valid());
    // The rotation turns x into y, y into z and z into x; its squared norm is 4194304.
    assert_eq!(
        ray.direction,
        IVec3::new(-16_384 * 4_194_304, -8192 * 4_194_304, 8192 * 4_194_304)
    );
}

#[test]
fn a_ray_aimed_at_the_centre_hits_from_anywhere_in_range() {
    let aabb = Aabb3d::new(IVec3::new(1000, 2000, -3000), IVec3::new(1500, 4000, -1001)).unwrap();
    let origins = [(0, 0, 0), (20_000, 3000, -2000), (-9000, -9000, 9000), (1250, 30_000, -2000)];
    for (x, y, z) in origins {
        let origin = IVec3::new(x, y, z);
        let direction = IVec3::new(
            aabb.min.x + aabb.max.x - 2 * x,
            aabb.min.y + aabb.max.y - 2 * y,
            aabb.min.z + aabb.max.z - 2 * z,
        );
        let cast = RayCast3d::new(origin, direction, 30_000).unwrap();
        assert!(cast.aabb_intersection_at(&aabb).is_some());
        let short = RayCast3d::new(origin, direction, 1000).unwrap();
        assert!(short.aabb_intersection_at(&aabb).is_none());
    }
}

#[test]
fn stretching_the_direction_changes_no_distance() {
    let aabb = unit_box();
    for k in [1i64, 2, 3, 1000, 1_000_000] {
        assert_eq!(
            cast((3000, 500, 0), (-10 * k, -k, 0), 30_000).aabb_intersection_at(&aabb),
            Some(2512)
        );
        assert_eq!(
            cast((3000, 3000, 3000), (-k, -k, -k), 4330).aabb_intersection_at(&aabb),
            None
        );
    }
}
