use ray_picking::bounds::Aabb3d;
use ray_picking::rotation::IQuat;
use ray_picking::shape::{Cuboid, Shape, HALF_SIZE_LIMIT};
use ray_picking::state::ActiveState;
use ray_picking::transform::{Transform, COORD_LIMIT};
use ray_picking::vector::IVec3;

fn quat(w: i64, x: i64, y: i64, z: i64) -> IQuat {
    IQuat::new(w, x, y, z).unwrap()
}

/// The eight corners of a placed cuboid, each coordinate multiplied by the squared
/// norm of the rotation.
fn scaled_corners(cuboid: &Cuboid, translation: IVec3, rotation: IQuat) -> Vec<[i128; 3]> {
    let m = rotation.matrix();
    let n = rotation.norm_squared() as i128;
    let rows = [m.x_row, m.y_row, m.z_row];
    let centre = [translation.x as i128, translation.y as i128, translation.z as i128];
    let mut corners = Vec::new();
    for sx in [-1i128, 1] {
        for sy in [-1i128, 1] {
            for sz in [-1i128, 1] {
                let v = [
                    sx * cuboid.half_size.x as i128,
                    sy * cuboid.half_size.y as i128,
                    sz * cuboid.half_size.z as i128,
                ];
                let mut corner = [0i128; 3];
                for axis in 0..3 {
                    let row = rows[axis];
                    corner[axis] = n * centre[axis]
                        + row.x as i128 * v[0]
                        + row.y as i128 * v[1]
                        + row.z as i128 * v[2];
                }
                corners.push(corner);
            }
        }
    }
    corners
}

#[test]
fn active_state_is_hover_or_selected() {
    assert!(!ActiveState { hover: false, selected: false }.is_active());
    assert!(ActiveState { hover: true, selected: false }.is_active());
    assert!(ActiveState { hover: false, selected: true }.is_active());
    assert!(ActiveState { hover: true, selected: true }.is_active());
}

#[test]
fn active_state_default_is_inactive() {
    let state = ActiveState::default();
    assert_eq!(state, ActiveState { hover: false, selected: false });
    assert!(!state.is_active());
}

#[test]
fn with_hover_keeps_selection() {
    let state = ActiveState { hover: false, selected: true }.with_hover(true);
    assert_eq!(state, ActiveState { hover: true, selected: true });
    let state = state.with_hover(false);
    assert_eq!(state, ActiveState { hover: false, selected: true });
}

#[test]
fn cuboid_new_checks_the_half_extents() {
    assert_eq!(Cuboid::new(1, 2, 3).unwrap().half_size, IVec3::new(1, 2, 3));
    assert!(Cuboid::new(0, 0, 0).is_some());
    assert!(Cuboid::new(HALF_SIZE_LIMIT, 1, 1).is_some());
    assert!(Cuboid::new(HALF_SIZE_LIMIT + 1, 1, 1).is_none());
    assert!(Cuboid::new(1, -1, 1).is_none());
}

#[test]
fn cuboid_from_size_halves_even_sizes() {
    assert_eq!(Cuboid::from_size(IVec3::splat(1100)).unwrap().half_size, IVec3::splat(550));
    assert_eq!(
        Cuboid::from_size(IVec3::new(1750, 520, 1750)).unwrap().half_size,
        IVec3::new(875, 260, 875)
    );
    assert!(Cuboid::from_size(IVec3::new(1001, 1000, 1000)).is_none());
    assert!(Cuboid::from_size(IVec3::new(-2, 1000, 1000)).is_none());
    assert!(Cuboid::from_size(IVec3::splat(2 * HALF_SIZE_LIMIT)).is_some());
    assert!(Cuboid::from_size(IVec3::splat(2 * HALF_SIZE_LIMIT + 2)).is_none());
}

#[test]
fn quaternion_must_be_small_and_not_zero() {
    assert!(IQuat::new(0, 0, 0, 0).is_none());
    assert!(IQuat::new(1024, -1024, 1024, -1024).is_some());
    assert!(IQuat::new(1025, 0, 0, 0).is_none());
    assert!(IQuat::new(0, 0, 0, -1025).is_none());
    assert_eq!(IQuat::identity(), quat(1, 0, 0, 0));
}

#[test]
fn quaternion_matrix_of_a_quarter_turn_about_x() {
    let q = quat(1, 1, 0, 0);
    assert_eq!(q.norm_squared(), 2);
    let m = q.matrix();
    assert_eq!(m.x_row, IVec3::new(2, 0, 0));
    assert_eq!(m.y_row, IVec3::new(0, 0, -2));
    assert_eq!(m.z_row, IVec3::new(0, 2, 0));
}

#[test]
fn quaternion_matrix_of_a_general_rotation() {
    let q = quat(1, 2, 3, 4);
    assert_eq!(q.norm_squared(), 30);
    let m = q.matrix();
    assert_eq!(m.x_row, IVec3::new(-20, 4, 22));
    assert_eq!(m.y_row, IVec3::new(20, -10, 20));
    assert_eq!(m.z_row, IVec3::new(10, 28, 4));
}

#[test]
fn transform_from_xyz_checks_the_range() {
    let t = Transform::from_xyz(1, -2, 3).unwrap();
    assert_eq!(t.translation, IVec3::new(1, -2, 3));
    assert_eq!(t.rotation, IQuat::identity());
    assert!(Transform::from_xyz(COORD_LIMIT, -COORD_LIMIT, 0).is_some());
    assert!(Transform::from_xyz(COORD_LIMIT + 1, 0, 0).is_none());
    let turned = t.with_rotation(quat(1, 1, 0, 0));
    assert_eq!(turned.translation, t.translation);
    assert_eq!(turned.rotation, quat(1, 1, 0, 0));
}

#[test]
fn aabb_without_rotation_has_the_half_extents() {
    let cuboid = Cuboid::new(500, 1000, 260).unwrap();
    let aabb = cuboid.aabb_3d(IVec3::new(10, -20, 30), IQuat::identity());
    assert_eq!(aabb.min, IVec3::new(-490, -1020, -230));
    assert_eq!(aabb.max, IVec3::new(510, 980, 290));
}

#[test]
fn aabb_of_a_scaled_identity_quaternion_has_no_slack() {
    let cuboid = Cuboid::new(875, 260, 875).unwrap();
    let aabb = cuboid.aabb_3d(IVec3::new(0, 0, 0), quat(-7, 0, 0, 0));
    assert_eq!(aabb.min, IVec3::new(-875, -260, -875));
    assert_eq!(aabb.max, IVec3::new(875, 260, 875));
}

#[test]
fn aabb_after_a_quarter_turn_swaps_extents() {
    let cuboid = Cuboid::new(500, 1000, 260).unwrap();
    let about_x = cuboid.aabb_3d(IVec3::new(0, 0, 0), quat(1, 1, 0, 0));
    assert_eq!(about_x.max, IVec3::new(500, 260, 1000));
    assert_eq!(about_x.min, IVec3::new(-500, -260, -1000));
    let about_y = cuboid.aabb_3d(IVec3::new(0, 0, 0), quat(1, 0, 1, 0));
    assert_eq!(about_y.max, IVec3::new(260, 1000, 500));
    let about_z = cuboid.aabb_3d(IVec3::new(0, 0, 0), quat(1, 0, 0, -1));
    assert_eq!(about_z.max, IVec3::new(1000, 500, 260));
    let half_turn = cuboid.aabb_3d(IVec3::new(0, 0, 0), quat(0, 0, 1, 0));
    assert_eq!(half_turn.max, IVec3::new(500, 1000, 260));
}

#[test]
fn aabb_after_an_eighth_turn_rounds_up() {
    let cuboid = Cuboid::new(500, 1000, 500).unwrap();
    let aabb = cuboid.aabb_3d(IVec3::new(100, 200, 300), quat(408, -169, 0, 0));
    assert_eq!(aabb.min, IVec3::new(100 - 500, 200 - 1061, 300 - 1061));
    assert_eq!(aabb.max, IVec3::new(100 + 500, 200 + 1061, 300 + 1061));
}

#[test]
fn aabb_contains_all_corners_and_is_least() {
    let rotations = [
        quat(1, 0, 0, 0),
        quat(408, -169, 0, 0),
        quat(1, 2, 3, 4),
        quat(-5, 7, 0, 11),
        quat(1024, 1023, -1022, 1021),
        quat(1, 1, 1, 1),
    ];
    let cuboids = [
        Cuboid::new(550, 550, 550).unwrap(),
        Cuboid::new(500, 1000, 500).unwrap(),
        Cuboid::new(875, 260, 875).unwrap(),
        Cuboid::new(0, 3, 1).unwrap(),
    ];
    let translation = IVec3::new(-9500, 1000, 7350);
    for rotation in rotations {
        for cuboid in cuboids {
            let aabb = cuboid.aabb_3d(translation, rotation);
            let n = rotation.norm_squared() as i128;
            let low = [aabb.min.x as i128, aabb.min.y as i128, aabb.min.z as i128];
            let high = [aabb.max.x as i128, aabb.max.y as i128, aabb.max.z as i128];
            let corners = scaled_corners(&cuboid, translation, rotation);
            for axis in 0..3 {
                for corner in &corners {
                    assert!(low[axis] * n <= corner[axis]);
                    assert!(corner[axis] <= high[axis] * n);
                }
                // One tick less on either side would leave a corner out.
                assert!(corners.iter().any(|corner| corner[axis] > (high[axis] - 1) * n));
                assert!(corners.iter().any(|corner| corner[axis] < (low[axis] + 1) * n));
            }
        }
    }
}

#[test]
fn shape_aabb_is_the_cuboid_aabb() {
    let cuboid = Cuboid::new(500, 1000, 500).unwrap();
    let transform = Transform::from_xyz(1, 2, 3).unwrap().with_rotation(quat(3, 1, 0, 2));
    let by_shape = Shape::Box(cuboid).aabb(&transform);
    let by_cuboid = cuboid.aabb_3d(transform.translation, transform.rotation);
    assert_eq!(by_shape, by_cuboid);
}

#[test]
fn aabb_new_checks_order_and_range() {
    assert!(Aabb3d::new(IVec3::new(0, 0, 0), IVec3::new(0, 0, 0)).is_some());
    assert!(Aabb3d::new(IVec3::new(1, 0, 0), IVec3::new(0, 0, 0)).is_none());
    assert!(Aabb3d::new(IVec3::new(0, 0, 0), IVec3::new(16_777_217, 0, 0)).is_none());
}
