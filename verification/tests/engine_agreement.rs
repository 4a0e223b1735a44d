use bevy::math::bounding::{Aabb3d as EngineAabb, Bounded3d, RayCast3d as EngineCast};
use bevy::math::primitives::Cuboid as EngineCuboid;
use bevy::math::{Dir3, Quat, Vec3};
use ray_picking::bounds::Aabb3d;
use ray_picking::ray::RayCast3d;
use ray_picking::rotation::IQuat;
use ray_picking::shape::Cuboid;
use ray_picking::vector::IVec3;

const TICKS: f32 = 1000.0;

fn engine_rotation(q: IQuat) -> Quat {
    Quat::from_xyzw(q.x as f32, q.y as f32, q.z as f32, q.w as f32).normalize()
}

fn engine_vector(v: IVec3) -> Vec3 {
    Vec3::new(v.x as f32 / TICKS, v.y as f32 / TICKS, v.z as f32 / TICKS)
}

#[test]
fn bounding_boxes_agree_with_the_engine_to_a_tick() {
    let rotations = [
        (1, 0, 0, 0),
        (408, -169, 0, 0),
        (1, 1, 0, 0),
        (1, 2, 3, 4),
        (-5, 7, 0, 11),
        (1000, 3, -20, 400),
        (1, 1, 1, 1),
    ];
    let halves = [(550, 550, 550), (500, 1000, 500), (875, 260, 875), (1, 2000, 30)];
    let translation = IVec3::new(-7389, 5500, 3450);
    for (w, x, y, z) in rotations {
        let rotation = IQuat::new(w, x, y, z).unwrap();
        for (hx, hy, hz) in halves {
            let cuboid = Cuboid::new(hx, hy, hz).unwrap();
            let ours = cuboid.aabb_3d(translation, rotation);
            let engine_cuboid = EngineCuboid { half_size: engine_vector(cuboid.half_size) };
            let theirs = engine_cuboid.aabb_3d(engine_vector(translation), engine_rotation(rotation));
            let pairs = [
                (ours.min.x, theirs.min.x),
                (ours.min.y, theirs.min.y),
                (ours.min.z, theirs.min.z),
                (ours.max.x, theirs.max.x),
                (ours.max.y, theirs.max.y),
                (ours.max.z, theirs.max.z),
            ];
            for (tick, unit) in pairs {
                assert!(
                    (tick as f32 - unit * TICKS).abs() <= 1.01,
                    "{} ticks against {} units",
                    tick,
                    unit
                );
            }
            // Rounded up to whole ticks, our box is never the smaller one.
            assert!(ours.max.x as f32 >= theirs.max.x * TICKS - 0.01);
            assert!(ours.min.y as f32 <= theirs.min.y * TICKS + 0.01);
        }
    }
}

#[test]
fn ray_casts_agree_with_the_engine_to_a_tick() {
    let boxes = [
        ((-500, -500, -500), (500, 500, 500)),
        ((1000, 2000, -3000), (1500, 4000, -1000)),
        ((-9000, 1000, 7000), (-8000, 1500, 9000)),
    ];
    let rays = [
        ((0, 0, 5000), (0, 0, -1)),
        ((3000, 3000, 3000), (-1, -1, -1)),
        ((0, 12_000, 0), (0, -1, 0)),
        ((0, 22_000, 8000), (1, -17, -8)),
        ((0, 22_000, 8000), (-85, -205, 5)),
        ((200, 100, -100), (3, -1, 2)),
        ((5000, 5000, 5000), (1, 1, 1)),
        ((0, 3000, -20_000), (10, 0, 1)),
        ((-20_000, 1200, 8000), (1, 0, 0)),
    ];
    for max in [30_000i64, 6000, 11_000] {
        for (low, high) in boxes {
            let ours = Aabb3d::new(IVec3::new(low.0, low.1, low.2), IVec3::new(high.0, high.1, high.2))
                .unwrap();
            let centre = (engine_vector(ours.min) + engine_vector(ours.max)) / 2.0;
            let half = (engine_vector(ours.max) - engine_vector(ours.min)) / 2.0;
            let theirs = EngineAabb::new(centre, half);
            for (origin, direction) in rays {
                let origin = IVec3::new(origin.0, origin.1, origin.2);
                let direction = IVec3::new(direction.0, direction.1, direction.2);
                let cast = RayCast3d::new(origin, direction, max).unwrap();
                let engine_cast = EngineCast::new(
                    engine_vector(origin),
                    Dir3::new(engine_vector(direction)).unwrap(),
                    max as f32 / TICKS,
                );
                let hit = cast.aabb_intersection_at(&ours);
                let engine_hit = engine_cast.aabb_intersection_at(&theirs);
                let starts_inside = ours.min.x < origin.x
                    && origin.x < ours.max.x
                    && ours.min.y < origin.y
                    && origin.y < ours.max.y
                    && ours.min.z < origin.z
                    && origin.z < ours.max.z;
                if starts_inside {
                    // The engine counts a cast from inside a box as a hit at no
                    // distance; here the near bound lies behind the origin, and the
                    // cast misses.
                    assert_eq!(engine_hit, Some(0.0));
                    assert_eq!(hit, None);
                    continue;
                }
                assert_eq!(
                    hit.is_some(),
                    engine_hit.is_some(),
                    "from {:?} along {:?} up to {}",
                    origin,
                    direction,
                    max
                );
                if let (Some(tick), Some(unit)) = (hit, engine_hit) {
                    assert!((tick as f32 - unit * TICKS).abs() <= 1.01);
                }
            }
        }
    }
}
