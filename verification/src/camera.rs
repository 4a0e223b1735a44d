//! From a cursor position on the screen to a ray in the world.
//!
//! The camera is a pinhole at the position of its transform. Unrotated it looks along
//! -z with +x to the right and +y up; the image plane lies `focal_length` pixels in
//! front of it, and the centre of the view is the foot of the optical axis.

use vstd::prelude::*;
use crate::ray::Ray3d;
use crate::rotation::{IMat3, IQuat, lemma_matrix_entries_bounded, lemma_norm_sq_bounds};
use crate::rotation_laws::lemma_rotated_is_nonzero;
use crate::transform::Transform;
use crate::vector::{IVec2, IVec3, lemma_product_bound};

verus! {

/// The largest width or height of a view and the largest focal length, in pixels.
pub const PIXEL_LIMIT: i64 = 8192;

/// The part of the render target that a camera draws to.
#[derive(Clone, Copy, Debug, PartialEq, Eq, Structural)]
pub struct Viewport {
    /// The top left corner, in screen pixels.
    pub physical_position: IVec2,
    pub physical_size: IVec2,
}

/// What the projection of a camera depends on.
#[derive(Clone, Copy, Debug)]
pub struct Camera {
    /// Where the camera draws only to a part of its target, that part.
    pub viewport: Option<Viewport>,
    /// The size of the whole render target.
    pub target_size: IVec2,
    /// The distance from the pinhole to the image plane.
    pub focal_length: i64,
}

impl Camera {
    /// The size of the area the camera draws to.
    pub open spec fn view_size(self) -> IVec2 {
        match self.viewport {
            Some(viewport) => viewport.physical_size,
            None => self.target_size,
        }
    }

    /// The cursor position relative to the top left corner of the view.
    pub open spec fn viewport_x(self, cursor: IVec2) -> int {
        match self.viewport {
            Some(viewport) => cursor.x - viewport.physical_position.x,
            None => cursor.x as int,
        }
    }

    pub open spec fn viewport_y(self, cursor: IVec2) -> int {
        match self.viewport {
            Some(viewport) => cursor.y - viewport.physical_position.y,
            None => cursor.y as int,
        }
    }

    /// The camera can project: its view has an area, its focal length is positive, both
    /// within [`PIXEL_LIMIT`], and its placement is valid.
    pub open spec fn projects(self, transform: Transform) -> bool {
        &&& 1 <= self.view_size().x <= PIXEL_LIMIT
        &&& 1 <= self.view_size().y <= PIXEL_LIMIT
        &&& 1 <= self.focal_length <= PIXEL_LIMIT
        &&& transform.wf()
    }

    /// The camera can project and the cursor lies on its view.
    pub open spec fn sees(self, transform: Transform, cursor: IVec2) -> bool {
        &&& self.projects(transform)
        &&& 0 <= self.viewport_x(cursor) <= self.view_size().x
        &&& 0 <= self.viewport_y(cursor) <= self.view_size().y
    }

    /// Twice the offset of the cursor from the centre of the view, to the right.
    pub open spec fn view_dir_x(self, cursor: IVec2) -> int {
        2 * self.viewport_x(cursor) - self.view_size().x
    }

    /// Twice the offset of the cursor from the centre of the view, upwards: screen
    /// coordinates grow downwards.
    pub open spec fn view_dir_y(self, cursor: IVec2) -> int {
        self.view_size().y - 2 * self.viewport_y(cursor)
    }

    /// Twice the focal length, forwards.
    pub open spec fn view_dir_z(self) -> int {
        -2 * self.focal_length
    }

    /// The ray from the pinhole through the cursor position on the image plane.
    pub open spec fn spec_ray(self, transform: Transform, cursor: IVec2) -> Option<Ray3d> {
        if self.sees(transform, cursor) {
            let (vx, vy, vz) = (self.view_dir_x(cursor), self.view_dir_y(cursor), self.view_dir_z());
            Some(
                Ray3d {
                    origin: transform.translation,
                    direction: IVec3 {
                        x: transform.rotation.rotate_x(vx, vy, vz) as i64,
                        y: transform.rotation.rotate_y(vx, vy, vz) as i64,
                        z: transform.rotation.rotate_z(vx, vy, vz) as i64,
                    },
                },
            )
        } else {
            None
        }
    }
}

/// One component of a rotated view direction.
fn rotate_row(row: &IVec3, vx: i64, vy: i64, vz: i64) -> (component: i64)
    requires
        row.within(4_194_304),
        -8192 <= vx <= 8192,
        -8192 <= vy <= 8192,
        -16384 <= vz <= 16384,
    ensures
        component == row.x * vx + row.y * vy + row.z * vz,
        -137_438_953_472 <= component <= 137_438_953_472,
{
    proof {
        lemma_product_bound(row.x as int, vx as int, 4_194_304, 8192);
        lemma_product_bound(row.y as int, vy as int, 4_194_304, 8192);
        lemma_product_bound(row.z as int, vz as int, 4_194_304, 16384);
    }
    row.x * vx + row.y * vy + row.z * vz
}

/// The line of sight through a cursor position: the ray from the camera through the
/// point of the image plane under the cursor. Where the camera has a viewport, the
/// cursor position is first taken relative to the corner of the viewport. There is no
/// ray where the cursor lies off the view or the camera cannot project.
pub fn ray_from_screenspace(
    cursor_pos_screen: IVec2,
    camera: &Camera,
    camera_transform: &Transform,
) -> (ray: Option<Ray3d>)
    ensures
        ray == camera.spec_ray(*camera_transform, cursor_pos_screen),
        ray.is_some() == camera.sees(*camera_transform, cursor_pos_screen),
        ray.is_some() ==> ray.unwrap().wf(),
{
    let size: IVec2 = match camera.viewport {
        Some(viewport) => viewport.physical_size,
        None => camera.target_size,
    };
    if !(1 <= size.x && size.x <= PIXEL_LIMIT && 1 <= size.y && size.y <= PIXEL_LIMIT && 1
        <= camera.focal_length && camera.focal_length <= PIXEL_LIMIT
        && camera_transform.is_valid()) {
        return None;
    }
    let mut viewport_x: i128 = cursor_pos_screen.x as i128;
    let mut viewport_y: i128 = cursor_pos_screen.y as i128;
    if let Some(viewport) = camera.viewport {
        viewport_x = viewport_x - viewport.physical_position.x as i128;
        viewport_y = viewport_y - viewport.physical_position.y as i128;
    }
    if !(0 <= viewport_x && viewport_x <= size.x as i128 && 0 <= viewport_y && viewport_y
        <= size.y as i128) {
        return None;
    }
    let vx: i64 = (2 * viewport_x - size.x as i128) as i64;
    let vy: i64 = (size.y as i128 - 2 * viewport_y) as i64;
    let vz: i64 = -2 * camera.focal_length;
    let rotation: IQuat = camera_transform.rotation;
    let m: IMat3 = rotation.matrix();
    proof {
        lemma_norm_sq_bounds(rotation);
        lemma_matrix_entries_bounded(rotation);
        lemma_rotated_is_nonzero(rotation, vx as int, vy as int, vz as int);
    }
    let direction = IVec3 {
        x: rotate_row(&m.x_row, vx, vy, vz),
        y: rotate_row(&m.y_row, vx, vy, vz),
        z: rotate_row(&m.z_row, vx, vy, vz),
    };
    Some(Ray3d { origin: camera_transform.translation, direction })
}

/// At the centre of the view the line of sight is the optical axis: the ray leaves the
/// camera along its rotated -z axis, whatever the size of the view.
pub proof fn lemma_centre_looks_forward(camera: Camera, transform: Transform, cursor: IVec2)
    requires
        camera.sees(transform, cursor),
        2 * camera.viewport_x(cursor) == camera.view_size().x,
        2 * camera.viewport_y(cursor) == camera.view_size().y,
    ensures
        camera.spec_ray(transform, cursor).is_some(),
        camera.spec_ray(transform, cursor).unwrap().origin == transform.translation,
        camera.spec_ray(transform, cursor).unwrap().direction.x == -2 * camera.focal_length
            * transform.rotation.xz(),
        camera.spec_ray(transform, cursor).unwrap().direction.y == -2 * camera.focal_length
            * transform.rotation.yz(),
        camera.spec_ray(transform, cursor).unwrap().direction.z == -2 * camera.focal_length
            * transform.rotation.zz(),
{
    let q = transform.rotation;
    let vz = camera.view_dir_z();
    lemma_norm_sq_bounds(q);
    lemma_matrix_entries_bounded(q);
    assert(q.rotate_x(0, 0, vz) == q.xz() * vz && q.rotate_y(0, 0, vz) == q.yz() * vz && q.rotate_z(
        0,
        0,
        vz,
    ) == q.zz() * vz) by (nonlinear_arith);
    assert(q.xz() * vz == -2 * camera.focal_length * q.xz() && q.yz() * vz == -2
        * camera.focal_length * q.yz() && q.zz() * vz == -2 * camera.focal_length * q.zz())
        by (nonlinear_arith)
        requires
            vz == -2 * camera.focal_length,
    ;
    lemma_product_bound(q.xz(), vz, 4_194_304, 16384);
    lemma_product_bound(q.yz(), vz, 4_194_304, 16384);
    lemma_product_bound(q.zz(), vz, 4_194_304, 16384);
}

} // verus!
