//! The scene as it is laid out at startup: a grid of boxes, each of a kind drawn at
//! random.

use vstd::prelude::*;
use crate::rotation::IQuat;
use crate::scene::{Entity, Scene};
use crate::shape::{Cuboid, Shape};
use crate::transform::Transform;
use crate::vector::IVec3;

verus! {

/// The number of ticks in one unit of length of the scene.
pub const TICKS_PER_UNIT: i64 = 1000;

/// The width of the grid along x, in ticks.
pub const X_EXTENT: i64 = 19_000;

/// The number of kinds of shape to draw from.
pub const SHAPE_KINDS: usize = 10;

/// The number of columns, rows and layers of the grid.
pub const GRID_COLUMNS: usize = 10;

pub const GRID_ROWS: usize = 8;

pub const GRID_LAYERS: usize = 2;

/// The number of cells of the grid.
pub const GRID_CELLS: usize = 160;

/// The farthest distance at which the pointer picks, in ticks.
pub const MAX_PICK_DISTANCE: u32 = 30_000;

/// `rand::rngs::ThreadRng`, the handle to the random number generator of a thread.
/// It is carried from the call that makes it to the calls that draw from it, and
/// nothing is known of what it holds.
#[verifier::external_type_specification]
#[verifier::external_body]
pub struct ExThreadRng(rand::rngs::ThreadRng);

/// `rand::thread_rng`: hands out the random number generator of the current thread.
/// Nothing is claimed of it.
pub assume_specification[ rand::thread_rng ]() -> (rng: rand::rngs::ThreadRng)
;

/// `rand::Rng::gen_range` on the half-open range from zero to `bound`: the number
/// drawn lies in that range, and that is all that is known of it. The call panics on
/// an empty range, so `bound` must be positive.
#[verifier::external_body]
fn gen_index(rng: &mut rand::rngs::ThreadRng, bound: usize) -> (index: usize)
    requires
        bound > 0,
    ensures
        index < bound,
{
    rand::Rng::gen_range(rng, 0..bound)
}

/// The box with the given half-extents.
pub open spec fn box_shape(half_x: int, half_y: int, half_z: int) -> Shape {
    Shape::Box(
        Cuboid { half_size: IVec3 { x: half_x as i64, y: half_y as i64, z: half_z as i64 } },
    )
}

/// The shapes to draw from, by kind.
pub open spec fn shape_kinds() -> Seq<Shape> {
    seq![
        box_shape(550, 550, 550),
        box_shape(500, 1000, 500),
        box_shape(875, 260, 875),
        box_shape(500, 500, 500),
        box_shape(500, 1000, 500),
        box_shape(875, 260, 875),
        box_shape(500, 500, 500),
        box_shape(550, 550, 550),
        box_shape(500, 500, 500),
        box_shape(500, 500, 500),
    ]
}

/// The column, the row and the layer of a cell. Cells are numbered layer by layer
/// within a row, and row by row within a column.
pub open spec fn cell_column(cell: int) -> int {
    cell / 16
}

pub open spec fn cell_row(cell: int) -> int {
    (cell / 2) % 8
}

pub open spec fn cell_layer(cell: int) -> int {
    cell % 2
}

/// The placement of the shape in a cell: the columns are spread evenly over
/// [`X_EXTENT`] about the origin, the layers lie 4.5 units apart from one unit up, the
/// rows 1.95 units apart, and every shape is tipped backwards about x by an eighth of
/// a turn, as nearly as a quaternion with small whole components can say it.
pub open spec fn cell_transform(cell: int) -> Transform {
    Transform {
        translation: IVec3 {
            x: ((cell_column(cell) * X_EXTENT) / 9 - X_EXTENT / 2) as i64,
            y: (1000 + 4500 * cell_layer(cell)) as i64,
            z: ((3 - cell_row(cell)) * 1950 + 1500) as i64,
        },
        rotation: IQuat { w: 408, x: -169i64, y: 0, z: 0 },
    }
}

fn box_of(half_x: i64, half_y: i64, half_z: i64) -> (shape: Shape)
    ensures
        shape == box_shape(half_x as int, half_y as int, half_z as int),
{
    Shape::Box(Cuboid { half_size: IVec3 { x: half_x, y: half_y, z: half_z } })
}

/// The shape of a kind, if there is such a kind.
pub fn shape_of_kind(kind: usize) -> (shape: Option<Shape>)
    ensures
        shape.is_some() == (kind < SHAPE_KINDS),
        shape.is_some() ==> shape.unwrap() == shape_kinds()[kind as int] && shape.unwrap().wf(),
{
    if kind == 0 || kind == 7 {
        Some(box_of(550, 550, 550))
    } else if kind == 1 || kind == 4 {
        Some(box_of(500, 1000, 500))
    } else if kind == 2 || kind == 5 {
        Some(box_of(875, 260, 875))
    } else if kind == 3 || kind == 6 || kind == 8 || kind == 9 {
        Some(box_of(500, 500, 500))
    } else {
        None
    }
}

/// The placement of a cell, if there is such a cell.
pub fn transform_of_cell(cell: usize) -> (transform: Option<Transform>)
    ensures
        transform.is_some() == (cell < GRID_CELLS),
        transform.is_some() ==> transform.unwrap() == cell_transform(cell as int)
            && transform.unwrap().wf(),
{
    if cell >= GRID_CELLS {
        return None;
    }
    let column: i64 = (cell / 16) as i64;
    let row: i64 = ((cell / 2) % 8) as i64;
    let layer: i64 = (cell % 2) as i64;
    let x: i64 = (column * X_EXTENT) / 9 - X_EXTENT / 2;
    let y: i64 = 1000 + 4500 * layer;
    let z: i64 = (3 - row) * 1950 + 1500;
    Some(
        Transform {
            translation: IVec3 { x, y, z },
            rotation: IQuat { w: 408, x: -169, y: 0, z: 0 },
        },
    )
}

/// The entity that stands in `cell` when `kind` was drawn for it.
pub open spec fn cell_entity(cell: int, kind: int) -> Entity {
    Entity::spawned(shape_kinds()[kind], cell_transform(cell))
}

/// Spawns the shape of `kind` in `cell`. Nothing is spawned where there is no such
/// kind or no such cell.
pub fn spawn_in_cell(scene: &mut Scene, cell: usize, kind: usize) -> (done: bool)
    requires
        old(scene).wf(),
    ensures
        final(scene).wf(),
        done == (cell < GRID_CELLS && kind < SHAPE_KINDS),
        done ==> final(scene)@ == old(scene)@.push(cell_entity(cell as int, kind as int)),
        !done ==> final(scene)@ == old(scene)@,
{
    let shape: Shape = match shape_of_kind(kind) {
        Some(shape) => shape,
        None => {
            return false;
        },
    };
    let transform: Transform = match transform_of_cell(cell) {
        Some(transform) => transform,
        None => {
            return false;
        },
    };
    scene.spawn(shape, transform).is_some()
}

/// Fills the grid: one entity in every cell, in the order of the cells, each of a
/// kind drawn at random. Returns the kinds that were drawn, by cell.
pub fn setup(scene: &mut Scene) -> (kinds: Vec<usize>)
    requires
        old(scene).wf(),
    ensures
        final(scene).wf(),
        kinds@.len() == GRID_CELLS,
        final(scene)@.len() == old(scene)@.len() + GRID_CELLS,
        final(scene)@.take(old(scene)@.len() as int) == old(scene)@,
        forall|cell: int|
            0 <= cell < GRID_CELLS ==> (#[trigger] kinds@[cell]) < SHAPE_KINDS && final(scene)@[old(
                scene,
            )@.len() + cell] == cell_entity(cell, kinds@[cell] as int),
{
    let mut rng = rand::thread_rng();
    let mut kinds: Vec<usize> = Vec::new();
    let mut cell: usize = 0;
    while cell < GRID_CELLS
        invariant
            0 <= cell <= GRID_CELLS,
            scene.wf(),
            kinds@.len() == cell,
            scene@.len() == old(scene)@.len() + cell,
            scene@.take(old(scene)@.len() as int) == old(scene)@,
            forall|k: int|
                0 <= k < cell ==> (#[trigger] kinds@[k]) < SHAPE_KINDS && scene@[old(scene)@.len()
                    + k] == cell_entity(k, kinds@[k] as int),
        decreases GRID_CELLS - cell,
    {
        let kind: usize = gen_index(&mut rng, SHAPE_KINDS);
        let ghost before = scene@;
        let done = spawn_in_cell(scene, cell, kind);
        assert(done);
        kinds.push(kind);
        proof {
            assert(scene@.take(old(scene)@.len() as int) =~= before.take(old(scene)@.len() as int));
        }
        cell = cell + 1;
    }
    kinds
}

} // verus!
