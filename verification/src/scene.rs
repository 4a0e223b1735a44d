//! The entities of a scene and the passes that keep their bounding boxes and hover
//! flags up to date.

use vstd::prelude::*;
use crate::bounds::Aabb3d;
use crate::camera::{ray_from_screenspace, Camera};
use crate::ray::{Ray3d, RayCast3d};
use crate::shape::Shape;
use crate::state::ActiveState;
use crate::transform::Transform;
use crate::vector::IVec2;

verus! {

/// Names one entity of a scene. Entities are numbered in the order they were spawned.
#[derive(Clone, Copy, Debug, PartialEq, Eq, Structural)]
pub struct EntityId {
    pub index: usize,
}

/// The components of one pickable entity.
#[derive(Clone, Copy, Debug)]
pub struct Entity {
    pub shape: Shape,
    pub transform: Transform,
    /// The bounding box as of the last refresh; none before the first.
    pub volume: Option<Aabb3d>,
    pub state: ActiveState,
    /// The shape or the transform was written since the bounding box was last refreshed.
    pub changed: bool,
}

impl Entity {
    /// The components are valid, and a bounding box that is not marked as out of date
    /// is the bounding box of the shape under the transform.
    pub open spec fn wf(self) -> bool {
        &&& self.shape.wf()
        &&& self.transform.wf()
        &&& self.volume.is_some() ==> self.volume.unwrap().wf()
        &&& !self.changed ==> self.volume == Some(self.shape.spec_aabb(self.transform))
    }

    /// The entity as it is spawned: no bounding box yet, neither hovered nor selected.
    pub open spec fn spawned(shape: Shape, transform: Transform) -> Entity {
        Entity {
            shape,
            transform,
            volume: None,
            state: ActiveState { hover: false, selected: false },
            changed: true,
        }
    }

    /// The entity after the bounding boxes were refreshed.
    pub open spec fn refreshed(self) -> Entity {
        if self.changed {
            Entity {
                shape: self.shape,
                transform: self.transform,
                volume: Some(self.shape.spec_aabb(self.transform)),
                state: self.state,
                changed: false,
            }
        } else {
            self
        }
    }

    /// The cast hits the bounding box of the entity. An entity without a bounding box
    /// is never hit, and neither is one whose box the cast starts strictly inside.
    pub open spec fn hit_by(self, cast: RayCast3d) -> bool {
        match self.volume {
            Some(volume) => cast.intersects(volume),
            None => false,
        }
    }

    /// The entity after a picking pass with `cast`: the hover flag says whether the
    /// cast hit, whatever it said before.
    pub open spec fn picked(self, cast: RayCast3d) -> Entity {
        Entity {
            shape: self.shape,
            transform: self.transform,
            volume: self.volume,
            state: ActiveState { hover: self.hit_by(cast), selected: self.state.selected },
            changed: self.changed,
        }
    }

    /// The entity at a new place.
    pub open spec fn moved(self, transform: Transform) -> Entity {
        Entity {
            shape: self.shape,
            transform,
            volume: self.volume,
            state: self.state,
            changed: true,
        }
    }
}

/// The pickable entities of a scene.
pub struct Scene {
    entities: Vec<Entity>,
}

impl View for Scene {
    type V = Seq<Entity>;

    closed spec fn view(&self) -> Seq<Entity> {
        self.entities@
    }
}

/// Every entity refreshed.
pub open spec fn refreshed_all(entities: Seq<Entity>) -> Seq<Entity> {
    Seq::new(entities.len(), |i: int| entities[i].refreshed())
}

/// Every entity after a picking pass with `cast`.
pub open spec fn picked_all(entities: Seq<Entity>, cast: RayCast3d) -> Seq<Entity> {
    Seq::new(entities.len(), |i: int| entities[i].picked(cast))
}

impl Scene {
    /// Every entity is well formed.
    pub open spec fn wf(&self) -> bool {
        forall|i: int| 0 <= i < self@.len() ==> (#[trigger] self@[i]).wf()
    }

    /// A scene without entities.
    pub fn new() -> (scene: Scene)
        ensures
            scene@ == Seq::<Entity>::empty(),
            scene.wf(),
    {
        Scene { entities: Vec::new() }
    }

    /// The number of entities.
    pub fn len(&self) -> (len: usize)
        ensures
            len == self@.len(),
    {
        self.entities.len()
    }

    /// The components of an entity, if there is one of that name.
    pub fn get(&self, id: EntityId) -> (entity: Option<Entity>)
        ensures
            entity.is_some() == (id.index < self@.len()),
            entity.is_some() ==> entity.unwrap() == self@[id.index as int],
    {
        if id.index < self.entities.len() {
            Some(self.entities[id.index])
        } else {
            None
        }
    }

    /// Adds an entity with the given shape and placement and returns its name. Nothing
    /// is added where the shape or the placement is not valid.
    pub fn spawn(&mut self, shape: Shape, transform: Transform) -> (id: Option<EntityId>)
        requires
            old(self).wf(),
        ensures
            final(self).wf(),
            id.is_some() == (shape.wf() && transform.wf()),
            id.is_some() ==> id.unwrap().index == old(self)@.len() && final(self)@ == old(
                self,
            )@.push(Entity::spawned(shape, transform)),
            id.is_none() ==> final(self)@ == old(self)@,
    {
        if !shape.is_valid() || !transform.is_valid() {
            return None;
        }
        let index: usize = self.entities.len();
        self.entities.push(
            Entity {
                shape,
                transform,
                volume: None,
                state: ActiveState { hover: false, selected: false },
                changed: true,
            },
        );
        proof {
            assert forall|i: int| 0 <= i < self@.len() implies (#[trigger] self@[i]).wf() by {
                if i < old(self)@.len() {
                    assert(self@[i] == old(self)@[i]);
                }
            }
        }
        Some(EntityId { index })
    }

    /// Moves an entity and marks its bounding box as out of date. Nothing changes where
    /// there is no such entity or the placement is not valid.
    pub fn set_transform(&mut self, id: EntityId, transform: Transform) -> (done: bool)
        requires
            old(self).wf(),
        ensures
            final(self).wf(),
            done == (id.index < old(self)@.len() && transform.wf()),
            done ==> final(self)@ == old(self)@.update(
                id.index as int,
                old(self)@[id.index as int].moved(transform),
            ),
            !done ==> final(self)@ == old(self)@,
    {
        if id.index >= self.entities.len() || !transform.is_valid() {
            return false;
        }
        let entity: Entity = self.entities[id.index];
        self.entities[id.index] = Entity {
            shape: entity.shape,
            transform,
            volume: entity.volume,
            state: entity.state,
            changed: true,
        };
        true
    }

    /// Recomputes the bounding box of every entity whose shape or transform was
    /// written since the last pass, and leaves the others as they are.
    pub fn update_aabbes(&mut self)
        requires
            old(self).wf(),
        ensures
            final(self).wf(),
            final(self)@ == refreshed_all(old(self)@),
    {
        let count: usize = self.entities.len();
        let mut i: usize = 0;
        while i < count
            invariant
                0 <= i <= count,
                count == self@.len(),
                count == self.entities@.len(),
                self@.len() == old(self)@.len(),
                forall|k: int| 0 <= k < i ==> self@[k] == old(self)@[k].refreshed(),
                forall|k: int| i <= k < count ==> self@[k] == old(self)@[k],
                forall|k: int| 0 <= k < count ==> (#[trigger] self@[k]).wf(),
            decreases count - i,
        {
            let entity: Entity = self.entities[i];
            if entity.changed {
                let aabb: Aabb3d = entity.shape.aabb(&entity.transform);
                self.entities[i] = Entity {
                    shape: entity.shape,
                    transform: entity.transform,
                    volume: Some(aabb),
                    state: entity.state,
                    changed: false,
                };
            }
            i = i + 1;
        }
        assert(self@ =~= refreshed_all(old(self)@));
    }

    /// One picking pass: sets the hover flag of every entity that the cast hits and
    /// clears that of every other, whatever the flags were before.
    pub fn pick(&mut self, cast: &RayCast3d)
        requires
            old(self).wf(),
            cast.wf(),
        ensures
            final(self).wf(),
            final(self)@ == picked_all(old(self)@, *cast),
    {
        let count: usize = self.entities.len();
        let mut i: usize = 0;
        while i < count
            invariant
                0 <= i <= count,
                cast.wf(),
                count == self@.len(),
                count == self.entities@.len(),
                self@.len() == old(self)@.len(),
                forall|k: int| 0 <= k < i ==> self@[k] == old(self)@[k].picked(*cast),
                forall|k: int| i <= k < count ==> self@[k] == old(self)@[k],
                forall|k: int| 0 <= k < count ==> (#[trigger] self@[k]).wf(),
            decreases count - i,
        {
            let entity: Entity = self.entities[i];
            let hover: bool = match entity.volume {
                Some(volume) => cast.aabb_intersection_at(&volume).is_some(),
                None => false,
            };
            self.entities[i] = Entity {
                shape: entity.shape,
                transform: entity.transform,
                volume: entity.volume,
                state: ActiveState { hover, selected: entity.state.selected },
                changed: entity.changed,
            };
            i = i + 1;
        }
        assert(self@ =~= picked_all(old(self)@, *cast));
    }
}

/// Why a pointer event picked nothing.
#[derive(Clone, Copy, Debug, PartialEq, Eq, Structural)]
pub enum PickError {
    /// The scene has no camera.
    NoCamera,
    /// The scene has more than one camera, and none is singled out.
    MultipleCameras,
    /// The camera has no line of sight through the cursor position.
    ProjectionFailure,
}

/// The cast that a cursor position stands for: the line of sight of the one camera
/// through it, as far as `max_distance`.
pub open spec fn pointer_cast(
    cameras: Seq<(Camera, Transform)>,
    cursor: IVec2,
    max_distance: u32,
) -> Result<RayCast3d, PickError> {
    if cameras.len() == 0 {
        Err(PickError::NoCamera)
    } else if cameras.len() > 1 {
        Err(PickError::MultipleCameras)
    } else {
        match cameras[0].0.spec_ray(cameras[0].1, cursor) {
            Some(ray) => Ok(RayCast3d::spec_from_ray(ray, max_distance)),
            None => Err(PickError::ProjectionFailure),
        }
    }
}

/// The entities after one pointer event: picked with its cast, or untouched where the
/// event has none.
pub open spec fn after_cursor_moved(
    entities: Seq<Entity>,
    cameras: Seq<(Camera, Transform)>,
    cursor: IVec2,
    max_distance: u32,
) -> Seq<Entity> {
    match pointer_cast(cameras, cursor, max_distance) {
        Ok(cast) => picked_all(entities, cast),
        Err(_) => entities,
    }
}

/// The entities after a run of pointer events, handled in the order they came.
pub open spec fn after_events(
    entities: Seq<Entity>,
    cameras: Seq<(Camera, Transform)>,
    events: Seq<IVec2>,
    max_distance: u32,
) -> Seq<Entity>
    decreases events.len(),
{
    if events.len() == 0 {
        entities
    } else {
        after_cursor_moved(
            after_events(entities, cameras, events.drop_last(), max_distance),
            cameras,
            events.last(),
            max_distance,
        )
    }
}

/// How many of the events have a cast.
pub open spec fn events_picked(
    cameras: Seq<(Camera, Transform)>,
    events: Seq<IVec2>,
    max_distance: u32,
) -> nat
    decreases events.len(),
{
    if events.len() == 0 {
        0
    } else {
        events_picked(cameras, events.drop_last(), max_distance) + (if pointer_cast(
            cameras,
            events.last(),
            max_distance,
        ).is_ok() {
            1nat
        } else {
            0nat
        })
    }
}

/// The camera of a scene, where it has exactly one.
pub fn single_camera(cameras: &Vec<(Camera, Transform)>) -> (found: Result<
    (Camera, Transform),
    PickError,
>)
    ensures
        cameras@.len() == 0 ==> found == Err::<(Camera, Transform), PickError>(PickError::NoCamera),
        cameras@.len() == 1 ==> found == Ok::<(Camera, Transform), PickError>(cameras@[0]),
        cameras@.len() > 1 ==> found == Err::<(Camera, Transform), PickError>(
            PickError::MultipleCameras,
        ),
{
    if cameras.len() == 0 {
        Err(PickError::NoCamera)
    } else if cameras.len() > 1 {
        Err(PickError::MultipleCameras)
    } else {
        Ok(cameras[0])
    }
}

impl Scene {
    /// Handles one pointer event: with exactly one camera and a line of sight through
    /// the cursor, runs a picking pass along it. In every other case no hover flag
    /// changes and the error says why.
    pub fn cursor_moved(
        &mut self,
        cameras: &Vec<(Camera, Transform)>,
        cursor: IVec2,
        max_distance: u32,
    ) -> (outcome: Result<(), PickError>)
        requires
            old(self).wf(),
        ensures
            final(self).wf(),
            final(self)@ == after_cursor_moved(old(self)@, cameras@, cursor, max_distance),
            match pointer_cast(cameras@, cursor, max_distance) {
                Ok(_) => outcome == Ok::<(), PickError>(()),
                Err(error) => outcome == Err::<(), PickError>(error),
            },
    {
        let (camera, transform) = match single_camera(cameras) {
            Ok(found) => found,
            Err(error) => {
                return Err(error);
            },
        };
        let ray: Ray3d = match ray_from_screenspace(cursor, &camera, &transform) {
            Some(ray) => ray,
            None => {
                return Err(PickError::ProjectionFailure);
            },
        };
        let cast: RayCast3d = RayCast3d::from_ray(ray, max_distance).unwrap();
        self.pick(&cast);
        Ok(())
    }

    /// Handles the pointer events of one frame in the order they came, so that the
    /// hover flags end as the last event with a line of sight leaves them. Without
    /// events nothing happens. With events but not exactly one camera, no pass is run
    /// and the error says which; otherwise the result is the number of events that
    /// had a line of sight.
    pub fn mouse_events_system(
        &mut self,
        cursor_moved_events: &Vec<IVec2>,
        cameras: &Vec<(Camera, Transform)>,
        max_distance: u32,
    ) -> (outcome: Result<usize, PickError>)
        requires
            old(self).wf(),
        ensures
            final(self).wf(),
            final(self)@ == after_events(old(self)@, cameras@, cursor_moved_events@, max_distance),
            cursor_moved_events@.len() == 0 || cameras@.len() == 1 ==> outcome == Ok::<
                usize,
                PickError,
            >(events_picked(cameras@, cursor_moved_events@, max_distance) as usize),
            cursor_moved_events@.len() > 0 && cameras@.len() == 0 ==> outcome == Err::<
                usize,
                PickError,
            >(PickError::NoCamera),
            cursor_moved_events@.len() > 0 && cameras@.len() > 1 ==> outcome == Err::<
                usize,
                PickError,
            >(PickError::MultipleCameras),
    {
        let count: usize = cursor_moved_events.len();
        if count == 0 {
            return Ok(0);
        }
        if let Err(error) = single_camera(cameras) {
            proof {
                lemma_events_without_camera(old(self)@, cameras@, cursor_moved_events@, max_distance);
            }
            return Err(error);
        }
        let mut picked: usize = 0;
        let mut i: usize = 0;
        while i < count
            invariant
                0 <= i <= count,
                count == cursor_moved_events@.len(),
                self.wf(),
                self@ == after_events(
                    old(self)@,
                    cameras@,
                    cursor_moved_events@.take(i as int),
                    max_distance,
                ),
                picked == events_picked(cameras@, cursor_moved_events@.take(i as int), max_distance),
                picked <= i,
            decreases count - i,
        {
            let done = self.cursor_moved(cameras, cursor_moved_events[i], max_distance);
            proof {
                let next = cursor_moved_events@.take(i + 1);
                assert(next.drop_last() =~= cursor_moved_events@.take(i as int));
                assert(next.last() == cursor_moved_events@[i as int]);
            }
            if done.is_ok() {
                picked = picked + 1;
            }
            i = i + 1;
        }
        assert(cursor_moved_events@.take(count as int) =~= cursor_moved_events@);
        Ok(picked)
    }
}

/// Without exactly one camera no event changes anything.
pub proof fn lemma_events_without_camera(
    entities: Seq<Entity>,
    cameras: Seq<(Camera, Transform)>,
    events: Seq<IVec2>,
    max_distance: u32,
)
    requires
        cameras.len() != 1,
    ensures
        after_events(entities, cameras, events, max_distance) == entities,
        events_picked(cameras, events, max_distance) == 0,
    decreases events.len(),
{
    if events.len() > 0 {
        lemma_events_without_camera(entities, cameras, events.drop_last(), max_distance);
    }
}

/// What the highlight pass draws for one active entity: a wireframe of its shape at
/// its placement.
#[derive(Clone, Copy, Debug, PartialEq, Eq, Structural)]
pub struct Outline {
    pub entity: EntityId,
    pub shape: Shape,
    pub transform: Transform,
}

/// The outlines of the active entities, in the order of the entities.
pub open spec fn active_outlines(entities: Seq<Entity>) -> Seq<Outline>
    decreases entities.len(),
{
    if entities.len() == 0 {
        Seq::empty()
    } else {
        let before = active_outlines(entities.drop_last());
        let last = entities.last();
        if last.state.is_active() {
            before.push(
                Outline {
                    entity: EntityId { index: (entities.len() - 1) as usize },
                    shape: last.shape,
                    transform: last.transform,
                },
            )
        } else {
            before
        }
    }
}

impl Scene {
    /// The wireframes to draw this frame: one for every entity that is hovered or
    /// selected, none for any other. The scene is not changed.
    pub fn render_active_shapes(&self) -> (outlines: Vec<Outline>)
        ensures
            outlines@ == active_outlines(self@),
    {
        let mut outlines: Vec<Outline> = Vec::new();
        let count: usize = self.entities.len();
        let mut i: usize = 0;
        while i < count
            invariant
                0 <= i <= count,
                count == self@.len(),
                count == self.entities@.len(),
                outlines@ == active_outlines(self@.take(i as int)),
            decreases count - i,
        {
            let entity: Entity = self.entities[i];
            proof {
                let next = self@.take(i + 1);
                assert(next.drop_last() =~= self@.take(i as int));
                assert(next.last() == self@[i as int]);
            }
            if entity.state.is_active() {
                outlines.push(
                    Outline {
                        entity: EntityId { index: i },
                        shape: entity.shape,
                        transform: entity.transform,
                    },
                );
            }
            i = i + 1;
        }
        assert(self@.take(count as int) =~= self@);
        outlines
    }
}

/// Every outline belongs to an active entity and shows its shape at its placement,
/// and the outlines come in the order of the entities.
pub proof fn lemma_outlines_are_active(entities: Seq<Entity>, k: int)
    requires
        0 <= k < active_outlines(entities).len(),
        entities.len() <= usize::MAX,
    ensures
        ({
            let outline = active_outlines(entities)[k];
            let index = outline.entity.index as int;
            &&& k <= index < entities.len()
            &&& entities[index].state.is_active()
            &&& outline.shape == entities[index].shape
            &&& outline.transform == entities[index].transform
            &&& k + 1 < active_outlines(entities).len() ==> index < active_outlines(
                entities,
            )[k + 1].entity.index
        }),
    decreases entities.len(),
{
    if entities.len() > 0 {
        let before = active_outlines(entities.drop_last());
        if k < before.len() {
            lemma_outlines_are_active(entities.drop_last(), k);
        }
        if k + 1 < before.len() {
            lemma_outlines_are_active(entities.drop_last(), k + 1);
        }
        lemma_outlines_count(entities.drop_last());
    }
}

/// There are no more outlines than entities.
pub proof fn lemma_outlines_count(entities: Seq<Entity>)
    ensures
        active_outlines(entities).len() <= entities.len(),
    decreases entities.len(),
{
    if entities.len() > 0 {
        lemma_outlines_count(entities.drop_last());
    }
}

/// Every active entity has an outline.
pub proof fn lemma_active_has_outline(entities: Seq<Entity>, index: int)
    requires
        0 <= index < entities.len(),
        entities.len() <= usize::MAX,
        entities[index].state.is_active(),
    ensures
        exists|k: int|
            0 <= k < active_outlines(entities).len() && (#[trigger] active_outlines(
                entities,
            )[k]).entity.index == index,
    decreases entities.len(),
{
    let before = active_outlines(entities.drop_last());
    if index == entities.len() - 1 {
        let k = before.len() as int;
        assert(active_outlines(entities)[k].entity.index == index);
    } else {
        lemma_active_has_outline(entities.drop_last(), index);
        let k = choose|k: int|
            0 <= k < before.len() && (#[trigger] before[k]).entity.index == index;
        assert(active_outlines(entities)[k] == before[k]);
    }
}

/// Refreshing the bounding boxes a second time, with no shape or transform written in
/// between, changes nothing: not one bounding box, and nothing else.
pub proof fn lemma_refresh_is_idempotent(entities: Seq<Entity>)
    ensures
        refreshed_all(refreshed_all(entities)) == refreshed_all(entities),
{
    assert(refreshed_all(refreshed_all(entities)) =~= refreshed_all(entities));
}

/// The refreshed bounding box depends on the shape and the transform alone: two
/// entities that agree in both have the same box after a refresh, whatever their boxes
/// were before and however often they were refreshed.
pub proof fn lemma_refresh_depends_on_shape_and_transform(first: Entity, second: Entity)
    requires
        first.wf(),
        second.wf(),
        first.shape == second.shape,
        first.transform == second.transform,
    ensures
        first.refreshed().volume == second.refreshed().volume,
        first.refreshed().volume == first.refreshed().refreshed().volume,
{
}

/// After a refresh every entity has the bounding box of its shape under its transform.
pub proof fn lemma_refresh_is_current(entities: Seq<Entity>, index: int)
    requires
        0 <= index < entities.len(),
        entities[index].wf(),
    ensures
        refreshed_all(entities)[index].volume == Some(
            entities[index].shape.spec_aabb(entities[index].transform),
        ),
        refreshed_all(entities)[index].shape == entities[index].shape,
        refreshed_all(entities)[index].transform == entities[index].transform,
        refreshed_all(entities)[index].state == entities[index].state,
        !refreshed_all(entities)[index].changed,
{
}

/// A picking pass decides the hover flag of each entity by that entity alone: it is
/// set exactly where the cast hits, however many entities are hit at once, and
/// whatever the flag was before. Nothing but the hover flag changes.
pub proof fn lemma_pick_is_per_entity(entities: Seq<Entity>, cast: RayCast3d, index: int)
    requires
        0 <= index < entities.len(),
    ensures
        picked_all(entities, cast)[index].state.hover == entities[index].hit_by(cast),
        picked_all(entities, cast)[index].state.selected == entities[index].state.selected,
        picked_all(entities, cast)[index].shape == entities[index].shape,
        picked_all(entities, cast)[index].transform == entities[index].transform,
        picked_all(entities, cast)[index].volume == entities[index].volume,
        picked_all(entities, cast)[index].changed == entities[index].changed,
{
}

/// A later picking pass overwrites an earlier one altogether.
pub proof fn lemma_last_pick_wins(entities: Seq<Entity>, first: RayCast3d, last: RayCast3d)
    ensures
        picked_all(picked_all(entities, first), last) == picked_all(entities, last),
{
    assert(picked_all(picked_all(entities, first), last) =~= picked_all(entities, last));
}

/// A cast that hits nothing leaves no entity hovered.
pub proof fn lemma_miss_clears_hover(entities: Seq<Entity>, cast: RayCast3d)
    requires
        forall|i: int| 0 <= i < entities.len() ==> !(#[trigger] entities[i]).hit_by(cast),
    ensures
        forall|i: int|
            0 <= i < entities.len() ==> !(#[trigger] picked_all(entities, cast)[i]).state.hover,
{
}

/// What to remember after a frame, and whether to report: a fault is reported when it
/// differs from the one remembered, and remembered from then on. A frame without
/// events shows nothing of the cameras, so it leaves the memory as it is; a frame
/// whose events were handled shows that the fault is gone, and clears it.
pub open spec fn spec_report_once(
    reported: Option<PickError>,
    events: usize,
    outcome: Result<usize, PickError>,
) -> (Option<PickError>, bool) {
    match outcome {
        Err(error) => (Some(error), reported != Some(error)),
        Ok(_) => (
            if events == 0 {
                reported
            } else {
                None
            },
            false,
        ),
    }
}

/// Decides after each frame whether its fault is to be reported, so that a fault that
/// lasts is reported once and not frame after frame. `reported` is what the last call
/// returned, `events` is the number of pointer events of the frame, and `outcome` is
/// what [`Scene::mouse_events_system`] returned for them. Returns what to remember,
/// and whether to report the fault of `outcome`.
pub fn report_once(
    reported: Option<PickError>,
    events: usize,
    outcome: Result<usize, PickError>,
) -> (next: (Option<PickError>, bool))
    ensures
        next == spec_report_once(reported, events, outcome),
{
    match outcome {
        Err(error) => {
            let known: bool = match reported {
                Some(previous) => previous == error,
                None => false,
            };
            (Some(error), !known)
        },
        Ok(_) => {
            if events == 0 {
                (reported, false)
            } else {
                (None, false)
            }
        },
    }
}

/// What is remembered after a run of frames, each given by its number of events and
/// its outcome.
pub open spec fn reported_after(
    reported: Option<PickError>,
    frames: Seq<(usize, Result<usize, PickError>)>,
) -> Option<PickError>
    decreases frames.len(),
{
    if frames.len() == 0 {
        reported
    } else {
        spec_report_once(
            reported_after(reported, frames.drop_last()),
            frames.last().0,
            frames.last().1,
        ).0
    }
}

/// How often a fault is reported over a run of frames.
pub open spec fn reports_over(
    reported: Option<PickError>,
    frames: Seq<(usize, Result<usize, PickError>)>,
) -> nat
    decreases frames.len(),
{
    if frames.len() == 0 {
        0
    } else {
        reports_over(reported, frames.drop_last()) + (if spec_report_once(
            reported_after(reported, frames.drop_last()),
            frames.last().0,
            frames.last().1,
        ).1 {
            1nat
        } else {
            0nat
        })
    }
}

/// A fault that lasts is reported once: over any run of frames of which each either
/// has no events or fails with the same fault, there is at most one report, and none
/// where that fault was reported before the run.
pub proof fn lemma_lasting_fault_is_reported_once(
    reported: Option<PickError>,
    frames: Seq<(usize, Result<usize, PickError>)>,
    error: PickError,
)
    requires
        forall|i: int|
            0 <= i < frames.len() ==> (#[trigger] frames[i]).1 == Err::<usize, PickError>(error)
                || (frames[i].0 == 0 && frames[i].1.is_ok()),
    ensures
        reports_over(reported, frames) <= 1,
        reported == Some(error) ==> reports_over(reported, frames) == 0,
        reports_over(reported, frames) == 1 ==> reported_after(reported, frames) == Some(error),
        reports_over(reported, frames) == 0 ==> reported_after(reported, frames) == reported,
    decreases frames.len(),
{
    if frames.len() > 0 {
        let before = frames.drop_last();
        assert forall|i: int| 0 <= i < before.len() implies (#[trigger] before[i]).1 == Err::<
            usize,
            PickError,
        >(error) || (before[i].0 == 0 && before[i].1.is_ok()) by {
            assert(before[i] == frames[i]);
        }
        lemma_lasting_fault_is_reported_once(reported, before, error);
        assert(frames.last() == frames[frames.len() - 1]);
    }
}

} // verus!
