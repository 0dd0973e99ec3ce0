//! The domain components and the systems acting on them: movement,
//! sprite rendering, animation, collision, keyboard control and camera
//! focus, all built on the registry's component universe `GameComponent`.

use vstd::prelude::*;

use crate::ecs::{Entity, EntityComponentWrapper, System, SystemBase};
use crate::event_bus::{Handler, HandlerBase};
use crate::renderer::{Camera, DrawCommand, SpriteIndex, Vec2i, COORD_LIMIT};

verus! {

// Component type tags.
pub const RIGID_BODY_TAG: u64 = 1;

pub const SPRITE_TAG: u64 = 2;

pub const ANIMATION_TAG: u64 = 3;

pub const MOTION_ANIMATION_TAG: u64 = 4;

pub const COLLISION_TAG: u64 = 5;

pub const KEYBOARD_CONTROL_TAG: u64 = 6;

pub const CAMERA_FOCUS_TAG: u64 = 7;

// System type tags.
pub const MOVEMENT_SYSTEM_TAG: u64 = 11;

pub const RENDER_SYSTEM_TAG: u64 = 12;

pub const ANIMATION_SYSTEM_TAG: u64 = 13;

pub const MOTION_ANIMATION_SYSTEM_TAG: u64 = 14;

pub const COLLISION_SYSTEM_TAG: u64 = 15;

pub const KEYBOARD_CONTROL_SYSTEM_TAG: u64 = 16;

pub const CAMERA_FOCUS_SYSTEM_TAG: u64 = 17;

// Event type tags.
pub const COLLISION_EVENT_TAG: u64 = 21;

pub const KEY_EVENT_TAG: u64 = 22;

/// Position and velocity of an entity.
#[derive(Debug, Clone, Copy, PartialEq, Eq, Structural)]
pub struct RigidBodyComponent {
    pub position: Vec2i,
    pub velocity: Vec2i,
}

/// Draw order of a sprite, back to front.
#[derive(Debug, Clone, Copy, PartialEq, Eq, Structural)]
pub enum Layer {
    Background,
    Ground,
    Air,
}

impl Layer {
    /// Depth value of the layer, back to front.
    pub open spec fn spec_depth(self) -> u8 {
        match self {
            Layer::Background => 0u8,
            Layer::Ground => 1u8,
            Layer::Air => 2u8,
        }
    }

    pub fn as_depth(&self) -> (r: u8)
        ensures
            r == self.spec_depth(),
    {
        match self {
            Layer::Background => 0,
            Layer::Ground => 1,
            Layer::Air => 2,
        }
    }
}

/// Which sprite an entity shows, on which layer, at what size.
#[derive(Debug, Clone, Copy, PartialEq, Eq, Structural)]
pub struct SpriteComponent {
    pub sprite_index: SpriteIndex,
    pub sprite_layer: Layer,
    pub size: Vec2i,
}

/// A timed loop of sprite frames.
#[derive(Debug, Clone, PartialEq, Eq)]
pub struct AnimationComponent {
    pub frames: Vec<SpriteIndex>,
    pub frame_time: i64,
    pub current_frame: u32,
    pub current_frame_time: i64,
}

impl AnimationComponent {
    pub fn new(frame_time: i64, frames: Vec<SpriteIndex>) -> (r: Self)
        ensures
            r.frames == frames,
            r.frame_time == frame_time,
            r.current_frame == 0,
            r.current_frame_time == 0,
    {
        Self { frames, frame_time, current_frame: 0, current_frame_time: 0 }
    }
}

/// Four directed frame loops, switched by the entity's heading.
#[derive(Debug, Clone, PartialEq, Eq)]
pub struct MotionAnimationComponent {
    pub left_frames: Vec<SpriteIndex>,
    pub down_frames: Vec<SpriteIndex>,
    pub right_frames: Vec<SpriteIndex>,
    pub up_frames: Vec<SpriteIndex>,
    pub last_velocity: Vec2i,
    pub frame_time: i64,
    pub current_frame: u32,
    pub current_frame_time: i64,
}

impl MotionAnimationComponent {
    pub fn new(
        frame_time: i64,
        left_frames: Vec<SpriteIndex>,
        down_frames: Vec<SpriteIndex>,
        right_frames: Vec<SpriteIndex>,
        up_frames: Vec<SpriteIndex>,
    ) -> (r: Self)
        ensures
            r.left_frames == left_frames,
            r.down_frames == down_frames,
            r.right_frames == right_frames,
            r.up_frames == up_frames,
            r.frame_time == frame_time,
            r.current_frame == 0,
            r.current_frame_time == 0,
            r.last_velocity == (Vec2i { x: 0, y: 0 }),
    {
        Self {
            left_frames,
            down_frames,
            right_frames,
            up_frames,
            frame_time,
            current_frame: 0,
            current_frame_time: 0,
            last_velocity: Vec2i { x: 0, y: 0 },
        }
    }
}

/// Two entities whose collision rectangles overlapped this tick.
#[derive(Debug, Clone, Copy, PartialEq, Eq, Structural)]
pub struct CollisionEvent {
    pub entity_a: Entity,
    pub entity_b: Entity,
}

/// An axis-aligned world-space rectangle with closed-interval extents.
#[derive(Debug, Clone, Copy, PartialEq, Eq, Structural)]
pub struct Rectangle {
    pub top_left: Vec2i,
    pub bottom_right: Vec2i,
}

/// Closed-interval overlap of `[a0, a1]` and `[b0, b1]`.
pub open spec fn spec_range_intersects(a0: int, a1: int, b0: int, b1: int) -> bool {
    (a0 <= b0 <= a1) || (a0 <= b1 <= a1) || (b0 <= a0 <= b1)
}

impl Rectangle {
    /// Whether two rectangles overlap: closed-interval overlap on both
    /// axes.
    pub open spec fn spec_collides_with(self, other: Rectangle) -> bool {
        spec_range_intersects(
            self.top_left.x as int,
            self.bottom_right.x as int,
            other.top_left.x as int,
            other.bottom_right.x as int,
        ) && spec_range_intersects(
            self.top_left.y as int,
            self.bottom_right.y as int,
            other.top_left.y as int,
            other.bottom_right.y as int,
        )
    }

    pub fn range_intersects(a0: i64, a1: i64, b0: i64, b1: i64) -> (r: bool)
        ensures
            r == spec_range_intersects(a0 as int, a1 as int, b0 as int, b1 as int),
    {
        (a0 <= b0 && b0 <= a1) || (a0 <= b1 && b1 <= a1) || (b0 <= a0 && a0 <= b1)
    }

    pub fn collides_with(&self, other: &Rectangle) -> (r: bool)
        ensures
            r == self.spec_collides_with(*other),
    {
        let x_axis_intersects = Self::range_intersects(
            self.top_left.x,
            self.bottom_right.x,
            other.top_left.x,
            other.bottom_right.x,
        );
        let y_axis_intersects = Self::range_intersects(
            self.top_left.y,
            self.bottom_right.y,
            other.top_left.y,
            other.bottom_right.y,
        );
        x_axis_intersects && y_axis_intersects
    }
}

/// World-space collision box of an entity, relative to its position.
#[derive(Debug, Clone, Copy, PartialEq, Eq, Structural)]
pub struct CollisionComponent {
    pub offset: Vec2i,
    pub width_height: Vec2i,
}

/// Marks an entity as steered by the keyboard.
#[derive(Debug, Clone, Copy, PartialEq, Eq, Structural)]
pub struct KeyboardControlComponent {}

/// The camera follows an entity carrying this, clamped to the map.
#[derive(Debug, Clone, Copy, PartialEq, Eq, Structural)]
pub struct CameraFocusComponent {
    pub focus_offset: Vec2i,
    pub viewport_size: Vec2i,
    pub map_top_left: Vec2i,
    pub map_bottom_right: Vec2i,
}

/// The keys the runtime reacts to; anything else is `Other`.
#[derive(Debug, Clone, Copy, PartialEq, Eq, Structural)]
pub enum KeyCode {
    KeyA,
    KeyS,
    KeyD,
    KeyW,
    KeyB,
    Other,
}

/// Snapshot of the steering keys held down this tick.
#[derive(Debug, Clone, Copy, PartialEq, Eq, Structural, Default)]
pub struct PressedKeys {
    pub key_a: bool,
    pub key_s: bool,
    pub key_d: bool,
    pub key_w: bool,
}

/// The component universe of the game: every component type a call site
/// can attach, each stored under its own tag.
#[derive(Debug, Clone, PartialEq, Eq)]
pub enum GameComponent {
    RigidBody(RigidBodyComponent),
    Sprite(SpriteComponent),
    Animation(AnimationComponent),
    MotionAnimation(MotionAnimationComponent),
    Collision(CollisionComponent),
    KeyboardControl(KeyboardControlComponent),
    CameraFocus(CameraFocusComponent),
}

/// The event universe of the game.
#[derive(Debug, Clone, Copy, PartialEq, Eq, Structural)]
pub enum GameEvent {
    Collision(CollisionEvent),
    Key(KeyCode),
}

/// Whether no two handles in `s` share an id.
pub open spec fn spec_distinct_ids(s: Seq<Entity>) -> bool {
    forall|i: int, j: int| 0 <= i < j < s.len() ==> s[i].id != s[j].id
}

/// Whether no two handles in `v` share an id.
fn distinct_entity_ids(v: &Vec<Entity>) -> (r: bool)
    ensures
        r == spec_distinct_ids(v@),
{
    let mut i: usize = 0;
    while i < v.len()
        invariant
            i <= v@.len(),
            forall|a: int, b: int| 0 <= a < b < v@.len() && b < i ==> v@[a].id != v@[b].id,
        decreases v@.len() - i,
    {
        let mut j: usize = 0;
        while j < i
            invariant
                j <= i < v@.len(),
                forall|a: int| 0 <= a < j ==> v@[a].id != v@[i as int].id,
            decreases i - j,
        {
            if v[j].id == v[i].id {
                return false;
            }
            j = j + 1;
        }
        i = i + 1;
    }
    true
}

/// A one-element tag list.
fn tag_vec1(t: u64) -> (r: Vec<u64>)
    ensures
        r@ == seq![t],
        r@.to_set() == Set::<u64>::empty().insert(t),
{
    let mut v: Vec<u64> = Vec::new();
    v.push(t);
    proof {
        assert(v@ =~= seq![t]);
        assert forall|x: u64| v@.to_set().contains(x) == Set::<u64>::empty().insert(t).contains(
            x,
        ) by {
            if x == t {
                assert(v@[0] == t);
                assert(v@.contains(t));
            }
            if v@.contains(x) {
                let k = choose|k: int| 0 <= k < v@.len() && v@[k] == x;
            }
        }
        assert(v@.to_set() =~= Set::<u64>::empty().insert(t));
    }
    v
}

/// A two-element tag list.
fn tag_vec2(t0: u64, t1: u64) -> (r: Vec<u64>)
    ensures
        r@ == seq![t0, t1],
        r@.to_set() == Set::<u64>::empty().insert(t0).insert(t1),
{
    let mut v: Vec<u64> = Vec::new();
    v.push(t0);
    v.push(t1);
    proof {
        assert(v@ =~= seq![t0, t1]);
        assert forall|x: u64|
            v@.to_set().contains(x) == Set::<u64>::empty().insert(t0).insert(t1).contains(
                x,
            ) by {
            if x == t0 {
                assert(v@[0] == x);
                assert(v@.contains(x));
            }
            if x == t1 {
                assert(v@[1] == x);
                assert(v@.contains(x));
            }
            if v@.contains(x) {
                let k = choose|k: int| 0 <= k < v@.len() && v@[k] == x;
            }
        }
        assert(v@.to_set() =~= Set::<u64>::empty().insert(t0).insert(t1));
    }
    v
}

/// A three-element tag list.
fn tag_vec3(t0: u64, t1: u64, t2: u64) -> (r: Vec<u64>)
    ensures
        r@ == seq![t0, t1, t2],
        r@.to_set() == Set::<u64>::empty().insert(t0).insert(t1).insert(t2),
{
    let mut v: Vec<u64> = Vec::new();
    v.push(t0);
    v.push(t1);
    v.push(t2);
    proof {
        assert(v@ =~= seq![t0, t1, t2]);
        assert forall|x: u64|
            v@.to_set().contains(x) == Set::<u64>::empty().insert(t0).insert(t1).insert(
                t2,
            ).contains(x) by {
            if x == t0 {
                assert(v@[0] == x);
                assert(v@.contains(x));
            }
            if x == t1 {
                assert(v@[1] == x);
                assert(v@.contains(x));
            }
            if x == t2 {
                assert(v@[2] == x);
                assert(v@.contains(x));
            }
            if v@.contains(x) {
                let k = choose|k: int| 0 <= k < v@.len() && v@[k] == x;
            }
        }
        assert(v@.to_set() =~= Set::<u64>::empty().insert(t0).insert(t1).insert(t2));
    }
    v
}

/// Velocity integrated into position over `delta_time`, within the
/// working coordinate range; out-of-range bodies are left untouched.
pub open spec fn spec_integrate(rb: RigidBodyComponent, delta_time: i64) -> RigidBodyComponent {
    if rb.position.spec_in_range() && rb.velocity.spec_in_range() && -COORD_LIMIT <= delta_time
        <= COORD_LIMIT {
        RigidBodyComponent {
            position: Vec2i {
                x: (rb.position.x + rb.velocity.x * delta_time) as i64,
                y: (rb.position.y + rb.velocity.y * delta_time) as i64,
            },
            velocity: rb.velocity,
        }
    } else {
        rb
    }
}

/// What the movement pass leaves under the rigid-body tag for handle
/// `e`: the integrated body where one was visible, whatever was there
/// otherwise.
pub open spec fn spec_moved_component(
    ec: crate::ecs::EntityComponentManager<GameComponent>,
    e: Entity,
    delta_time: i64,
) -> Option<GameComponent> {
    match ec.spec_component(e, RIGID_BODY_TAG) {
        Some(GameComponent::RigidBody(rb)) => Some(
            GameComponent::RigidBody(spec_integrate(rb, delta_time)),
        ),
        other => other,
    }
}

/// Integrates every listed live entity's rigid body, in place.  Nothing
/// else changes: not liveness, not tag sets, not any other slot, not
/// the change record.
pub fn movement_step(
    ec_manager: &mut EntityComponentWrapper<GameComponent>,
    entities: &Vec<Entity>,
    delta_time: i64,
)
    requires
        old(ec_manager).wf(),
        spec_distinct_ids(entities@),
    ensures
        final(ec_manager).wf(),
        final(ec_manager).snapshot == old(ec_manager).snapshot,
        final(ec_manager).changed_entities == old(ec_manager).changed_entities,
        final(ec_manager).ec_manager.entity_manager == old(ec_manager).ec_manager.entity_manager,
        final(ec_manager).ec_manager.entity_components == old(
            ec_manager,
        ).ec_manager.entity_components,
        forall|k: int|
            0 <= k < entities@.len() && old(ec_manager).ec_manager.spec_live(
                #[trigger] entities@[k],
            ) ==> final(ec_manager).ec_manager.spec_component(entities@[k], RIGID_BODY_TAG)
                == spec_moved_component(old(ec_manager).ec_manager, entities@[k], delta_time),
        forall|t2: u64, id: u32|
            (t2 != RIGID_BODY_TAG || (forall|k: int|
                0 <= k < entities@.len() ==> (#[trigger] entities@[k]).id != id)) ==> (
            #[trigger] final(ec_manager).ec_manager.spec_slot(t2, id)) == old(
                ec_manager,
            ).ec_manager.spec_slot(t2, id),
{
    let ghost orig = *ec_manager;
    let mut k: usize = 0;
    while k < entities.len()
        invariant
            k <= entities@.len(),
            spec_distinct_ids(entities@),
            ec_manager.wf(),
            orig.wf(),
            ec_manager.snapshot == orig.snapshot,
            ec_manager.changed_entities == orig.changed_entities,
            ec_manager.ec_manager.entity_manager == orig.ec_manager.entity_manager,
            ec_manager.ec_manager.entity_components == orig.ec_manager.entity_components,
            ec_manager.ec_manager.component_pools@.len()
                == orig.ec_manager.component_pools@.len(),
            forall|i: int|
                0 <= i < orig.ec_manager.component_pools@.len() ==> (
                #[trigger] ec_manager.ec_manager.component_pools@[i]).0
                    == orig.ec_manager.component_pools@[i].0,
            forall|j: int|
                0 <= j < k && orig.ec_manager.spec_live(#[trigger] entities@[j])
                    ==> ec_manager.ec_manager.spec_component(entities@[j], RIGID_BODY_TAG)
                    == spec_moved_component(orig.ec_manager, entities@[j], delta_time),
            forall|t2: u64, id: u32|
                (t2 != RIGID_BODY_TAG || (forall|j: int|
                    0 <= j < k ==> (#[trigger] entities@[j]).id != id)) ==> (
                #[trigger] ec_manager.ec_manager.spec_slot(t2, id)) == orig.ec_manager.spec_slot(
                    t2,
                    id,
                ),
        decreases entities@.len() - k,
    {
        let e = entities[k];
        let ghost prev = *ec_manager;
        match ec_manager.get_component_mut(e, RIGID_BODY_TAG) {
            Ok(opt) => match opt {
                Some(m) => {
                    match m {
                        GameComponent::RigidBody(rb) => {
                            let p = rb.position;
                            let v = rb.velocity;
                            if p.in_range() && v.in_range() && -COORD_LIMIT <= delta_time
                                && delta_time <= COORD_LIMIT {
                                proof {
                                    assert(-COORD_LIMIT * COORD_LIMIT <= v.x * delta_time
                                        <= COORD_LIMIT * COORD_LIMIT) by (nonlinear_arith)
                                        requires
                                            -COORD_LIMIT <= v.x <= COORD_LIMIT,
                                            -COORD_LIMIT <= delta_time <= COORD_LIMIT,
                                    ;
                                    assert(-COORD_LIMIT * COORD_LIMIT <= v.y * delta_time
                                        <= COORD_LIMIT * COORD_LIMIT) by (nonlinear_arith)
                                        requires
                                            -COORD_LIMIT <= v.y <= COORD_LIMIT,
                                            -COORD_LIMIT <= delta_time <= COORD_LIMIT,
                                    ;
                                }
                                rb.position = Vec2i {
                                    x: p.x + v.x * delta_time,
                                    y: p.y + v.y * delta_time,
                                };
                            }
                        },
                        _ => {},
                    }
                },
                None => {},
            },
            Err(_) => {},
        }
        proof {
            crate::ecs::lemma_wrapper_wf_value_update(prev, *ec_manager);
            crate::ecs::lemma_pool_index_lookup(prev.ec_manager, ec_manager.ec_manager);
            assert forall|t2: u64, id: u32|
                !(t2 == RIGID_BODY_TAG && id == e.id) implies (
            #[trigger] ec_manager.ec_manager.spec_slot(t2, id)) == prev.ec_manager.spec_slot(
                t2,
                id,
            ) by {
                if prev.ec_manager.spec_has_pool(t2) {
                    let i = prev.ec_manager.spec_pool_at(t2);
                    assert(prev.ec_manager.component_pools@[i].0 == t2);
                    assert(ec_manager.ec_manager.component_pools@[i].1.spec_slot(id)
                        == prev.ec_manager.component_pools@[i].1.spec_slot(id));
                }
            }
            assert forall|j: int|
                0 <= j < k + 1 && orig.ec_manager.spec_live(#[trigger] entities@[j]) implies
                ec_manager.ec_manager.spec_component(entities@[j], RIGID_BODY_TAG)
                    == spec_moved_component(orig.ec_manager, entities@[j], delta_time) by {
                if j < k {
                    assert(entities@[j].id != e.id);
                    assert(ec_manager.ec_manager.spec_slot(RIGID_BODY_TAG, entities@[j].id)
                        == prev.ec_manager.spec_slot(RIGID_BODY_TAG, entities@[j].id));
                    assert(prev.ec_manager.spec_component(entities@[j], RIGID_BODY_TAG)
                        == spec_moved_component(orig.ec_manager, entities@[j], delta_time));
                } else {
                    assert(prev.ec_manager.spec_slot(RIGID_BODY_TAG, e.id)
                        == orig.ec_manager.spec_slot(RIGID_BODY_TAG, e.id));
                    assert(prev.ec_manager.spec_component(e, RIGID_BODY_TAG)
                        == orig.ec_manager.spec_component(e, RIGID_BODY_TAG));
                }
            }
            assert forall|t2: u64, id: u32|
                (t2 != RIGID_BODY_TAG || (forall|j: int|
                    0 <= j < k + 1 ==> (#[trigger] entities@[j]).id != id)) implies (
            #[trigger] ec_manager.ec_manager.spec_slot(t2, id)) == orig.ec_manager.spec_slot(
                t2,
                id,
            ) by {
                assert(prev.ec_manager.spec_slot(t2, id) == orig.ec_manager.spec_slot(t2, id));
                if t2 != RIGID_BODY_TAG || id != e.id {
                    assert(ec_manager.ec_manager.spec_slot(t2, id) == prev.ec_manager.spec_slot(
                        t2,
                        id,
                    ));
                }
            }
        }
        k = k + 1;
    }
}

/// Integrates velocity into position for every entity owning a rigid
/// body.
pub struct MovementSystem {}

impl MovementSystem {
    pub fn new() -> (r: Self)
        ensures
            true,
    {
        Self {  }
    }
}

impl SystemBase for MovementSystem {
    open spec fn tag_spec() -> u64 {
        MOVEMENT_SYSTEM_TAG
    }

    open spec fn required_spec() -> Set<u64> {
        Set::<u64>::empty().insert(RIGID_BODY_TAG)
    }

    fn system_tag(&self) -> u64 {
        MOVEMENT_SYSTEM_TAG
    }

    fn required_components(&self) -> (r: Vec<u64>) {
        tag_vec1(RIGID_BODY_TAG)
    }
}

impl System<GameComponent> for MovementSystem {
    type Input<'i> = i64;

    fn run<'i>(
        &self,
        ec_manager: &mut EntityComponentWrapper<GameComponent>,
        entities: &Vec<Entity>,
        input: Self::Input<'i>,
    )
        ensures
            !spec_distinct_ids(entities@) ==> *final(ec_manager) == *old(ec_manager),
            spec_distinct_ids(entities@) ==> {
                &&& final(ec_manager).changed_entities == old(ec_manager).changed_entities
                &&& final(ec_manager).ec_manager.entity_manager == old(
                    ec_manager,
                ).ec_manager.entity_manager
                &&& final(ec_manager).ec_manager.entity_components == old(
                    ec_manager,
                ).ec_manager.entity_components
                &&& forall|k: int|
                    0 <= k < entities@.len() && old(ec_manager).ec_manager.spec_live(
                        #[trigger] entities@[k],
                    ) ==> final(ec_manager).ec_manager.spec_component(
                        entities@[k],
                        RIGID_BODY_TAG,
                    ) == spec_moved_component(old(ec_manager).ec_manager, entities@[k], input)
                &&& forall|t2: u64, id: u32|
                    (t2 != RIGID_BODY_TAG || (forall|k: int|
                        0 <= k < entities@.len() ==> (#[trigger] entities@[k]).id != id)) ==> (
                    #[trigger] final(ec_manager).ec_manager.spec_slot(t2, id)) == old(
                        ec_manager,
                    ).ec_manager.spec_slot(t2, id)
            },
    {
        // Interest lists handed over by the registry never repeat an id;
        // a list that does is refused outright rather than integrated
        // twice.
        if distinct_entity_ids(entities) {
            movement_step(ec_manager, entities, input);
        }
    }
}

/// The world-space collision rectangle of a body and its collision box.
pub open spec fn spec_collision_rect(rb: RigidBodyComponent, col: CollisionComponent) -> Rectangle {
    Rectangle {
        top_left: Vec2i {
            x: (rb.position.x + col.offset.x) as i64,
            y: (rb.position.y + col.offset.y) as i64,
        },
        bottom_right: Vec2i {
            x: (rb.position.x + col.offset.x + col.width_height.x) as i64,
            y: (rb.position.y + col.offset.y + col.width_height.y) as i64,
        },
    }
}

/// The collision rectangle handle `e` brings to the pairwise test: it
/// must be live, own both a rigid body and a collision box, and be
/// within the working coordinate range.
pub open spec fn spec_collidable(
    ec: crate::ecs::EntityComponentManager<GameComponent>,
    e: Entity,
) -> Option<Rectangle> {
    match (ec.spec_component(e, RIGID_BODY_TAG), ec.spec_component(e, COLLISION_TAG)) {
        (Some(GameComponent::RigidBody(rb)), Some(GameComponent::Collision(col))) => {
            if ec.spec_live(e) && rb.position.spec_in_range() && col.offset.spec_in_range()
                && col.width_height.spec_in_range() {
                Some(spec_collision_rect(rb, col))
            } else {
                None
            }
        },
        _ => None,
    }
}

/// The collision events of pairs `(a, b)` for `a + 1 <= b < upto`, in
/// ascending `b` order.
pub open spec fn spec_pair_events_upto(
    ec: crate::ecs::EntityComponentManager<GameComponent>,
    s: Seq<Entity>,
    a: int,
    upto: int,
) -> Seq<CollisionEvent>
    decreases upto,
{
    if a < 0 || upto <= a + 1 {
        Seq::empty()
    } else {
        spec_pair_events_upto(ec, s, a, upto - 1) + (match (
            spec_collidable(ec, s[a]),
            spec_collidable(ec, s[upto - 1]),
        ) {
            (Some(ra), Some(rb)) => {
                if ra.spec_collides_with(rb) {
                    seq![CollisionEvent { entity_a: s[a], entity_b: s[upto - 1] }]
                } else {
                    Seq::empty()
                }
            },
            _ => Seq::empty(),
        })
    }
}

/// All collision events of pairs whose first index is below `upto`, in
/// the order the pairwise scan emits them.
pub open spec fn spec_collision_events_upto(
    ec: crate::ecs::EntityComponentManager<GameComponent>,
    s: Seq<Entity>,
    upto: int,
) -> Seq<CollisionEvent>
    decreases upto,
{
    if upto <= 0 {
        Seq::empty()
    } else {
        spec_collision_events_upto(ec, s, upto - 1) + spec_pair_events_upto(
            ec,
            s,
            upto - 1,
            s.len() as int,
        )
    }
}

/// The debug box outlines of the collidable entities among the first
/// `upto`, in list order: each entity's world rectangle at its size.
pub open spec fn spec_collision_boxes_upto(
    ec: crate::ecs::EntityComponentManager<GameComponent>,
    s: Seq<Entity>,
    upto: int,
) -> Seq<DrawCommand>
    decreases upto,
{
    if upto <= 0 {
        Seq::empty()
    } else {
        spec_collision_boxes_upto(ec, s, upto - 1) + (match spec_collidable(ec, s[upto - 1]) {
            Some(r) => seq![
                DrawCommand::Rectangle {
                    position: r.top_left,
                    size: Vec2i {
                        x: (r.bottom_right.x - r.top_left.x) as i64,
                        y: (r.bottom_right.y - r.top_left.y) as i64,
                    },
                },
            ],
            None => Seq::empty(),
        })
    }
}

/// What one run of the collision system hands back: the events of every
/// overlapping pair, and, when box rendering is on, one debug rectangle
/// per collidable entity.
pub struct CollisionOutput {
    pub events: Vec<CollisionEvent>,
    pub boxes: Vec<DrawCommand>,
}

impl CollisionOutput {
    pub fn new() -> (r: Self)
        ensures
            r.events@ == Seq::<CollisionEvent>::empty(),
            r.boxes@ == Seq::<DrawCommand>::empty(),
    {
        Self { events: Vec::new(), boxes: Vec::new() }
    }
}

/// Performs the pairwise closed-interval overlap test over `entities`
/// and appends one event per overlapping pair to `out.events`, in scan
/// order.  The store is only read.
pub fn collision_step(
    ec_manager: &EntityComponentWrapper<GameComponent>,
    entities: &Vec<Entity>,
    out: &mut CollisionOutput,
)
    requires
        ec_manager.wf(),
    ensures
        final(out).events@ == old(out).events@ + spec_collision_events_upto(
            ec_manager.ec_manager,
            entities@,
            entities@.len() as int,
        ),
        final(out).boxes == old(out).boxes,
{
    let ghost ec = ec_manager.ec_manager;
    let mut a: usize = 0;
    while a < entities.len()
        invariant
            a <= entities@.len(),
            ec_manager.wf(),
            ec == ec_manager.ec_manager,
            out.boxes == old(out).boxes,
            out.events@ == old(out).events@ + spec_collision_events_upto(
                ec,
                entities@,
                a as int,
            ),
        decreases entities@.len() - a,
    {
        let entity_a = entities[a];
        let rect_a: Option<Rectangle> = collidable_rect(ec_manager, entity_a);
        let mut b: usize = a + 1;
        while b < entities.len()
            invariant
                a < b <= entities@.len(),
                ec_manager.wf(),
                ec == ec_manager.ec_manager,
                entity_a == entities@[a as int],
                rect_a == spec_collidable(ec, entity_a),
                out.boxes == old(out).boxes,
                out.events@ == old(out).events@ + spec_collision_events_upto(
                    ec,
                    entities@,
                    a as int,
                ) + spec_pair_events_upto(ec, entities@, a as int, b as int),
            decreases entities@.len() - b,
        {
            let entity_b = entities[b];
            let rect_b: Option<Rectangle> = collidable_rect(ec_manager, entity_b);
            match (&rect_a, &rect_b) {
                (Some(ra), Some(rb)) => {
                    if ra.collides_with(rb) {
                        out.events.push(CollisionEvent { entity_a, entity_b });
                    }
                },
                _ => {},
            }
            b = b + 1;
        }
        proof {
            assert(out.events@ == old(out).events@ + spec_collision_events_upto(
                ec,
                entities@,
                a as int + 1,
            ));
        }
        a = a + 1;
    }
}

/// The collision rectangle `e` brings to the test, or `None` when `e`
/// is dead, lacks a component, or is out of range.
fn collidable_rect(ec_manager: &EntityComponentWrapper<GameComponent>, e: Entity) -> (r: Option<
    Rectangle,
>)
    requires
        ec_manager.wf(),
    ensures
        r == spec_collidable(ec_manager.ec_manager, e),
{
    let rb: RigidBodyComponent = match ec_manager.get_component(e, RIGID_BODY_TAG) {
        Ok(Some(c)) => match c {
            GameComponent::RigidBody(rb) => *rb,
            _ => {
                return None;
            },
        },
        _ => {
            return None;
        },
    };
    let col: CollisionComponent = match ec_manager.get_component(e, COLLISION_TAG) {
        Ok(Some(c)) => match c {
            GameComponent::Collision(col) => *col,
            _ => {
                return None;
            },
        },
        _ => {
            return None;
        },
    };
    if !rb.position.in_range() || !col.offset.in_range() || !col.width_height.in_range() {
        return None;
    }
    Some(
        Rectangle {
            top_left: Vec2i { x: rb.position.x + col.offset.x, y: rb.position.y + col.offset.y },
            bottom_right: Vec2i {
                x: rb.position.x + col.offset.x + col.width_height.x,
                y: rb.position.y + col.offset.y + col.width_height.y,
            },
        },
    )
}

/// Detects overlapping collision rectangles pairwise over its interest
/// set and emits one event per overlapping pair; its default handling
/// of those events removes both entities.  It also reacts to the `B`
/// key by toggling debug box rendering.
pub struct CollisionSystem {
    pub render_collision_boxes: bool,
}

impl CollisionSystem {
    pub fn new() -> (r: Self)
        ensures
            r.render_collision_boxes == false,
    {
        Self { render_collision_boxes: false }
    }
}

impl SystemBase for CollisionSystem {
    open spec fn tag_spec() -> u64 {
        COLLISION_SYSTEM_TAG
    }

    open spec fn required_spec() -> Set<u64> {
        Set::<u64>::empty().insert(RIGID_BODY_TAG).insert(COLLISION_TAG)
    }

    fn system_tag(&self) -> u64 {
        COLLISION_SYSTEM_TAG
    }

    fn required_components(&self) -> (r: Vec<u64>) {
        tag_vec2(RIGID_BODY_TAG, COLLISION_TAG)
    }
}

impl System<GameComponent> for CollisionSystem {
    type Input<'i> = &'i mut CollisionOutput;

    fn run<'i>(
        &self,
        ec_manager: &mut EntityComponentWrapper<GameComponent>,
        entities: &Vec<Entity>,
        input: Self::Input<'i>,
    )
        ensures
            *final(ec_manager) == *old(ec_manager),
            final(input).events@ == old(input).events@ + spec_collision_events_upto(
                old(ec_manager).ec_manager,
                entities@,
                entities@.len() as int,
            ),
            self.render_collision_boxes ==> final(input).boxes@ == old(input).boxes@
                + spec_collision_boxes_upto(
                old(ec_manager).ec_manager,
                entities@,
                entities@.len() as int,
            ),
            !self.render_collision_boxes ==> final(input).boxes == old(input).boxes,
    {
        if self.render_collision_boxes {
            let ghost ec = ec_manager.ec_manager;
            let mut k: usize = 0;
            while k < entities.len()
                invariant
                    k <= entities@.len(),
                    ec_manager.wf(),
                    ec == ec_manager.ec_manager,
                    input.events == old(input).events,
                    input.boxes@ == old(input).boxes@ + spec_collision_boxes_upto(
                        ec,
                        entities@,
                        k as int,
                    ),
                decreases entities@.len() - k,
            {
                match collidable_rect(ec_manager, entities[k]) {
                    Some(rect) => {
                        input.boxes.push(
                            DrawCommand::Rectangle {
                                position: rect.top_left,
                                size: Vec2i {
                                    x: rect.bottom_right.x - rect.top_left.x,
                                    y: rect.bottom_right.y - rect.top_left.y,
                                },
                            },
                        );
                    },
                    None => {},
                }
                k = k + 1;
                proof {
                    assert(input.boxes@ =~= old(input).boxes@ + spec_collision_boxes_upto(
                        ec,
                        entities@,
                        k as int,
                    ));
                }
            }
        }
        collision_step(ec_manager, entities, input);
    }
}

impl HandlerBase<GameComponent, GameEvent> for CollisionSystem {
    fn handle_any(
        &mut self,
        ec_manager: &mut EntityComponentWrapper<GameComponent>,
        event: &GameEvent,
    )
        ensures
            match *event {
                GameEvent::Collision(ce) => {
                    &&& !final(ec_manager).ec_manager.spec_live(ce.entity_a)
                    &&& !final(ec_manager).ec_manager.spec_live(ce.entity_b)
                    &&& *final(self) == *old(self)
                },
                GameEvent::Key(k) => {
                    &&& *final(ec_manager) == *old(ec_manager)
                    &&& final(self).render_collision_boxes == (if k == KeyCode::KeyB {
                        !old(self).render_collision_boxes
                    } else {
                        old(self).render_collision_boxes
                    })
                },
            },
    {
        match event {
            GameEvent::Collision(collision_event) => {
                self.handle(ec_manager, collision_event);
            },
            GameEvent::Key(key) => {
                self.handle(ec_manager, key);
            },
        }
    }
}

impl Handler<GameComponent, GameEvent, CollisionEvent> for CollisionSystem {
    /// Default collision resolution: both entities are removed.  A
    /// handle already dead -- for instance removed by an earlier event
    /// of the same tick -- is an expected race and skipped gracefully.
    fn handle(
        &mut self,
        ec_manager: &mut EntityComponentWrapper<GameComponent>,
        event: &CollisionEvent,
    )
        ensures
            !final(ec_manager).ec_manager.spec_live(event.entity_a),
            !final(ec_manager).ec_manager.spec_live(event.entity_b),
            final(ec_manager).ec_manager.component_pools == old(
                ec_manager,
            ).ec_manager.component_pools,
            forall|e2: Entity|
                e2.id != event.entity_a.id && e2.id != event.entity_b.id
                    ==> final(ec_manager).ec_manager.spec_live(e2) == old(
                    ec_manager,
                ).ec_manager.spec_live(e2),
            *final(self) == *old(self),
    {
        let ghost w0 = *ec_manager;
        let _ = ec_manager.remove_entity(event.entity_a);
        let ghost w1 = *ec_manager;
        proof {
            assert(!w1.ec_manager.spec_live(event.entity_a)) by {
                if w0.ec_manager.spec_live(event.entity_a) {
                } else {
                    assert(w1.ec_manager == w0.ec_manager);
                }
            }
        }
        let _ = ec_manager.remove_entity(event.entity_b);
        proof {
            assert(!ec_manager.ec_manager.spec_live(event.entity_b)) by {
                if w1.ec_manager.spec_live(event.entity_b) {
                } else {
                    assert(ec_manager.ec_manager == w1.ec_manager);
                }
            }
            assert(!ec_manager.ec_manager.spec_live(event.entity_a)) by {
                if w1.ec_manager.spec_live(event.entity_b) {
                    if event.entity_a.id != event.entity_b.id {
                        assert(ec_manager.ec_manager.spec_live(event.entity_a)
                            == w1.ec_manager.spec_live(event.entity_a));
                    }
                } else {
                    assert(ec_manager.ec_manager == w1.ec_manager);
                }
            }
        }
    }
}

impl Handler<GameComponent, GameEvent, KeyCode> for CollisionSystem {
    /// The `B` key toggles debug rendering of collision boxes; every
    /// other key, and the store, are left untouched.
    fn handle(&mut self, ec_manager: &mut EntityComponentWrapper<GameComponent>, event: &KeyCode)
        ensures
            *final(ec_manager) == *old(ec_manager),
            final(self).render_collision_boxes == (if *event == KeyCode::KeyB {
                !old(self).render_collision_boxes
            } else {
                old(self).render_collision_boxes
            }),
    {
        match event {
            KeyCode::KeyB => {
                self.render_collision_boxes = !self.render_collision_boxes;
            },
            _ => {},
        }
    }
}

/// The velocity the held steering keys ask for: the sum of the unit
/// directions, scaled to 80 world units per time unit.
pub open spec fn spec_steer_velocity(keys: PressedKeys) -> Vec2i {
    Vec2i {
        x: (((if keys.key_d {
            1int
        } else {
            0int
        }) - (if keys.key_a {
            1int
        } else {
            0int
        })) * 80) as i64,
        y: (((if keys.key_s {
            1int
        } else {
            0int
        }) - (if keys.key_w {
            1int
        } else {
            0int
        })) * 80) as i64,
    }
}

/// What the keyboard pass leaves under the rigid-body tag for handle
/// `e`: the same body steered to the requested velocity where one was
/// visible, whatever was there otherwise.
pub open spec fn spec_steered_component(
    ec: crate::ecs::EntityComponentManager<GameComponent>,
    e: Entity,
    keys: PressedKeys,
) -> Option<GameComponent> {
    match ec.spec_component(e, RIGID_BODY_TAG) {
        Some(GameComponent::RigidBody(rb)) => Some(
            GameComponent::RigidBody(
                RigidBodyComponent { position: rb.position, velocity: spec_steer_velocity(keys) },
            ),
        ),
        other => other,
    }
}

/// Sets every listed live entity's velocity from the held keys, in
/// place.  Nothing else changes.
pub fn keyboard_step(
    ec_manager: &mut EntityComponentWrapper<GameComponent>,
    entities: &Vec<Entity>,
    keys: PressedKeys,
)
    requires
        old(ec_manager).wf(),
        spec_distinct_ids(entities@),
    ensures
        final(ec_manager).wf(),
        final(ec_manager).snapshot == old(ec_manager).snapshot,
        final(ec_manager).changed_entities == old(ec_manager).changed_entities,
        final(ec_manager).ec_manager.entity_manager == old(ec_manager).ec_manager.entity_manager,
        final(ec_manager).ec_manager.entity_components == old(
            ec_manager,
        ).ec_manager.entity_components,
        forall|k: int|
            0 <= k < entities@.len() && old(ec_manager).ec_manager.spec_live(
                #[trigger] entities@[k],
            ) ==> final(ec_manager).ec_manager.spec_component(entities@[k], RIGID_BODY_TAG)
                == spec_steered_component(old(ec_manager).ec_manager, entities@[k], keys),
        forall|t2: u64, id: u32|
            (t2 != RIGID_BODY_TAG || (forall|k: int|
                0 <= k < entities@.len() ==> (#[trigger] entities@[k]).id != id)) ==> (
            #[trigger] final(ec_manager).ec_manager.spec_slot(t2, id)) == old(
                ec_manager,
            ).ec_manager.spec_slot(t2, id),
{
    let vx: i64 = (if keys.key_d {
        1i64
    } else {
        0i64
    }) * 80 - (if keys.key_a {
        1i64
    } else {
        0i64
    }) * 80;
    let vy: i64 = (if keys.key_s {
        1i64
    } else {
        0i64
    }) * 80 - (if keys.key_w {
        1i64
    } else {
        0i64
    }) * 80;
    let ghost orig = *ec_manager;
    let mut k: usize = 0;
    while k < entities.len()
        invariant
            k <= entities@.len(),
            spec_distinct_ids(entities@),
            vx == spec_steer_velocity(keys).x,
            vy == spec_steer_velocity(keys).y,
            ec_manager.wf(),
            orig.wf(),
            ec_manager.snapshot == orig.snapshot,
            ec_manager.changed_entities == orig.changed_entities,
            ec_manager.ec_manager.entity_manager == orig.ec_manager.entity_manager,
            ec_manager.ec_manager.entity_components == orig.ec_manager.entity_components,
            ec_manager.ec_manager.component_pools@.len()
                == orig.ec_manager.component_pools@.len(),
            forall|i: int|
                0 <= i < orig.ec_manager.component_pools@.len() ==> (
                #[trigger] ec_manager.ec_manager.component_pools@[i]).0
                    == orig.ec_manager.component_pools@[i].0,
            forall|j: int|
                0 <= j < k && orig.ec_manager.spec_live(#[trigger] entities@[j])
                    ==> ec_manager.ec_manager.spec_component(entities@[j], RIGID_BODY_TAG)
                    == spec_steered_component(orig.ec_manager, entities@[j], keys),
            forall|t2: u64, id: u32|
                (t2 != RIGID_BODY_TAG || (forall|j: int|
                    0 <= j < k ==> (#[trigger] entities@[j]).id != id)) ==> (
                #[trigger] ec_manager.ec_manager.spec_slot(t2, id)) == orig.ec_manager.spec_slot(
                    t2,
                    id,
                ),
        decreases entities@.len() - k,
    {
        let e = entities[k];
        let ghost prev = *ec_manager;
        match ec_manager.get_component_mut(e, RIGID_BODY_TAG) {
            Ok(opt) => match opt {
                Some(m) => {
                    match m {
                        GameComponent::RigidBody(rb) => {
                            rb.velocity = Vec2i { x: vx, y: vy };
                        },
                        _ => {},
                    }
                },
                None => {},
            },
            Err(_) => {},
        }
        proof {
            crate::ecs::lemma_wrapper_wf_value_update(prev, *ec_manager);
            crate::ecs::lemma_pool_index_lookup(prev.ec_manager, ec_manager.ec_manager);
            assert forall|t2: u64, id: u32|
                !(t2 == RIGID_BODY_TAG && id == e.id) implies (
            #[trigger] ec_manager.ec_manager.spec_slot(t2, id)) == prev.ec_manager.spec_slot(
                t2,
                id,
            ) by {
                if prev.ec_manager.spec_has_pool(t2) {
                    let i = prev.ec_manager.spec_pool_at(t2);
                    assert(prev.ec_manager.component_pools@[i].0 == t2);
                    assert(ec_manager.ec_manager.component_pools@[i].1.spec_slot(id)
                        == prev.ec_manager.component_pools@[i].1.spec_slot(id));
                }
            }
            assert forall|j: int|
                0 <= j < k + 1 && orig.ec_manager.spec_live(#[trigger] entities@[j]) implies
                ec_manager.ec_manager.spec_component(entities@[j], RIGID_BODY_TAG)
                    == spec_steered_component(orig.ec_manager, entities@[j], keys) by {
                if j < k {
                    assert(entities@[j].id != e.id);
                    assert(ec_manager.ec_manager.spec_slot(RIGID_BODY_TAG, entities@[j].id)
                        == prev.ec_manager.spec_slot(RIGID_BODY_TAG, entities@[j].id));
                    assert(prev.ec_manager.spec_component(entities@[j], RIGID_BODY_TAG)
                        == spec_steered_component(orig.ec_manager, entities@[j], keys));
                } else {
                    assert(prev.ec_manager.spec_slot(RIGID_BODY_TAG, e.id)
                        == orig.ec_manager.spec_slot(RIGID_BODY_TAG, e.id));
                    assert(prev.ec_manager.spec_component(e, RIGID_BODY_TAG)
                        == orig.ec_manager.spec_component(e, RIGID_BODY_TAG));
                }
            }
            assert forall|t2: u64, id: u32|
                (t2 != RIGID_BODY_TAG || (forall|j: int|
                    0 <= j < k + 1 ==> (#[trigger] entities@[j]).id != id)) implies (
            #[trigger] ec_manager.ec_manager.spec_slot(t2, id)) == orig.ec_manager.spec_slot(
                t2,
                id,
            ) by {
                assert(prev.ec_manager.spec_slot(t2, id) == orig.ec_manager.spec_slot(t2, id));
                if t2 != RIGID_BODY_TAG || id != e.id {
                    assert(ec_manager.ec_manager.spec_slot(t2, id) == prev.ec_manager.spec_slot(
                        t2,
                        id,
                    ));
                }
            }
        }
        k = k + 1;
    }
}

/// Steers every entity owning both a rigid body and a keyboard-control
/// marker by the held keys.
pub struct KeyboardControlSystem {}

impl KeyboardControlSystem {
    pub fn new() -> (r: Self)
        ensures
            true,
    {
        Self {  }
    }
}

impl SystemBase for KeyboardControlSystem {
    open spec fn tag_spec() -> u64 {
        KEYBOARD_CONTROL_SYSTEM_TAG
    }

    open spec fn required_spec() -> Set<u64> {
        Set::<u64>::empty().insert(RIGID_BODY_TAG).insert(KEYBOARD_CONTROL_TAG)
    }

    fn system_tag(&self) -> u64 {
        KEYBOARD_CONTROL_SYSTEM_TAG
    }

    fn required_components(&self) -> (r: Vec<u64>) {
        tag_vec2(RIGID_BODY_TAG, KEYBOARD_CONTROL_TAG)
    }
}

impl System<GameComponent> for KeyboardControlSystem {
    type Input<'i> = &'i PressedKeys;

    fn run<'i>(
        &self,
        ec_manager: &mut EntityComponentWrapper<GameComponent>,
        entities: &Vec<Entity>,
        input: Self::Input<'i>,
    )
        ensures
            !spec_distinct_ids(entities@) ==> *final(ec_manager) == *old(ec_manager),
            spec_distinct_ids(entities@) ==> {
                &&& final(ec_manager).changed_entities == old(ec_manager).changed_entities
                &&& final(ec_manager).ec_manager.entity_manager == old(
                    ec_manager,
                ).ec_manager.entity_manager
                &&& final(ec_manager).ec_manager.entity_components == old(
                    ec_manager,
                ).ec_manager.entity_components
                &&& forall|k: int|
                    0 <= k < entities@.len() && old(ec_manager).ec_manager.spec_live(
                        #[trigger] entities@[k],
                    ) ==> final(ec_manager).ec_manager.spec_component(
                        entities@[k],
                        RIGID_BODY_TAG,
                    ) == spec_steered_component(old(ec_manager).ec_manager, entities@[k], *input)
                &&& forall|t2: u64, id: u32|
                    (t2 != RIGID_BODY_TAG || (forall|k: int|
                        0 <= k < entities@.len() ==> (#[trigger] entities@[k]).id != id)) ==> (
                    #[trigger] final(ec_manager).ec_manager.spec_slot(t2, id)) == old(
                        ec_manager,
                    ).ec_manager.spec_slot(t2, id)
            },
    {
        // Interest lists handed over by the registry never repeat an id;
        // a list that does is refused outright rather than integrated
        // twice.
        if distinct_entity_ids(entities) {
            keyboard_step(ec_manager, entities, *input);
        }
    }
}

/// The camera a focused body asks for: the viewport centred on the
/// focus point, shifted back inside the map where it pokes out.
pub open spec fn spec_focus_camera(rb: RigidBodyComponent, cf: CameraFocusComponent) -> Camera {
    let focus_x = rb.position.x + cf.focus_offset.x;
    let focus_y = rb.position.y + cf.focus_offset.y;
    let tl_x = focus_x - cf.viewport_size.x / 2;
    let tl_y = focus_y - cf.viewport_size.y / 2;
    let br_x = focus_x + cf.viewport_size.x / 2;
    let br_y = focus_y + cf.viewport_size.y / 2;
    let tl_oob_x = if cf.map_top_left.x - tl_x > 0 {
        cf.map_top_left.x - tl_x
    } else {
        0
    };
    let tl_oob_y = if cf.map_top_left.y - tl_y > 0 {
        cf.map_top_left.y - tl_y
    } else {
        0
    };
    let br_oob_x = if cf.map_bottom_right.x - br_x < 0 {
        cf.map_bottom_right.x - br_x
    } else {
        0
    };
    let br_oob_y = if cf.map_bottom_right.y - br_y < 0 {
        cf.map_bottom_right.y - br_y
    } else {
        0
    };
    Camera {
        top_left: Vec2i {
            x: (tl_x + tl_oob_x + br_oob_x) as i64,
            y: (tl_y + tl_oob_y + br_oob_y) as i64,
        },
        width_height: cf.viewport_size,
    }
}

/// Whether all the inputs of the camera computation are in range; the
/// viewport must in addition not be degenerate.
pub open spec fn spec_focusable_inputs(rb: RigidBodyComponent, cf: CameraFocusComponent) -> bool {
    rb.position.spec_in_range() && cf.focus_offset.spec_in_range()
        && cf.viewport_size.spec_in_range() && cf.map_top_left.spec_in_range()
        && cf.map_bottom_right.spec_in_range() && cf.viewport_size.x >= 0 && cf.viewport_size.y
        >= 0
}

/// The camera handle `e` asks for, if it is live, carries both
/// components and is within range.
pub open spec fn spec_focusable(
    ec: crate::ecs::EntityComponentManager<GameComponent>,
    e: Entity,
) -> Option<Camera> {
    match (ec.spec_component(e, RIGID_BODY_TAG), ec.spec_component(e, CAMERA_FOCUS_TAG)) {
        (Some(GameComponent::RigidBody(rb)), Some(GameComponent::CameraFocus(cf))) => {
            if ec.spec_live(e) && spec_focusable_inputs(rb, cf) {
                Some(spec_focus_camera(rb, cf))
            } else {
                None
            }
        },
        _ => None,
    }
}

/// Computes the camera for the most recently added focused entity and
/// stores it in `out`; with no usable focus entity `out` is left as it
/// was.
pub fn camera_step(
    ec_manager: &EntityComponentWrapper<GameComponent>,
    entities: &Vec<Entity>,
    out: &mut Option<Camera>,
)
    requires
        ec_manager.wf(),
    ensures
        ({
            let cam = if entities@.len() > 0 {
                spec_focusable(ec_manager.ec_manager, entities@.last())
            } else {
                None
            };
            match cam {
                Some(c) => *final(out) == Some(c),
                None => *final(out) == *old(out),
            }
        }),
{
    if entities.len() == 0 {
        return ;
    }
    let e = entities[entities.len() - 1];
    let rb: RigidBodyComponent = match ec_manager.get_component(e, RIGID_BODY_TAG) {
        Ok(Some(c)) => match c {
            GameComponent::RigidBody(rb) => *rb,
            _ => {
                return ;
            },
        },
        _ => {
            return ;
        },
    };
    let cf: CameraFocusComponent = match ec_manager.get_component(e, CAMERA_FOCUS_TAG) {
        Ok(Some(c)) => match c {
            GameComponent::CameraFocus(cf) => *cf,
            _ => {
                return ;
            },
        },
        _ => {
            return ;
        },
    };
    if !(rb.position.in_range() && cf.focus_offset.in_range() && cf.viewport_size.in_range()
        && cf.map_top_left.in_range() && cf.map_bottom_right.in_range() && cf.viewport_size.x >= 0
        && cf.viewport_size.y >= 0) {
        return ;
    }
    let focus_x = rb.position.x + cf.focus_offset.x;
    let focus_y = rb.position.y + cf.focus_offset.y;
    let tl_x = focus_x - cf.viewport_size.x / 2;
    let tl_y = focus_y - cf.viewport_size.y / 2;
    let br_x = focus_x + cf.viewport_size.x / 2;
    let br_y = focus_y + cf.viewport_size.y / 2;
    let tl_oob_x = if cf.map_top_left.x - tl_x > 0 {
        cf.map_top_left.x - tl_x
    } else {
        0
    };
    let tl_oob_y = if cf.map_top_left.y - tl_y > 0 {
        cf.map_top_left.y - tl_y
    } else {
        0
    };
    let br_oob_x = if cf.map_bottom_right.x - br_x < 0 {
        cf.map_bottom_right.x - br_x
    } else {
        0
    };
    let br_oob_y = if cf.map_bottom_right.y - br_y < 0 {
        cf.map_bottom_right.y - br_y
    } else {
        0
    };
    *out = Some(
        Camera {
            top_left: Vec2i { x: tl_x + tl_oob_x + br_oob_x, y: tl_y + tl_oob_y + br_oob_y },
            width_height: cf.viewport_size,
        },
    );
}

/// Follows the most recently added entity carrying a camera focus,
/// clamping the viewport to the map bounds.
pub struct CameraFocusSystem {}

impl CameraFocusSystem {
    pub fn new() -> (r: Self)
        ensures
            true,
    {
        Self {  }
    }
}

impl SystemBase for CameraFocusSystem {
    open spec fn tag_spec() -> u64 {
        CAMERA_FOCUS_SYSTEM_TAG
    }

    open spec fn required_spec() -> Set<u64> {
        Set::<u64>::empty().insert(RIGID_BODY_TAG).insert(CAMERA_FOCUS_TAG)
    }

    fn system_tag(&self) -> u64 {
        CAMERA_FOCUS_SYSTEM_TAG
    }

    fn required_components(&self) -> (r: Vec<u64>) {
        tag_vec2(RIGID_BODY_TAG, CAMERA_FOCUS_TAG)
    }
}

impl System<GameComponent> for CameraFocusSystem {
    type Input<'i> = &'i mut Option<Camera>;

    fn run<'i>(
        &self,
        ec_manager: &mut EntityComponentWrapper<GameComponent>,
        entities: &Vec<Entity>,
        input: Self::Input<'i>,
    )
        ensures
            *final(ec_manager) == *old(ec_manager),
            ({
                let cam = if entities@.len() > 0 {
                    spec_focusable(old(ec_manager).ec_manager, entities@.last())
                } else {
                    None
                };
                match cam {
                    Some(c) => *final(input) == Some(c),
                    None => *final(input) == *old(input),
                }
            }),
    {
        camera_step(ec_manager, entities, input);
    }
}

/// Whether the animation arithmetic stays in range: times within the
/// working range and a nonempty frame list addressable by `u32`.
pub open spec fn spec_anim_ok(frames_len: int, frame_time: int, current_frame_time: int, delta_time: int) -> bool {
    &&& -COORD_LIMIT <= current_frame_time <= COORD_LIMIT
    &&& -COORD_LIMIT <= delta_time <= COORD_LIMIT
    &&& -COORD_LIMIT <= frame_time <= COORD_LIMIT
    &&& 1 <= frames_len <= u32::MAX
}

/// One animation tick: the frame timer advances by `delta_time`, and on
/// overflow the timer wraps by one frame interval and the frame index
/// steps modulo the frame count.  Out-of-range components are left
/// untouched.
pub open spec fn spec_animate(ac: AnimationComponent, delta_time: i64) -> AnimationComponent {
    if spec_anim_ok(
        ac.frames@.len() as int,
        ac.frame_time as int,
        ac.current_frame_time as int,
        delta_time as int,
    ) {
        let ct = ac.current_frame_time + delta_time;
        if ct > ac.frame_time {
            AnimationComponent {
                frames: ac.frames,
                frame_time: ac.frame_time,
                current_frame: (((ac.current_frame as int) + 1) % (ac.frames@.len() as int)) as u32,
                current_frame_time: (ct - ac.frame_time) as i64,
            }
        } else {
            AnimationComponent {
                frames: ac.frames,
                frame_time: ac.frame_time,
                current_frame: ac.current_frame,
                current_frame_time: ct as i64,
            }
        }
    } else {
        ac
    }
}

/// The sprite frame an animation tick swaps in, when it steps.
pub open spec fn spec_animate_frame(ac: AnimationComponent, delta_time: i64) -> Option<
    SpriteIndex,
> {
    if spec_anim_ok(
        ac.frames@.len() as int,
        ac.frame_time as int,
        ac.current_frame_time as int,
        delta_time as int,
    ) && ac.current_frame_time + delta_time > ac.frame_time {
        Some(ac.frames@[((ac.current_frame as int) + 1) % (ac.frames@.len() as int)])
    } else {
        None
    }
}

/// What the animation pass leaves under the animation tag for `e`.
pub open spec fn spec_animated_anim(
    ec: crate::ecs::EntityComponentManager<GameComponent>,
    e: Entity,
    delta_time: i64,
) -> Option<GameComponent> {
    match ec.spec_component(e, ANIMATION_TAG) {
        Some(GameComponent::Animation(ac)) => Some(
            GameComponent::Animation(spec_animate(ac, delta_time)),
        ),
        other => other,
    }
}

/// What the animation pass leaves under the sprite tag for `e`: the
/// stepped frame swapped in when the animation stepped and a sprite is
/// there, whatever was there otherwise.
pub open spec fn spec_animated_sprite(
    ec: crate::ecs::EntityComponentManager<GameComponent>,
    e: Entity,
    delta_time: i64,
) -> Option<GameComponent> {
    match (ec.spec_component(e, ANIMATION_TAG), ec.spec_component(e, SPRITE_TAG)) {
        (Some(GameComponent::Animation(ac)), Some(GameComponent::Sprite(sp))) => {
            match spec_animate_frame(ac, delta_time) {
                Some(idx) => Some(
                    GameComponent::Sprite(
                        SpriteComponent {
                            sprite_index: idx,
                            sprite_layer: sp.sprite_layer,
                            size: sp.size,
                        },
                    ),
                ),
                None => Some(GameComponent::Sprite(sp)),
            }
        },
        (_, other) => other,
    }
}

/// Advances every listed live entity's animation and swaps stepped
/// frames into its sprite, in place.  Nothing else changes.
pub fn animation_step(
    ec_manager: &mut EntityComponentWrapper<GameComponent>,
    entities: &Vec<Entity>,
    delta_time: i64,
)
    requires
        old(ec_manager).wf(),
        spec_distinct_ids(entities@),
    ensures
        final(ec_manager).wf(),
        final(ec_manager).snapshot == old(ec_manager).snapshot,
        final(ec_manager).changed_entities == old(ec_manager).changed_entities,
        final(ec_manager).ec_manager.entity_manager == old(ec_manager).ec_manager.entity_manager,
        final(ec_manager).ec_manager.entity_components == old(
            ec_manager,
        ).ec_manager.entity_components,
        forall|k: int|
            0 <= k < entities@.len() && old(ec_manager).ec_manager.spec_live(
                #[trigger] entities@[k],
            ) ==> final(ec_manager).ec_manager.spec_component(entities@[k], ANIMATION_TAG)
                == spec_animated_anim(old(ec_manager).ec_manager, entities@[k], delta_time)
                && final(ec_manager).ec_manager.spec_component(entities@[k], SPRITE_TAG)
                == spec_animated_sprite(old(ec_manager).ec_manager, entities@[k], delta_time),
        forall|t2: u64, id: u32|
            ((t2 != ANIMATION_TAG && t2 != SPRITE_TAG) || (forall|k: int|
                0 <= k < entities@.len() ==> (#[trigger] entities@[k]).id != id)) ==> (
            #[trigger] final(ec_manager).ec_manager.spec_slot(t2, id)) == old(
                ec_manager,
            ).ec_manager.spec_slot(t2, id),
{
    let ghost orig = *ec_manager;
    let mut k: usize = 0;
    while k < entities.len()
        invariant
            k <= entities@.len(),
            spec_distinct_ids(entities@),
            ec_manager.wf(),
            orig.wf(),
            ec_manager.snapshot == orig.snapshot,
            ec_manager.changed_entities == orig.changed_entities,
            ec_manager.ec_manager.entity_manager == orig.ec_manager.entity_manager,
            ec_manager.ec_manager.entity_components == orig.ec_manager.entity_components,
            ec_manager.ec_manager.component_pools@.len()
                == orig.ec_manager.component_pools@.len(),
            forall|i: int|
                0 <= i < orig.ec_manager.component_pools@.len() ==> (
                #[trigger] ec_manager.ec_manager.component_pools@[i]).0
                    == orig.ec_manager.component_pools@[i].0,
            forall|j: int|
                0 <= j < k && orig.ec_manager.spec_live(#[trigger] entities@[j])
                    ==> ec_manager.ec_manager.spec_component(entities@[j], ANIMATION_TAG)
                    == spec_animated_anim(orig.ec_manager, entities@[j], delta_time)
                    && ec_manager.ec_manager.spec_component(entities@[j], SPRITE_TAG)
                    == spec_animated_sprite(orig.ec_manager, entities@[j], delta_time),
            forall|t2: u64, id: u32|
                ((t2 != ANIMATION_TAG && t2 != SPRITE_TAG) || (forall|j: int|
                    0 <= j < k ==> (#[trigger] entities@[j]).id != id)) ==> (
                #[trigger] ec_manager.ec_manager.spec_slot(t2, id)) == orig.ec_manager.spec_slot(
                    t2,
                    id,
                ),
        decreases entities@.len() - k,
    {
        let e = entities[k];
        let ghost prev = *ec_manager;
        let mut update_sprite_frame: Option<SpriteIndex> = None;
        match ec_manager.get_component_mut(e, ANIMATION_TAG) {
            Ok(opt) => match opt {
                Some(m) => {
                    match m {
                        GameComponent::Animation(ac) => {
                            let len = ac.frames.len();
                            if -COORD_LIMIT <= ac.current_frame_time && ac.current_frame_time
                                <= COORD_LIMIT && -COORD_LIMIT <= delta_time && delta_time
                                <= COORD_LIMIT && -COORD_LIMIT <= ac.frame_time && ac.frame_time
                                <= COORD_LIMIT && 1 <= len && len <= u32::MAX as usize {
                                let ct = ac.current_frame_time + delta_time;
                                if ct > ac.frame_time {
                                    let next = (((ac.current_frame as u64) + 1) % (
                                    len as u64)) as u32;
                                    ac.current_frame = next;
                                    ac.current_frame_time = ct - ac.frame_time;
                                    update_sprite_frame = Some(ac.frames[next as usize]);
                                } else {
                                    ac.current_frame_time = ct;
                                }
                            }
                        },
                        _ => {},
                    }
                },
                None => {},
            },
            Err(_) => {},
        }
        proof {
            crate::ecs::lemma_wrapper_wf_value_update(prev, *ec_manager);
            crate::ecs::lemma_pool_index_lookup(prev.ec_manager, ec_manager.ec_manager);
            assert forall|t2: u64, id: u32|
                !(t2 == ANIMATION_TAG && id == e.id) implies (
            #[trigger] ec_manager.ec_manager.spec_slot(t2, id)) == prev.ec_manager.spec_slot(
                t2,
                id,
            ) by {
                if prev.ec_manager.spec_has_pool(t2) {
                    let i = prev.ec_manager.spec_pool_at(t2);
                    assert(prev.ec_manager.component_pools@[i].0 == t2);
                    assert(ec_manager.ec_manager.component_pools@[i].1.spec_slot(id)
                        == prev.ec_manager.component_pools@[i].1.spec_slot(id));
                }
            }
            if prev.ec_manager.spec_live(e) {
                assert(ec_manager.ec_manager.spec_component(e, ANIMATION_TAG)
                    == spec_animated_anim(prev.ec_manager, e, delta_time));
                assert(update_sprite_frame == (match prev.ec_manager.spec_component(
                    e,
                    ANIMATION_TAG,
                ) {
                    Some(GameComponent::Animation(ac)) => spec_animate_frame(ac, delta_time),
                    _ => None,
                }));
            }
        }
        let ghost mid = *ec_manager;
        match update_sprite_frame {
            Some(idx) => {
                match ec_manager.get_component_mut(e, SPRITE_TAG) {
                    Ok(opt) => match opt {
                        Some(m) => {
                            match m {
                                GameComponent::Sprite(sp) => {
                                    sp.sprite_index = idx;
                                },
                                _ => {},
                            }
                        },
                        None => {},
                    },
                    Err(_) => {},
                }
            },
            None => {},
        }
        proof {
            crate::ecs::lemma_wrapper_wf_value_update(mid, *ec_manager);
            crate::ecs::lemma_pool_index_lookup(mid.ec_manager, ec_manager.ec_manager);
            assert forall|t2: u64, id: u32|
                !(t2 == SPRITE_TAG && id == e.id) implies (
            #[trigger] ec_manager.ec_manager.spec_slot(t2, id)) == mid.ec_manager.spec_slot(
                t2,
                id,
            ) by {
                if mid.ec_manager.spec_has_pool(t2) {
                    let i = mid.ec_manager.spec_pool_at(t2);
                    assert(mid.ec_manager.component_pools@[i].0 == t2);
                    assert(ec_manager.ec_manager.component_pools@[i].1.spec_slot(id)
                        == mid.ec_manager.component_pools@[i].1.spec_slot(id));
                }
            }
            if prev.ec_manager.spec_live(e) {
                assert(ec_manager.ec_manager.spec_component(e, ANIMATION_TAG)
                    == spec_animated_anim(prev.ec_manager, e, delta_time));
                assert(ec_manager.ec_manager.spec_component(e, SPRITE_TAG)
                    == spec_animated_sprite(prev.ec_manager, e, delta_time));
            }
            assert forall|j: int|
                0 <= j < k + 1 && orig.ec_manager.spec_live(#[trigger] entities@[j]) implies
                ec_manager.ec_manager.spec_component(entities@[j], ANIMATION_TAG)
                    == spec_animated_anim(orig.ec_manager, entities@[j], delta_time)
                    && ec_manager.ec_manager.spec_component(entities@[j], SPRITE_TAG)
                    == spec_animated_sprite(orig.ec_manager, entities@[j], delta_time) by {
                if j < k {
                    assert(entities@[j].id != e.id);
                    assert(ec_manager.ec_manager.spec_slot(ANIMATION_TAG, entities@[j].id)
                        == prev.ec_manager.spec_slot(ANIMATION_TAG, entities@[j].id));
                    assert(ec_manager.ec_manager.spec_slot(SPRITE_TAG, entities@[j].id)
                        == prev.ec_manager.spec_slot(SPRITE_TAG, entities@[j].id));
                    assert(prev.ec_manager.spec_component(entities@[j], ANIMATION_TAG)
                        == spec_animated_anim(orig.ec_manager, entities@[j], delta_time));
                    assert(prev.ec_manager.spec_component(entities@[j], SPRITE_TAG)
                        == spec_animated_sprite(orig.ec_manager, entities@[j], delta_time));
                } else {
                    assert(prev.ec_manager.spec_slot(ANIMATION_TAG, e.id)
                        == orig.ec_manager.spec_slot(ANIMATION_TAG, e.id));
                    assert(prev.ec_manager.spec_slot(SPRITE_TAG, e.id)
                        == orig.ec_manager.spec_slot(SPRITE_TAG, e.id));
                    assert(prev.ec_manager.spec_component(e, ANIMATION_TAG)
                        == orig.ec_manager.spec_component(e, ANIMATION_TAG));
                    assert(prev.ec_manager.spec_component(e, SPRITE_TAG)
                        == orig.ec_manager.spec_component(e, SPRITE_TAG));
                }
            }
            assert forall|t2: u64, id: u32|
                ((t2 != ANIMATION_TAG && t2 != SPRITE_TAG) || (forall|j: int|
                    0 <= j < k + 1 ==> (#[trigger] entities@[j]).id != id)) implies (
            #[trigger] ec_manager.ec_manager.spec_slot(t2, id)) == orig.ec_manager.spec_slot(
                t2,
                id,
            ) by {
                assert(prev.ec_manager.spec_slot(t2, id) == orig.ec_manager.spec_slot(t2, id));
                if !(t2 == ANIMATION_TAG && id == e.id) {
                    assert(mid.ec_manager.spec_slot(t2, id) == prev.ec_manager.spec_slot(
                        t2,
                        id,
                    ));
                }
                if !(t2 == SPRITE_TAG && id == e.id) {
                    assert(ec_manager.ec_manager.spec_slot(t2, id) == mid.ec_manager.spec_slot(
                        t2,
                        id,
                    ));
                }
            }
        }
        k = k + 1;
    }
}

/// Advances frame timers and swaps sprite frames for every entity
/// owning both a sprite and an animation.
pub struct AnimationSystem {}

impl AnimationSystem {
    pub fn new() -> (r: Self)
        ensures
            true,
    {
        Self {  }
    }
}

impl SystemBase for AnimationSystem {
    open spec fn tag_spec() -> u64 {
        ANIMATION_SYSTEM_TAG
    }

    open spec fn required_spec() -> Set<u64> {
        Set::<u64>::empty().insert(SPRITE_TAG).insert(ANIMATION_TAG)
    }

    fn system_tag(&self) -> u64 {
        ANIMATION_SYSTEM_TAG
    }

    fn required_components(&self) -> (r: Vec<u64>) {
        tag_vec2(SPRITE_TAG, ANIMATION_TAG)
    }
}

impl System<GameComponent> for AnimationSystem {
    type Input<'i> = i64;

    fn run<'i>(
        &self,
        ec_manager: &mut EntityComponentWrapper<GameComponent>,
        entities: &Vec<Entity>,
        input: Self::Input<'i>,
    )
        ensures
            !spec_distinct_ids(entities@) ==> *final(ec_manager) == *old(ec_manager),
            spec_distinct_ids(entities@) ==> {
                &&& final(ec_manager).changed_entities == old(ec_manager).changed_entities
                &&& final(ec_manager).ec_manager.entity_manager == old(
                    ec_manager,
                ).ec_manager.entity_manager
                &&& final(ec_manager).ec_manager.entity_components == old(
                    ec_manager,
                ).ec_manager.entity_components
                &&& forall|k: int|
                    0 <= k < entities@.len() && old(ec_manager).ec_manager.spec_live(
                        #[trigger] entities@[k],
                    ) ==> final(ec_manager).ec_manager.spec_component(
                        entities@[k],
                        ANIMATION_TAG,
                    ) == spec_animated_anim(old(ec_manager).ec_manager, entities@[k], input)
                        && final(ec_manager).ec_manager.spec_component(
                        entities@[k],
                        SPRITE_TAG,
                    ) == spec_animated_sprite(old(ec_manager).ec_manager, entities@[k], input)
                &&& forall|t2: u64, id: u32|
                    ((t2 != ANIMATION_TAG && t2 != SPRITE_TAG) || (forall|k: int|
                        0 <= k < entities@.len() ==> (#[trigger] entities@[k]).id != id)) ==> (
                    #[trigger] final(ec_manager).ec_manager.spec_slot(t2, id)) == old(
                        ec_manager,
                    ).ec_manager.spec_slot(t2, id)
            },
    {
        // Interest lists handed over by the registry never repeat an id;
        // a list that does is refused outright rather than integrated
        // twice.
        if distinct_entity_ids(entities) {
            animation_step(ec_manager, entities, input);
        }
    }
}

/// The image a live entity with a rigid body and a sprite contributes
/// to a frame.
pub open spec fn spec_draw_of(
    ec: crate::ecs::EntityComponentManager<GameComponent>,
    e: Entity,
) -> Option<DrawCommand> {
    match (ec.spec_component(e, RIGID_BODY_TAG), ec.spec_component(e, SPRITE_TAG)) {
        (Some(GameComponent::RigidBody(rb)), Some(GameComponent::Sprite(sp))) => {
            if ec.spec_live(e) {
                Some(
                    DrawCommand::Image {
                        sprite_index: sp.sprite_index,
                        depth: sp.sprite_layer.spec_depth(),
                        position: rb.position,
                        size: sp.size,
                    },
                )
            } else {
                None
            }
        },
        _ => None,
    }
}

/// The draw commands of depth `depth` contributed by the first `upto`
/// entities, in list order.
pub open spec fn spec_draws_upto(
    ec: crate::ecs::EntityComponentManager<GameComponent>,
    s: Seq<Entity>,
    depth: u8,
    upto: int,
) -> Seq<DrawCommand>
    decreases upto,
{
    if upto <= 0 {
        Seq::empty()
    } else {
        spec_draws_upto(ec, s, depth, upto - 1) + (match spec_draw_of(ec, s[upto - 1]) {
            Some(c) => {
                if (c matches DrawCommand::Image { depth: d, .. } && d == depth) {
                    seq![c]
                } else {
                    Seq::empty()
                }
            },
            None => Seq::empty(),
        })
    }
}

/// Appends the images of one depth layer, in entity-list order.
fn render_pass(
    ec_manager: &EntityComponentWrapper<GameComponent>,
    entities: &Vec<Entity>,
    depth: u8,
    out: &mut Vec<DrawCommand>,
)
    requires
        ec_manager.wf(),
    ensures
        final(out)@ == old(out)@ + spec_draws_upto(
            ec_manager.ec_manager,
            entities@,
            depth,
            entities@.len() as int,
        ),
{
    let ghost ec = ec_manager.ec_manager;
    let mut k: usize = 0;
    while k < entities.len()
        invariant
            k <= entities@.len(),
            ec_manager.wf(),
            ec == ec_manager.ec_manager,
            out@ == old(out)@ + spec_draws_upto(ec, entities@, depth, k as int),
        decreases entities@.len() - k,
    {
        let e = entities[k];
        match ec_manager.get_component(e, RIGID_BODY_TAG) {
            Ok(Some(c_rb)) => {
                match c_rb {
                    GameComponent::RigidBody(rb) => {
                        let rb = *rb;
                        match ec_manager.get_component(e, SPRITE_TAG) {
                            Ok(Some(c_sp)) => {
                                match c_sp {
                                    GameComponent::Sprite(sp) => {
                                        if sp.sprite_layer.as_depth() == depth {
                                            out.push(
                                                DrawCommand::Image {
                                                    sprite_index: sp.sprite_index,
                                                    depth,
                                                    position: rb.position,
                                                    size: sp.size,
                                                },
                                            );
                                        }
                                    },
                                    _ => {},
                                }
                            },
                            _ => {},
                        }
                    },
                    _ => {},
                }
            },
            _ => {},
        }
        k = k + 1;
        proof {
            assert(out@ =~= old(out)@ + spec_draws_upto(ec, entities@, depth, k as int));
        }
    }
}

/// Produces this frame's images over its interest set, ordered back to
/// front by layer and within a layer by the interest list's order.
pub fn render_step(
    ec_manager: &EntityComponentWrapper<GameComponent>,
    entities: &Vec<Entity>,
    out: &mut Vec<DrawCommand>,
)
    requires
        ec_manager.wf(),
    ensures
        final(out)@ == old(out)@ + spec_draws_upto(
            ec_manager.ec_manager,
            entities@,
            0,
            entities@.len() as int,
        ) + spec_draws_upto(ec_manager.ec_manager, entities@, 1, entities@.len() as int)
            + spec_draws_upto(ec_manager.ec_manager, entities@, 2, entities@.len() as int),
{
    render_pass(ec_manager, entities, 0, out);
    render_pass(ec_manager, entities, 1, out);
    render_pass(ec_manager, entities, 2, out);
}

/// Draws every entity owning both a rigid body and a sprite, back to
/// front.
pub struct RenderSystem {}

impl RenderSystem {
    pub fn new() -> (r: Self)
        ensures
            true,
    {
        Self {  }
    }
}

impl SystemBase for RenderSystem {
    open spec fn tag_spec() -> u64 {
        RENDER_SYSTEM_TAG
    }

    open spec fn required_spec() -> Set<u64> {
        Set::<u64>::empty().insert(RIGID_BODY_TAG).insert(SPRITE_TAG)
    }

    fn system_tag(&self) -> u64 {
        RENDER_SYSTEM_TAG
    }

    fn required_components(&self) -> (r: Vec<u64>) {
        tag_vec2(RIGID_BODY_TAG, SPRITE_TAG)
    }
}

impl System<GameComponent> for RenderSystem {
    type Input<'i> = &'i mut Vec<DrawCommand>;

    fn run<'i>(
        &self,
        ec_manager: &mut EntityComponentWrapper<GameComponent>,
        entities: &Vec<Entity>,
        input: Self::Input<'i>,
    )
        ensures
            *final(ec_manager) == *old(ec_manager),
            final(input)@ == old(input)@ + spec_draws_upto(
                old(ec_manager).ec_manager,
                entities@,
                0,
                entities@.len() as int,
            ) + spec_draws_upto(old(ec_manager).ec_manager, entities@, 1, entities@.len() as int)
                + spec_draws_upto(
                old(ec_manager).ec_manager,
                entities@,
                2,
                entities@.len() as int,
            ),
    {
        render_step(ec_manager, entities, input);
    }
}

/// The heading a velocity selects among the four cardinal directions,
/// by greatest dot product; later directions win ties, in the order
/// down, right, left, up.
pub open spec fn spec_heading(v: Vec2i) -> int {
    let d0 = v.y as int;
    let d1 = v.x as int;
    let d2 = -(v.x as int);
    let d3 = -(v.y as int);
    let b1 = if d1 >= d0 {
        1int
    } else {
        0int
    };
    let db1 = if d1 >= d0 {
        d1
    } else {
        d0
    };
    let b2 = if d2 >= db1 {
        2int
    } else {
        b1
    };
    let db2 = if d2 >= db1 {
        d2
    } else {
        db1
    };
    if d3 >= db2 {
        3int
    } else {
        b2
    }
}

/// The frame loop the heading of `v` selects.
pub open spec fn spec_heading_frames(mac: MotionAnimationComponent, v: Vec2i) -> Seq<SpriteIndex> {
    let h = spec_heading(v);
    if h == 0 {
        mac.down_frames@
    } else if h == 1 {
        mac.right_frames@
    } else if h == 2 {
        mac.left_frames@
    } else {
        mac.up_frames@
    }
}

/// The velocity the animation follows: the body's, or the remembered
/// one while the body stands still.
pub open spec fn spec_effective_velocity(mac: MotionAnimationComponent, rb: RigidBodyComponent) -> Vec2i {
    if rb.velocity == (Vec2i { x: 0, y: 0 }) {
        mac.last_velocity
    } else {
        rb.velocity
    }
}

/// One motion-animation tick: the heading picks the frame loop, the
/// velocity is remembered, and the timer steps the frame as in
/// `spec_animate`.  Out-of-range components are left untouched.
pub open spec fn spec_motion_animate(
    mac: MotionAnimationComponent,
    rb: RigidBodyComponent,
    delta_time: i64,
) -> MotionAnimationComponent {
    let v = spec_effective_velocity(mac, rb);
    let chosen = spec_heading_frames(mac, v);
    if v.spec_in_range() && spec_anim_ok(
        chosen.len() as int,
        mac.frame_time as int,
        mac.current_frame_time as int,
        delta_time as int,
    ) {
        let ct = mac.current_frame_time + delta_time;
        if ct > mac.frame_time {
            MotionAnimationComponent {
                last_velocity: v,
                current_frame: (((mac.current_frame as int) + 1) % (chosen.len() as int)) as u32,
                current_frame_time: (ct - mac.frame_time) as i64,
                ..mac
            }
        } else {
            MotionAnimationComponent {
                last_velocity: v,
                current_frame_time: ct as i64,
                ..mac
            }
        }
    } else {
        mac
    }
}

/// The sprite frame a motion-animation tick swaps in, when it steps.
pub open spec fn spec_motion_frame(
    mac: MotionAnimationComponent,
    rb: RigidBodyComponent,
    delta_time: i64,
) -> Option<SpriteIndex> {
    let v = spec_effective_velocity(mac, rb);
    let chosen = spec_heading_frames(mac, v);
    if v.spec_in_range() && spec_anim_ok(
        chosen.len() as int,
        mac.frame_time as int,
        mac.current_frame_time as int,
        delta_time as int,
    ) && mac.current_frame_time + delta_time > mac.frame_time {
        Some(chosen[((mac.current_frame as int) + 1) % (chosen.len() as int)])
    } else {
        None
    }
}

/// What the motion-animation pass leaves under the motion-animation tag
/// for `e`.
pub open spec fn spec_ma_anim(
    ec: crate::ecs::EntityComponentManager<GameComponent>,
    e: Entity,
    delta_time: i64,
) -> Option<GameComponent> {
    match ec.spec_component(e, MOTION_ANIMATION_TAG) {
        Some(GameComponent::MotionAnimation(mac)) => {
            match ec.spec_component(e, RIGID_BODY_TAG) {
                Some(GameComponent::RigidBody(rb)) => Some(
                    GameComponent::MotionAnimation(spec_motion_animate(mac, rb, delta_time)),
                ),
                _ => Some(GameComponent::MotionAnimation(mac)),
            }
        },
        other => other,
    }
}

/// What the motion-animation pass leaves under the sprite tag for `e`.
pub open spec fn spec_ma_sprite(
    ec: crate::ecs::EntityComponentManager<GameComponent>,
    e: Entity,
    delta_time: i64,
) -> Option<GameComponent> {
    match (
        ec.spec_component(e, MOTION_ANIMATION_TAG),
        ec.spec_component(e, RIGID_BODY_TAG),
        ec.spec_component(e, SPRITE_TAG),
    ) {
        (
            Some(GameComponent::MotionAnimation(mac)),
            Some(GameComponent::RigidBody(rb)),
            Some(GameComponent::Sprite(sp)),
        ) => {
            match spec_motion_frame(mac, rb, delta_time) {
                Some(idx) => Some(
                    GameComponent::Sprite(
                        SpriteComponent {
                            sprite_index: idx,
                            sprite_layer: sp.sprite_layer,
                            size: sp.size,
                        },
                    ),
                ),
                None => Some(GameComponent::Sprite(sp)),
            }
        },
        (_, _, other) => other,
    }
}

/// Advances every listed live entity's motion animation -- heading,
/// remembered velocity, frame timer -- and swaps stepped frames into
/// its sprite, in place.  Nothing else changes.
pub fn motion_animation_step(
    ec_manager: &mut EntityComponentWrapper<GameComponent>,
    entities: &Vec<Entity>,
    delta_time: i64,
)
    requires
        old(ec_manager).wf(),
        spec_distinct_ids(entities@),
    ensures
        final(ec_manager).wf(),
        final(ec_manager).snapshot == old(ec_manager).snapshot,
        final(ec_manager).changed_entities == old(ec_manager).changed_entities,
        final(ec_manager).ec_manager.entity_manager == old(ec_manager).ec_manager.entity_manager,
        final(ec_manager).ec_manager.entity_components == old(
            ec_manager,
        ).ec_manager.entity_components,
        forall|k: int|
            0 <= k < entities@.len() && old(ec_manager).ec_manager.spec_live(
                #[trigger] entities@[k],
            ) ==> final(ec_manager).ec_manager.spec_component(entities@[k], MOTION_ANIMATION_TAG)
                == spec_ma_anim(old(ec_manager).ec_manager, entities@[k], delta_time)
                && final(ec_manager).ec_manager.spec_component(entities@[k], SPRITE_TAG)
                == spec_ma_sprite(old(ec_manager).ec_manager, entities@[k], delta_time),
        forall|t2: u64, id: u32|
            ((t2 != MOTION_ANIMATION_TAG && t2 != SPRITE_TAG) || (forall|k: int|
                0 <= k < entities@.len() ==> (#[trigger] entities@[k]).id != id)) ==> (
            #[trigger] final(ec_manager).ec_manager.spec_slot(t2, id)) == old(
                ec_manager,
            ).ec_manager.spec_slot(t2, id),
{
    let ghost orig = *ec_manager;
    let mut k: usize = 0;
    while k < entities.len()
        invariant
            k <= entities@.len(),
            spec_distinct_ids(entities@),
            ec_manager.wf(),
            orig.wf(),
            ec_manager.snapshot == orig.snapshot,
            ec_manager.changed_entities == orig.changed_entities,
            ec_manager.ec_manager.entity_manager == orig.ec_manager.entity_manager,
            ec_manager.ec_manager.entity_components == orig.ec_manager.entity_components,
            ec_manager.ec_manager.component_pools@.len()
                == orig.ec_manager.component_pools@.len(),
            forall|i: int|
                0 <= i < orig.ec_manager.component_pools@.len() ==> (
                #[trigger] ec_manager.ec_manager.component_pools@[i]).0
                    == orig.ec_manager.component_pools@[i].0,
            forall|j: int|
                0 <= j < k && orig.ec_manager.spec_live(#[trigger] entities@[j])
                    ==> ec_manager.ec_manager.spec_component(entities@[j], MOTION_ANIMATION_TAG)
                    == spec_ma_anim(orig.ec_manager, entities@[j], delta_time)
                    && ec_manager.ec_manager.spec_component(entities@[j], SPRITE_TAG)
                    == spec_ma_sprite(orig.ec_manager, entities@[j], delta_time),
            forall|t2: u64, id: u32|
                ((t2 != MOTION_ANIMATION_TAG && t2 != SPRITE_TAG) || (forall|j: int|
                    0 <= j < k ==> (#[trigger] entities@[j]).id != id)) ==> (
                #[trigger] ec_manager.ec_manager.spec_slot(t2, id)) == orig.ec_manager.spec_slot(
                    t2,
                    id,
                ),
        decreases entities@.len() - k,
    {
        let e = entities[k];
        let ghost prev = *ec_manager;
        let rb_opt: Option<RigidBodyComponent> = match ec_manager.get_component(
            e,
            RIGID_BODY_TAG,
        ) {
            Ok(Some(c)) => match c {
                GameComponent::RigidBody(rb) => Some(*rb),
                _ => None,
            },
            _ => None,
        };
        let mut update_sprite_frame: Option<SpriteIndex> = None;
        match rb_opt {
            Some(rb) => {
                match ec_manager.get_component_mut(e, MOTION_ANIMATION_TAG) {
                    Ok(opt) => match opt {
                        Some(m) => {
                            match m {
                                GameComponent::MotionAnimation(mac) => {
                                    let v: Vec2i = if rb.velocity.x == 0 && rb.velocity.y
                                        == 0 {
                                        mac.last_velocity
                                    } else {
                                        rb.velocity
                                    };
                                    if v.in_range() {
                                        let d0 = v.y;
                                        let d1 = v.x;
                                        let d2 = -v.x;
                                        let d3 = -v.y;
                                        let mut best: u8 = 0;
                                        let mut bestd: i64 = d0;
                                        if d1 >= bestd {
                                            best = 1;
                                            bestd = d1;
                                        }
                                        if d2 >= bestd {
                                            best = 2;
                                            bestd = d2;
                                        }
                                        if d3 >= bestd {
                                            best = 3;
                                            bestd = d3;
                                        }
                                        let len = if best == 0 {
                                            mac.down_frames.len()
                                        } else if best == 1 {
                                            mac.right_frames.len()
                                        } else if best == 2 {
                                            mac.left_frames.len()
                                        } else {
                                            mac.up_frames.len()
                                        };
                                        proof {
                                            assert(best as int == spec_heading(v));
                                            assert(len as int == spec_heading_frames(
                                                *mac,
                                                v,
                                            ).len());
                                        }
                                        if -COORD_LIMIT <= mac.current_frame_time
                                            && mac.current_frame_time <= COORD_LIMIT
                                            && -COORD_LIMIT <= delta_time && delta_time
                                            <= COORD_LIMIT && -COORD_LIMIT <= mac.frame_time
                                            && mac.frame_time <= COORD_LIMIT && 1 <= len && len
                                            <= u32::MAX as usize {
                                            mac.last_velocity = v;
                                            let ct = mac.current_frame_time + delta_time;
                                            if ct > mac.frame_time {
                                                let next = (((mac.current_frame as u64) + 1) % (
                                                len as u64)) as u32;
                                                mac.current_frame = next;
                                                mac.current_frame_time = ct - mac.frame_time;
                                                let idx = if best == 0 {
                                                    mac.down_frames[next as usize]
                                                } else if best == 1 {
                                                    mac.right_frames[next as usize]
                                                } else if best == 2 {
                                                    mac.left_frames[next as usize]
                                                } else {
                                                    mac.up_frames[next as usize]
                                                };
                                                update_sprite_frame = Some(idx);
                                            } else {
                                                mac.current_frame_time = ct;
                                            }
                                        }
                                    }
                                },
                                _ => {},
                            }
                        },
                        None => {},
                    },
                    Err(_) => {},
                }
            },
            None => {},
        }
        proof {
            crate::ecs::lemma_wrapper_wf_value_update(prev, *ec_manager);
            crate::ecs::lemma_pool_index_lookup(prev.ec_manager, ec_manager.ec_manager);
            assert forall|t2: u64, id: u32|
                !(t2 == MOTION_ANIMATION_TAG && id == e.id) implies (
            #[trigger] ec_manager.ec_manager.spec_slot(t2, id)) == prev.ec_manager.spec_slot(
                t2,
                id,
            ) by {
                if prev.ec_manager.spec_has_pool(t2) {
                    let i = prev.ec_manager.spec_pool_at(t2);
                    assert(prev.ec_manager.component_pools@[i].0 == t2);
                    assert(ec_manager.ec_manager.component_pools@[i].1.spec_slot(id)
                        == prev.ec_manager.component_pools@[i].1.spec_slot(id));
                }
            }
            if prev.ec_manager.spec_live(e) {
                assert(ec_manager.ec_manager.spec_component(e, MOTION_ANIMATION_TAG)
                    == spec_ma_anim(prev.ec_manager, e, delta_time));
                assert(update_sprite_frame == (match (
                    prev.ec_manager.spec_component(e, MOTION_ANIMATION_TAG),
                    prev.ec_manager.spec_component(e, RIGID_BODY_TAG),
                ) {
                    (
                        Some(GameComponent::MotionAnimation(mac)),
                        Some(GameComponent::RigidBody(rb)),
                    ) => spec_motion_frame(mac, rb, delta_time),
                    _ => None,
                }));
            }
        }
        let ghost mid = *ec_manager;
        match update_sprite_frame {
            Some(idx) => {
                match ec_manager.get_component_mut(e, SPRITE_TAG) {
                    Ok(opt) => match opt {
                        Some(m) => {
                            match m {
                                GameComponent::Sprite(sp) => {
                                    sp.sprite_index = idx;
                                },
                                _ => {},
                            }
                        },
                        None => {},
                    },
                    Err(_) => {},
                }
            },
            None => {},
        }
        proof {
            crate::ecs::lemma_wrapper_wf_value_update(mid, *ec_manager);
            crate::ecs::lemma_pool_index_lookup(mid.ec_manager, ec_manager.ec_manager);
            assert forall|t2: u64, id: u32|
                !(t2 == SPRITE_TAG && id == e.id) implies (
            #[trigger] ec_manager.ec_manager.spec_slot(t2, id)) == mid.ec_manager.spec_slot(
                t2,
                id,
            ) by {
                if mid.ec_manager.spec_has_pool(t2) {
                    let i = mid.ec_manager.spec_pool_at(t2);
                    assert(mid.ec_manager.component_pools@[i].0 == t2);
                    assert(ec_manager.ec_manager.component_pools@[i].1.spec_slot(id)
                        == mid.ec_manager.component_pools@[i].1.spec_slot(id));
                }
            }
            if prev.ec_manager.spec_live(e) {
                assert(ec_manager.ec_manager.spec_component(e, MOTION_ANIMATION_TAG)
                    == spec_ma_anim(prev.ec_manager, e, delta_time));
                assert(ec_manager.ec_manager.spec_component(e, SPRITE_TAG) == spec_ma_sprite(
                    prev.ec_manager,
                    e,
                    delta_time,
                ));
            }
            assert forall|j: int|
                0 <= j < k + 1 && orig.ec_manager.spec_live(#[trigger] entities@[j]) implies
                ec_manager.ec_manager.spec_component(entities@[j], MOTION_ANIMATION_TAG)
                    == spec_ma_anim(orig.ec_manager, entities@[j], delta_time)
                    && ec_manager.ec_manager.spec_component(entities@[j], SPRITE_TAG)
                    == spec_ma_sprite(orig.ec_manager, entities@[j], delta_time) by {
                if j < k {
                    assert(entities@[j].id != e.id);
                    assert(ec_manager.ec_manager.spec_slot(
                        MOTION_ANIMATION_TAG,
                        entities@[j].id,
                    ) == prev.ec_manager.spec_slot(MOTION_ANIMATION_TAG, entities@[j].id));
                    assert(ec_manager.ec_manager.spec_slot(SPRITE_TAG, entities@[j].id)
                        == prev.ec_manager.spec_slot(SPRITE_TAG, entities@[j].id));
                    assert(ec_manager.ec_manager.spec_slot(RIGID_BODY_TAG, entities@[j].id)
                        == prev.ec_manager.spec_slot(RIGID_BODY_TAG, entities@[j].id));
                    assert(prev.ec_manager.spec_component(entities@[j], MOTION_ANIMATION_TAG)
                        == spec_ma_anim(orig.ec_manager, entities@[j], delta_time));
                    assert(prev.ec_manager.spec_component(entities@[j], SPRITE_TAG)
                        == spec_ma_sprite(orig.ec_manager, entities@[j], delta_time));
                } else {
                    assert(prev.ec_manager.spec_slot(MOTION_ANIMATION_TAG, e.id)
                        == orig.ec_manager.spec_slot(MOTION_ANIMATION_TAG, e.id));
                    assert(prev.ec_manager.spec_slot(SPRITE_TAG, e.id)
                        == orig.ec_manager.spec_slot(SPRITE_TAG, e.id));
                    assert(prev.ec_manager.spec_slot(RIGID_BODY_TAG, e.id)
                        == orig.ec_manager.spec_slot(RIGID_BODY_TAG, e.id));
                    assert(prev.ec_manager.spec_component(e, MOTION_ANIMATION_TAG)
                        == orig.ec_manager.spec_component(e, MOTION_ANIMATION_TAG));
                    assert(prev.ec_manager.spec_component(e, SPRITE_TAG)
                        == orig.ec_manager.spec_component(e, SPRITE_TAG));
                    assert(prev.ec_manager.spec_component(e, RIGID_BODY_TAG)
                        == orig.ec_manager.spec_component(e, RIGID_BODY_TAG));
                }
            }
            assert forall|t2: u64, id: u32|
                ((t2 != MOTION_ANIMATION_TAG && t2 != SPRITE_TAG) || (forall|j: int|
                    0 <= j < k + 1 ==> (#[trigger] entities@[j]).id != id)) implies (
            #[trigger] ec_manager.ec_manager.spec_slot(t2, id)) == orig.ec_manager.spec_slot(
                t2,
                id,
            ) by {
                assert(prev.ec_manager.spec_slot(t2, id) == orig.ec_manager.spec_slot(t2, id));
                if !(t2 == MOTION_ANIMATION_TAG && id == e.id) {
                    assert(mid.ec_manager.spec_slot(t2, id) == prev.ec_manager.spec_slot(
                        t2,
                        id,
                    ));
                }
                if !(t2 == SPRITE_TAG && id == e.id) {
                    assert(ec_manager.ec_manager.spec_slot(t2, id) == mid.ec_manager.spec_slot(
                        t2,
                        id,
                    ));
                }
            }
        }
        k = k + 1;
    }
}

/// Switches an entity's frame loop by its heading and advances it, for
/// every entity owning a sprite, a motion animation and a rigid body.
pub struct MotionAnimationSystem {}

impl MotionAnimationSystem {
    pub fn new() -> (r: Self)
        ensures
            true,
    {
        Self {  }
    }
}

impl SystemBase for MotionAnimationSystem {
    open spec fn tag_spec() -> u64 {
        MOTION_ANIMATION_SYSTEM_TAG
    }

    open spec fn required_spec() -> Set<u64> {
        Set::<u64>::empty().insert(SPRITE_TAG).insert(MOTION_ANIMATION_TAG).insert(RIGID_BODY_TAG)
    }

    fn system_tag(&self) -> u64 {
        MOTION_ANIMATION_SYSTEM_TAG
    }

    fn required_components(&self) -> (r: Vec<u64>) {
        tag_vec3(SPRITE_TAG, MOTION_ANIMATION_TAG, RIGID_BODY_TAG)
    }
}

impl System<GameComponent> for MotionAnimationSystem {
    type Input<'i> = i64;

    fn run<'i>(
        &self,
        ec_manager: &mut EntityComponentWrapper<GameComponent>,
        entities: &Vec<Entity>,
        input: Self::Input<'i>,
    )
        ensures
            !spec_distinct_ids(entities@) ==> *final(ec_manager) == *old(ec_manager),
            spec_distinct_ids(entities@) ==> {
                &&& final(ec_manager).changed_entities == old(ec_manager).changed_entities
                &&& final(ec_manager).ec_manager.entity_manager == old(
                    ec_manager,
                ).ec_manager.entity_manager
                &&& final(ec_manager).ec_manager.entity_components == old(
                    ec_manager,
                ).ec_manager.entity_components
                &&& forall|k: int|
                    0 <= k < entities@.len() && old(ec_manager).ec_manager.spec_live(
                        #[trigger] entities@[k],
                    ) ==> final(ec_manager).ec_manager.spec_component(
                        entities@[k],
                        MOTION_ANIMATION_TAG,
                    ) == spec_ma_anim(old(ec_manager).ec_manager, entities@[k], input)
                        && final(ec_manager).ec_manager.spec_component(
                        entities@[k],
                        SPRITE_TAG,
                    ) == spec_ma_sprite(old(ec_manager).ec_manager, entities@[k], input)
                &&& forall|t2: u64, id: u32|
                    ((t2 != MOTION_ANIMATION_TAG && t2 != SPRITE_TAG) || (forall|k: int|
                        0 <= k < entities@.len() ==> (#[trigger] entities@[k]).id != id)) ==> (
                    #[trigger] final(ec_manager).ec_manager.spec_slot(t2, id)) == old(
                        ec_manager,
                    ).ec_manager.spec_slot(t2, id)
            },
    {
        // Interest lists handed over by the registry never repeat an id;
        // a list that does is refused outright rather than integrated
        // twice.
        if distinct_entity_ids(entities) {
            motion_animation_step(ec_manager, entities, input);
        }
    }
}

} // verus!
