//! Tests of the domain systems and the event bus.

use pikuma_game_engine::components_systems::{
    AnimationComponent, AnimationSystem, CameraFocusComponent, CameraFocusSystem,
    CollisionComponent, CollisionOutput, CollisionSystem, GameComponent, GameEvent, KeyCode,
    KeyboardControlComponent, KeyboardControlSystem, Layer, MotionAnimationComponent,
    MotionAnimationSystem, MovementSystem, PressedKeys, Rectangle, RenderSystem,
    RigidBodyComponent, SpriteComponent, ANIMATION_TAG, CAMERA_FOCUS_TAG, COLLISION_EVENT_TAG,
    COLLISION_TAG, KEYBOARD_CONTROL_TAG, MOTION_ANIMATION_TAG, RIGID_BODY_TAG, SPRITE_TAG,
};
use pikuma_game_engine::ecs::{Entity, Registry};
use pikuma_game_engine::event_bus::EventBus;
use pikuma_game_engine::renderer::{Camera, DrawCommand, SpriteIndex, Vec2i};

fn rigid_body(px: i64, py: i64, vx: i64, vy: i64) -> GameComponent {
    GameComponent::RigidBody(RigidBodyComponent {
        position: Vec2i { x: px, y: py },
        velocity: Vec2i { x: vx, y: vy },
    })
}

fn get_rigid_body(registry: &Registry<GameComponent>, e: Entity) -> RigidBodyComponent {
    match registry.get_component(e, RIGID_BODY_TAG).unwrap().unwrap() {
        GameComponent::RigidBody(rb) => *rb,
        _ => panic!("expected a rigid body"),
    }
}

#[test]
fn movement_integrates_velocity_into_position() {
    let mut registry: Registry<GameComponent> = Registry::new();
    let e = registry.create_entity();
    registry.add_component(e, RIGID_BODY_TAG, rigid_body(0, 0, 1, 0)).unwrap();
    let movement = MovementSystem::new();
    registry.add_system(&movement);
    registry.run_system(&movement, 1).unwrap();
    assert_eq!(get_rigid_body(&registry, e).position, Vec2i { x: 1, y: 0 });
    registry.run_system(&movement, 2).unwrap();
    assert_eq!(get_rigid_body(&registry, e).position, Vec2i { x: 3, y: 0 });
}

#[test]
fn colliding_entities_are_both_removed() {
    let mut registry: Registry<GameComponent> = Registry::new();
    let a = registry.create_entity();
    let b = registry.create_entity();
    for e in [a, b] {
        registry.add_component(e, RIGID_BODY_TAG, rigid_body(0, 0, 0, 0)).unwrap();
    }
    let boxed = GameComponent::Collision(CollisionComponent {
        offset: Vec2i { x: 0, y: 0 },
        width_height: Vec2i { x: 10, y: 10 },
    });
    registry.add_component(a, COLLISION_TAG, boxed.clone()).unwrap();
    registry.add_component(b, COLLISION_TAG, boxed).unwrap();

    let collision = CollisionSystem::new();
    registry.add_system(&collision);
    let movement = MovementSystem::new();
    registry.add_system(&movement);

    let mut out = CollisionOutput::new();
    registry.run_system(&collision, &mut out).unwrap();
    assert_eq!(out.events.len(), 1);
    assert_eq!(out.events[0].entity_a, a);
    assert_eq!(out.events[0].entity_b, b);

    let mut bus: EventBus<CollisionSystem> = EventBus::new();
    bus.add_handler(COLLISION_EVENT_TAG, CollisionSystem::new());
    for event in out.events.iter() {
        registry.dispatch_event(
            &mut bus,
            COLLISION_EVENT_TAG,
            &GameEvent::Collision(*event),
        );
    }
    assert!(registry.is_dead(a));
    assert!(registry.is_dead(b));
    // Later systems the same tick keep working without errors.
    registry.run_system(&movement, 1).unwrap();
    let mut out2 = CollisionOutput::new();
    registry.run_system(&collision, &mut out2).unwrap();
    assert_eq!(out2.events.len(), 0);
}

#[test]
fn separated_entities_do_not_collide() {
    let mut registry: Registry<GameComponent> = Registry::new();
    let a = registry.create_entity();
    let b = registry.create_entity();
    registry.add_component(a, RIGID_BODY_TAG, rigid_body(0, 0, 0, 0)).unwrap();
    registry.add_component(b, RIGID_BODY_TAG, rigid_body(100, 100, 0, 0)).unwrap();
    let boxed = GameComponent::Collision(CollisionComponent {
        offset: Vec2i { x: 0, y: 0 },
        width_height: Vec2i { x: 10, y: 10 },
    });
    registry.add_component(a, COLLISION_TAG, boxed.clone()).unwrap();
    registry.add_component(b, COLLISION_TAG, boxed).unwrap();
    let collision = CollisionSystem::new();
    registry.add_system(&collision);
    let mut out = CollisionOutput::new();
    registry.run_system(&collision, &mut out).unwrap();
    assert_eq!(out.events.len(), 0);
    assert!(registry.is_alive(a));
    assert!(registry.is_alive(b));
}

#[test]
fn range_intersects_is_closed_interval() {
    assert!(Rectangle::range_intersects(0, 10, 10, 20));
    assert!(Rectangle::range_intersects(10, 20, 0, 10));
    assert!(!Rectangle::range_intersects(0, 9, 10, 20));
    assert!(Rectangle::range_intersects(0, 100, 40, 60));
    assert!(Rectangle::range_intersects(40, 60, 0, 100));
}

#[test]
fn keyboard_sets_velocity_from_held_keys() {
    let mut registry: Registry<GameComponent> = Registry::new();
    let e = registry.create_entity();
    registry.add_component(e, RIGID_BODY_TAG, rigid_body(5, 5, 0, 0)).unwrap();
    registry
        .add_component(
            e,
            KEYBOARD_CONTROL_TAG,
            GameComponent::KeyboardControl(KeyboardControlComponent {}),
        )
        .unwrap();
    let keyboard = KeyboardControlSystem::new();
    registry.add_system(&keyboard);
    let keys = PressedKeys { key_a: false, key_s: true, key_d: true, key_w: false };
    registry.run_system(&keyboard, &keys).unwrap();
    let rb = get_rigid_body(&registry, e);
    assert_eq!(rb.velocity, Vec2i { x: 80, y: 80 });
    assert_eq!(rb.position, Vec2i { x: 5, y: 5 });
    let released = PressedKeys { key_a: true, key_s: false, key_d: true, key_w: false };
    registry.run_system(&keyboard, &released).unwrap();
    assert_eq!(get_rigid_body(&registry, e).velocity, Vec2i { x: 0, y: 0 });
}

#[test]
fn animation_wraps_frames_on_timer_overflow() {
    let mut registry: Registry<GameComponent> = Registry::new();
    let e = registry.create_entity();
    registry
        .add_component(
            e,
            SPRITE_TAG,
            GameComponent::Sprite(SpriteComponent {
                sprite_index: SpriteIndex(0),
                sprite_layer: Layer::Air,
                size: Vec2i { x: 32, y: 32 },
            }),
        )
        .unwrap();
    registry
        .add_component(
            e,
            ANIMATION_TAG,
            GameComponent::Animation(AnimationComponent::new(
                10,
                vec![SpriteIndex(4), SpriteIndex(5)],
            )),
        )
        .unwrap();
    let animation = AnimationSystem::new();
    registry.add_system(&animation);
    // 6 units: no step yet.
    registry.run_system(&animation, 6).unwrap();
    match registry.get_component(e, SPRITE_TAG).unwrap().unwrap() {
        GameComponent::Sprite(sp) => assert_eq!(sp.sprite_index, SpriteIndex(0)),
        _ => panic!("expected a sprite"),
    }
    // 6 more: timer passes 10, frame steps 0 -> 1, timer keeps remainder 2.
    registry.run_system(&animation, 6).unwrap();
    match registry.get_component(e, ANIMATION_TAG).unwrap().unwrap() {
        GameComponent::Animation(ac) => {
            assert_eq!(ac.current_frame, 1);
            assert_eq!(ac.current_frame_time, 2);
        }
        _ => panic!("expected an animation"),
    }
    match registry.get_component(e, SPRITE_TAG).unwrap().unwrap() {
        GameComponent::Sprite(sp) => assert_eq!(sp.sprite_index, SpriteIndex(5)),
        _ => panic!("expected a sprite"),
    }
    // Another step wraps back to frame 0.
    registry.run_system(&animation, 10).unwrap();
    match registry.get_component(e, SPRITE_TAG).unwrap().unwrap() {
        GameComponent::Sprite(sp) => assert_eq!(sp.sprite_index, SpriteIndex(4)),
        _ => panic!("expected a sprite"),
    }
}

#[test]
fn motion_animation_follows_heading() {
    let mut registry: Registry<GameComponent> = Registry::new();
    let e = registry.create_entity();
    registry.add_component(e, RIGID_BODY_TAG, rigid_body(0, 0, 5, 0)).unwrap();
    registry
        .add_component(
            e,
            SPRITE_TAG,
            GameComponent::Sprite(SpriteComponent {
                sprite_index: SpriteIndex(0),
                sprite_layer: Layer::Air,
                size: Vec2i { x: 32, y: 32 },
            }),
        )
        .unwrap();
    registry
        .add_component(
            e,
            MOTION_ANIMATION_TAG,
            GameComponent::MotionAnimation(MotionAnimationComponent::new(
                10,
                vec![SpriteIndex(20), SpriteIndex(21)],
                vec![SpriteIndex(30), SpriteIndex(31)],
                vec![SpriteIndex(40), SpriteIndex(41)],
                vec![SpriteIndex(50), SpriteIndex(51)],
            )),
        )
        .unwrap();
    let motion = MotionAnimationSystem::new();
    registry.add_system(&motion);
    // Moving right: the right-facing loop steps to its frame 1.
    registry.run_system(&motion, 11).unwrap();
    match registry.get_component(e, SPRITE_TAG).unwrap().unwrap() {
        GameComponent::Sprite(sp) => assert_eq!(sp.sprite_index, SpriteIndex(41)),
        _ => panic!("expected a sprite"),
    }
    // Stopping keeps the remembered heading.
    registry.add_component(e, RIGID_BODY_TAG, rigid_body(0, 0, 0, 0)).unwrap();
    registry.run_system(&motion, 11).unwrap();
    match registry.get_component(e, SPRITE_TAG).unwrap().unwrap() {
        GameComponent::Sprite(sp) => assert_eq!(sp.sprite_index, SpriteIndex(40)),
        _ => panic!("expected a sprite"),
    }
}

#[test]
fn render_orders_layers_back_to_front() {
    let mut registry: Registry<GameComponent> = Registry::new();
    let air = registry.create_entity();
    let ground = registry.create_entity();
    let background = registry.create_entity();
    for (e, layer, idx) in [
        (air, Layer::Air, 2),
        (ground, Layer::Ground, 1),
        (background, Layer::Background, 0),
    ] {
        registry.add_component(e, RIGID_BODY_TAG, rigid_body(idx, 0, 0, 0)).unwrap();
        registry
            .add_component(
                e,
                SPRITE_TAG,
                GameComponent::Sprite(SpriteComponent {
                    sprite_index: SpriteIndex(idx as u32),
                    sprite_layer: layer,
                    size: Vec2i { x: 16, y: 16 },
                }),
            )
            .unwrap();
    }
    let render = RenderSystem::new();
    registry.add_system(&render);
    let mut frame: Vec<DrawCommand> = Vec::new();
    registry.run_system(&render, &mut frame).unwrap();
    let depths: Vec<u8> = frame
        .iter()
        .map(|c| match c {
            DrawCommand::Image { depth, .. } => *depth,
            DrawCommand::Rectangle { .. } => panic!("unexpected rectangle"),
        })
        .collect();
    assert_eq!(depths, vec![0, 1, 2]);
}

#[test]
fn camera_clamps_to_map_bounds() {
    let mut registry: Registry<GameComponent> = Registry::new();
    let e = registry.create_entity();
    registry.add_component(e, RIGID_BODY_TAG, rigid_body(10, 10, 0, 0)).unwrap();
    registry
        .add_component(
            e,
            CAMERA_FOCUS_TAG,
            GameComponent::CameraFocus(CameraFocusComponent {
                focus_offset: Vec2i { x: 16, y: 16 },
                viewport_size: Vec2i { x: 100, y: 100 },
                map_top_left: Vec2i { x: 0, y: 0 },
                map_bottom_right: Vec2i { x: 1000, y: 1000 },
            }),
        )
        .unwrap();
    let camera_system = CameraFocusSystem::new();
    registry.add_system(&camera_system);
    let mut camera: Option<Camera> = None;
    registry.run_system(&camera_system, &mut camera).unwrap();
    // The focus point (26, 26) puts the viewport's corner at (-24, -24),
    // which the map clamps back to the origin.
    assert_eq!(
        camera,
        Some(Camera {
            top_left: Vec2i { x: 0, y: 0 },
            width_height: Vec2i { x: 100, y: 100 },
        })
    );
}

#[test]
fn key_b_toggles_collision_boxes() {
    let mut registry: Registry<GameComponent> = Registry::new();
    let mut bus: EventBus<CollisionSystem> = EventBus::new();
    bus.add_handler(pikuma_game_engine::components_systems::KEY_EVENT_TAG, CollisionSystem::new());
    registry.dispatch_event(
        &mut bus,
        pikuma_game_engine::components_systems::KEY_EVENT_TAG,
        &GameEvent::Key(KeyCode::KeyB),
    );
    assert!(bus.handlers[0].1[0].render_collision_boxes);
    registry.dispatch_event(
        &mut bus,
        pikuma_game_engine::components_systems::KEY_EVENT_TAG,
        &GameEvent::Key(KeyCode::KeyA),
    );
    assert!(bus.handlers[0].1[0].render_collision_boxes);
    registry.dispatch_event(
        &mut bus,
        pikuma_game_engine::components_systems::KEY_EVENT_TAG,
        &GameEvent::Key(KeyCode::KeyB),
    );
    assert!(!bus.handlers[0].1[0].render_collision_boxes);
}

#[test]
fn dispatch_without_subscribers_is_a_no_op() {
    let mut registry: Registry<GameComponent> = Registry::new();
    let e = registry.create_entity();
    let mut bus: EventBus<CollisionSystem> = EventBus::new();
    registry.dispatch_event(
        &mut bus,
        COLLISION_EVENT_TAG,
        &GameEvent::Collision(pikuma_game_engine::components_systems::CollisionEvent {
            entity_a: e,
            entity_b: e,
        }),
    );
    assert!(registry.is_alive(e));
}
