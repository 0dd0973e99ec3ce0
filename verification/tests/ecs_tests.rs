//! Tests of the core runtime: allocator, registry, systems, events.

use std::any::Any;
use std::sync::{Arc, Mutex};

use pikuma_game_engine::ecs::{
    EcsError, Entity, EntityComponentWrapper, EntityManager, Registry, System, SystemBase,
};

#[test]
fn test_entity_manager_happy_path() {
    let mut em = EntityManager::new();

    let e0: Entity = em.create_entity();
    let e1: Entity = em.create_entity();
    let e2: Entity = em.create_entity();

    assert_eq!(e0.id, 0);
    assert_eq!(e1.id, 1);
    assert_eq!(e2.id, 2);

    assert!(em.is_alive(e0));
    assert!(em.is_alive(e1));
    assert!(em.is_alive(e2));
    em.remove_entity(e1).unwrap();
    assert!(em.is_alive(e0));
    assert!(em.is_dead(e1));
    assert!(em.is_alive(e2));

    assert!(em.remove_entity(e1).is_err());

    let e3: Entity = em.create_entity();
    assert_eq!(e3.id, 1);
    assert!(em.is_alive(e0));
    assert!(em.is_dead(e1));
    assert!(em.is_alive(e2));
    assert!(em.is_alive(e3));

    assert!(em.remove_entity(e1).is_err());
}

const COUNTER_TAG: u64 = 1;

#[test]
fn test_registry_happy_path() {
    let mut registry: Registry<i32> = Registry::new();
    let e0: Entity = registry.create_entity();
    let e1: Entity = registry.create_entity();

    let e2: Entity = registry.create_entity();
    registry.add_component(e2, COUNTER_TAG, 5_i32).unwrap();
    assert_eq!(
        registry.get_component(e2, COUNTER_TAG).unwrap().unwrap(),
        &5_i32
    );
    registry.remove_entity(e2).unwrap();
    assert!(registry.get_component(e2, COUNTER_TAG).is_err());
    let e2: Entity = registry.create_entity();
    assert_eq!(registry.get_component(e2, COUNTER_TAG).unwrap(), None);

    assert_eq!(registry.ec_manager.entity_manager.next_entity_id, 3);
    registry.remove_entity(e0).unwrap();
    registry.remove_entity(e1).unwrap();
    assert_eq!(registry.ec_manager.entity_manager.next_entity_id, 3);
    let _e0: Entity = registry.create_entity();
    let _e1: Entity = registry.create_entity();
    assert_eq!(registry.ec_manager.entity_manager.next_entity_id, 3);
    let _e3: Entity = registry.create_entity();
    assert_eq!(registry.ec_manager.entity_manager.next_entity_id, 4);

    registry.add_component(e2, COUNTER_TAG, 5_i32).unwrap();
    registry.remove_entity(e2).unwrap();
    assert!(registry.add_component(e2, COUNTER_TAG, 5_i32).is_err());
}

#[derive(Clone)]
struct CounterComponent {
    count: u32,
}

struct CounterIncrementSystem {
    expected_entity_count: Arc<Mutex<usize>>,
}

impl CounterIncrementSystem {
    fn new() -> Self {
        Self {
            expected_entity_count: Arc::new(Mutex::new(0)),
        }
    }

    fn as_any(&self) -> &dyn Any {
        self
    }
}

const COUNTER_SYSTEM_TAG: u64 = 10;

impl SystemBase for CounterIncrementSystem {
    // The next two items are the erased forms of the trait's
    // specification items; they are never called at runtime.
    fn tag_spec() -> u64 {
        unreachable!()
    }

    fn required_spec() -> vstd::set::Set<u64> {
        unreachable!()
    }

    fn system_tag(&self) -> u64 {
        COUNTER_SYSTEM_TAG
    }

    fn required_components(&self) -> Vec<u64> {
        vec![COUNTER_TAG]
    }
}

impl System<CounterComponent> for CounterIncrementSystem {
    type Input<'i> = u32;

    fn run<'i>(
        &self,
        ec_manager: &mut EntityComponentWrapper<CounterComponent>,
        entities: &Vec<Entity>,
        increment_amount: Self::Input<'i>,
    ) {
        assert_eq!(
            entities.len(),
            *self.expected_entity_count.lock().unwrap()
        );
        for entity in entities.iter() {
            let counter_component: &mut CounterComponent =
                ec_manager.get_component_mut(*entity, COUNTER_TAG).unwrap().unwrap();
            counter_component.count += increment_amount;
        }
        let e = ec_manager.create_entity();
        ec_manager
            .add_component(e, COUNTER_TAG, CounterComponent { count: 0 })
            .unwrap();
    }
}

#[test]
fn test_system_happy_path() {
    let mut registry: Registry<CounterComponent> = Registry::new();
    let e = registry.create_entity();
    let system = CounterIncrementSystem::new();
    let _ = system.as_any();
    let expected_entity_count = system.expected_entity_count.clone();
    registry
        .add_component(e, COUNTER_TAG, CounterComponent { count: 0 })
        .unwrap();
    registry.add_system(&system);
    assert_eq!(
        registry
            .get_component(e, COUNTER_TAG)
            .unwrap()
            .unwrap()
            .count,
        0
    );
    assert_eq!(registry.entities().len(), 1);
    *expected_entity_count.lock().unwrap() = 1;
    registry.run_system(&system, 1).unwrap();
    assert_eq!(registry.entities().len(), 2);
    assert_eq!(
        registry
            .get_component(e, COUNTER_TAG)
            .unwrap()
            .unwrap()
            .count,
        1
    );
    assert_eq!(registry.entities().len(), 2);
    *expected_entity_count.lock().unwrap() = 2;
    registry.run_system(&system, 1).unwrap();
    assert_eq!(registry.entities().len(), 3);
    assert_eq!(
        registry
            .get_component(e, COUNTER_TAG)
            .unwrap()
            .unwrap()
            .count,
        2
    );

    registry.remove_component(e, COUNTER_TAG).unwrap();
    assert_eq!(registry.entities().len(), 3);
    *expected_entity_count.lock().unwrap() = 2;
    registry.run_system(&system, 1).unwrap();
    assert_eq!(registry.entities().len(), 4);

    registry.remove_entity(e).unwrap();
    assert_eq!(registry.entities().len(), 3);
    *expected_entity_count.lock().unwrap() = 3;
    registry.run_system(&system, 1).unwrap();
    assert_eq!(registry.entities().len(), 4);
}

#[test]
fn id_recycling_reuses_id_with_greater_generation() {
    let mut em = EntityManager::new();
    let _e0 = em.create_entity();
    let e1 = em.create_entity();
    assert_eq!(e1.id, 1);
    assert_eq!(e1.generation, 0);
    em.remove_entity(e1).unwrap();
    let e1b = em.create_entity();
    assert_eq!(e1b.id, 1);
    assert_eq!(e1b.generation, 1);
    assert!(e1b.generation > e1.generation);
    assert!(em.is_dead(e1));
    assert!(em.is_alive(e1b));
}

#[test]
fn generations_increase_by_one_per_removal() {
    let mut em = EntityManager::new();
    let mut last_generation = None;
    for _ in 0..5 {
        let e = em.create_entity();
        assert_eq!(e.id, 0);
        if let Some(g) = last_generation {
            assert_eq!(e.generation, g + 1);
        }
        last_generation = Some(e.generation);
        em.remove_entity(e).unwrap();
        assert!(em.is_dead(e));
    }
}

#[test]
fn stale_handle_is_rejected_everywhere() {
    let mut registry: Registry<i32> = Registry::new();
    let e = registry.create_entity();
    registry.add_component(e, COUNTER_TAG, 7).unwrap();
    registry.remove_entity(e).unwrap();

    assert_eq!(
        registry.add_component(e, COUNTER_TAG, 8),
        Err(EcsError::DeadEntity)
    );
    assert!(matches!(
        registry.get_component(e, COUNTER_TAG),
        Err(EcsError::DeadEntity)
    ));
    assert!(matches!(
        registry.get_component_mut(e, COUNTER_TAG),
        Err(EcsError::DeadEntity)
    ));
    assert_eq!(registry.remove_entity(e), Err(EcsError::DeadEntity));
    assert_eq!(
        registry.remove_component(e, COUNTER_TAG),
        Err(EcsError::DeadEntity)
    );
}

#[test]
fn removing_unknown_component_type_reports_no_such_component() {
    let mut registry: Registry<i32> = Registry::new();
    let e = registry.create_entity();
    // The type-pool check comes first, even for a dead handle.
    registry.remove_entity(e).unwrap();
    assert_eq!(
        registry.remove_component(e, 99),
        Err(EcsError::NoSuchComponent)
    );
    let alive = registry.create_entity();
    assert_eq!(
        registry.remove_component(alive, 99),
        Err(EcsError::NoSuchComponent)
    );
}

#[test]
fn component_overwrite_replaces_value_without_second_slot() {
    let mut registry: Registry<i32> = Registry::new();
    let e = registry.create_entity();
    registry.add_component(e, COUNTER_TAG, 1).unwrap();
    registry.add_component(e, COUNTER_TAG, 2).unwrap();
    assert_eq!(registry.get_component(e, COUNTER_TAG).unwrap(), Some(&2));
    let pairs = registry.entities_and_components();
    assert_eq!(pairs.len(), 1);
    assert_eq!(pairs[0].1, vec![COUNTER_TAG]);
}

#[test]
fn run_system_without_registration_fails() {
    let mut registry: Registry<CounterComponent> = Registry::new();
    let system = CounterIncrementSystem::new();
    assert_eq!(
        registry.run_system(&system, 1),
        Err(EcsError::NoSuchSystem)
    );
}

#[test]
fn registration_backfills_existing_entities() {
    let mut registry: Registry<CounterComponent> = Registry::new();
    let e0 = registry.create_entity();
    let e1 = registry.create_entity();
    let _bare = registry.create_entity();
    registry
        .add_component(e0, COUNTER_TAG, CounterComponent { count: 0 })
        .unwrap();
    registry
        .add_component(e1, COUNTER_TAG, CounterComponent { count: 0 })
        .unwrap();
    let system = CounterIncrementSystem::new();
    let expected = system.expected_entity_count.clone();
    registry.add_system(&system);
    // Both pre-existing qualifying entities are seen on the very first run.
    *expected.lock().unwrap() = 2;
    registry.run_system(&system, 5).unwrap();
    assert_eq!(
        registry.get_component(e0, COUNTER_TAG).unwrap().unwrap().count,
        5
    );
    assert_eq!(
        registry.get_component(e1, COUNTER_TAG).unwrap().unwrap().count,
        5
    );
}

#[test]
fn remove_system_forgets_the_record() {
    let mut registry: Registry<CounterComponent> = Registry::new();
    let system = CounterIncrementSystem::new();
    registry.add_system(&system);
    registry.remove_system(COUNTER_SYSTEM_TAG);
    assert_eq!(
        registry.run_system(&system, 1),
        Err(EcsError::NoSuchSystem)
    );
}

struct ReaperSystem {
    seen: Arc<Mutex<usize>>,
}

const REAPER_SYSTEM_TAG: u64 = 11;

impl SystemBase for ReaperSystem {
    fn tag_spec() -> u64 {
        unreachable!()
    }

    fn required_spec() -> vstd::set::Set<u64> {
        unreachable!()
    }

    fn system_tag(&self) -> u64 {
        REAPER_SYSTEM_TAG
    }

    fn required_components(&self) -> Vec<u64> {
        vec![COUNTER_TAG]
    }
}

impl System<CounterComponent> for ReaperSystem {
    type Input<'i> = ();

    fn run<'i>(
        &self,
        ec_manager: &mut EntityComponentWrapper<CounterComponent>,
        entities: &Vec<Entity>,
        _input: Self::Input<'i>,
    ) {
        *self.seen.lock().unwrap() = entities.len();
        for entity in entities.iter() {
            ec_manager.remove_entity(*entity).unwrap();
        }
    }
}

#[test]
fn entities_destroyed_mid_run_leave_every_interest_set() {
    let mut registry: Registry<CounterComponent> = Registry::new();
    for _ in 0..3 {
        let e = registry.create_entity();
        registry
            .add_component(e, COUNTER_TAG, CounterComponent { count: 0 })
            .unwrap();
    }
    let reaper = ReaperSystem { seen: Arc::new(Mutex::new(usize::MAX)) };
    registry.add_system(&reaper);
    registry.run_system(&reaper, ()).unwrap();
    assert_eq!(*reaper.seen.lock().unwrap(), 3);
    assert_eq!(registry.entities().len(), 0);
    // The reconciled interest set is empty: a second run sees nothing.
    registry.run_system(&reaper, ()).unwrap();
    assert_eq!(*reaper.seen.lock().unwrap(), 0);
}
