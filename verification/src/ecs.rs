//! Core of the ECS: the generational entity allocator, the per-type
//! component pools, the type-tag index, the change-tracking store view
//! handed to running systems, and the registry that orchestrates them.

use vstd::prelude::*;

use crate::event_bus::{EventBus, HandlerBase};

verus! {

/// Upper bound on `next_entity_id`, leaving headroom so that the index
/// arithmetic of the backing vectors stays in range even on 32-bit
/// targets.
pub const ENTITY_ID_LIMIT: u32 = 0xffff_ffef;

/// The error taxonomy of the runtime.
///
/// `DeadEntity`: the handle's generation is stale; the entity was removed,
/// possibly with its id reused since.  `NoSuchComponent`: the operation
/// referenced a component type tag that has no pool yet.  `NoSuchSystem`:
/// the operation referenced a system tag that was never registered.
#[derive(Debug, Clone, Copy, PartialEq, Eq, Structural)]
pub enum EcsError {
    DeadEntity,
    NoSuchComponent,
    NoSuchSystem,
}

/// A generational handle naming a logical game object: an id that may be
/// recycled, paired with the generation at which it was issued.
#[derive(Debug, Clone, Copy, PartialEq, Eq, PartialOrd, Ord, Hash, Structural)]
pub struct Entity {
    pub id: u32,
    pub generation: u32,
}

/// Issues and recycles entity handles; the sole authority on liveness.
///
/// A handle is alive exactly when its generation equals the generation
/// currently recorded for its id; any handle with a stale generation is
/// permanently invalid and is never confused with a later entity that
/// reuses the same id.
pub struct EntityManager {
    /// Entity ids that are free to issue again.
    pub free_entity_ids: Vec<u32>,
    /// When there is no free id to reuse, this id is minted next.
    pub next_entity_id: u32,
    /// Per-id generation counters, default 0 beyond the vector's length.
    pub generations: Vec<u32>,
}

impl EntityManager {
    /// Generation currently recorded for `id`; ids beyond the backing
    /// vector are still at their default generation 0.
    pub open spec fn spec_generation(self, id: u32) -> u32 {
        if (id as int) < self.generations@.len() {
            self.generations@[id as int]
        } else {
            0u32
        }
    }

    /// A handle is alive exactly when its generation matches the
    /// recorded generation of its id.
    pub open spec fn spec_alive(self, e: Entity) -> bool {
        e.generation == self.spec_generation(e.id)
    }

    /// `id` has been issued, is not waiting on the free list, and has
    /// not been retired, i.e. a handle for it is in circulation.  An id
    /// whose generation counter has reached its ceiling is retired: it is
    /// never recycled, so the counter cannot wrap and resurrect stale
    /// handles.
    pub open spec fn id_active(self, id: u32) -> bool {
        id < self.next_entity_id && !self.free_entity_ids@.contains(id) && self.spec_generation(
            id,
        ) < u32::MAX
    }

    /// A handle the allocator will agree to remove: alive, and its id
    /// actually in circulation.  A handle whose id was never issued, or
    /// whose id is waiting on the free list, sits at the recorded
    /// generation without having been created; removing it would corrupt
    /// the free list, so it is rejected as dead.  Handles obtained from
    /// `create_entity` are alive exactly when they are removable.
    pub open spec fn spec_removable(self, e: Entity) -> bool {
        self.spec_alive(e) && self.id_active(e.id)
    }

    pub open spec fn wf(self) -> bool {
        &&& self.next_entity_id <= ENTITY_ID_LIMIT
        &&& forall|i: int, j: int|
            0 <= i < j < self.free_entity_ids@.len() ==> self.free_entity_ids@[i]
                != self.free_entity_ids@[j]
        &&& forall|i: int|
            0 <= i < self.free_entity_ids@.len() ==> self.free_entity_ids@[i]
                < self.next_entity_id
        &&& forall|i: int|
            0 <= i < self.free_entity_ids@.len() ==> 1 <= self.spec_generation(
                #[trigger] self.free_entity_ids@[i],
            ) < u32::MAX
        &&& forall|id: u32| self.next_entity_id <= id ==> self.spec_generation(id) == 0
    }

    /// There is room to issue one more handle.
    pub open spec fn can_create(self) -> bool {
        self.free_entity_ids@.len() > 0 || self.next_entity_id < ENTITY_ID_LIMIT
    }

    pub fn new() -> (r: Self)
        ensures
            r.wf(),
            r.next_entity_id == 0,
            r.free_entity_ids@ == Seq::<u32>::empty(),
            forall|id: u32| r.spec_generation(id) == 0,
            forall|id: u32| !r.id_active(id),
    {
        Self { free_entity_ids: Vec::new(), next_entity_id: 0, generations: Vec::new() }
    }

    /// Issues a handle: reuses a free id at its current generation if one
    /// is available, otherwise mints the next fresh id at generation 0.
    /// Never alters any generation.
    pub fn create_entity(&mut self) -> (e: Entity)
        requires
            old(self).wf(),
            old(self).can_create(),
        ensures
            final(self).wf(),
            final(self).generations == old(self).generations,
            e.generation == final(self).spec_generation(e.id),
            final(self).spec_alive(e),
            e.id < final(self).next_entity_id,
            !old(self).id_active(e.id),
            final(self).id_active(e.id),
            forall|id: u32|
                id != e.id ==> final(self).id_active(id) == old(self).id_active(id),
            old(self).free_entity_ids@.len() > 0 ==> {
                &&& e.id == old(self).free_entity_ids@.last()
                &&& final(self).free_entity_ids@ == old(self).free_entity_ids@.drop_last()
                &&& final(self).next_entity_id == old(self).next_entity_id
            },
            old(self).free_entity_ids@.len() == 0 ==> {
                &&& e.id == old(self).next_entity_id
                &&& e.generation == 0
                &&& final(self).free_entity_ids@ == old(self).free_entity_ids@
                &&& final(self).next_entity_id == old(self).next_entity_id + 1
            },
    {
        if let Some(entity_id) = self.free_entity_ids.pop() {
            let e = Entity { id: entity_id, generation: self.alive_generation(entity_id) };
            proof {
                assert(old(self).free_entity_ids@[old(self).free_entity_ids@.len() - 1]
                    == e.id);
                assert(old(self).free_entity_ids@.contains(e.id));
                assert forall|id: u32| id != e.id implies self.id_active(id) == old(
                    self,
                ).id_active(id) by {
                    if old(self).free_entity_ids@.contains(id) {
                        let k = choose|k: int|
                            0 <= k < old(self).free_entity_ids@.len() && old(
                                self,
                            ).free_entity_ids@[k] == id;
                        assert(self.free_entity_ids@[k] == id);
                    }
                }
                assert(!self.free_entity_ids@.contains(e.id)) by {
                    if self.free_entity_ids@.contains(e.id) {
                        let k = choose|k: int|
                            0 <= k < self.free_entity_ids@.len() && self.free_entity_ids@[k]
                                == e.id;
                        assert(old(self).free_entity_ids@[k] == old(
                            self,
                        ).free_entity_ids@.last());
                    }
                }
                assert forall|id: u32| self.next_entity_id <= id implies self.spec_generation(
                    id,
                ) == 0 by {
                    assert(old(self).spec_generation(id) == 0);
                }
            }
            return e;
        }
        let result = Entity {
            id: self.next_entity_id,
            generation: self.alive_generation(self.next_entity_id),
        };
        proof {
            assert(old(self).spec_generation(old(self).next_entity_id) == 0);
        }
        self.next_entity_id = self.next_entity_id + 1;
        proof {
            assert forall|id: u32| self.next_entity_id <= id implies self.spec_generation(id)
                == 0 by {
                assert(old(self).spec_generation(id) == 0);
            }
        }
        result
    }

    /// Removes a live entity by incrementing its id's generation and
    /// returning the id to the free list; every copy of the handle is
    /// permanently invalidated.  Rejects handles that are already stale.
    pub fn remove_entity(&mut self, entity: Entity) -> (r: Result<(), EcsError>)
        requires
            old(self).wf(),
        ensures
            final(self).wf(),
            !old(self).spec_removable(entity) ==> r == Err::<(), EcsError>(EcsError::DeadEntity)
                && *final(self) == *old(self),
            old(self).spec_removable(entity) ==> {
                &&& r == Ok::<(), EcsError>(())
                &&& final(self).spec_generation(entity.id) == entity.generation + 1
                &&& forall|id: u32|
                    id != entity.id ==> final(self).spec_generation(id) == old(
                        self,
                    ).spec_generation(id)
                &&& final(self).free_entity_ids@ == if entity.generation + 1 < u32::MAX {
                    old(self).free_entity_ids@.push(entity.id)
                } else {
                    old(self).free_entity_ids@
                }
                &&& final(self).next_entity_id == old(self).next_entity_id
                &&& !final(self).spec_alive(entity)
                &&& !final(self).id_active(entity.id)
                &&& forall|id: u32|
                    id != entity.id ==> final(self).id_active(id) == old(self).id_active(id)
            },
    {
        if self.is_dead(entity) || entity.id >= self.next_entity_id || self.id_is_free(
            entity.id,
        ) || entity.generation == u32::MAX {
            return Err(EcsError::DeadEntity);
        }
        let entity_id = entity.id as usize;
        while self.generations.len() <= entity_id
            invariant
                old(self).wf(),
                entity_id == entity.id as int,
                entity.id < old(self).next_entity_id,
                self.free_entity_ids == old(self).free_entity_ids,
                self.next_entity_id == old(self).next_entity_id,
                self.generations@.len() >= old(self).generations@.len(),
                forall|id: u32| self.spec_generation(id) == old(self).spec_generation(id),
            decreases entity_id + 1 - self.generations@.len(),
        {
            self.generations.push(0);
        }
        let g = self.generations[entity_id];
        if g < u32::MAX - 1 {
            self.free_entity_ids.push(entity.id);
        }
        self.generations[entity_id] = g + 1;
        proof {
            assert forall|id: u32| id != entity.id implies self.id_active(id) == old(
                self,
            ).id_active(id) by {
                if old(self).free_entity_ids@.contains(id) {
                    let k = choose|k: int|
                        0 <= k < old(self).free_entity_ids@.len() && old(
                            self,
                        ).free_entity_ids@[k] == id;
                    assert(self.free_entity_ids@[k] == id);
                }
                if self.free_entity_ids@.contains(id) {
                    let k = choose|k: int|
                        0 <= k < self.free_entity_ids@.len() && self.free_entity_ids@[k] == id;
                    assert(old(self).free_entity_ids@[k] == id);
                }
            }
            if entity.generation + 1 < u32::MAX {
                assert(self.free_entity_ids@.contains(entity.id)) by {
                    assert(self.free_entity_ids@.last() == entity.id);
                }
            }
            assert forall|id: u32| self.next_entity_id <= id implies self.spec_generation(id)
                == 0 by {
                assert(old(self).spec_generation(id) == 0);
            }
        }
        Ok(())
    }

    /// Whether `id` is currently waiting on the free list.
    fn id_is_free(&self, id: u32) -> (r: bool)
        ensures
            r == self.free_entity_ids@.contains(id),
    {
        let mut i: usize = 0;
        while i < self.free_entity_ids.len()
            invariant
                i <= self.free_entity_ids@.len(),
                forall|k: int| 0 <= k < i ==> self.free_entity_ids@[k] != id,
            decreases self.free_entity_ids@.len() - i,
        {
            if self.free_entity_ids[i] == id {
                return true;
            }
            i = i + 1;
        }
        false
    }

    /// Pure generation comparison.
    pub fn is_alive(&self, entity: Entity) -> (r: bool)
        ensures
            r == self.spec_alive(entity),
    {
        entity.generation == self.alive_generation(entity.id)
    }

    /// Pure generation comparison.
    pub fn is_dead(&self, entity: Entity) -> (r: bool)
        ensures
            r == !self.spec_alive(entity),
    {
        entity.generation != self.alive_generation(entity.id)
    }

    /// The generation a handle for `id` would need in order to be alive
    /// right now.
    pub fn alive_generation(&self, entity_id: u32) -> (r: u32)
        ensures
            r == self.spec_generation(entity_id),
    {
        let entity_id = entity_id as usize;
        if entity_id >= self.generations.len() {
            return 0;
        }
        self.generations[entity_id]
    }
}

/// Sparse per-component-type storage: one slot per entity id, each slot
/// holding the generation it was last written at and possibly a value.
///
/// The pool is generation-aware on its own: a read through a handle sees a
/// value only if the slot's stamp is at least the handle's generation, so
/// a stale handle never aliases data written for a later entity that
/// reuses the same id.
pub struct ComponentPool<C> {
    pub components: Vec<(u32, Option<C>)>,
}

impl<C> ComponentPool<C> {
    /// Slot recorded for `id`; ids beyond the backing vector are at the
    /// default `(0, None)`.
    pub open spec fn spec_slot(self, id: u32) -> (u32, Option<C>) {
        if (id as int) < self.components@.len() {
            self.components@[id as int]
        } else {
            (0u32, None)
        }
    }

    /// The value a read through handle `e` sees: present only if the
    /// slot was stamped at `e`'s generation or later.
    pub open spec fn spec_get(self, e: Entity) -> Option<C> {
        if self.spec_slot(e.id).0 >= e.generation {
            self.spec_slot(e.id).1
        } else {
            None
        }
    }

    /// Grows the backing vector with default slots until `id` is in range.
    fn grow_to(&mut self, id: u32)
        requires
            id < ENTITY_ID_LIMIT,
        ensures
            final(self).components@.len() > id as int,
            final(self).components@.len() >= old(self).components@.len(),
            forall|k: u32| final(self).spec_slot(k) == old(self).spec_slot(k),
    {
        let want = id as usize + 1;
        while self.components.len() < want
            invariant
                want == id as int + 1,
                self.components@.len() >= old(self).components@.len(),
                forall|k: u32| self.spec_slot(k) == old(self).spec_slot(k),
                self.components@.len() <= want || self.components@.len() == old(
                    self,
                ).components@.len(),
            decreases want - self.components@.len(),
        {
            self.components.push((0, None));
            proof {
                assert forall|k: u32| self.spec_slot(k) == old(self).spec_slot(k) by {}
            }
        }
    }

    /// A fresh pool holding `component` for `entity` and nothing else.
    pub fn new_one(entity: Entity, component: C) -> (r: Self)
        requires
            entity.id < ENTITY_ID_LIMIT,
        ensures
            r.spec_slot(entity.id) == (entity.generation, Some(component)),
            forall|id: u32| id != entity.id ==> r.spec_slot(id) == (0u32, None::<C>),
    {
        let mut pool = Self { components: Vec::new() };
        pool.set(entity, component);
        pool
    }

    /// The value visible to `entity`, if any.
    pub fn get(&self, entity: Entity) -> (r: Option<&C>)
        ensures
            match r {
                Some(v) => self.spec_get(entity) == Some(*v),
                None => self.spec_get(entity) is None,
            },
    {
        if entity.id as usize >= self.components.len() {
            return None;
        }
        let generation_component = &self.components[entity.id as usize];
        if generation_component.0 < entity.generation {
            return None;
        }
        generation_component.1.as_ref()
    }

    /// Mutable access to the value visible to `entity`, if any.  The
    /// slot's generation stamp is left as it was.
    pub fn get_mut(&mut self, entity: Entity) -> (r: Option<&mut C>)
        ensures
            match r {
                Some(m) => {
                    &&& old(self).spec_get(entity) == Some(*m)
                    &&& final(self).components@ == old(self).components@.update(
                        entity.id as int,
                        (old(self).spec_slot(entity.id).0, Some(*final(m))),
                    )
                },
                None => {
                    &&& old(self).spec_get(entity) is None
                    &&& forall|id: u32|
                        final(self).spec_slot(id) == old(self).spec_slot(id)
                },
            },
    {
        if entity.id as usize >= self.components.len() {
            return None;
        }
        if self.components[entity.id as usize].0 < entity.generation {
            return None;
        }
        let slot = &mut self.components[entity.id as usize];
        slot.1.as_mut()
    }

    /// Stores `component` for `entity`, stamping the slot with the
    /// handle's generation; overwrites whatever the slot held.
    pub fn set(&mut self, entity: Entity, component: C)
        requires
            entity.id < ENTITY_ID_LIMIT,
        ensures
            final(self).spec_slot(entity.id) == (entity.generation, Some(component)),
            forall|id: u32|
                id != entity.id ==> final(self).spec_slot(id) == old(self).spec_slot(id),
    {
        self.grow_to(entity.id);
        self.components[entity.id as usize] = (entity.generation, Some(component));
    }

    /// Clears the value in `entity`'s slot while keeping a generation
    /// stamp, so later reads through the same or older handles see
    /// nothing.
    pub fn remove(&mut self, entity: Entity)
        ensures
            final(self).spec_slot(entity.id).1 is None,
            final(self).spec_slot(entity.id).0 == if (entity.id as int) < old(
                self,
            ).components@.len() {
                entity.generation
            } else {
                0u32
            },
            forall|id: u32|
                id != entity.id ==> final(self).spec_slot(id) == old(self).spec_slot(id),
    {
        if entity.id as usize >= self.components.len() {
            return ;
        }
        self.components[entity.id as usize] = (entity.generation, None);
    }
}


/// Whether `v` holds `t`.
fn vec_contains_u64(v: &Vec<u64>, t: u64) -> (r: bool)
    ensures
        r == v@.contains(t),
{
    let mut i: usize = 0;
    while i < v.len()
        invariant
            i <= v@.len(),
            forall|k: int| 0 <= k < i ==> v@[k] != t,
        decreases v@.len() - i,
    {
        if v[i] == t {
            return true;
        }
        i = i + 1;
    }
    false
}

/// Whether `v` holds `e`.
fn vec_contains_entity(v: &Vec<Entity>, e: Entity) -> (r: bool)
    ensures
        r == v@.contains(e),
{
    let mut i: usize = 0;
    while i < v.len()
        invariant
            i <= v@.len(),
            forall|k: int| 0 <= k < i ==> v@[k] != e,
        decreases v@.len() - i,
    {
        if v[i].id == e.id && v[i].generation == e.generation {
            return true;
        }
        i = i + 1;
    }
    false
}

/// Whether an association list of pools holds a pool for `tag`.
pub open spec fn spec_pools_has<C>(pools: Seq<(u64, ComponentPool<C>)>, tag: u64) -> bool {
    exists|i: int| 0 <= i < pools.len() && (#[trigger] pools[i]).0 == tag
}

/// The index of the pool for `tag` in an association list of pools.
pub open spec fn spec_pools_at<C>(pools: Seq<(u64, ComponentPool<C>)>, tag: u64) -> int {
    choose|i: int| 0 <= i < pools.len() && (#[trigger] pools[i]).0 == tag
}

/// Type-erased component storage for one world: the entity allocator, the
/// entity -> owned-type-tags index, and one generation-aware pool per
/// component type tag, the pools keyed by the caller-chosen numeric tag.
pub struct EntityComponentManager<C> {
    pub entity_manager: EntityManager,
    /// For each active id, the tags of the component types attached to it.
    pub entity_components: Vec<Option<Vec<u64>>>,
    /// One pool per component type tag that has ever been added.
    pub component_pools: Vec<(u64, ComponentPool<C>)>,
}

impl<C> EntityComponentManager<C> {
    /// The tag list recorded for `id`, present exactly while `id` is in
    /// circulation.
    pub open spec fn spec_entry(self, id: u32) -> Option<Seq<u64>> {
        if (id as int) < self.entity_components@.len() {
            match self.entity_components@[id as int] {
                Some(tags) => Some(tags@),
                None => None,
            }
        } else {
            None
        }
    }

    /// The tags attached to `id`, empty for ids out of circulation.
    pub open spec fn spec_tags(self, id: u32) -> Seq<u64> {
        match self.spec_entry(id) {
            Some(t) => t,
            None => Seq::empty(),
        }
    }

    pub open spec fn spec_tag_set(self, id: u32) -> Set<u64> {
        self.spec_tags(id).to_set()
    }

    /// Store-level liveness: the handle's generation matches the recorded
    /// one and its id is in circulation.  For every handle obtained from
    /// `create_entity` this coincides with the pure generation comparison
    /// of `is_alive`.
    pub open spec fn spec_live(self, e: Entity) -> bool {
        self.entity_manager.spec_removable(e)
    }

    pub open spec fn spec_has_pool(self, tag: u64) -> bool {
        spec_pools_has(self.component_pools@, tag)
    }

    pub open spec fn spec_pool_at(self, tag: u64) -> int {
        spec_pools_at(self.component_pools@, tag)
    }

    /// The slot recorded under `tag` for `id`; `(0, None)` when no pool
    /// for `tag` exists.
    pub open spec fn spec_slot(self, tag: u64, id: u32) -> (u32, Option<C>) {
        if self.spec_has_pool(tag) {
            self.component_pools@[self.spec_pool_at(tag)].1.spec_slot(id)
        } else {
            (0u32, None)
        }
    }

    /// The component value a read through handle `e` sees under `tag`.
    pub open spec fn spec_component(self, e: Entity, tag: u64) -> Option<C> {
        if self.spec_slot(tag, e.id).0 >= e.generation {
            self.spec_slot(tag, e.id).1
        } else {
            None
        }
    }

    pub open spec fn can_create(self) -> bool {
        self.entity_manager.can_create()
    }

    pub open spec fn wf(self) -> bool {
        &&& self.entity_manager.wf()
        &&& self.entity_components@.len() <= ENTITY_ID_LIMIT + 1
        &&& forall|id: u32|
            (#[trigger] self.spec_entry(id)) is Some <==> self.entity_manager.id_active(id)
        &&& forall|id: u32, i: int, j: int|
            0 <= i < j < self.spec_tags(id).len() ==> (#[trigger] self.spec_tags(id)[i]) != (
            #[trigger] self.spec_tags(id)[j])
        &&& forall|i: int, j: int|
            0 <= i < j < self.component_pools@.len() ==> (#[trigger] self.component_pools@[i]).0
                != (#[trigger] self.component_pools@[j]).0
        &&& forall|i: int, id: u32|
            0 <= i < self.component_pools@.len() ==> (#[trigger] self.component_pools@[i].1.spec_slot(
                id,
            )).0 <= self.entity_manager.spec_generation(id)
        &&& forall|i: int, id: u32|
            0 <= i < self.component_pools@.len() && !self.entity_manager.id_active(id)
                && self.entity_manager.spec_generation(id) >= 1 ==> (
            #[trigger] self.component_pools@[i].1.spec_slot(id)).0
                < self.entity_manager.spec_generation(id)
        &&& forall|i: int, id: u32|
            0 <= i < self.component_pools@.len() && self.entity_manager.next_entity_id <= id
                ==> (#[trigger] self.component_pools@[i].1.spec_slot(id)) == (0u32, None::<C>)
        &&& forall|id: u32, tag: u64|
            self.entity_manager.id_active(id) ==> ((#[trigger] self.spec_tag_set(id).contains(
                tag,
            )) <==> ((#[trigger] self.spec_slot(tag, id)).0
                == self.entity_manager.spec_generation(id) && self.spec_slot(tag, id).1
                is Some))
    }

    pub fn new() -> (r: Self)
        ensures
            r.wf(),
            r.entity_manager.next_entity_id == 0,
            r.entity_manager.free_entity_ids@ == Seq::<u32>::empty(),
            forall|e: Entity| !r.spec_live(e),
            forall|tag: u64| !r.spec_has_pool(tag),
            forall|id: u32| r.spec_entry(id) is None,
    {
        Self {
            entity_manager: EntityManager::new(),
            entity_components: Vec::new(),
            component_pools: Vec::new(),
        }
    }

    /// Issues a fresh entity and registers an empty tag set for it.
    pub fn create_entity(&mut self) -> (e: Entity)
        requires
            old(self).wf(),
            old(self).can_create(),
        ensures
            final(self).wf(),
            final(self).spec_live(e),
            !old(self).spec_live(e),
            e.generation == final(self).entity_manager.spec_generation(e.id),
            final(self).spec_tags(e.id) == Seq::<u64>::empty(),
            forall|e2: Entity| e2 != e ==> final(self).spec_live(e2) == old(self).spec_live(e2),
            forall|id: u32| id != e.id ==> final(self).spec_entry(id) == old(self).spec_entry(id),
            final(self).component_pools == old(self).component_pools,
            final(self).entity_manager.generations == old(self).entity_manager.generations,
            old(self).entity_manager.free_entity_ids@.len() > 0 ==> {
                &&& e.id == old(self).entity_manager.free_entity_ids@.last()
                &&& final(self).entity_manager.free_entity_ids@ == old(
                    self,
                ).entity_manager.free_entity_ids@.drop_last()
                &&& final(self).entity_manager.next_entity_id == old(
                    self,
                ).entity_manager.next_entity_id
            },
            old(self).entity_manager.free_entity_ids@.len() == 0 ==> {
                &&& e.id == old(self).entity_manager.next_entity_id
                &&& e.generation == 0
                &&& final(self).entity_manager.free_entity_ids@ == old(
                    self,
                ).entity_manager.free_entity_ids@
                &&& final(self).entity_manager.next_entity_id == old(
                    self,
                ).entity_manager.next_entity_id + 1
            },
    {
        let e = self.entity_manager.create_entity();
        let ghost pre = *self;
        let want = e.id as usize + 1;
        while self.entity_components.len() < want
            invariant
                forall|id: u32| #[trigger] self.spec_entry(id) == pre.spec_entry(id),
                self.entity_manager == pre.entity_manager,
                self.component_pools == pre.component_pools,
                self.entity_components@.len() >= pre.entity_components@.len(),
                self.entity_components@.len() <= pre.entity_components@.len()
                    || self.entity_components@.len() <= want,
            decreases want - self.entity_components@.len(),
        {
            let ghost at_entry = *self;
            let n = self.entity_components.len();
            self.entity_components.push(None);
            proof {
                assert forall|id: u32| #[trigger] self.spec_entry(id) == pre.spec_entry(id) by {
                    assert(at_entry.spec_entry(id) == pre.spec_entry(id));
                    if id as int == n {
                        assert(self.entity_components@[id as int] is None);
                    }
                }
            }
        }
        proof {
            assert(old(self).spec_entry(e.id) is None);
        }
        let ghost grown = *self;
        self.entity_components[e.id as usize] = Some(Vec::new());
        proof {
            assert forall|id: u32| id != e.id implies self.spec_entry(id) == old(self).spec_entry(
                id,
            ) by {
                assert(grown.spec_entry(id) == pre.spec_entry(id));
                assert(pre.spec_entry(id) == old(self).spec_entry(id));
            }
            assert(self.spec_entry(e.id) == Some(Seq::<u64>::empty()));
            assert forall|id: u32, i: int, j: int|
                0 <= i < j < self.spec_tags(id).len() implies (#[trigger] self.spec_tags(id)[i])
                != (#[trigger] self.spec_tags(id)[j]) by {
                if id != e.id {
                    assert(self.spec_entry(id) == old(self).spec_entry(id));
                    assert(old(self).spec_tags(id)[i] != old(self).spec_tags(id)[j]);
                }
            }
            assert forall|e2: Entity| e2 != e implies self.spec_live(e2) == old(self).spec_live(
                e2,
            ) by {
                if e2.id == e.id {
                    assert(!old(self).entity_manager.id_active(e2.id));
                    if e2.generation == e.generation {
                        assert(e2 == e);
                    }
                    assert(self.entity_manager.spec_generation(e2.id) == e.generation);
                }
            }
            assert forall|id: u32|
                (#[trigger] self.spec_entry(id)) is Some implies self.entity_manager.id_active(
                id,
            ) by {
                if id != e.id {
                    assert(old(self).spec_entry(id) is Some ==> old(self).entity_manager.id_active(
                        id,
                    ));
                }
            }
            assert forall|id: u32|
                self.entity_manager.id_active(id) implies (#[trigger] self.spec_entry(id))
                is Some by {
                if id != e.id {
                    assert(old(self).entity_manager.id_active(id) ==> old(self).spec_entry(id)
                        is Some);
                }
            }
            assert forall|id: u32, tag: u64|
                self.entity_manager.id_active(id) implies ((#[trigger] self.spec_tag_set(
                id,
            ).contains(tag)) <==> ((#[trigger] self.spec_slot(tag, id)).0
                == self.entity_manager.spec_generation(id) && self.spec_slot(tag, id).1
                is Some)) by {
                assert(self.spec_slot(tag, id) == old(self).spec_slot(tag, id));
                if id == e.id {
                    assert(!self.spec_tag_set(id).contains(tag));
                    if old(self).entity_manager.free_entity_ids@.len() > 0 {
                        assert(old(self).entity_manager.free_entity_ids@.contains(e.id));
                        assert(old(self).entity_manager.spec_generation(e.id) >= 1);
                        if old(self).spec_has_pool(tag) {
                            let k = old(self).spec_pool_at(tag);
                            assert((old(self).component_pools@[k].1.spec_slot(id)).0 < old(
                                self,
                            ).entity_manager.spec_generation(id));
                        }
                    } else {
                        if old(self).spec_has_pool(tag) {
                            let k = old(self).spec_pool_at(tag);
                            assert((old(self).component_pools@[k].1.spec_slot(id)) == (
                                0u32,
                                None::<C>,
                            ));
                        }
                    }
                } else {
                    assert(old(self).entity_manager.id_active(id));
                    assert(self.spec_tags(id) == old(self).spec_tags(id));
                    assert(old(self).spec_tag_set(id).contains(tag) <==> ((old(self).spec_slot(
                        tag,
                        id,
                    )).0 == old(self).entity_manager.spec_generation(id) && old(self).spec_slot(
                        tag,
                        id,
                    ).1 is Some));
                }
            }
        }
        e
    }
}

impl<C> EntityComponentManager<C> {
    /// Whether `e` is live at the store level: generation match plus an
    /// id actually in circulation.
    fn check_live(&self, e: Entity) -> (r: bool)
        requires
            self.wf(),
        ensures
            r == self.spec_live(e),
    {
        if e.id as usize >= self.entity_components.len() {
            proof {
                assert(self.spec_entry(e.id) is None);
            }
            return false;
        }
        if self.entity_components[e.id as usize].is_none() {
            proof {
                assert(self.spec_entry(e.id) is None);
            }
            return false;
        }
        proof {
            assert(self.spec_entry(e.id) is Some);
        }
        self.entity_manager.is_alive(e)
    }

    /// Pure generation comparison, delegated to the allocator.
    pub fn is_alive(&self, entity: Entity) -> (r: bool)
        ensures
            r == self.entity_manager.spec_alive(entity),
    {
        self.entity_manager.is_alive(entity)
    }

    /// Pure generation comparison, delegated to the allocator.
    pub fn is_dead(&self, entity: Entity) -> (r: bool)
        ensures
            r == !self.entity_manager.spec_alive(entity),
    {
        self.entity_manager.is_dead(entity)
    }

    /// Invalidates a live entity: drops its tag-index entry, then bumps
    /// its id's generation and recycles the id.  Pool slots are left in
    /// place; their now-stale stamps make them invisible to any later
    /// entity reusing the id.
    pub fn remove_entity(&mut self, entity: Entity) -> (r: Result<(), EcsError>)
        requires
            old(self).wf(),
        ensures
            final(self).wf(),
            !old(self).spec_live(entity) ==> r == Err::<(), EcsError>(EcsError::DeadEntity)
                && *final(self) == *old(self),
            old(self).spec_live(entity) ==> {
                &&& r == Ok::<(), EcsError>(())
                &&& forall|e2: Entity|
                    e2.id != entity.id ==> final(self).spec_live(e2) == old(self).spec_live(e2)
                &&& forall|e2: Entity| e2.id == entity.id ==> !final(self).spec_live(e2)
                &&& forall|id: u32|
                    id != entity.id ==> final(self).spec_entry(id) == old(self).spec_entry(id)
                &&& final(self).spec_entry(entity.id) is None
                &&& final(self).component_pools == old(self).component_pools
                &&& final(self).entity_manager.spec_generation(entity.id) == entity.generation
                    + 1
                &&& forall|id: u32|
                    id != entity.id ==> final(self).entity_manager.spec_generation(id) == old(
                        self,
                    ).entity_manager.spec_generation(id)
                &&& final(self).entity_manager.free_entity_ids@ == if entity.generation + 1
                    < u32::MAX {
                    old(self).entity_manager.free_entity_ids@.push(entity.id)
                } else {
                    old(self).entity_manager.free_entity_ids@
                }
                &&& final(self).entity_manager.next_entity_id == old(
                    self,
                ).entity_manager.next_entity_id
            },
    {
        if !self.check_live(entity) {
            return Err(EcsError::DeadEntity);
        }
        proof {
            assert(old(self).spec_entry(entity.id) is Some);
        }
        self.entity_components[entity.id as usize] = None;
        let r = self.entity_manager.remove_entity(entity);
        proof {
            assert(r == Ok::<(), EcsError>(()));
            assert forall|id: u32| id != entity.id implies self.spec_entry(id) == old(
                self,
            ).spec_entry(id) by {}
            assert forall|id: u32|
                (#[trigger] self.spec_entry(id)) is Some <==> self.entity_manager.id_active(
                id,
            ) by {
                if id != entity.id {
                    assert(old(self).spec_entry(id) is Some <==> old(
                        self,
                    ).entity_manager.id_active(id));
                }
            }
            assert forall|id: u32, i: int, j: int|
                0 <= i < j < self.spec_tags(id).len() implies (#[trigger] self.spec_tags(id)[i])
                != (#[trigger] self.spec_tags(id)[j]) by {
                if id != entity.id {
                    assert(self.spec_entry(id) == old(self).spec_entry(id));
                    assert(old(self).spec_tags(id)[i] != old(self).spec_tags(id)[j]);
                }
            }
            assert forall|id: u32, tag: u64|
                self.entity_manager.id_active(id) implies ((#[trigger] self.spec_tag_set(
                id,
            ).contains(tag)) <==> ((#[trigger] self.spec_slot(tag, id)).0
                == self.entity_manager.spec_generation(id) && self.spec_slot(tag, id).1
                is Some)) by {
                assert(id != entity.id);
                assert(old(self).entity_manager.id_active(id));
                assert(self.spec_entry(id) == old(self).spec_entry(id));
                assert(self.spec_slot(tag, id) == old(self).spec_slot(tag, id));
                assert(old(self).spec_tag_set(id).contains(tag) <==> ((old(self).spec_slot(
                    tag,
                    id,
                )).0 == old(self).entity_manager.spec_generation(id) && old(self).spec_slot(
                    tag,
                    id,
                ).1 is Some));
            }
            assert forall|e2: Entity| e2.id != entity.id implies self.spec_live(e2) == old(
                self,
            ).spec_live(e2) by {}
        }
        r
    }
}

/// Appending a pool for a fresh tag leaves every other tag's lookup
/// unchanged.
proof fn lemma_pools_push<C>(pools: Seq<(u64, ComponentPool<C>)>, p: (u64, ComponentPool<C>), t2: u64)
    requires
        t2 != p.0,
    ensures
        spec_pools_has(pools.push(p), t2) == spec_pools_has(pools, t2),
        spec_pools_has(pools, t2) && (forall|i: int, j: int|
            0 <= i < j < pools.len() ==> (#[trigger] pools[i]).0 != (#[trigger] pools[j]).0)
            ==> spec_pools_at(pools.push(p), t2) == spec_pools_at(pools, t2),
{
    let b = pools.push(p);
    if spec_pools_has(pools, t2) {
        let i = spec_pools_at(pools, t2);
        assert(0 <= i < pools.len() && pools[i].0 == t2);
        assert(b[i].0 == t2);
        assert(spec_pools_has(b, t2));
        if forall|i: int, j: int|
            0 <= i < j < pools.len() ==> (#[trigger] pools[i]).0 != (#[trigger] pools[j]).0 {
            let k = spec_pools_at(b, t2);
            assert(0 <= k < b.len() && b[k].0 == t2);
            assert(k != pools.len());
            assert(pools[k].0 == t2);
            if k < i {
                assert(pools[k].0 != pools[i].0);
            }
            if i < k {
                assert(pools[i].0 != pools[k].0);
            }
        }
    }
    if spec_pools_has(b, t2) {
        let k = spec_pools_at(b, t2);
        assert(0 <= k < b.len() && b[k].0 == t2);
        assert(k != pools.len());
        assert(pools[k].0 == t2);
        assert(spec_pools_has(pools, t2));
    }
}

/// Replacing the pool stored at one index, tag kept, leaves every tag's
/// lookup index unchanged.
proof fn lemma_pools_update<C>(
    pools: Seq<(u64, ComponentPool<C>)>,
    i: int,
    p: (u64, ComponentPool<C>),
    t2: u64,
)
    requires
        0 <= i < pools.len(),
        pools[i].0 == p.0,
    ensures
        spec_pools_has(pools.update(i, p), t2) == spec_pools_has(pools, t2),
        spec_pools_has(pools, t2) ==> spec_pools_at(pools.update(i, p), t2) == spec_pools_at(
            pools,
            t2,
        ) || pools[spec_pools_at(pools.update(i, p), t2)].0 == t2,
{
    let b = pools.update(i, p);
    assert(b.len() == pools.len());
    assert forall|k: int| 0 <= k < pools.len() implies (#[trigger] b[k]).0 == pools[k].0 by {}
    if spec_pools_has(pools, t2) {
        let k = spec_pools_at(pools, t2);
        assert(b[k].0 == t2);
        assert(spec_pools_has(b, t2));
        let m = spec_pools_at(b, t2);
        assert(0 <= m < b.len() && b[m].0 == t2);
        assert(pools[m].0 == t2);
    }
    if spec_pools_has(b, t2) {
        let m = spec_pools_at(b, t2);
        assert(pools[m].0 == t2);
        assert(spec_pools_has(pools, t2));
    }
}

/// A fresh copy of a tag list.
fn copy_u64s(v: &Vec<u64>) -> (r: Vec<u64>)
    ensures
        r@ == v@,
{
    let mut r: Vec<u64> = Vec::new();
    let mut i: usize = 0;
    while i < v.len()
        invariant
            i <= v@.len(),
            r@ == v@.subrange(0, i as int),
        decreases v@.len() - i,
    {
        r.push(v[i]);
        i = i + 1;
        proof {
            assert(r@ =~= v@.subrange(0, i as int));
        }
    }
    proof {
        assert(v@.subrange(0, v@.len() as int) =~= v@);
    }
    r
}

impl<C> EntityComponentManager<C> {
    /// Index of the pool for `tag`, if one exists.
    fn find_pool(&self, tag: u64) -> (r: Option<usize>)
        requires
            forall|i: int, j: int|
                0 <= i < j < self.component_pools@.len() ==> (
                #[trigger] self.component_pools@[i]).0 != (
                #[trigger] self.component_pools@[j]).0,
        ensures
            match r {
                Some(i) => {
                    &&& (i as int) < self.component_pools@.len()
                    &&& self.component_pools@[i as int].0 == tag
                    &&& self.spec_has_pool(tag)
                    &&& self.spec_pool_at(tag) == i as int
                },
                None => !self.spec_has_pool(tag),
            },
    {
        let mut i: usize = 0;
        while i < self.component_pools.len()
            invariant
                i <= self.component_pools@.len(),
                forall|k: int| 0 <= k < i ==> (#[trigger] self.component_pools@[k]).0 != tag,
                forall|k: int, j: int|
                    0 <= k < j < self.component_pools@.len() ==> (
                    #[trigger] self.component_pools@[k]).0 != (
                    #[trigger] self.component_pools@[j]).0,
            decreases self.component_pools@.len() - i,
        {
            if self.component_pools[i].0 == tag {
                proof {
                    assert(spec_pools_has(self.component_pools@, tag));
                    let j = spec_pools_at(self.component_pools@, tag);
                    assert(0 <= j < self.component_pools@.len() && self.component_pools@[j].0
                        == tag);
                    if j < i as int {
                        assert(self.component_pools@[j].0 != self.component_pools@[i as int].0);
                    }
                    if (i as int) < j {
                        assert(self.component_pools@[i as int].0 != self.component_pools@[j].0);
                    }
                }
                return Some(i);
            }
            i = i + 1;
        }
        None
    }

    /// Attaches `component` to `entity` under `tag`: rejects dead
    /// handles, creates the pool for `tag` lazily on first use, and
    /// overwrites any value the entity already had under `tag`.
    pub fn add_component(&mut self, entity: Entity, tag: u64, component: C) -> (r: Result<
        (),
        EcsError,
    >)
        requires
            old(self).wf(),
        ensures
            final(self).wf(),
            !old(self).spec_live(entity) ==> r == Err::<(), EcsError>(EcsError::DeadEntity)
                && *final(self) == *old(self),
            old(self).spec_live(entity) ==> {
                &&& r == Ok::<(), EcsError>(())
                &&& final(self).entity_manager == old(self).entity_manager
                &&& forall|e2: Entity| final(self).spec_live(e2) == old(self).spec_live(e2)
                &&& final(self).spec_tag_set(entity.id) == old(self).spec_tag_set(
                    entity.id,
                ).insert(tag)
                &&& forall|id: u32|
                    id != entity.id ==> final(self).spec_entry(id) == old(self).spec_entry(id)
                &&& final(self).spec_entry(entity.id) is Some
                &&& final(self).spec_has_pool(tag)
                &&& forall|t2: u64|
                    t2 != tag ==> final(self).spec_has_pool(t2) == old(self).spec_has_pool(t2)
                &&& final(self).spec_slot(tag, entity.id) == (
                    entity.generation,
                    Some(component),
                )
                &&& forall|t2: u64, id: u32|
                    !(t2 == tag && id == entity.id) ==> final(self).spec_slot(t2, id) == old(
                        self,
                    ).spec_slot(t2, id)
                &&& final(self).spec_component(entity, tag) == Some(component)
            },
    {
        if !self.check_live(entity) {
            return Err(EcsError::DeadEntity);
        }
        proof {
            assert(old(self).spec_entry(entity.id) is Some);
        }
        let idx = entity.id as usize;
        let mut new_tags: Vec<u64> = match &self.entity_components[idx] {
            Some(t) => copy_u64s(t),
            None => {
                proof {
                    assert(false);
                }
                Vec::new()
            },
        };
        if !vec_contains_u64(&new_tags, tag) {
            new_tags.push(tag);
        }
        proof {
            assert(new_tags@.to_set() =~= old(self).spec_tag_set(entity.id).insert(tag)) by {
                let olds = old(self).spec_tags(entity.id);
                assert forall|t: u64| new_tags@.contains(t) implies olds.to_set().insert(
                    tag,
                ).contains(t) by {
                    if t != tag {
                        let k = choose|k: int|
                            0 <= k < new_tags@.len() && new_tags@[k] == t;
                        assert(olds[k] == t);
                        assert(olds.contains(t));
                    }
                }
                assert forall|t: u64| olds.to_set().insert(tag).contains(t) implies
                    new_tags@.contains(t) by {
                    if t == tag {
                        if !olds.contains(tag) {
                            assert(new_tags@.last() == tag);
                        }
                    } else {
                        let k = choose|k: int| 0 <= k < olds.len() && olds[k] == t;
                        assert(new_tags@[k] == t);
                    }
                }
            }
            assert forall|i: int, j: int|
                0 <= i < j < new_tags@.len() implies new_tags@[i] != new_tags@[j] by {
                let olds = old(self).spec_tags(entity.id);
                if j < olds.len() {
                    assert(old(self).spec_tags(entity.id)[i] != old(self).spec_tags(
                        entity.id,
                    )[j]);
                } else {
                    assert(new_tags@[j] == tag);
                    assert(!olds.contains(tag));
                    assert(olds[i] == new_tags@[i]);
                    assert(olds.contains(olds[i]));
                }
            }
        }
        let ghost tags_seq = new_tags@;
        self.entity_components[idx] = Some(new_tags);
        let ghost mid = *self;
        proof {
            assert(mid.spec_tags(entity.id) == tags_seq);
            assert forall|id: u32| id != entity.id implies mid.spec_entry(id) == old(
                self,
            ).spec_entry(id) by {}
        }
        match self.find_pool(tag) {
            None => {
                let new_pool = ComponentPool::new_one(entity, component);
                self.component_pools.push((tag, new_pool));
                proof {
                    let pools = mid.component_pools@;
                    let p = (tag, new_pool);
                    assert(self.component_pools@ == pools.push(p));
                    assert(self.component_pools@[pools.len() as int] == p);
                    assert(spec_pools_has(self.component_pools@, tag));
                    assert forall|t2: u64| t2 != tag implies self.spec_has_pool(t2) == mid.spec_has_pool(
                        t2,
                    ) && (self.spec_has_pool(t2) ==> self.spec_slot(t2, entity.id)
                        == mid.spec_slot(t2, entity.id)) by {
                        lemma_pools_push(pools, p, t2);
                    }
                    assert forall|t2: u64, id: u32| t2 != tag implies #[trigger] self.spec_slot(
                        t2,
                        id,
                    ) == mid.spec_slot(t2, id) by {
                        lemma_pools_push(pools, p, t2);
                    }
                    let k = spec_pools_at(self.component_pools@, tag);
                    assert(0 <= k < self.component_pools@.len() && self.component_pools@[k].0
                        == tag);
                    if k < pools.len() {
                        assert(!spec_pools_has(pools, tag)) by {}
                        assert(pools[k].0 == tag);
                        assert(spec_pools_has(pools, tag));
                    }
                    assert(k == pools.len());
                    assert(self.spec_slot(tag, entity.id) == (
                        entity.generation,
                        Some(component),
                    ));
                    assert forall|id: u32| id != entity.id implies #[trigger] self.spec_slot(
                        tag,
                        id,
                    ) == (0u32, None::<C>) by {}
                    assert forall|t2: u64| t2 != tag implies self.spec_has_pool(t2) == old(
                        self,
                    ).spec_has_pool(t2) by {
                        lemma_pools_push(pools, p, t2);
                    }
                }
            },
            Some(i) => {
                self.component_pools[i].1.set(entity, component);
                proof {
                    let pools = mid.component_pools@;
                    let i = i as int;
                    let p = self.component_pools@[i];
                    assert(self.component_pools@ == pools.update(i, p));
                    assert(p.0 == tag);
                    assert(self.spec_pool_at(tag) == i) by {
                        let k = spec_pools_at(self.component_pools@, tag);
                        assert(0 <= k < self.component_pools@.len()
                            && self.component_pools@[k].0 == tag);
                        if k < i {
                            assert(pools[k].0 != pools[i].0);
                        }
                        if i < k {
                            assert(pools[i].0 != pools[k].0);
                        }
                    }
                    assert(self.spec_slot(tag, entity.id) == (
                        entity.generation,
                        Some(component),
                    ));
                    assert forall|t2: u64| t2 != tag implies self.spec_has_pool(t2) == old(
                        self,
                    ).spec_has_pool(t2) by {
                        lemma_pools_update(pools, i, p, t2);
                    }
                    assert forall|t2: u64, id: u32|
                        !(t2 == tag && id == entity.id) implies #[trigger] self.spec_slot(
                        t2,
                        id,
                    ) == mid.spec_slot(t2, id) by {
                        lemma_pools_update(pools, i, p, t2);
                        if t2 == tag {
                            assert(self.spec_slot(t2, id) == p.1.spec_slot(id));
                        } else {
                            if spec_pools_has(pools, t2) {
                                let m = spec_pools_at(self.component_pools@, t2);
                                assert(pools[m].0 == t2);
                                assert(m != i);
                                assert(self.component_pools@[m] == pools[m]);
                                let m0 = spec_pools_at(pools, t2);
                                assert(pools[m0].0 == t2);
                                if m0 < m {
                                    assert(pools[m0].0 != pools[m].0);
                                }
                                if m < m0 {
                                    assert(pools[m].0 != pools[m0].0);
                                }
                            }
                        }
                    }
                }
            },
        }
        proof {
            let fin = *self;
            assert(fin.entity_manager == old(self).entity_manager);
            assert forall|id: u32| id != entity.id implies fin.spec_entry(id) == old(
                self,
            ).spec_entry(id) by {
                assert(mid.spec_entry(id) == old(self).spec_entry(id));
                assert(fin.spec_entry(id) == mid.spec_entry(id));
            }
            assert(fin.spec_tags(entity.id) == tags_seq);
            assert(fin.spec_tag_set(entity.id) == old(self).spec_tag_set(entity.id).insert(tag));
            // well-formedness
            assert forall|id: u32|
                (#[trigger] fin.spec_entry(id)) is Some <==> fin.entity_manager.id_active(
                id,
            ) by {
                if id != entity.id {
                    assert(old(self).spec_entry(id) is Some <==> old(
                        self,
                    ).entity_manager.id_active(id));
                }
            }
            assert forall|id: u32, i: int, j: int|
                0 <= i < j < fin.spec_tags(id).len() implies (#[trigger] fin.spec_tags(id)[i])
                != (#[trigger] fin.spec_tags(id)[j]) by {
                if id != entity.id {
                    assert(fin.spec_entry(id) == old(self).spec_entry(id));
                    assert(old(self).spec_tags(id)[i] != old(self).spec_tags(id)[j]);
                }
            }
            assert forall|i: int, j: int|
                0 <= i < j < fin.component_pools@.len() implies (
            #[trigger] fin.component_pools@[i]).0 != (#[trigger] fin.component_pools@[j]).0 by {
                if j < mid.component_pools@.len() {
                    assert(mid.component_pools@[i].0 != mid.component_pools@[j].0);
                } else if fin.component_pools@.len() > mid.component_pools@.len() {
                    assert(fin.component_pools@[j].0 == tag);
                    assert(!spec_pools_has(mid.component_pools@, tag));
                    assert(mid.component_pools@[i] == fin.component_pools@[i]);
                    assert(spec_pools_has(mid.component_pools@, fin.component_pools@[i].0));
                }
            }
            assert forall|i: int, id: u32|
                0 <= i < fin.component_pools@.len() implies (
            #[trigger] fin.component_pools@[i].1.spec_slot(id)).0
                <= fin.entity_manager.spec_generation(id) by {
                let t2 = fin.component_pools@[i].0;
                if t2 == tag && id == entity.id {
                    assert(fin.spec_slot(tag, entity.id).0 == entity.generation);
                    assert(fin.component_pools@[fin.spec_pool_at(tag)].1.spec_slot(id)
                        == fin.spec_slot(tag, id));
                    if i != fin.spec_pool_at(tag) {
                        assert(fin.component_pools@[fin.spec_pool_at(tag)].0 == tag);
                    }
                } else {
                    assert(fin.spec_slot(t2, id) == mid.spec_slot(t2, id));
                    assert(spec_pools_has(fin.component_pools@, t2)) by {
                        assert((#[trigger] fin.component_pools@[i]).0 == t2);
                    }
                    let k = spec_pools_at(fin.component_pools@, t2);
                    assert(fin.component_pools@[k].0 == t2);
                    if k < i {
                        assert(fin.component_pools@[k].0 != fin.component_pools@[i].0);
                    }
                    if i < k {
                        assert(fin.component_pools@[i].0 != fin.component_pools@[k].0);
                    }
                    assert(fin.spec_slot(t2, id) == fin.component_pools@[i].1.spec_slot(id));
                    if spec_pools_has(mid.component_pools@, t2) {
                        let m = spec_pools_at(mid.component_pools@, t2);
                        assert(mid.component_pools@[m].1.spec_slot(id).0
                            <= mid.entity_manager.spec_generation(id));
                        assert(mid.spec_slot(t2, id) == mid.component_pools@[m].1.spec_slot(id));
                    } else {
                        assert(mid.spec_slot(t2, id) == (0u32, None::<C>));
                    }
                }
            }
            assert forall|i: int, id: u32|
                0 <= i < fin.component_pools@.len() && !fin.entity_manager.id_active(id)
                    && fin.entity_manager.spec_generation(id) >= 1 implies (
            #[trigger] fin.component_pools@[i].1.spec_slot(id)).0
                < fin.entity_manager.spec_generation(id) by {
                let t2 = fin.component_pools@[i].0;
                assert(id != entity.id);
                assert(fin.component_pools@[i].1.spec_slot(id) == fin.spec_slot(t2, id)) by {
                    let k = spec_pools_at(fin.component_pools@, t2);
                    assert(spec_pools_has(fin.component_pools@, t2)) by {
                        assert((#[trigger] fin.component_pools@[i]).0 == t2);
                    }
                    assert(fin.component_pools@[k].0 == t2);
                    if k < i {
                        assert(fin.component_pools@[k].0 != fin.component_pools@[i].0);
                    }
                    if i < k {
                        assert(fin.component_pools@[i].0 != fin.component_pools@[k].0);
                    }
                }
                assert(fin.spec_slot(t2, id) == mid.spec_slot(t2, id));
                if spec_pools_has(mid.component_pools@, t2) {
                    let m = spec_pools_at(mid.component_pools@, t2);
                    assert(mid.component_pools@[m].1.spec_slot(id).0
                        < mid.entity_manager.spec_generation(id));
                    assert(mid.spec_slot(t2, id) == mid.component_pools@[m].1.spec_slot(id));
                } else {
                    assert(mid.spec_slot(t2, id) == (0u32, None::<C>));
                }
            }
            assert forall|i: int, id: u32|
                0 <= i < fin.component_pools@.len() && fin.entity_manager.next_entity_id <= id
                    implies (#[trigger] fin.component_pools@[i].1.spec_slot(id)) == (
                0u32,
                None::<C>,
            ) by {
                let t2 = fin.component_pools@[i].0;
                assert(id != entity.id);
                assert(fin.component_pools@[i].1.spec_slot(id) == fin.spec_slot(t2, id)) by {
                    let k = spec_pools_at(fin.component_pools@, t2);
                    assert(spec_pools_has(fin.component_pools@, t2)) by {
                        assert((#[trigger] fin.component_pools@[i]).0 == t2);
                    }
                    assert(fin.component_pools@[k].0 == t2);
                    if k < i {
                        assert(fin.component_pools@[k].0 != fin.component_pools@[i].0);
                    }
                    if i < k {
                        assert(fin.component_pools@[i].0 != fin.component_pools@[k].0);
                    }
                }
                assert(fin.spec_slot(t2, id) == mid.spec_slot(t2, id));
                if spec_pools_has(mid.component_pools@, t2) {
                    let m = spec_pools_at(mid.component_pools@, t2);
                    assert(mid.component_pools@[m].1.spec_slot(id) == (0u32, None::<C>));
                    assert(mid.spec_slot(t2, id) == mid.component_pools@[m].1.spec_slot(id));
                } else {
                    assert(mid.spec_slot(t2, id) == (0u32, None::<C>));
                }
            }
            assert forall|id: u32, t: u64|
                fin.entity_manager.id_active(id) implies ((#[trigger] fin.spec_tag_set(
                id,
            ).contains(t)) <==> ((#[trigger] fin.spec_slot(t, id)).0
                == fin.entity_manager.spec_generation(id) && fin.spec_slot(t, id).1
                is Some)) by {
                if id == entity.id {
                    if t == tag {
                        assert(fin.spec_tag_set(id).contains(t));
                        assert(fin.spec_slot(t, id) == (entity.generation, Some(component)));
                        assert(entity.generation == fin.entity_manager.spec_generation(id));
                    } else {
                        assert(fin.spec_slot(t, id) == mid.spec_slot(t, id));
                        assert(mid.spec_slot(t, id) == old(self).spec_slot(t, id));
                        assert(fin.spec_tag_set(id).contains(t) == old(self).spec_tag_set(
                            id,
                        ).contains(t));
                        assert(old(self).spec_tag_set(id).contains(t) <==> ((old(
                            self,
                        ).spec_slot(t, id)).0 == old(self).entity_manager.spec_generation(id)
                            && old(self).spec_slot(t, id).1 is Some));
                    }
                } else {
                    assert(fin.spec_entry(id) == old(self).spec_entry(id));
                    if t == tag {
                        assert(fin.spec_slot(t, id) == (
                            entity.generation,
                            Some(component),
                        ) || fin.spec_slot(t, id) == mid.spec_slot(t, id)
                            || fin.spec_slot(t, id) == (0u32, None::<C>));
                        assert(fin.spec_slot(t, id) == mid.spec_slot(t, id) || fin.spec_slot(
                            t,
                            id,
                        ) == (0u32, None::<C>));
                        if fin.spec_slot(t, id) == (0u32, None::<C>) {
                            assert(!(fin.spec_slot(t, id).1 is Some));
                            if old(self).spec_tag_set(id).contains(t) {
                                assert((old(self).spec_slot(t, id)).0 == old(
                                    self,
                                ).entity_manager.spec_generation(id) && old(self).spec_slot(
                                    t,
                                    id,
                                ).1 is Some);
                                assert(old(self).spec_has_pool(t));
                                assert(mid.spec_slot(t, id) == old(self).spec_slot(t, id));
                            }
                        } else {
                            assert(old(self).spec_tag_set(id).contains(t) <==> ((old(
                                self,
                            ).spec_slot(t, id)).0 == old(self).entity_manager.spec_generation(
                                id,
                            ) && old(self).spec_slot(t, id).1 is Some));
                        }
                    } else {
                        assert(fin.spec_slot(t, id) == mid.spec_slot(t, id));
                        assert(old(self).spec_tag_set(id).contains(t) <==> ((old(
                            self,
                        ).spec_slot(t, id)).0 == old(self).entity_manager.spec_generation(id)
                            && old(self).spec_slot(t, id).1 is Some));
                    }
                }
            }
            assert forall|e2: Entity| fin.spec_live(e2) == old(self).spec_live(e2) by {}
        }
        Ok(())
    }
}

/// A copy of `v` with every occurrence of `t` left out.
fn remove_u64(v: &Vec<u64>, t: u64) -> (r: Vec<u64>)
    requires
        forall|i: int, j: int| 0 <= i < j < v@.len() ==> v@[i] != v@[j],
    ensures
        forall|x: u64| r@.contains(x) == (v@.contains(x) && x != t),
        forall|i: int, j: int| 0 <= i < j < r@.len() ==> r@[i] != r@[j],
        !r@.contains(t),
{
    let mut r: Vec<u64> = Vec::new();
    let mut i: usize = 0;
    while i < v.len()
        invariant
            i <= v@.len(),
            forall|i2: int, j2: int| 0 <= i2 < j2 < v@.len() ==> v@[i2] != v@[j2],
            forall|x: u64|
                #[trigger] r@.contains(x) == (v@.subrange(0, i as int).contains(x) && x != t),
            forall|i2: int, j2: int| 0 <= i2 < j2 < r@.len() ==> r@[i2] != r@[j2],
        decreases v@.len() - i,
    {
        let ghost prefix = v@.subrange(0, i as int);
        let ghost r0 = r@;
        let x = v[i];
        if x != t {
            proof {
                assert(!r@.contains(x)) by {
                    if prefix.contains(x) {
                        let k = choose|k: int| 0 <= k < prefix.len() && prefix[k] == x;
                        assert(v@[k] == x && v@[i as int] == x);
                    }
                }
            }
            r.push(x);
        }
        i = i + 1;
        proof {
            assert forall|y: u64| #[trigger] r@.contains(y) == (v@.subrange(
                0,
                i as int,
            ).contains(y) && y != t) by {
                let cur = v@.subrange(0, i as int);
                assert(cur =~= prefix.push(x));
                if r@.contains(y) {
                    let k = choose|k: int| 0 <= k < r@.len() && r@[k] == y;
                    if x != t && k == r@.len() - 1 {
                        assert(y == x);
                        assert(cur[cur.len() - 1] == x);
                        assert(cur.contains(y));
                    } else {
                        assert(r0[k] == y);
                        assert(r0.contains(y));
                        assert(prefix.contains(y) && y != t);
                        let k2 = choose|k2: int| 0 <= k2 < prefix.len() && prefix[k2] == y;
                        assert(cur[k2] == y);
                        assert(cur.contains(y));
                    }
                }
                if cur.contains(y) && y != t {
                    let k = choose|k: int| 0 <= k < cur.len() && cur[k] == y;
                    if k == cur.len() - 1 {
                        assert(y == x);
                        assert(r@[r@.len() - 1] == x);
                        assert(r@.contains(y));
                    } else {
                        assert(prefix[k] == y);
                        assert(prefix.contains(y));
                        assert(r0.contains(y));
                        let k2 = choose|k2: int| 0 <= k2 < r0.len() && r0[k2] == y;
                        assert(r@[k2] == y);
                        assert(r@.contains(y));
                    }
                }
            }
        }
    }
    proof {
        assert(v@.subrange(0, v@.len() as int) =~= v@);
    }
    r
}

/// Two stores with pools of equal tags in equal order agree on which
/// pool serves each tag.
pub proof fn lemma_pool_index_lookup<C>(
    a: EntityComponentManager<C>,
    b: EntityComponentManager<C>,
)
    requires
        forall|i: int, j: int|
            0 <= i < j < a.component_pools@.len() ==> (#[trigger] a.component_pools@[i]).0 != (
            #[trigger] a.component_pools@[j]).0,
        b.component_pools@.len() == a.component_pools@.len(),
        forall|i: int|
            0 <= i < a.component_pools@.len() ==> (#[trigger] b.component_pools@[i]).0
                == a.component_pools@[i].0,
    ensures
        forall|t2: u64| #[trigger] b.spec_has_pool(t2) == a.spec_has_pool(t2),
        forall|t2: u64|
            a.spec_has_pool(t2) ==> #[trigger] b.spec_pool_at(t2) == a.spec_pool_at(t2) && 0
                <= a.spec_pool_at(t2) < a.component_pools@.len() && a.component_pools@[a.spec_pool_at(
                t2,
            )].0 == t2,
{
    assert forall|t2: u64| #[trigger] b.spec_has_pool(t2) == a.spec_has_pool(t2) by {
        if spec_pools_has(a.component_pools@, t2) {
            let k = spec_pools_at(a.component_pools@, t2);
            assert(b.component_pools@[k].0 == t2);
        }
        if spec_pools_has(b.component_pools@, t2) {
            let k = spec_pools_at(b.component_pools@, t2);
            assert(a.component_pools@[k].0 == t2);
        }
    }
    assert forall|t2: u64| a.spec_has_pool(t2) implies #[trigger] b.spec_pool_at(t2)
        == a.spec_pool_at(t2) && 0 <= a.spec_pool_at(t2) < a.component_pools@.len()
        && a.component_pools@[a.spec_pool_at(t2)].0 == t2 by {
        let i = spec_pools_at(a.component_pools@, t2);
        assert(0 <= i < a.component_pools@.len() && a.component_pools@[i].0 == t2);
        assert(b.component_pools@[i].0 == t2);
        assert(b.spec_has_pool(t2));
        let k = spec_pools_at(b.component_pools@, t2);
        assert(0 <= k < b.component_pools@.len() && b.component_pools@[k].0 == t2);
        assert(a.component_pools@[k].0 == t2);
        if k < i {
            assert(a.component_pools@[k].0 != a.component_pools@[i].0);
        }
        if i < k {
            assert(a.component_pools@[i].0 != a.component_pools@[k].0);
        }
    }
}

/// Changing only component values in place, with every slot's generation
/// stamp and presence kept, preserves the store's well-formedness.
pub proof fn lemma_wf_value_update<C>(a: EntityComponentManager<C>, b: EntityComponentManager<C>)
    requires
        a.wf(),
        b.entity_manager == a.entity_manager,
        b.entity_components == a.entity_components,
        b.component_pools@.len() == a.component_pools@.len(),
        forall|i: int|
            0 <= i < a.component_pools@.len() ==> (#[trigger] b.component_pools@[i]).0
                == a.component_pools@[i].0,
        forall|i: int, id: u32|
            0 <= i < a.component_pools@.len() ==> ((#[trigger] b.component_pools@[i].1.spec_slot(
                id,
            )).0 == a.component_pools@[i].1.spec_slot(id).0 && (b.component_pools@[i].1.spec_slot(
                id,
            ).1 is Some <==> a.component_pools@[i].1.spec_slot(id).1 is Some)),
    ensures
        b.wf(),
{
    assert forall|id: u32| (#[trigger] b.spec_entry(id)) is Some <==> b.entity_manager.id_active(
        id,
    ) by {
        assert(b.spec_entry(id) == a.spec_entry(id));
        assert(a.spec_entry(id) is Some <==> a.entity_manager.id_active(id));
    }
    assert forall|t: u64| #[trigger] b.spec_has_pool(t) == a.spec_has_pool(t) by {
        if spec_pools_has(a.component_pools@, t) {
            let k = spec_pools_at(a.component_pools@, t);
            assert(b.component_pools@[k].0 == t);
        }
        if spec_pools_has(b.component_pools@, t) {
            let k = spec_pools_at(b.component_pools@, t);
            assert(a.component_pools@[k].0 == t);
        }
    }
    assert forall|id: u32, tag: u64|
        b.entity_manager.id_active(id) implies ((#[trigger] b.spec_tag_set(id).contains(tag))
        <==> ((#[trigger] b.spec_slot(tag, id)).0 == b.entity_manager.spec_generation(id)
        && b.spec_slot(tag, id).1 is Some)) by {
        assert(a.spec_tag_set(id).contains(tag) <==> ((a.spec_slot(tag, id)).0
            == a.entity_manager.spec_generation(id) && a.spec_slot(tag, id).1 is Some));
        assert(b.spec_tags(id) == a.spec_tags(id));
        if a.spec_has_pool(tag) {
            let i = spec_pools_at(a.component_pools@, tag);
            let k = spec_pools_at(b.component_pools@, tag);
            assert(a.component_pools@[i].0 == tag);
            assert(b.component_pools@[k].0 == tag);
            assert(a.component_pools@[k].0 == tag);
            if i < k {
                assert(a.component_pools@[i].0 != a.component_pools@[k].0);
            }
            if k < i {
                assert(a.component_pools@[k].0 != a.component_pools@[i].0);
            }
            assert(b.spec_slot(tag, id) == b.component_pools@[i].1.spec_slot(id));
        }
    }
    assert forall|id: u32, i: int, j: int|
        0 <= i < j < b.spec_tags(id).len() implies (#[trigger] b.spec_tags(id)[i]) != (
    #[trigger] b.spec_tags(id)[j]) by {
        assert(b.spec_tags(id) == a.spec_tags(id));
        assert(a.spec_tags(id)[i] != a.spec_tags(id)[j]);
    }
}

impl<C> EntityComponentManager<C> {
    /// Detaches the component under `tag` from `entity`: the slot's value
    /// is cleared while its generation stamp stays, and the tag leaves
    /// the entity's tag set.  Fails with `NoSuchComponent` when no pool
    /// for `tag` was ever created -- even for a dead handle, which is
    /// only checked second -- and with `DeadEntity` for a stale handle.
    pub fn remove_component(&mut self, entity: Entity, tag: u64) -> (r: Result<(), EcsError>)
        requires
            old(self).wf(),
        ensures
            final(self).wf(),
            !old(self).spec_has_pool(tag) ==> r == Err::<(), EcsError>(EcsError::NoSuchComponent)
                && *final(self) == *old(self),
            old(self).spec_has_pool(tag) && !old(self).spec_live(entity) ==> r == Err::<
                (),
                EcsError,
            >(EcsError::DeadEntity) && *final(self) == *old(self),
            old(self).spec_has_pool(tag) && old(self).spec_live(entity) ==> {
                &&& r == Ok::<(), EcsError>(())
                &&& final(self).entity_manager == old(self).entity_manager
                &&& forall|e2: Entity| final(self).spec_live(e2) == old(self).spec_live(e2)
                &&& final(self).spec_tag_set(entity.id) == old(self).spec_tag_set(
                    entity.id,
                ).remove(tag)
                &&& forall|id: u32|
                    id != entity.id ==> final(self).spec_entry(id) == old(self).spec_entry(id)
                &&& final(self).spec_entry(entity.id) is Some
                &&& forall|t2: u64| final(self).spec_has_pool(t2) == old(self).spec_has_pool(t2)
                &&& final(self).spec_component(entity, tag) is None
                &&& final(self).spec_slot(tag, entity.id).1 is None
                &&& forall|t2: u64, id: u32|
                    !(t2 == tag && id == entity.id) ==> final(self).spec_slot(t2, id) == old(
                        self,
                    ).spec_slot(t2, id)
            },
    {
        let pool_idx = match self.find_pool(tag) {
            None => {
                return Err(EcsError::NoSuchComponent);
            },
            Some(i) => i,
        };
        if !self.check_live(entity) {
            return Err(EcsError::DeadEntity);
        }
        proof {
            assert(old(self).spec_entry(entity.id) is Some);
        }
        let idx = entity.id as usize;
        let new_tags: Vec<u64>;
        match &self.entity_components[idx] {
            Some(t) => {
                proof {
                    assert(t@ == self.spec_tags(entity.id));
                    assert forall|i2: int, j2: int| 0 <= i2 < j2 < t@.len() implies t@[i2]
                        != t@[j2] by {
                        assert(self.spec_tags(entity.id)[i2] != self.spec_tags(entity.id)[j2]);
                    }
                }
                new_tags = remove_u64(t, tag);
            },
            None => {
                proof {
                    assert(false);
                }
                new_tags = Vec::new();
            },
        }
        proof {
            assert(new_tags@.to_set() =~= old(self).spec_tag_set(entity.id).remove(tag));
        }
        let ghost tags_seq = new_tags@;
        self.entity_components[idx] = Some(new_tags);
        let ghost mid = *self;
        proof {
            assert forall|id: u32| id != entity.id implies mid.spec_entry(id) == old(
                self,
            ).spec_entry(id) by {}
            assert(mid.spec_tags(entity.id) == tags_seq);
        }
        self.component_pools[pool_idx].1.remove(entity);
        proof {
            let fin = *self;
            let pools = mid.component_pools@;
            let i = pool_idx as int;
            let p = fin.component_pools@[i];
            assert(fin.component_pools@ == pools.update(i, p));
            assert(p.0 == tag);
            assert(fin.spec_pool_at(tag) == i) by {
                let k = spec_pools_at(fin.component_pools@, tag);
                assert(0 <= k < fin.component_pools@.len() && fin.component_pools@[k].0 == tag);
                if k < i {
                    assert(pools[k].0 != pools[i].0);
                }
                if i < k {
                    assert(pools[i].0 != pools[k].0);
                }
            }
            assert forall|t2: u64| fin.spec_has_pool(t2) == old(self).spec_has_pool(t2) by {
                lemma_pools_update(pools, i, p, t2);
            }
            assert(fin.spec_slot(tag, entity.id).1 is None);
            assert forall|t2: u64, id: u32|
                !(t2 == tag && id == entity.id) implies #[trigger] fin.spec_slot(t2, id)
                == mid.spec_slot(t2, id) by {
                lemma_pools_update(pools, i, p, t2);
                if t2 == tag {
                    assert(fin.spec_slot(t2, id) == p.1.spec_slot(id));
                } else {
                    if spec_pools_has(pools, t2) {
                        let m = spec_pools_at(fin.component_pools@, t2);
                        assert(pools[m].0 == t2);
                        assert(m != i);
                        assert(fin.component_pools@[m] == pools[m]);
                        let m0 = spec_pools_at(pools, t2);
                        assert(pools[m0].0 == t2);
                        if m0 < m {
                            assert(pools[m0].0 != pools[m].0);
                        }
                        if m < m0 {
                            assert(pools[m].0 != pools[m0].0);
                        }
                    }
                }
            }
            // well-formedness
            assert forall|id: u32|
                (#[trigger] fin.spec_entry(id)) is Some <==> fin.entity_manager.id_active(
                id,
            ) by {
                if id != entity.id {
                    assert(old(self).spec_entry(id) is Some <==> old(
                        self,
                    ).entity_manager.id_active(id));
                }
            }
            assert forall|id: u32, i2: int, j2: int|
                0 <= i2 < j2 < fin.spec_tags(id).len() implies (#[trigger] fin.spec_tags(
                id,
            )[i2]) != (#[trigger] fin.spec_tags(id)[j2]) by {
                if id != entity.id {
                    assert(fin.spec_entry(id) == old(self).spec_entry(id));
                    assert(old(self).spec_tags(id)[i2] != old(self).spec_tags(id)[j2]);
                } else {
                    assert(fin.spec_tags(id) == tags_seq);
                }
            }
            assert forall|i2: int, j2: int|
                0 <= i2 < j2 < fin.component_pools@.len() implies (
            #[trigger] fin.component_pools@[i2]).0 != (#[trigger] fin.component_pools@[j2]).0 by {
                assert(pools[i2].0 != pools[j2].0);
            }
            assert forall|i2: int, id: u32|
                0 <= i2 < fin.component_pools@.len() implies (
            #[trigger] fin.component_pools@[i2].1.spec_slot(id)).0
                <= fin.entity_manager.spec_generation(id) by {
                if i2 == i && id == entity.id {
                    assert(fin.component_pools@[i2].1.spec_slot(id).0 == entity.generation || (
                    fin.component_pools@[i2].1.spec_slot(id).0 == 0));
                } else if i2 == i {
                    assert(fin.component_pools@[i2].1.spec_slot(id) == pools[i2].1.spec_slot(
                        id,
                    ));
                    assert(mid.component_pools@[i2].1.spec_slot(id).0
                        <= mid.entity_manager.spec_generation(id));
                } else {
                    assert(fin.component_pools@[i2] == pools[i2]);
                    assert(mid.component_pools@[i2].1.spec_slot(id).0
                        <= mid.entity_manager.spec_generation(id));
                }
            }
            assert forall|i2: int, id: u32|
                0 <= i2 < fin.component_pools@.len() && !fin.entity_manager.id_active(id)
                    && fin.entity_manager.spec_generation(id) >= 1 implies (
            #[trigger] fin.component_pools@[i2].1.spec_slot(id)).0
                < fin.entity_manager.spec_generation(id) by {
                assert(id != entity.id);
                if i2 == i {
                    assert(fin.component_pools@[i2].1.spec_slot(id) == pools[i2].1.spec_slot(
                        id,
                    ));
                }
                assert(mid.component_pools@[i2].1.spec_slot(id).0
                    < mid.entity_manager.spec_generation(id));
            }
            assert forall|i2: int, id: u32|
                0 <= i2 < fin.component_pools@.len() && fin.entity_manager.next_entity_id <= id
                    implies (#[trigger] fin.component_pools@[i2].1.spec_slot(id)) == (
                0u32,
                None::<C>,
            ) by {
                assert(id != entity.id);
                if i2 == i {
                    assert(fin.component_pools@[i2].1.spec_slot(id) == pools[i2].1.spec_slot(
                        id,
                    ));
                }
                assert(mid.component_pools@[i2].1.spec_slot(id) == (0u32, None::<C>));
            }
            assert forall|id: u32, t: u64|
                fin.entity_manager.id_active(id) implies ((#[trigger] fin.spec_tag_set(
                id,
            ).contains(t)) <==> ((#[trigger] fin.spec_slot(t, id)).0
                == fin.entity_manager.spec_generation(id) && fin.spec_slot(t, id).1
                is Some)) by {
                if id == entity.id {
                    if t == tag {
                        assert(!fin.spec_tag_set(id).contains(t));
                        assert(!(fin.spec_slot(t, id).1 is Some));
                    } else {
                        assert(fin.spec_slot(t, id) == old(self).spec_slot(t, id));
                        assert(fin.spec_tag_set(id).contains(t) == old(self).spec_tag_set(
                            id,
                        ).contains(t));
                        assert(old(self).spec_tag_set(id).contains(t) <==> ((old(
                            self,
                        ).spec_slot(t, id)).0 == old(self).entity_manager.spec_generation(id)
                            && old(self).spec_slot(t, id).1 is Some));
                    }
                } else {
                    assert(fin.spec_entry(id) == old(self).spec_entry(id));
                    assert(fin.spec_slot(t, id) == old(self).spec_slot(t, id));
                    assert(old(self).spec_tag_set(id).contains(t) <==> ((old(self).spec_slot(
                        t,
                        id,
                    )).0 == old(self).entity_manager.spec_generation(id) && old(
                        self,
                    ).spec_slot(t, id).1 is Some));
                }
            }
            assert forall|e2: Entity| fin.spec_live(e2) == old(self).spec_live(e2) by {}
            assert(fin.spec_tag_set(entity.id) == old(self).spec_tag_set(entity.id).remove(tag));
        }
        Ok(())
    }

    /// The component attached to `entity` under `tag`: `Ok(None)` both
    /// when the entity lacks the component and when no pool for `tag`
    /// exists at all; callers needing the distinction check the tag index
    /// through `has_components` first.
    pub fn get_component(&self, entity: Entity, tag: u64) -> (r: Result<Option<&C>, EcsError>)
        requires
            self.wf(),
        ensures
            match r {
                Ok(o) => self.spec_live(entity) && (match o {
                    Some(v) => self.spec_component(entity, tag) == Some(*v),
                    None => self.spec_component(entity, tag) is None,
                }),
                Err(e) => !self.spec_live(entity) && e == EcsError::DeadEntity,
            },
    {
        if !self.check_live(entity) {
            return Err(EcsError::DeadEntity);
        }
        match self.find_pool(tag) {
            None => Ok(None),
            Some(i) => {
                let r = self.component_pools[i].1.get(entity);
                Ok(r)
            },
        }
    }
}

impl<C> EntityComponentManager<C> {
    /// Mutable access to the component attached to `entity` under `tag`.
    /// Everything but the value behind the returned reference -- every
    /// other slot, every generation stamp, the tag index and the
    /// allocator -- is left untouched; `lemma_wf_value_update`
    /// re-establishes well-formedness once the borrow ends.
    pub fn get_component_mut(&mut self, entity: Entity, tag: u64) -> (r: Result<
        Option<&mut C>,
        EcsError,
    >)
        requires
            old(self).wf(),
        ensures
            match r {
                Ok(o) => old(self).spec_live(entity) && (match o {
                    Some(m) => {
                        &&& old(self).spec_component(entity, tag) == Some(*m)
                        &&& final(self).entity_manager == old(self).entity_manager
                        &&& final(self).entity_components == old(self).entity_components
                        &&& final(self).component_pools@.len() == old(
                            self,
                        ).component_pools@.len()
                        &&& forall|i: int|
                            0 <= i < old(self).component_pools@.len() ==> (
                            #[trigger] final(self).component_pools@[i]).0 == old(
                                self,
                            ).component_pools@[i].0
                        &&& final(self).spec_slot(tag, entity.id) == (
                            old(self).spec_slot(tag, entity.id).0,
                            Some(*final(m)),
                        )
                        &&& forall|i: int, id: u32|
                            0 <= i < old(self).component_pools@.len() && !(old(
                                self,
                            ).component_pools@[i].0 == tag && id == entity.id) ==> (
                            #[trigger] final(self).component_pools@[i].1.spec_slot(id)) == old(
                                self,
                            ).component_pools@[i].1.spec_slot(id)
                    },
                    None => {
                        &&& old(self).spec_component(entity, tag) is None
                        &&& final(self).entity_manager == old(self).entity_manager
                        &&& final(self).entity_components == old(self).entity_components
                        &&& final(self).component_pools@.len() == old(
                            self,
                        ).component_pools@.len()
                        &&& forall|i: int|
                            0 <= i < old(self).component_pools@.len() ==> (
                            #[trigger] final(self).component_pools@[i]).0 == old(
                                self,
                            ).component_pools@[i].0
                        &&& forall|i: int, id: u32|
                            0 <= i < old(self).component_pools@.len() ==> (
                            #[trigger] final(self).component_pools@[i].1.spec_slot(id)) == old(
                                self,
                            ).component_pools@[i].1.spec_slot(id)
                    },
                }),
                Err(e) => {
                    &&& !old(self).spec_live(entity)
                    &&& e == EcsError::DeadEntity
                    &&& *final(self) == *old(self)
                },
            },
    {
        if !self.check_live(entity) {
            return Err(EcsError::DeadEntity);
        }
        let pool_idx = match self.find_pool(tag) {
            None => {
                return Ok(None);
            },
            Some(i) => i,
        };
        let ghost pre = *self;
        let pool = &mut self.component_pools[pool_idx].1;
        Ok(pool.get_mut(entity))
    }

    /// The tag set of a live entity; `None` for a stale or unknown
    /// handle.
    pub fn has_components(&self, entity: Entity) -> (r: Option<&Vec<u64>>)
        requires
            self.wf(),
        ensures
            match r {
                Some(t) => self.spec_live(entity) && t@ == self.spec_tags(entity.id),
                None => !self.spec_live(entity),
            },
    {
        if !self.check_live(entity) {
            return None;
        }
        proof {
            assert(self.spec_entry(entity.id) is Some);
        }
        match &self.entity_components[entity.id as usize] {
            Some(t) => Some(t),
            None => None,
        }
    }

    /// Every live entity, in increasing id order.
    pub fn entities(&self) -> (r: Vec<Entity>)
        requires
            self.wf(),
        ensures
            forall|k: int| 0 <= k < r@.len() ==> self.spec_live(#[trigger] r@[k]),
            forall|i: int, j: int| 0 <= i < j < r@.len() ==> r@[i].id < r@[j].id,
            forall|e: Entity| self.spec_live(e) ==> r@.contains(e),
            forall|e: Entity| r@.contains(e) ==> self.spec_live(e),
    {
        let mut r: Vec<Entity> = Vec::new();
        let mut id: usize = 0;
        while id < self.entity_components.len()
            invariant
                self.wf(),
                id <= self.entity_components@.len(),
                forall|k: int| 0 <= k < r@.len() ==> self.spec_live(#[trigger] r@[k]),
                forall|i: int, j: int| 0 <= i < j < r@.len() ==> r@[i].id < r@[j].id,
                forall|k: int| 0 <= k < r@.len() ==> (#[trigger] r@[k]).id < id,
                forall|e: Entity| self.spec_live(e) && (e.id as int) < id ==> r@.contains(e),
            decreases self.entity_components@.len() - id,
        {
            let ghost r0 = r@;
            if self.entity_components[id].is_some() {
                let e = Entity {
                    id: id as u32,
                    generation: self.entity_manager.alive_generation(id as u32),
                };
                proof {
                    assert(self.spec_entry(id as u32) is Some);
                }
                r.push(e);
            }
            id = id + 1;
            proof {
                assert forall|e: Entity|
                    self.spec_live(e) && (e.id as int) < id implies r@.contains(e) by {
                    if (e.id as int) < id - 1 {
                        assert(r0.contains(e));
                        let k = choose|k: int| 0 <= k < r0.len() && r0[k] == e;
                        assert(r@[k] == e);
                    } else {
                        assert(e.id as int == id - 1);
                        assert(self.spec_entry(e.id) is Some);
                        assert(r@[r@.len() - 1] == e);
                    }
                }
            }
        }
        proof {
            assert forall|e: Entity| self.spec_live(e) implies r@.contains(e) by {
                assert(self.spec_entry(e.id) is Some);
            }
            assert forall|e: Entity| r@.contains(e) implies self.spec_live(e) by {
                let k = choose|k: int| 0 <= k < r@.len() && r@[k] == e;
            }
        }
        r
    }

    /// Every live entity paired with a copy of its tag list, in
    /// increasing id order.
    pub fn entities_and_components(&self) -> (r: Vec<(Entity, Vec<u64>)>)
        requires
            self.wf(),
        ensures
            forall|k: int|
                0 <= k < r@.len() ==> self.spec_live((#[trigger] r@[k]).0) && r@[k].1@
                    == self.spec_tags(r@[k].0.id),
            forall|i: int, j: int| 0 <= i < j < r@.len() ==> r@[i].0.id < r@[j].0.id,
            forall|e: Entity|
                self.spec_live(e) ==> exists|k: int| 0 <= k < r@.len() && (#[trigger] r@[k]).0
                    == e,
    {
        let mut r: Vec<(Entity, Vec<u64>)> = Vec::new();
        let mut id: usize = 0;
        while id < self.entity_components.len()
            invariant
                self.wf(),
                id <= self.entity_components@.len(),
                forall|k: int|
                    0 <= k < r@.len() ==> self.spec_live((#[trigger] r@[k]).0) && r@[k].1@
                        == self.spec_tags(r@[k].0.id),
                forall|i: int, j: int| 0 <= i < j < r@.len() ==> r@[i].0.id < r@[j].0.id,
                forall|k: int| 0 <= k < r@.len() ==> (#[trigger] r@[k]).0.id < id,
                forall|e: Entity|
                    self.spec_live(e) && (e.id as int) < id ==> exists|k: int|
                        0 <= k < r@.len() && (#[trigger] r@[k]).0 == e,
            decreases self.entity_components@.len() - id,
        {
            let ghost r0 = r@;
            match &self.entity_components[id] {
                Some(tags) => {
                    let e = Entity {
                        id: id as u32,
                        generation: self.entity_manager.alive_generation(id as u32),
                    };
                    proof {
                        assert(self.spec_entry(id as u32) is Some);
                        assert(tags@ == self.spec_tags(id as u32));
                    }
                    let copied = copy_u64s(tags);
                    r.push((e, copied));
                },
                None => {},
            }
            id = id + 1;
            proof {
                assert forall|e: Entity|
                    self.spec_live(e) && (e.id as int) < id implies exists|k: int|
                        0 <= k < r@.len() && (#[trigger] r@[k]).0 == e by {
                    if (e.id as int) < id - 1 {
                        let k = choose|k: int| 0 <= k < r0.len() && r0[k].0 == e;
                        assert(r@[k].0 == e);
                    } else {
                        assert(e.id as int == id - 1);
                        assert(self.spec_entry(e.id) is Some);
                        assert(r@[r@.len() - 1].0 == e);
                    }
                }
            }
        }
        proof {
            assert forall|e: Entity|
                self.spec_live(e) implies exists|k: int|
                    0 <= k < r@.len() && (#[trigger] r@[k]).0 == e by {
                assert(self.spec_entry(e.id) is Some);
            }
        }
        r
    }
}

/// Membership in a pushed sequence of entities.
proof fn lemma_push_contains_entity(s: Seq<Entity>, x: Entity, y: Entity)
    ensures
        s.push(x).contains(y) == (s.contains(y) || y == x),
{
    if s.contains(y) {
        let k = choose|k: int| 0 <= k < s.len() && s[k] == y;
        assert(s.push(x)[k] == y);
    }
    if y == x {
        assert(s.push(x)[s.len() as int] == y);
    }
    if s.push(x).contains(y) {
        let k = choose|k: int| 0 <= k < s.push(x).len() && s.push(x)[k] == y;
        if k < s.len() {
            assert(s[k] == y);
        }
    }
}

/// The change-tracking view of a store that a running system receives.
///
/// Every mutation made through it records the touched handle in
/// `changed_entities`; a ghost snapshot of the store at construction
/// witnesses that the liveness and tag set of every unrecorded handle are
/// still what they were, which is what lets the registry reconcile
/// interest sets by revisiting only the recorded handles after the run.
pub struct EntityComponentWrapper<C> {
    pub ec_manager: EntityComponentManager<C>,
    pub changed_entities: Vec<Entity>,
    pub snapshot: Ghost<EntityComponentManager<C>>,
}

impl<C> EntityComponentWrapper<C> {
    pub open spec fn wf(self) -> bool {
        &&& self.ec_manager.wf()
        &&& forall|e: Entity|
            !(#[trigger] self.changed_entities@.contains(e)) ==> (self.ec_manager.spec_live(e)
                == self.snapshot@.spec_live(e)) && (self.ec_manager.spec_live(e)
                ==> self.ec_manager.spec_tag_set(e.id) == self.snapshot@.spec_tag_set(e.id))
    }

    pub open spec fn spec_live(self, e: Entity) -> bool {
        self.ec_manager.spec_live(e)
    }

    pub open spec fn can_create(self) -> bool {
        self.ec_manager.can_create()
    }

    /// Wraps a store; the change record starts empty.
    pub fn new(ec_manager: EntityComponentManager<C>) -> (r: Self)
        requires
            ec_manager.wf(),
        ensures
            r.wf(),
            r.ec_manager == ec_manager,
            r.changed_entities@ == Seq::<Entity>::empty(),
            r.snapshot@ == ec_manager,
    {
        Self {
            snapshot: Ghost(ec_manager),
            ec_manager,
            changed_entities: Vec::new(),
        }
    }

    /// Issues a fresh entity and records it as changed.
    pub fn create_entity(&mut self) -> (e: Entity)
        requires
            old(self).wf(),
            old(self).can_create(),
        ensures
            final(self).wf(),
            final(self).snapshot == old(self).snapshot,
            final(self).changed_entities@ == old(self).changed_entities@.push(e),
            final(self).ec_manager.spec_live(e),
            !old(self).ec_manager.spec_live(e),
            final(self).ec_manager.spec_tags(e.id) == Seq::<u64>::empty(),
            forall|e2: Entity|
                e2 != e ==> final(self).ec_manager.spec_live(e2) == old(
                    self,
                ).ec_manager.spec_live(e2),
            forall|id: u32|
                id != e.id ==> final(self).ec_manager.spec_entry(id) == old(
                    self,
                ).ec_manager.spec_entry(id),
            final(self).ec_manager.component_pools == old(self).ec_manager.component_pools,
    {
        let e = self.ec_manager.create_entity();
        self.changed_entities.push(e);
        proof {
            assert forall|e2: Entity|
                !(#[trigger] self.changed_entities@.contains(e2)) implies (
            self.ec_manager.spec_live(e2) == self.snapshot@.spec_live(e2)) && (
            self.ec_manager.spec_live(e2) ==> self.ec_manager.spec_tag_set(e2.id)
                == self.snapshot@.spec_tag_set(e2.id)) by {
                lemma_push_contains_entity(old(self).changed_entities@, e, e2);
                assert(!old(self).changed_entities@.contains(e2));
                assert(e2 != e);
                if self.ec_manager.spec_live(e2) && e2.id == e.id {
                    assert(e2.generation == self.ec_manager.entity_manager.spec_generation(
                        e2.id,
                    ));
                    assert(e2 == e);
                }
                if self.ec_manager.spec_live(e2) {
                    assert(self.ec_manager.spec_entry(e2.id) == old(self).ec_manager.spec_entry(
                        e2.id,
                    ));
                }
            }
        }
        e
    }

    /// Removes a live entity and records the handle as changed; the
    /// handle is recorded even when the removal fails, which is harmless.
    pub fn remove_entity(&mut self, entity: Entity) -> (r: Result<(), EcsError>)
        requires
            old(self).wf(),
        ensures
            final(self).wf(),
            final(self).snapshot == old(self).snapshot,
            final(self).changed_entities@ == old(self).changed_entities@.push(entity),
            !old(self).ec_manager.spec_live(entity) ==> r == Err::<(), EcsError>(
                EcsError::DeadEntity,
            ) && final(self).ec_manager == old(self).ec_manager,
            old(self).ec_manager.spec_live(entity) ==> {
                &&& r == Ok::<(), EcsError>(())
                &&& forall|e2: Entity|
                    e2.id != entity.id ==> final(self).ec_manager.spec_live(e2) == old(
                        self,
                    ).ec_manager.spec_live(e2)
                &&& forall|e2: Entity| e2.id == entity.id ==> !final(self).ec_manager.spec_live(e2)
                &&& forall|id: u32|
                    id != entity.id ==> final(self).ec_manager.spec_entry(id) == old(
                        self,
                    ).ec_manager.spec_entry(id)
                &&& final(self).ec_manager.spec_entry(entity.id) is None
                &&& final(self).ec_manager.component_pools == old(self).ec_manager.component_pools
                &&& final(self).ec_manager.entity_manager.spec_generation(entity.id)
                    == entity.generation + 1
            },
    {
        self.changed_entities.push(entity);
        let r = self.ec_manager.remove_entity(entity);
        proof {
            assert forall|e2: Entity|
                !(#[trigger] self.changed_entities@.contains(e2)) implies (
            self.ec_manager.spec_live(e2) == self.snapshot@.spec_live(e2)) && (
            self.ec_manager.spec_live(e2) ==> self.ec_manager.spec_tag_set(e2.id)
                == self.snapshot@.spec_tag_set(e2.id)) by {
                lemma_push_contains_entity(old(self).changed_entities@, entity, e2);
                assert(!old(self).changed_entities@.contains(e2));
                assert(e2 != entity);
                if old(self).ec_manager.spec_live(entity) {
                    if self.ec_manager.spec_live(e2) {
                        assert(e2.id != entity.id);
                        assert(self.ec_manager.spec_entry(e2.id) == old(
                            self,
                        ).ec_manager.spec_entry(e2.id));
                    }
                    if old(self).ec_manager.spec_live(e2) {
                        assert(e2.id != entity.id || e2 == entity);
                    }
                }
            }
        }
        r
    }

    /// Pure generation comparison.
    pub fn is_alive(&self, entity: Entity) -> (r: bool)
        ensures
            r == self.ec_manager.entity_manager.spec_alive(entity),
    {
        self.ec_manager.is_alive(entity)
    }

    /// Pure generation comparison.
    pub fn is_dead(&self, entity: Entity) -> (r: bool)
        ensures
            r == !self.ec_manager.entity_manager.spec_alive(entity),
    {
        self.ec_manager.is_dead(entity)
    }

    /// Attaches a component and records the handle as changed.
    pub fn add_component(&mut self, entity: Entity, tag: u64, component: C) -> (r: Result<
        (),
        EcsError,
    >)
        requires
            old(self).wf(),
        ensures
            final(self).wf(),
            final(self).snapshot == old(self).snapshot,
            final(self).changed_entities@ == old(self).changed_entities@.push(entity),
            !old(self).ec_manager.spec_live(entity) ==> r == Err::<(), EcsError>(
                EcsError::DeadEntity,
            ) && final(self).ec_manager == old(self).ec_manager,
            old(self).ec_manager.spec_live(entity) ==> {
                &&& r == Ok::<(), EcsError>(())
                &&& final(self).ec_manager.entity_manager == old(self).ec_manager.entity_manager
                &&& forall|e2: Entity|
                    final(self).ec_manager.spec_live(e2) == old(self).ec_manager.spec_live(e2)
                &&& final(self).ec_manager.spec_tag_set(entity.id) == old(
                    self,
                ).ec_manager.spec_tag_set(entity.id).insert(tag)
                &&& forall|id: u32|
                    id != entity.id ==> final(self).ec_manager.spec_entry(id) == old(
                        self,
                    ).ec_manager.spec_entry(id)
                &&& final(self).ec_manager.spec_slot(tag, entity.id) == (
                    entity.generation,
                    Some(component),
                )
                &&& forall|t2: u64, id: u32|
                    !(t2 == tag && id == entity.id) ==> final(self).ec_manager.spec_slot(t2, id)
                        == old(self).ec_manager.spec_slot(t2, id)
                &&& final(self).ec_manager.spec_component(entity, tag) == Some(component)
            },
    {
        self.changed_entities.push(entity);
        let r = self.ec_manager.add_component(entity, tag, component);
        proof {
            assert forall|e2: Entity|
                !(#[trigger] self.changed_entities@.contains(e2)) implies (
            self.ec_manager.spec_live(e2) == self.snapshot@.spec_live(e2)) && (
            self.ec_manager.spec_live(e2) ==> self.ec_manager.spec_tag_set(e2.id)
                == self.snapshot@.spec_tag_set(e2.id)) by {
                lemma_push_contains_entity(old(self).changed_entities@, entity, e2);
                assert(!old(self).changed_entities@.contains(e2));
                assert(e2 != entity);
                if old(self).ec_manager.spec_live(entity) && self.ec_manager.spec_live(e2) {
                    if e2.id == entity.id {
                        assert(e2.generation == self.ec_manager.entity_manager.spec_generation(
                            e2.id,
                        ));
                        assert(old(self).ec_manager.spec_live(e2));
                        assert(e2 == entity);
                    }
                    assert(self.ec_manager.spec_entry(e2.id) == old(self).ec_manager.spec_entry(
                        e2.id,
                    ));
                }
            }
        }
        r
    }

    /// Detaches a component and records the handle as changed.
    pub fn remove_component(&mut self, entity: Entity, tag: u64) -> (r: Result<(), EcsError>)
        requires
            old(self).wf(),
        ensures
            final(self).wf(),
            final(self).snapshot == old(self).snapshot,
            final(self).changed_entities@ == old(self).changed_entities@.push(entity),
            !old(self).ec_manager.spec_has_pool(tag) ==> r == Err::<(), EcsError>(
                EcsError::NoSuchComponent,
            ) && final(self).ec_manager == old(self).ec_manager,
            old(self).ec_manager.spec_has_pool(tag) && !old(self).ec_manager.spec_live(entity)
                ==> r == Err::<(), EcsError>(EcsError::DeadEntity) && final(self).ec_manager
                == old(self).ec_manager,
            old(self).ec_manager.spec_has_pool(tag) && old(self).ec_manager.spec_live(entity)
                ==> {
                &&& r == Ok::<(), EcsError>(())
                &&& final(self).ec_manager.entity_manager == old(self).ec_manager.entity_manager
                &&& forall|e2: Entity|
                    final(self).ec_manager.spec_live(e2) == old(self).ec_manager.spec_live(e2)
                &&& final(self).ec_manager.spec_tag_set(entity.id) == old(
                    self,
                ).ec_manager.spec_tag_set(entity.id).remove(tag)
                &&& forall|id: u32|
                    id != entity.id ==> final(self).ec_manager.spec_entry(id) == old(
                        self,
                    ).ec_manager.spec_entry(id)
                &&& final(self).ec_manager.spec_component(entity, tag) is None
                &&& forall|t2: u64, id: u32|
                    !(t2 == tag && id == entity.id) ==> final(self).ec_manager.spec_slot(t2, id)
                        == old(self).ec_manager.spec_slot(t2, id)
            },
    {
        self.changed_entities.push(entity);
        let r = self.ec_manager.remove_component(entity, tag);
        proof {
            assert forall|e2: Entity|
                !(#[trigger] self.changed_entities@.contains(e2)) implies (
            self.ec_manager.spec_live(e2) == self.snapshot@.spec_live(e2)) && (
            self.ec_manager.spec_live(e2) ==> self.ec_manager.spec_tag_set(e2.id)
                == self.snapshot@.spec_tag_set(e2.id)) by {
                lemma_push_contains_entity(old(self).changed_entities@, entity, e2);
                assert(!old(self).changed_entities@.contains(e2));
                assert(e2 != entity);
                if self.ec_manager.spec_live(e2) {
                    if old(self).ec_manager.spec_has_pool(tag) && old(
                        self,
                    ).ec_manager.spec_live(entity) && e2.id == entity.id {
                        assert(e2.generation == self.ec_manager.entity_manager.spec_generation(
                            e2.id,
                        ));
                        assert(old(self).ec_manager.spec_live(e2));
                        assert(e2 == entity);
                    }
                    assert(self.ec_manager.spec_entry(e2.id) == old(self).ec_manager.spec_entry(
                        e2.id,
                    ));
                }
            }
        }
        r
    }

    /// Reads a component; reads record nothing.
    pub fn get_component(&self, entity: Entity, tag: u64) -> (r: Result<Option<&C>, EcsError>)
        requires
            self.wf(),
        ensures
            match r {
                Ok(o) => self.ec_manager.spec_live(entity) && (match o {
                    Some(v) => self.ec_manager.spec_component(entity, tag) == Some(*v),
                    None => self.ec_manager.spec_component(entity, tag) is None,
                }),
                Err(e) => !self.ec_manager.spec_live(entity) && e == EcsError::DeadEntity,
            },
    {
        self.ec_manager.get_component(entity, tag)
    }

    /// Mutable access to a component's value.  Only the value behind the
    /// returned reference can change; liveness, tag sets and every other
    /// slot stay as they are, so nothing needs recording.
    /// `lemma_wrapper_wf_value_update` re-establishes well-formedness
    /// once the borrow ends.
    pub fn get_component_mut(&mut self, entity: Entity, tag: u64) -> (r: Result<
        Option<&mut C>,
        EcsError,
    >)
        requires
            old(self).wf(),
        ensures
            final(self).snapshot == old(self).snapshot,
            final(self).changed_entities == old(self).changed_entities,
            match r {
                Ok(o) => old(self).ec_manager.spec_live(entity) && (match o {
                    Some(m) => {
                        &&& old(self).ec_manager.spec_component(entity, tag) == Some(*m)
                        &&& final(self).ec_manager.entity_manager == old(
                            self,
                        ).ec_manager.entity_manager
                        &&& final(self).ec_manager.entity_components == old(
                            self,
                        ).ec_manager.entity_components
                        &&& final(self).ec_manager.component_pools@.len() == old(
                            self,
                        ).ec_manager.component_pools@.len()
                        &&& forall|i: int|
                            0 <= i < old(self).ec_manager.component_pools@.len() ==> (
                            #[trigger] final(self).ec_manager.component_pools@[i]).0 == old(
                                self,
                            ).ec_manager.component_pools@[i].0
                        &&& final(self).ec_manager.spec_slot(tag, entity.id) == (
                            old(self).ec_manager.spec_slot(tag, entity.id).0,
                            Some(*final(m)),
                        )
                        &&& forall|i: int, id: u32|
                            0 <= i < old(self).ec_manager.component_pools@.len() && !(old(
                                self,
                            ).ec_manager.component_pools@[i].0 == tag && id == entity.id) ==> (
                            #[trigger] final(self).ec_manager.component_pools@[i].1.spec_slot(
                                id,
                            )) == old(self).ec_manager.component_pools@[i].1.spec_slot(id)
                    },
                    None => {
                        &&& old(self).ec_manager.spec_component(entity, tag) is None
                        &&& final(self).ec_manager.entity_manager == old(
                            self,
                        ).ec_manager.entity_manager
                        &&& final(self).ec_manager.entity_components == old(
                            self,
                        ).ec_manager.entity_components
                        &&& final(self).ec_manager.component_pools@.len() == old(
                            self,
                        ).ec_manager.component_pools@.len()
                        &&& forall|i: int|
                            0 <= i < old(self).ec_manager.component_pools@.len() ==> (
                            #[trigger] final(self).ec_manager.component_pools@[i]).0 == old(
                                self,
                            ).ec_manager.component_pools@[i].0
                        &&& forall|i: int, id: u32|
                            0 <= i < old(self).ec_manager.component_pools@.len() ==> (
                            #[trigger] final(self).ec_manager.component_pools@[i].1.spec_slot(
                                id,
                            )) == old(self).ec_manager.component_pools@[i].1.spec_slot(id)
                    },
                }),
                Err(e) => {
                    &&& !old(self).ec_manager.spec_live(entity)
                    &&& e == EcsError::DeadEntity
                    &&& *final(self) == *old(self)
                },
            },
    {
        self.ec_manager.get_component_mut(entity, tag)
    }

    /// The tag set of a live entity.
    pub fn has_components(&self, entity: Entity) -> (r: Option<&Vec<u64>>)
        requires
            self.wf(),
        ensures
            match r {
                Some(t) => self.ec_manager.spec_live(entity) && t@ == self.ec_manager.spec_tags(
                    entity.id,
                ),
                None => !self.ec_manager.spec_live(entity),
            },
    {
        self.ec_manager.has_components(entity)
    }

    /// Every live entity, in increasing id order.
    pub fn entities(&self) -> (r: Vec<Entity>)
        requires
            self.wf(),
        ensures
            forall|k: int| 0 <= k < r@.len() ==> self.ec_manager.spec_live(#[trigger] r@[k]),
            forall|i: int, j: int| 0 <= i < j < r@.len() ==> r@[i].id < r@[j].id,
            forall|e: Entity| self.ec_manager.spec_live(e) ==> r@.contains(e),
            forall|e: Entity| r@.contains(e) ==> self.ec_manager.spec_live(e),
    {
        self.ec_manager.entities()
    }

    /// Every live entity with a copy of its tag list.
    pub fn entities_and_components(&self) -> (r: Vec<(Entity, Vec<u64>)>)
        requires
            self.wf(),
        ensures
            forall|k: int|
                0 <= k < r@.len() ==> self.ec_manager.spec_live((#[trigger] r@[k]).0)
                    && r@[k].1@ == self.ec_manager.spec_tags(r@[k].0.id),
            forall|i: int, j: int| 0 <= i < j < r@.len() ==> r@[i].0.id < r@[j].0.id,
            forall|e: Entity|
                self.ec_manager.spec_live(e) ==> exists|k: int|
                    0 <= k < r@.len() && (#[trigger] r@[k]).0 == e,
    {
        self.ec_manager.entities_and_components()
    }

    /// The handles touched through this view so far.
    pub fn changed_entities(&self) -> (r: &Vec<Entity>)
        ensures
            r == self.changed_entities,
    {
        &self.changed_entities
    }
}

/// Changing only component values through `get_component_mut` preserves
/// the wrapped view's well-formedness.
pub proof fn lemma_wrapper_wf_value_update<C>(
    a: EntityComponentWrapper<C>,
    b: EntityComponentWrapper<C>,
)
    requires
        a.wf(),
        b.snapshot == a.snapshot,
        b.changed_entities == a.changed_entities,
        b.ec_manager.entity_manager == a.ec_manager.entity_manager,
        b.ec_manager.entity_components == a.ec_manager.entity_components,
        b.ec_manager.component_pools@.len() == a.ec_manager.component_pools@.len(),
        forall|i: int|
            0 <= i < a.ec_manager.component_pools@.len() ==> (
            #[trigger] b.ec_manager.component_pools@[i]).0 == a.ec_manager.component_pools@[i].0,
        forall|i: int, id: u32|
            0 <= i < a.ec_manager.component_pools@.len() ==> ((
            #[trigger] b.ec_manager.component_pools@[i].1.spec_slot(id)).0
                == a.ec_manager.component_pools@[i].1.spec_slot(id).0 && (
            b.ec_manager.component_pools@[i].1.spec_slot(id).1 is Some
                <==> a.ec_manager.component_pools@[i].1.spec_slot(id).1 is Some)),
    ensures
        b.wf(),
{
    lemma_wf_value_update(a.ec_manager, b.ec_manager);
    assert forall|e: Entity|
        !(#[trigger] b.changed_entities@.contains(e)) implies (b.ec_manager.spec_live(e)
        == b.snapshot@.spec_live(e)) && (b.ec_manager.spec_live(e)
        ==> b.ec_manager.spec_tag_set(e.id) == b.snapshot@.spec_tag_set(e.id)) by {
        assert(!a.changed_entities@.contains(e));
        assert(b.ec_manager.spec_entry(e.id) == a.ec_manager.spec_entry(e.id));
    }
}

/// Whether every element of `req` is among `tags`.
fn is_subset_tags(req: &Vec<u64>, tags: &Vec<u64>) -> (r: bool)
    ensures
        r == (req@.to_set() <= tags@.to_set()),
{
    let mut i: usize = 0;
    while i < req.len()
        invariant
            i <= req@.len(),
            forall|k: int| 0 <= k < i ==> tags@.contains(#[trigger] req@[k]),
        decreases req@.len() - i,
    {
        if !vec_contains_u64(tags, req[i]) {
            proof {
                assert(req@.to_set().contains(req@[i as int]));
                assert(!tags@.to_set().contains(req@[i as int]));
            }
            return false;
        }
        i = i + 1;
    }
    proof {
        assert forall|x: u64| req@.to_set().contains(x) implies tags@.to_set().contains(x) by {
            let k = choose|k: int| 0 <= k < req@.len() && req@[k] == x;
            assert(tags@.contains(req@[k]));
        }
    }
    true
}

/// A fresh copy of an entity list.
fn copy_entities(v: &Vec<Entity>) -> (r: Vec<Entity>)
    ensures
        r@ == v@,
{
    let mut r: Vec<Entity> = Vec::new();
    let mut i: usize = 0;
    while i < v.len()
        invariant
            i <= v@.len(),
            r@ == v@.subrange(0, i as int),
        decreases v@.len() - i,
    {
        r.push(v[i]);
        i = i + 1;
        proof {
            assert(r@ =~= v@.subrange(0, i as int));
        }
    }
    proof {
        assert(v@.subrange(0, v@.len() as int) =~= v@);
    }
    r
}

/// Adds `e` to an interest list if absent; appends at the end, keeping
/// registration order for the rest.
fn interest_insert(v: &mut Vec<Entity>, e: Entity)
    requires
        forall|i: int, j: int| 0 <= i < j < old(v)@.len() ==> old(v)@[i] != old(v)@[j],
    ensures
        forall|i: int, j: int| 0 <= i < j < final(v)@.len() ==> final(v)@[i] != final(v)@[j],
        final(v)@.contains(e),
        forall|e2: Entity| e2 != e ==> final(v)@.contains(e2) == old(v)@.contains(e2),
        old(v)@.contains(e) ==> *final(v) == *old(v),
        !old(v)@.contains(e) ==> final(v)@ == old(v)@.push(e),
{
    if !vec_contains_entity(v, e) {
        v.push(e);
        proof {
            assert(final(v)@[final(v)@.len() - 1] == e);
            assert forall|e2: Entity| e2 != e implies final(v)@.contains(e2) == old(
                v,
            )@.contains(e2) by {
                lemma_push_contains_entity(old(v)@, e, e2);
            }
        }
    }
}

/// Removes `e` from an interest list if present; a no-op otherwise.
fn interest_remove(v: &mut Vec<Entity>, e: Entity)
    requires
        forall|i: int, j: int| 0 <= i < j < old(v)@.len() ==> old(v)@[i] != old(v)@[j],
    ensures
        forall|i: int, j: int| 0 <= i < j < final(v)@.len() ==> final(v)@[i] != final(v)@[j],
        !final(v)@.contains(e),
        forall|e2: Entity| e2 != e ==> final(v)@.contains(e2) == old(v)@.contains(e2),
        !old(v)@.contains(e) ==> *final(v) == *old(v),
{
    let mut i: usize = 0;
    while i < v.len()
        invariant
            i <= v@.len(),
            *v == *old(v),
            forall|a: int, b: int| 0 <= a < b < old(v)@.len() ==> old(v)@[a] != old(v)@[b],
            forall|k: int| 0 <= k < i ==> v@[k] != e,
        decreases v@.len() - i,
    {
        if v[i].id == e.id && v[i].generation == e.generation {
            let ghost pre = v@;
            v.remove(i);
            proof {
                assert(v@ =~= pre.subrange(0, i as int).add(
                    pre.subrange(i as int + 1, pre.len() as int),
                ));
                assert forall|e2: Entity| e2 != e implies v@.contains(e2) == pre.contains(
                    e2,
                ) by {
                    if v@.contains(e2) {
                        let k = choose|k: int| 0 <= k < v@.len() && v@[k] == e2;
                        if k < i {
                            assert(pre[k] == e2);
                        } else {
                            assert(pre[k + 1] == e2);
                        }
                        assert(pre.contains(e2));
                    }
                    if pre.contains(e2) {
                        let k = choose|k: int| 0 <= k < pre.len() && pre[k] == e2;
                        assert(k != i);
                        if k < i {
                            assert(v@[k] == e2);
                        } else {
                            assert(v@[k - 1] == e2);
                        }
                        assert(v@.contains(e2));
                    }
                }
                assert(pre[i as int] == e);
                assert(!v@.contains(e)) by {
                    if v@.contains(e) {
                        let k = choose|k: int| 0 <= k < v@.len() && v@[k] == e;
                        if k < i {
                            assert(pre[k] == e);
                            assert(old(v)@[k] != old(v)@[i as int]);
                        } else {
                            assert(pre[k + 1] == e);
                            assert(old(v)@[i as int] != old(v)@[k + 1]);
                        }
                    }
                }
                assert forall|i2: int, j2: int|
                    0 <= i2 < j2 < v@.len() implies v@[i2] != v@[j2] by {
                    let a2: int = if i2 < i { i2 } else { i2 + 1 };
                    let b2: int = if j2 < i { j2 } else { j2 + 1 };
                    assert(v@[i2] == pre[a2] && v@[j2] == pre[b2]);
                    assert(old(v)@[a2] != old(v)@[b2]);
                }
            }
            return ;
        }
        i = i + 1;
    }
    proof {
        assert(!v@.contains(e)) by {
            if v@.contains(e) {
                let k = choose|k: int| 0 <= k < v@.len() && v@[k] == e;
            }
        }
    }
}

/// The bookkeeping half of one registered system: its tag, its required
/// component-type set, and its interest set -- the live entities whose
/// tags cover the requirement, in registration order.
pub struct SystemRecord {
    pub system_tag: u64,
    pub required_components: Vec<u64>,
    pub entities: Vec<Entity>,
}

/// Whether a record list holds a record for `tag`.
pub open spec fn spec_records_has(rs: Seq<SystemRecord>, tag: u64) -> bool {
    exists|i: int| 0 <= i < rs.len() && (#[trigger] rs[i]).system_tag == tag
}

/// The index of the record for `tag`.
pub open spec fn spec_records_at(rs: Seq<SystemRecord>, tag: u64) -> int {
    choose|i: int| 0 <= i < rs.len() && (#[trigger] rs[i]).system_tag == tag
}

/// The bookkeeping interface every system offers the registry: a numeric
/// tag naming the system type, and the set of component-type tags an
/// entity must own to interest it.  Both are fixed per system type.
pub trait SystemBase {
    /// The tag under which this system type is registered.
    spec fn tag_spec() -> u64;

    /// The component-type tags this system type requires.
    spec fn required_spec() -> Set<u64>;

    fn system_tag(&self) -> (r: u64)
        ensures
            r == Self::tag_spec(),
    ;

    fn required_components(&self) -> (r: Vec<u64>)
        ensures
            r@.to_set() == Self::required_spec(),
    ;
}

/// The execution interface of a system over component universe `C`: one
/// typed entry point run by the registry with a change-tracking store
/// view, the system's interest set as of the start of the run, and a
/// per-run input.  The contract asks only that the view is used through
/// its own operations: its well-formedness and its creation snapshot
/// must survive the run, which is what lets the registry reconcile
/// interest sets afterwards from the recorded changes alone.
pub trait System<C>: SystemBase {
    type Input<'i>;

    fn run<'i>(
        &self,
        ec_manager: &mut EntityComponentWrapper<C>,
        entities: &Vec<Entity>,
        input: Self::Input<'i>,
    )
        requires
            old(ec_manager).wf(),
        ensures
            final(ec_manager).wf(),
            final(ec_manager).snapshot == old(ec_manager).snapshot,
    ;
}

/// The single entry point through which entities, components and systems
/// are managed.  It owns the store and, for every registered system, an
/// interest-set record; every mutation re-establishes the invariant that
/// each interest set is exactly the live entities whose tag sets cover
/// the system's requirement.
pub struct Registry<C> {
    pub ec_manager: EntityComponentManager<C>,
    pub systems: Vec<SystemRecord>,
}

impl<C> Registry<C> {
    pub open spec fn spec_has_system(self, tag: u64) -> bool {
        spec_records_has(self.systems@, tag)
    }

    pub open spec fn spec_system_at(self, tag: u64) -> int {
        spec_records_at(self.systems@, tag)
    }

    /// The requirement of the system registered under `tag`.
    pub open spec fn spec_required(self, tag: u64) -> Set<u64> {
        self.systems@[self.spec_system_at(tag)].required_components@.to_set()
    }

    /// The interest set of the system registered under `tag`.
    pub open spec fn spec_interest(self, tag: u64) -> Set<Entity> {
        self.systems@[self.spec_system_at(tag)].entities@.to_set()
    }

    pub open spec fn spec_live(self, e: Entity) -> bool {
        self.ec_manager.spec_live(e)
    }

    pub open spec fn can_create(self) -> bool {
        self.ec_manager.can_create()
    }

    /// Whether `e` belongs in the interest set of a system requiring
    /// `required`, as judged against store `ec`.
    pub open spec fn spec_qualifies(
        ec: EntityComponentManager<C>,
        required: Seq<u64>,
        e: Entity,
    ) -> bool {
        ec.spec_live(e) && required.to_set() <= ec.spec_tag_set(e.id)
    }

    pub open spec fn wf(self) -> bool {
        &&& self.ec_manager.wf()
        &&& forall|i: int, j: int|
            0 <= i < j < self.systems@.len() ==> (#[trigger] self.systems@[i]).system_tag != (
            #[trigger] self.systems@[j]).system_tag
        &&& forall|i: int, a: int, b: int|
            0 <= i < self.systems@.len() && 0 <= a < b < self.systems@[i].entities@.len() ==> (
            #[trigger] self.systems@[i].entities@[a]) != (
            #[trigger] self.systems@[i].entities@[b])
        &&& forall|i: int, e: Entity|
            0 <= i < self.systems@.len() ==> ((#[trigger] self.systems@[i].entities@.contains(e))
                <==> Self::spec_qualifies(self.ec_manager, self.systems@[i].required_components@, e))
    }

    pub fn new() -> (r: Self)
        ensures
            r.wf(),
            r.systems@.len() == 0,
            r.ec_manager.entity_manager.next_entity_id == 0,
            forall|e: Entity| !r.spec_live(e),
            forall|tag: u64| !r.ec_manager.spec_has_pool(tag),
            forall|tag: u64| !r.spec_has_system(tag),
    {
        Self { ec_manager: EntityComponentManager::new(), systems: Vec::new() }
    }

    /// Index of the record for `tag`, if one exists.
    fn find_system(&self, tag: u64) -> (r: Option<usize>)
        requires
            forall|i: int, j: int|
                0 <= i < j < self.systems@.len() ==> (#[trigger] self.systems@[i]).system_tag
                    != (#[trigger] self.systems@[j]).system_tag,
        ensures
            match r {
                Some(i) => {
                    &&& (i as int) < self.systems@.len()
                    &&& self.systems@[i as int].system_tag == tag
                    &&& self.spec_has_system(tag)
                    &&& self.spec_system_at(tag) == i as int
                },
                None => !self.spec_has_system(tag),
            },
    {
        let mut i: usize = 0;
        while i < self.systems.len()
            invariant
                i <= self.systems@.len(),
                forall|k: int| 0 <= k < i ==> (#[trigger] self.systems@[k]).system_tag != tag,
                forall|k: int, j: int|
                    0 <= k < j < self.systems@.len() ==> (#[trigger] self.systems@[k]).system_tag
                        != (#[trigger] self.systems@[j]).system_tag,
            decreases self.systems@.len() - i,
        {
            if self.systems[i].system_tag == tag {
                proof {
                    assert(spec_records_has(self.systems@, tag));
                    let j = spec_records_at(self.systems@, tag);
                    assert(0 <= j < self.systems@.len() && self.systems@[j].system_tag == tag);
                    if j < i as int {
                        assert(self.systems@[j].system_tag != self.systems@[i as int].system_tag);
                    }
                    if (i as int) < j {
                        assert(self.systems@[i as int].system_tag != self.systems@[j].system_tag);
                    }
                }
                return Some(i);
            }
            i = i + 1;
        }
        None
    }

    /// Pure generation comparison.
    pub fn is_alive(&self, entity: Entity) -> (r: bool)
        ensures
            r == self.ec_manager.entity_manager.spec_alive(entity),
    {
        self.ec_manager.is_alive(entity)
    }

    /// Pure generation comparison.
    pub fn is_dead(&self, entity: Entity) -> (r: bool)
        ensures
            r == !self.ec_manager.entity_manager.spec_alive(entity),
    {
        self.ec_manager.is_dead(entity)
    }
}

impl<C> Registry<C> {
    /// Creates an entity with an empty tag set.  Only a system requiring
    /// no components at all can be interested in it already; every other
    /// interest set is untouched.
    pub fn create_entity(&mut self) -> (e: Entity)
        requires
            old(self).wf(),
            old(self).can_create(),
        ensures
            final(self).wf(),
            final(self).spec_live(e),
            !old(self).spec_live(e),
            final(self).ec_manager.spec_tags(e.id) == Seq::<u64>::empty(),
            forall|e2: Entity| e2 != e ==> final(self).spec_live(e2) == old(self).spec_live(e2),
            forall|id: u32|
                id != e.id ==> final(self).ec_manager.spec_entry(id) == old(
                    self,
                ).ec_manager.spec_entry(id),
            final(self).ec_manager.component_pools == old(self).ec_manager.component_pools,
            final(self).systems@.len() == old(self).systems@.len(),
            forall|i: int|
                0 <= i < old(self).systems@.len() ==> (#[trigger] final(self).systems@[i]).system_tag
                    == old(self).systems@[i].system_tag && final(self).systems@[i].required_components
                    == old(self).systems@[i].required_components,
            old(self).ec_manager.entity_manager.free_entity_ids@.len() == 0 ==> {
                &&& e.id == old(self).ec_manager.entity_manager.next_entity_id
                &&& e.generation == 0
                &&& final(self).ec_manager.entity_manager.next_entity_id == old(
                    self,
                ).ec_manager.entity_manager.next_entity_id + 1
                &&& final(self).ec_manager.entity_manager.free_entity_ids@ == old(
                    self,
                ).ec_manager.entity_manager.free_entity_ids@
            },
            old(self).ec_manager.entity_manager.free_entity_ids@.len() > 0 ==> {
                &&& e.id == old(self).ec_manager.entity_manager.free_entity_ids@.last()
                &&& final(self).ec_manager.entity_manager.next_entity_id == old(
                    self,
                ).ec_manager.entity_manager.next_entity_id
                &&& final(self).ec_manager.entity_manager.free_entity_ids@ == old(
                    self,
                ).ec_manager.entity_manager.free_entity_ids@.drop_last()
            },
            final(self).ec_manager.entity_manager.generations == old(
                self,
            ).ec_manager.entity_manager.generations,
            e.generation == final(self).ec_manager.entity_manager.spec_generation(e.id),
    {
        let e = self.ec_manager.create_entity();
        let ghost ec1 = self.ec_manager;
        let tags: Vec<u64> = Vec::new();
        let mut k: usize = 0;
        while k < self.systems.len()
            invariant
                k <= self.systems@.len(),
                self.ec_manager == ec1,
                ec1.wf(),
                ec1.spec_live(e),
                !old(self).ec_manager.spec_live(e),
                old(self).wf(),
                ec1.spec_tags(e.id) == Seq::<u64>::empty(),
                tags@ == Seq::<u64>::empty(),
                forall|e2: Entity| e2 != e ==> ec1.spec_live(e2) == old(self).ec_manager.spec_live(e2),
                forall|id: u32|
                    id != e.id ==> ec1.spec_entry(id) == old(self).ec_manager.spec_entry(id),
                ec1.entity_manager.generations == old(self).ec_manager.entity_manager.generations,
                e.generation == ec1.entity_manager.spec_generation(e.id),
                old(self).ec_manager.entity_manager.free_entity_ids@.len() == 0 ==> e.id == old(
                    self,
                ).ec_manager.entity_manager.next_entity_id && e.generation == 0
                    && ec1.entity_manager.next_entity_id == old(
                    self,
                ).ec_manager.entity_manager.next_entity_id + 1
                    && ec1.entity_manager.free_entity_ids@ == old(
                    self,
                ).ec_manager.entity_manager.free_entity_ids@,
                old(self).ec_manager.entity_manager.free_entity_ids@.len() > 0 ==> e.id == old(
                    self,
                ).ec_manager.entity_manager.free_entity_ids@.last()
                    && ec1.entity_manager.next_entity_id == old(
                    self,
                ).ec_manager.entity_manager.next_entity_id
                    && ec1.entity_manager.free_entity_ids@ == old(
                    self,
                ).ec_manager.entity_manager.free_entity_ids@.drop_last(),
                self.systems@.len() == old(self).systems@.len(),
                forall|i: int|
                    0 <= i < self.systems@.len() ==> (#[trigger] self.systems@[i]).system_tag
                        == old(self).systems@[i].system_tag && self.systems@[i].required_components
                        == old(self).systems@[i].required_components,
                forall|i: int| k <= i < self.systems@.len() ==> (#[trigger] self.systems@[i])
                    == old(self).systems@[i],
                forall|i: int, a: int, b: int|
                    0 <= i < self.systems@.len() && 0 <= a < b < self.systems@[i].entities@.len()
                        ==> (#[trigger] self.systems@[i].entities@[a]) != (
                    #[trigger] self.systems@[i].entities@[b]),
                forall|i: int, e2: Entity|
                    0 <= i < k ==> ((#[trigger] self.systems@[i].entities@.contains(e2)) <==>
                        Self::spec_qualifies(ec1, self.systems@[i].required_components@, e2)),
                forall|i: int, e2: Entity|
                    0 <= i < old(self).systems@.len() ==> ((#[trigger] old(
                        self,
                    ).systems@[i].entities@.contains(e2)) <==> Self::spec_qualifies(
                        old(self).ec_manager,
                        old(self).systems@[i].required_components@,
                        e2,
                    )),
            decreases self.systems@.len() - k,
        {
            let ghost pre_sys = self.systems@;
            let q = is_subset_tags(&self.systems[k].required_components, &tags);
            if q {
                interest_insert(&mut self.systems[k].entities, e);
            }
            proof {
                let i = k as int;
                let req = self.systems@[i].required_components@;
                assert(self.systems@[i].required_components == pre_sys[i].required_components);
                assert forall|e2: Entity| (#[trigger] self.systems@[i].entities@.contains(e2))
                    <==> Self::spec_qualifies(ec1, req, e2) by {
                    assert(old(self).systems@[i].entities@.contains(e2) <==> Self::spec_qualifies(
                        old(self).ec_manager,
                        old(self).systems@[i].required_components@,
                        e2,
                    ));
                    if e2 == e {
                        if q {
                            assert(self.systems@[i].entities@.contains(e2));
                            assert(req.to_set() <= ec1.spec_tag_set(e.id)) by {
                                assert(req.to_set() <= tags@.to_set());
                                assert(tags@.to_set() =~= Set::<u64>::empty());
                                assert(ec1.spec_tags(e.id).to_set() =~= Set::<u64>::empty());
                            }
                        } else {
                            assert(!old(self).ec_manager.spec_live(e));
                            assert(!old(self).systems@[i].entities@.contains(e));
                            assert(!self.systems@[i].entities@.contains(e2));
                            assert(!(req.to_set() <= ec1.spec_tag_set(e.id))) by {
                                assert(ec1.spec_tags(e.id).to_set() =~= Set::<u64>::empty());
                                assert(tags@.to_set() =~= Set::<u64>::empty());
                                if req.to_set() <= ec1.spec_tag_set(e.id) {
                                    assert forall|x: u64| req.to_set().contains(x) implies
                                        tags@.to_set().contains(x) by {}
                                }
                            }
                        }
                    } else {
                        assert(self.systems@[i].entities@.contains(e2) == old(
                            self,
                        ).systems@[i].entities@.contains(e2));
                        assert(ec1.spec_live(e2) == old(self).ec_manager.spec_live(e2));
                        if ec1.spec_live(e2) {
                            assert(e2.id != e.id || e2 == e) by {
                                if e2.id == e.id {
                                    assert(e2.generation == ec1.entity_manager.spec_generation(
                                        e2.id,
                                    ));
                                }
                            }
                            assert(ec1.spec_entry(e2.id) == old(self).ec_manager.spec_entry(
                                e2.id,
                            ));
                        }
                    }
                }
                assert forall|i2: int, e2: Entity|
                    0 <= i2 < k + 1 implies ((#[trigger] self.systems@[i2].entities@.contains(
                    e2,
                )) <==> Self::spec_qualifies(ec1, self.systems@[i2].required_components@, e2)) by {
                    if i2 < i {
                        assert(self.systems@[i2] == pre_sys[i2]);
                        assert(pre_sys[i2].entities@.contains(e2) <==> Self::spec_qualifies(
                            ec1,
                            pre_sys[i2].required_components@,
                            e2,
                        ));
                    }
                }
            }
            k = k + 1;
        }
        e
    }

    /// Removes a live entity: every registered system first drops it
    /// from its interest set, then the handle is invalidated.
    pub fn remove_entity(&mut self, entity: Entity) -> (r: Result<(), EcsError>)
        requires
            old(self).wf(),
        ensures
            final(self).wf(),
            !old(self).spec_live(entity) ==> r == Err::<(), EcsError>(EcsError::DeadEntity)
                && *final(self) == *old(self),
            old(self).spec_live(entity) ==> {
                &&& r == Ok::<(), EcsError>(())
                &&& forall|e2: Entity|
                    e2.id != entity.id ==> final(self).spec_live(e2) == old(self).spec_live(e2)
                &&& forall|e2: Entity| e2.id == entity.id ==> !final(self).spec_live(e2)
                &&& final(self).ec_manager.entity_manager.spec_generation(entity.id)
                    == entity.generation + 1
                &&& final(self).ec_manager.entity_manager.next_entity_id == old(
                    self,
                ).ec_manager.entity_manager.next_entity_id
                &&& final(self).ec_manager.entity_manager.free_entity_ids@ == if entity.generation
                    + 1 < u32::MAX {
                    old(self).ec_manager.entity_manager.free_entity_ids@.push(entity.id)
                } else {
                    old(self).ec_manager.entity_manager.free_entity_ids@
                }
                &&& final(self).ec_manager.component_pools == old(self).ec_manager.component_pools
                &&& final(self).systems@.len() == old(self).systems@.len()
                &&& forall|i: int|
                    0 <= i < old(self).systems@.len() ==> (
                    #[trigger] final(self).systems@[i]).system_tag == old(
                        self,
                    ).systems@[i].system_tag && final(self).systems@[i].required_components
                        == old(self).systems@[i].required_components
            },
    {
        if !self.ec_manager.check_live(entity) {
            return Err(EcsError::DeadEntity);
        }
        let ghost ec0 = self.ec_manager;
        let mut k: usize = 0;
        while k < self.systems.len()
            invariant
                k <= self.systems@.len(),
                self.ec_manager == ec0,
                ec0 == old(self).ec_manager,
                ec0.wf(),
                ec0.spec_live(entity),
                self.systems@.len() == old(self).systems@.len(),
                forall|i: int|
                    0 <= i < self.systems@.len() ==> (#[trigger] self.systems@[i]).system_tag
                        == old(self).systems@[i].system_tag && self.systems@[i].required_components
                        == old(self).systems@[i].required_components,
                forall|i: int| k <= i < self.systems@.len() ==> (#[trigger] self.systems@[i])
                    == old(self).systems@[i],
                forall|i: int, a: int, b: int|
                    0 <= i < self.systems@.len() && 0 <= a < b < self.systems@[i].entities@.len()
                        ==> (#[trigger] self.systems@[i].entities@[a]) != (
                    #[trigger] self.systems@[i].entities@[b]),
                forall|i: int, e2: Entity|
                    0 <= i < k ==> ((#[trigger] self.systems@[i].entities@.contains(e2)) <==> (
                    e2 != entity && Self::spec_qualifies(
                        ec0,
                        self.systems@[i].required_components@,
                        e2,
                    ))),
                forall|i: int, e2: Entity|
                    0 <= i < old(self).systems@.len() ==> ((#[trigger] old(
                        self,
                    ).systems@[i].entities@.contains(e2)) <==> Self::spec_qualifies(
                        old(self).ec_manager,
                        old(self).systems@[i].required_components@,
                        e2,
                    )),
            decreases self.systems@.len() - k,
        {
            let ghost pre_sys = self.systems@;
            interest_remove(&mut self.systems[k].entities, entity);
            proof {
                let i = k as int;

                assert forall|i2: int, e2: Entity|
                    0 <= i2 < k + 1 implies ((#[trigger] self.systems@[i2].entities@.contains(
                    e2,
                )) <==> (e2 != entity && Self::spec_qualifies(
                    ec0,
                    self.systems@[i2].required_components@,
                    e2,
                ))) by {
                    if i2 < i {
                        assert(self.systems@[i2] == pre_sys[i2]);
                        assert(pre_sys[i2].entities@.contains(e2) <==> (e2 != entity
                            && Self::spec_qualifies(ec0, pre_sys[i2].required_components@, e2)));
                    } else {
                        assert(old(self).systems@[i].entities@.contains(e2)
                            <==> Self::spec_qualifies(
                            old(self).ec_manager,
                            old(self).systems@[i].required_components@,
                            e2,
                        ));
                        if e2 != entity {
                            assert(self.systems@[i].entities@.contains(e2) == old(
                                self,
                            ).systems@[i].entities@.contains(e2));
                        }
                    }
                }
            }
            k = k + 1;
        }
        let r = self.ec_manager.remove_entity(entity);
        proof {
            assert(r == Ok::<(), EcsError>(()));
            assert forall|i: int, e2: Entity|
                0 <= i < self.systems@.len() implies ((
            #[trigger] self.systems@[i].entities@.contains(e2)) <==> Self::spec_qualifies(
                self.ec_manager,
                self.systems@[i].required_components@,
                e2,
            )) by {
                assert(self.systems@[i].entities@.contains(e2) <==> (e2 != entity
                    && Self::spec_qualifies(ec0, self.systems@[i].required_components@, e2)));
                if e2.id == entity.id {
                    assert(!self.ec_manager.spec_live(e2));
                    if e2 != entity && ec0.spec_live(e2) {
                        assert(e2.generation == ec0.entity_manager.spec_generation(e2.id));
                        assert(e2 == entity);
                    }
                } else {
                    assert(self.ec_manager.spec_live(e2) == ec0.spec_live(e2));
                    if ec0.spec_live(e2) {
                        assert(self.ec_manager.spec_entry(e2.id) == ec0.spec_entry(e2.id));
                    }
                }
            }
        }
        r
    }
}

impl<C> Registry<C> {
    /// Attaches a component; on success every system whose requirement
    /// the entity's grown tag set now covers gains the entity in its
    /// interest set.
    pub fn add_component(&mut self, entity: Entity, tag: u64, component: C) -> (r: Result<
        (),
        EcsError,
    >)
        requires
            old(self).wf(),
        ensures
            final(self).wf(),
            !old(self).spec_live(entity) ==> r == Err::<(), EcsError>(EcsError::DeadEntity)
                && *final(self) == *old(self),
            old(self).spec_live(entity) ==> {
                &&& r == Ok::<(), EcsError>(())
                &&& final(self).ec_manager.entity_manager == old(self).ec_manager.entity_manager
                &&& forall|e2: Entity| final(self).spec_live(e2) == old(self).spec_live(e2)
                &&& final(self).ec_manager.spec_tag_set(entity.id) == old(
                    self,
                ).ec_manager.spec_tag_set(entity.id).insert(tag)
                &&& forall|id: u32|
                    id != entity.id ==> final(self).ec_manager.spec_entry(id) == old(
                        self,
                    ).ec_manager.spec_entry(id)
                &&& final(self).ec_manager.spec_slot(tag, entity.id) == (
                    entity.generation,
                    Some(component),
                )
                &&& forall|t2: u64, id: u32|
                    !(t2 == tag && id == entity.id) ==> final(self).ec_manager.spec_slot(t2, id)
                        == old(self).ec_manager.spec_slot(t2, id)
                &&& final(self).ec_manager.spec_component(entity, tag) == Some(component)
                &&& final(self).systems@.len() == old(self).systems@.len()
                &&& forall|i: int|
                    0 <= i < old(self).systems@.len() ==> (
                    #[trigger] final(self).systems@[i]).system_tag == old(
                        self,
                    ).systems@[i].system_tag && final(self).systems@[i].required_components
                        == old(self).systems@[i].required_components
            },
    {
        let r = self.ec_manager.add_component(entity, tag, component);
        if r.is_err() {
            return r;
        }
        let ghost ec1 = self.ec_manager;
        let new_tags: Vec<u64> = match self.ec_manager.has_components(entity) {
            Some(t) => copy_u64s(t),
            None => {
                proof {
                    assert(false);
                }
                Vec::new()
            },
        };
        let mut k: usize = 0;
        while k < self.systems.len()
            invariant
                k <= self.systems@.len(),
                self.ec_manager == ec1,
                ec1.wf(),
                old(self).wf(),
                old(self).ec_manager.spec_live(entity),
                ec1.spec_live(entity),
                new_tags@ == ec1.spec_tags(entity.id),
                ec1.spec_tag_set(entity.id) == old(self).ec_manager.spec_tag_set(
                    entity.id,
                ).insert(tag),
                forall|e2: Entity| ec1.spec_live(e2) == old(self).ec_manager.spec_live(e2),
                forall|id: u32|
                    id != entity.id ==> ec1.spec_entry(id) == old(self).ec_manager.spec_entry(
                        id,
                    ),
                self.systems@.len() == old(self).systems@.len(),
                forall|i: int|
                    0 <= i < self.systems@.len() ==> (#[trigger] self.systems@[i]).system_tag
                        == old(self).systems@[i].system_tag
                        && self.systems@[i].required_components == old(
                        self,
                    ).systems@[i].required_components,
                forall|i: int| k <= i < self.systems@.len() ==> (#[trigger] self.systems@[i])
                    == old(self).systems@[i],
                forall|i: int, a: int, b: int|
                    0 <= i < self.systems@.len() && 0 <= a < b
                        < self.systems@[i].entities@.len() ==> (
                    #[trigger] self.systems@[i].entities@[a]) != (
                    #[trigger] self.systems@[i].entities@[b]),
                forall|i: int, e2: Entity|
                    0 <= i < k ==> ((#[trigger] self.systems@[i].entities@.contains(e2)) <==>
                        Self::spec_qualifies(ec1, self.systems@[i].required_components@, e2)),
                forall|i: int, e2: Entity|
                    0 <= i < old(self).systems@.len() ==> ((#[trigger] old(
                        self,
                    ).systems@[i].entities@.contains(e2)) <==> Self::spec_qualifies(
                        old(self).ec_manager,
                        old(self).systems@[i].required_components@,
                        e2,
                    )),
            decreases self.systems@.len() - k,
        {
            let ghost pre_sys = self.systems@;
            let q = is_subset_tags(&self.systems[k].required_components, &new_tags);
            if q {
                interest_insert(&mut self.systems[k].entities, entity);
            }
            proof {
                let i = k as int;
                let req = self.systems@[i].required_components@;
                assert forall|e2: Entity| (#[trigger] self.systems@[i].entities@.contains(e2))
                    <==> Self::spec_qualifies(ec1, req, e2) by {
                    assert(old(self).systems@[i].entities@.contains(e2) <==> Self::spec_qualifies(
                        old(self).ec_manager,
                        old(self).systems@[i].required_components@,
                        e2,
                    ));
                    if e2 == entity {
                        if q {
                            assert(self.systems@[i].entities@.contains(e2));
                            assert(req.to_set() <= ec1.spec_tag_set(entity.id));
                        } else {
                            assert(!(req.to_set() <= ec1.spec_tag_set(entity.id)));
                            if pre_sys[i].entities@.contains(e2) {
                                assert(req.to_set() <= old(self).ec_manager.spec_tag_set(
                                    entity.id,
                                ));
                                assert forall|x: u64| req.to_set().contains(x) implies
                                    ec1.spec_tag_set(entity.id).contains(x) by {
                                    assert(old(self).ec_manager.spec_tag_set(
                                        entity.id,
                                    ).contains(x));
                                }
                            }
                            assert(!self.systems@[i].entities@.contains(e2));
                        }
                    } else {
                        assert(self.systems@[i].entities@.contains(e2) == old(
                            self,
                        ).systems@[i].entities@.contains(e2));
                        assert(ec1.spec_live(e2) == old(self).ec_manager.spec_live(e2));
                        if ec1.spec_live(e2) {
                            assert(e2.id != entity.id || e2 == entity) by {
                                if e2.id == entity.id {
                                    assert(e2.generation == ec1.entity_manager.spec_generation(
                                        e2.id,
                                    ));
                                    assert(entity.generation
                                        == ec1.entity_manager.spec_generation(entity.id));
                                }
                            }
                            assert(ec1.spec_entry(e2.id) == old(self).ec_manager.spec_entry(
                                e2.id,
                            ));
                        }
                    }
                }
                assert forall|i2: int, e2: Entity|
                    0 <= i2 < k + 1 implies ((#[trigger] self.systems@[i2].entities@.contains(
                    e2,
                )) <==> Self::spec_qualifies(ec1, self.systems@[i2].required_components@, e2)) by {
                    if i2 < i {
                        assert(self.systems@[i2] == pre_sys[i2]);
                        assert(pre_sys[i2].entities@.contains(e2) <==> Self::spec_qualifies(
                            ec1,
                            pre_sys[i2].required_components@,
                            e2,
                        ));
                    }
                }
            }
            k = k + 1;
        }
        Ok(())
    }

    /// Detaches a component; on success every system whose requirement
    /// the entity's shrunk tag set no longer covers loses the entity
    /// from its interest set.  A component type never added to any
    /// entity is reported before liveness is looked at.
    pub fn remove_component(&mut self, entity: Entity, tag: u64) -> (r: Result<(), EcsError>)
        requires
            old(self).wf(),
        ensures
            final(self).wf(),
            !old(self).ec_manager.spec_has_pool(tag) ==> r == Err::<(), EcsError>(
                EcsError::NoSuchComponent,
            ) && *final(self) == *old(self),
            old(self).ec_manager.spec_has_pool(tag) && !old(self).spec_live(entity) ==> r
                == Err::<(), EcsError>(EcsError::DeadEntity) && *final(self) == *old(self),
            old(self).ec_manager.spec_has_pool(tag) && old(self).spec_live(entity) ==> {
                &&& r == Ok::<(), EcsError>(())
                &&& final(self).ec_manager.entity_manager == old(self).ec_manager.entity_manager
                &&& forall|e2: Entity| final(self).spec_live(e2) == old(self).spec_live(e2)
                &&& final(self).ec_manager.spec_tag_set(entity.id) == old(
                    self,
                ).ec_manager.spec_tag_set(entity.id).remove(tag)
                &&& forall|id: u32|
                    id != entity.id ==> final(self).ec_manager.spec_entry(id) == old(
                        self,
                    ).ec_manager.spec_entry(id)
                &&& final(self).ec_manager.spec_component(entity, tag) is None
                &&& forall|t2: u64, id: u32|
                    !(t2 == tag && id == entity.id) ==> final(self).ec_manager.spec_slot(t2, id)
                        == old(self).ec_manager.spec_slot(t2, id)
                &&& final(self).systems@.len() == old(self).systems@.len()
                &&& forall|i: int|
                    0 <= i < old(self).systems@.len() ==> (
                    #[trigger] final(self).systems@[i]).system_tag == old(
                        self,
                    ).systems@[i].system_tag && final(self).systems@[i].required_components
                        == old(self).systems@[i].required_components
            },
    {
        let r = self.ec_manager.remove_component(entity, tag);
        if r.is_err() {
            return r;
        }
        let ghost ec1 = self.ec_manager;
        let new_tags: Vec<u64> = match self.ec_manager.has_components(entity) {
            Some(t) => copy_u64s(t),
            None => {
                proof {
                    assert(false);
                }
                Vec::new()
            },
        };
        let mut k: usize = 0;
        while k < self.systems.len()
            invariant
                k <= self.systems@.len(),
                self.ec_manager == ec1,
                ec1.wf(),
                old(self).wf(),
                old(self).ec_manager.spec_live(entity),
                ec1.spec_live(entity),
                new_tags@ == ec1.spec_tags(entity.id),
                ec1.spec_tag_set(entity.id) == old(self).ec_manager.spec_tag_set(
                    entity.id,
                ).remove(tag),
                forall|e2: Entity| ec1.spec_live(e2) == old(self).ec_manager.spec_live(e2),
                forall|id: u32|
                    id != entity.id ==> ec1.spec_entry(id) == old(self).ec_manager.spec_entry(
                        id,
                    ),
                self.systems@.len() == old(self).systems@.len(),
                forall|i: int|
                    0 <= i < self.systems@.len() ==> (#[trigger] self.systems@[i]).system_tag
                        == old(self).systems@[i].system_tag
                        && self.systems@[i].required_components == old(
                        self,
                    ).systems@[i].required_components,
                forall|i: int| k <= i < self.systems@.len() ==> (#[trigger] self.systems@[i])
                    == old(self).systems@[i],
                forall|i: int, a: int, b: int|
                    0 <= i < self.systems@.len() && 0 <= a < b
                        < self.systems@[i].entities@.len() ==> (
                    #[trigger] self.systems@[i].entities@[a]) != (
                    #[trigger] self.systems@[i].entities@[b]),
                forall|i: int, e2: Entity|
                    0 <= i < k ==> ((#[trigger] self.systems@[i].entities@.contains(e2)) <==>
                        Self::spec_qualifies(ec1, self.systems@[i].required_components@, e2)),
                forall|i: int, e2: Entity|
                    0 <= i < old(self).systems@.len() ==> ((#[trigger] old(
                        self,
                    ).systems@[i].entities@.contains(e2)) <==> Self::spec_qualifies(
                        old(self).ec_manager,
                        old(self).systems@[i].required_components@,
                        e2,
                    )),
            decreases self.systems@.len() - k,
        {
            let ghost pre_sys = self.systems@;
            let q = is_subset_tags(&self.systems[k].required_components, &new_tags);
            if !q {
                interest_remove(&mut self.systems[k].entities, entity);
            }
            proof {
                let i = k as int;
                let req = self.systems@[i].required_components@;
                assert forall|e2: Entity| (#[trigger] self.systems@[i].entities@.contains(e2))
                    <==> Self::spec_qualifies(ec1, req, e2) by {
                    assert(old(self).systems@[i].entities@.contains(e2) <==> Self::spec_qualifies(
                        old(self).ec_manager,
                        old(self).systems@[i].required_components@,
                        e2,
                    ));
                    if e2 == entity {
                        if !q {
                            assert(!self.systems@[i].entities@.contains(e2));
                            assert(!(req.to_set() <= ec1.spec_tag_set(entity.id)));
                        } else {
                            assert(self.systems@[i].entities@.contains(e2) == old(
                                self,
                            ).systems@[i].entities@.contains(e2));
                            assert(req.to_set() <= ec1.spec_tag_set(entity.id));
                            assert(old(self).systems@[i].entities@.contains(e2)) by {
                                assert forall|x: u64| req.to_set().contains(x) implies old(
                                    self,
                                ).ec_manager.spec_tag_set(entity.id).contains(x) by {
                                    assert(ec1.spec_tag_set(entity.id).contains(x));
                                }
                            }
                        }
                    } else {
                        assert(self.systems@[i].entities@.contains(e2) == old(
                            self,
                        ).systems@[i].entities@.contains(e2));
                        assert(ec1.spec_live(e2) == old(self).ec_manager.spec_live(e2));
                        if ec1.spec_live(e2) {
                            assert(e2.id != entity.id || e2 == entity) by {
                                if e2.id == entity.id {
                                    assert(e2.generation == ec1.entity_manager.spec_generation(
                                        e2.id,
                                    ));
                                    assert(entity.generation
                                        == ec1.entity_manager.spec_generation(entity.id));
                                }
                            }
                            assert(ec1.spec_entry(e2.id) == old(self).ec_manager.spec_entry(
                                e2.id,
                            ));
                        }
                    }
                }
                assert forall|i2: int, e2: Entity|
                    0 <= i2 < k + 1 implies ((#[trigger] self.systems@[i2].entities@.contains(
                    e2,
                )) <==> Self::spec_qualifies(ec1, self.systems@[i2].required_components@, e2)) by {
                    if i2 < i {
                        assert(self.systems@[i2] == pre_sys[i2]);
                        assert(pre_sys[i2].entities@.contains(e2) <==> Self::spec_qualifies(
                            ec1,
                            pre_sys[i2].required_components@,
                            e2,
                        ));
                    }
                }
            }
            k = k + 1;
        }
        Ok(())
    }
}

impl<C> Registry<C> {
    /// Reads a component.
    pub fn get_component(&self, entity: Entity, tag: u64) -> (r: Result<Option<&C>, EcsError>)
        requires
            self.wf(),
        ensures
            match r {
                Ok(o) => self.spec_live(entity) && (match o {
                    Some(v) => self.ec_manager.spec_component(entity, tag) == Some(*v),
                    None => self.ec_manager.spec_component(entity, tag) is None,
                }),
                Err(e) => !self.spec_live(entity) && e == EcsError::DeadEntity,
            },
    {
        self.ec_manager.get_component(entity, tag)
    }

    /// Mutable access to a component's value.  Only the value behind the
    /// returned reference can change, so no interest set is affected;
    /// `lemma_registry_wf_value_update` re-establishes well-formedness
    /// once the borrow ends.
    pub fn get_component_mut(&mut self, entity: Entity, tag: u64) -> (r: Result<
        Option<&mut C>,
        EcsError,
    >)
        requires
            old(self).wf(),
        ensures
            final(self).systems == old(self).systems,
            match r {
                Ok(o) => old(self).spec_live(entity) && (match o {
                    Some(m) => {
                        &&& old(self).ec_manager.spec_component(entity, tag) == Some(*m)
                        &&& final(self).ec_manager.entity_manager == old(
                            self,
                        ).ec_manager.entity_manager
                        &&& final(self).ec_manager.entity_components == old(
                            self,
                        ).ec_manager.entity_components
                        &&& final(self).ec_manager.component_pools@.len() == old(
                            self,
                        ).ec_manager.component_pools@.len()
                        &&& forall|i: int|
                            0 <= i < old(self).ec_manager.component_pools@.len() ==> (
                            #[trigger] final(self).ec_manager.component_pools@[i]).0 == old(
                                self,
                            ).ec_manager.component_pools@[i].0
                        &&& final(self).ec_manager.spec_slot(tag, entity.id) == (
                            old(self).ec_manager.spec_slot(tag, entity.id).0,
                            Some(*final(m)),
                        )
                        &&& forall|i: int, id: u32|
                            0 <= i < old(self).ec_manager.component_pools@.len() && !(old(
                                self,
                            ).ec_manager.component_pools@[i].0 == tag && id == entity.id) ==> (
                            #[trigger] final(self).ec_manager.component_pools@[i].1.spec_slot(
                                id,
                            )) == old(self).ec_manager.component_pools@[i].1.spec_slot(id)
                    },
                    None => {
                        &&& old(self).ec_manager.spec_component(entity, tag) is None
                        &&& final(self).ec_manager.entity_manager == old(
                            self,
                        ).ec_manager.entity_manager
                        &&& final(self).ec_manager.entity_components == old(
                            self,
                        ).ec_manager.entity_components
                        &&& final(self).ec_manager.component_pools@.len() == old(
                            self,
                        ).ec_manager.component_pools@.len()
                        &&& forall|i: int|
                            0 <= i < old(self).ec_manager.component_pools@.len() ==> (
                            #[trigger] final(self).ec_manager.component_pools@[i]).0 == old(
                                self,
                            ).ec_manager.component_pools@[i].0
                        &&& forall|i: int, id: u32|
                            0 <= i < old(self).ec_manager.component_pools@.len() ==> (
                            #[trigger] final(self).ec_manager.component_pools@[i].1.spec_slot(
                                id,
                            )) == old(self).ec_manager.component_pools@[i].1.spec_slot(id)
                    },
                }),
                Err(e) => {
                    &&& !old(self).spec_live(entity)
                    &&& e == EcsError::DeadEntity
                    &&& *final(self) == *old(self)
                },
            },
    {
        self.ec_manager.get_component_mut(entity, tag)
    }

    /// Every live entity, in increasing id order.
    pub fn entities(&self) -> (r: Vec<Entity>)
        requires
            self.wf(),
        ensures
            forall|k: int| 0 <= k < r@.len() ==> self.spec_live(#[trigger] r@[k]),
            forall|i: int, j: int| 0 <= i < j < r@.len() ==> r@[i].id < r@[j].id,
            forall|e: Entity| self.spec_live(e) ==> r@.contains(e),
            forall|e: Entity| r@.contains(e) ==> self.spec_live(e),
    {
        self.ec_manager.entities()
    }

    /// Every live entity with a copy of its tag list, in increasing id
    /// order.
    pub fn entities_and_components(&self) -> (r: Vec<(Entity, Vec<u64>)>)
        requires
            self.wf(),
        ensures
            forall|k: int|
                0 <= k < r@.len() ==> self.spec_live((#[trigger] r@[k]).0) && r@[k].1@
                    == self.ec_manager.spec_tags(r@[k].0.id),
            forall|i: int, j: int| 0 <= i < j < r@.len() ==> r@[i].0.id < r@[j].0.id,
            forall|e: Entity|
                self.spec_live(e) ==> exists|k: int| 0 <= k < r@.len() && (#[trigger] r@[k]).0
                    == e,
    {
        self.ec_manager.entities_and_components()
    }

    /// Registers (or replaces) a system's bookkeeping record: its
    /// interest set is rebuilt by the one full scan the runtime ever
    /// does, so every qualifying pre-existing entity is included at once.
    pub fn add_system<S: SystemBase>(&mut self, system: &S)
        requires
            old(self).wf(),
        ensures
            final(self).wf(),
            final(self).ec_manager == old(self).ec_manager,
            final(self).spec_has_system(S::tag_spec()),
            final(self).spec_required(S::tag_spec()) == S::required_spec(),
            forall|t2: u64|
                t2 != S::tag_spec() ==> final(self).spec_has_system(t2) == old(
                    self,
                ).spec_has_system(t2),
            forall|i: int|
                0 <= i < old(self).systems@.len() && old(self).systems@[i].system_tag
                    != S::tag_spec() ==> exists|j: int|
                    0 <= j < final(self).systems@.len() && (#[trigger] final(self).systems@[j])
                        == old(self).systems@[i],
    {
        let tag = system.system_tag();
        let required = system.required_components();
        let pairs = self.ec_manager.entities_and_components();
        let mut ents: Vec<Entity> = Vec::new();
        let mut j: usize = 0;
        while j < pairs.len()
            invariant
                j <= pairs@.len(),
                self.wf(),
                forall|k: int|
                    0 <= k < pairs@.len() ==> self.spec_live((#[trigger] pairs@[k]).0)
                        && pairs@[k].1@ == self.ec_manager.spec_tags(pairs@[k].0.id),
                forall|a: int, b: int| 0 <= a < b < pairs@.len() ==> pairs@[a].0.id
                    < pairs@[b].0.id,
                forall|e: Entity|
                    self.spec_live(e) ==> exists|k: int|
                        0 <= k < pairs@.len() && (#[trigger] pairs@[k]).0 == e,
                forall|a: int, b: int| 0 <= a < b < ents@.len() ==> ents@[a] != ents@[b],
                forall|e: Entity|
                    #[trigger] ents@.contains(e) <==> exists|k: int|
                        0 <= k < j && (#[trigger] pairs@[k]).0 == e && required@.to_set()
                            <= self.ec_manager.spec_tag_set(e.id),
                forall|a: int|
                    0 <= a < ents@.len() ==> exists|k: int|
                        0 <= k < j && (#[trigger] pairs@[k]).0 == (#[trigger] ents@[a]),
            decreases pairs@.len() - j,
        {
            let ghost ents0 = ents@;
            let q = is_subset_tags(&required, &pairs[j].1);
            if q {
                ents.push(pairs[j].0);
            }
            proof {
                let e_j = pairs@[j as int].0;
                assert(pairs@[j as int].1@.to_set() == self.ec_manager.spec_tag_set(e_j.id));
                if q {
                    assert forall|a: int, b: int|
                        0 <= a < b < ents@.len() implies ents@[a] != ents@[b] by {
                        if b == ents@.len() - 1 {
                            let ka = choose|k: int|
                                0 <= k < j && (#[trigger] pairs@[k]).0 == ents0[a];
                            assert(pairs@[ka].0.id < pairs@[j as int].0.id);
                        }
                    }
                }
                assert forall|e: Entity| #[trigger] ents@.contains(e) implies exists|k: int|
                    0 <= k < j + 1 && (#[trigger] pairs@[k]).0 == e && required@.to_set()
                        <= self.ec_manager.spec_tag_set(e.id) by {
                    let a = choose|a: int| 0 <= a < ents@.len() && ents@[a] == e;
                    if q && a == ents@.len() - 1 {
                        assert(pairs@[j as int].0 == e);
                    } else {
                        assert(ents0[a] == e);
                        assert(ents0.contains(e));
                    }
                }
                assert forall|e: Entity|
                    (exists|k: int|
                        0 <= k < j + 1 && (#[trigger] pairs@[k]).0 == e && required@.to_set()
                            <= self.ec_manager.spec_tag_set(e.id)) implies ents@.contains(
                    e,
                ) by {
                    let k = choose|k: int|
                        0 <= k < j + 1 && (#[trigger] pairs@[k]).0 == e && required@.to_set()
                            <= self.ec_manager.spec_tag_set(e.id);
                    if k < j {
                        assert(ents0.contains(e));
                        let a = choose|a: int| 0 <= a < ents0.len() && ents0[a] == e;
                        assert(ents@[a] == e);
                    } else {
                        assert(ents@[ents@.len() - 1] == e);
                    }
                }
                assert forall|a: int| 0 <= a < ents@.len() implies exists|k: int|
                    0 <= k < j + 1 && (#[trigger] pairs@[k]).0 == (#[trigger] ents@[a]) by {
                    if q && a == ents@.len() - 1 {
                        assert(pairs@[j as int].0 == ents@[a]);
                    } else {
                        let k = choose|k: int| 0 <= k < j && (#[trigger] pairs@[k]).0 == ents0[a];
                    }
                }
            }
            j = j + 1;
        }
        let record = SystemRecord { system_tag: tag, required_components: required, entities: ents };
        let ghost rec = record;
        proof {
            assert forall|e: Entity| #[trigger] rec.entities@.contains(e) <==> Self::spec_qualifies(
                self.ec_manager,
                rec.required_components@,
                e,
            ) by {
                if rec.entities@.contains(e) {
                    let k = choose|k: int|
                        0 <= k < pairs@.len() && (#[trigger] pairs@[k]).0 == e
                            && required@.to_set() <= self.ec_manager.spec_tag_set(e.id);
                    assert(self.spec_live(e));
                }
                if Self::spec_qualifies(self.ec_manager, rec.required_components@, e) {
                    let k = choose|k: int|
                        0 <= k < pairs@.len() && (#[trigger] pairs@[k]).0 == e;
                }
            }
        }
        let ghost pre_sys = self.systems@;
        match self.find_system(tag) {
            Some(i) => {
                self.systems[i] = record;
                proof {
                    let i = i as int;
                    assert(self.systems@ == pre_sys.update(i, rec));
                    assert(spec_records_has(self.systems@, tag)) by {
                        assert(self.systems@[i].system_tag == tag);
                    }
                    assert(spec_records_at(self.systems@, tag) == i) by {
                        let k = spec_records_at(self.systems@, tag);
                        assert(0 <= k < self.systems@.len() && self.systems@[k].system_tag
                            == tag);
                        if k < i {
                            assert(pre_sys[k].system_tag != pre_sys[i].system_tag);
                        }
                        if i < k {
                            assert(pre_sys[i].system_tag != pre_sys[k].system_tag);
                        }
                    }
                    assert forall|t2: u64| t2 != tag implies self.spec_has_system(t2) == old(
                        self,
                    ).spec_has_system(t2) by {
                        if spec_records_has(pre_sys, t2) {
                            let k = spec_records_at(pre_sys, t2);
                            assert(k != i);
                            assert(self.systems@[k].system_tag == t2);
                        }
                        if spec_records_has(self.systems@, t2) {
                            let k = spec_records_at(self.systems@, t2);
                            assert(k != i);
                            assert(pre_sys[k].system_tag == t2);
                        }
                    }
                    assert forall|i2: int, e2: Entity|
                        0 <= i2 < self.systems@.len() implies ((
                    #[trigger] self.systems@[i2].entities@.contains(e2)) <==> Self::spec_qualifies(
                        self.ec_manager,
                        self.systems@[i2].required_components@,
                        e2,
                    )) by {
                        if i2 != i {
                            assert(self.systems@[i2] == pre_sys[i2]);
                            assert(pre_sys[i2].entities@.contains(e2) <==> Self::spec_qualifies(
                                self.ec_manager,
                                pre_sys[i2].required_components@,
                                e2,
                            ));
                        }
                    }
                    assert forall|i2: int|
                        0 <= i2 < old(self).systems@.len() && old(self).systems@[i2].system_tag
                            != S::tag_spec() implies exists|j2: int|
                            0 <= j2 < self.systems@.len() && (#[trigger] self.systems@[j2])
                                == old(self).systems@[i2] by {
                        assert(self.systems@[i2] == old(self).systems@[i2]);
                    }
                }
            },
            None => {
                self.systems.push(record);
                proof {
                    assert(self.systems@ == pre_sys.push(rec));
                    assert(spec_records_has(self.systems@, tag)) by {
                        assert(self.systems@[pre_sys.len() as int].system_tag == tag);
                    }
                    assert(spec_records_at(self.systems@, tag) == pre_sys.len()) by {
                        let k = spec_records_at(self.systems@, tag);
                        assert(0 <= k < self.systems@.len() && self.systems@[k].system_tag
                            == tag);
                        if k < pre_sys.len() {
                            assert(pre_sys[k].system_tag == tag);
                            assert(spec_records_has(pre_sys, tag));
                        }
                    }
                    assert forall|t2: u64| t2 != tag implies self.spec_has_system(t2) == old(
                        self,
                    ).spec_has_system(t2) by {
                        if spec_records_has(pre_sys, t2) {
                            let k = spec_records_at(pre_sys, t2);
                            assert(self.systems@[k].system_tag == t2);
                        }
                        if spec_records_has(self.systems@, t2) {
                            let k = spec_records_at(self.systems@, t2);
                            assert(k != pre_sys.len());
                            assert(pre_sys[k].system_tag == t2);
                        }
                    }
                    assert forall|i2: int, e2: Entity|
                        0 <= i2 < self.systems@.len() implies ((
                    #[trigger] self.systems@[i2].entities@.contains(e2)) <==> Self::spec_qualifies(
                        self.ec_manager,
                        self.systems@[i2].required_components@,
                        e2,
                    )) by {
                        if i2 < pre_sys.len() {
                            assert(self.systems@[i2] == pre_sys[i2]);
                            assert(pre_sys[i2].entities@.contains(e2) <==> Self::spec_qualifies(
                                self.ec_manager,
                                pre_sys[i2].required_components@,
                                e2,
                            ));
                        }
                    }
                    assert forall|i2: int|
                        0 <= i2 < old(self).systems@.len() && old(self).systems@[i2].system_tag
                            != S::tag_spec() implies exists|j2: int|
                            0 <= j2 < self.systems@.len() && (#[trigger] self.systems@[j2])
                                == old(self).systems@[i2] by {
                        assert(self.systems@[i2] == old(self).systems@[i2]);
                    }
                }
            },
        }
    }

    /// Drops the record registered under `system_tag`; other systems
    /// keep their own interest sets, so nothing else changes.
    pub fn remove_system(&mut self, system_tag: u64)
        requires
            old(self).wf(),
        ensures
            final(self).wf(),
            final(self).ec_manager == old(self).ec_manager,
            !final(self).spec_has_system(system_tag),
            forall|t2: u64|
                t2 != system_tag ==> final(self).spec_has_system(t2) == old(
                    self,
                ).spec_has_system(t2),
            !old(self).spec_has_system(system_tag) ==> *final(self) == *old(self),
    {
        let ghost pre_sys = self.systems@;
        match self.find_system(system_tag) {
            None => {},
            Some(i) => {
                self.systems.remove(i);
                proof {
                    let i = i as int;
                    assert forall|t2: u64| t2 != system_tag implies self.spec_has_system(t2)
                        == old(self).spec_has_system(t2) by {
                        if spec_records_has(pre_sys, t2) {
                            let k = spec_records_at(pre_sys, t2);
                            assert(k != i);
                            if k < i {
                                assert(self.systems@[k].system_tag == t2);
                            } else {
                                assert(self.systems@[k - 1].system_tag == t2);
                            }
                        }
                        if spec_records_has(self.systems@, t2) {
                            let k = spec_records_at(self.systems@, t2);
                            if k < i {
                                assert(pre_sys[k].system_tag == t2);
                            } else {
                                assert(pre_sys[k + 1].system_tag == t2);
                            }
                        }
                    }
                    assert(!self.spec_has_system(system_tag)) by {
                        if spec_records_has(self.systems@, system_tag) {
                            let k = spec_records_at(self.systems@, system_tag);
                            if k < i {
                                assert(pre_sys[k].system_tag == system_tag);
                                assert(pre_sys[k].system_tag != pre_sys[i].system_tag);
                            } else {
                                assert(pre_sys[k + 1].system_tag == system_tag);
                                assert(pre_sys[i].system_tag != pre_sys[k + 1].system_tag);
                            }
                        }
                    }
                    assert forall|i2: int, j2: int|
                        0 <= i2 < j2 < self.systems@.len() implies (
                    #[trigger] self.systems@[i2]).system_tag != (
                    #[trigger] self.systems@[j2]).system_tag by {
                        let a2: int = if i2 < i { i2 } else { i2 + 1 };
                        let b2: int = if j2 < i { j2 } else { j2 + 1 };
                        assert(self.systems@[i2] == pre_sys[a2] && self.systems@[j2]
                            == pre_sys[b2]);
                        assert(pre_sys[a2].system_tag != pre_sys[b2].system_tag);
                    }
                    assert forall|i2: int, e2: Entity|
                        0 <= i2 < self.systems@.len() implies ((
                    #[trigger] self.systems@[i2].entities@.contains(e2)) <==> Self::spec_qualifies(
                        self.ec_manager,
                        self.systems@[i2].required_components@,
                        e2,
                    )) by {
                        let a2: int = if i2 < i { i2 } else { i2 + 1 };
                        assert(self.systems@[i2] == pre_sys[a2]);
                        assert(pre_sys[a2].entities@.contains(e2) <==> Self::spec_qualifies(
                            self.ec_manager,
                            pre_sys[a2].required_components@,
                            e2,
                        ));
                    }
                    assert forall|i2: int, a: int, b: int|
                        0 <= i2 < self.systems@.len() && 0 <= a < b
                            < self.systems@[i2].entities@.len() implies (
                    #[trigger] self.systems@[i2].entities@[a]) != (
                    #[trigger] self.systems@[i2].entities@[b]) by {
                        let a2: int = if i2 < i { i2 } else { i2 + 1 };
                        assert(self.systems@[i2] == pre_sys[a2]);
                        assert(pre_sys[a2].entities@[a] != pre_sys[a2].entities@[b]);
                    }
                }
            },
        }
    }
}

/// Changing only component values through `get_component_mut` preserves
/// the registry's well-formedness.
pub proof fn lemma_registry_wf_value_update<C>(a: Registry<C>, b: Registry<C>)
    requires
        a.wf(),
        b.systems == a.systems,
        b.ec_manager.entity_manager == a.ec_manager.entity_manager,
        b.ec_manager.entity_components == a.ec_manager.entity_components,
        b.ec_manager.component_pools@.len() == a.ec_manager.component_pools@.len(),
        forall|i: int|
            0 <= i < a.ec_manager.component_pools@.len() ==> (
            #[trigger] b.ec_manager.component_pools@[i]).0 == a.ec_manager.component_pools@[i].0,
        forall|i: int, id: u32|
            0 <= i < a.ec_manager.component_pools@.len() ==> ((
            #[trigger] b.ec_manager.component_pools@[i].1.spec_slot(id)).0
                == a.ec_manager.component_pools@[i].1.spec_slot(id).0 && (
            b.ec_manager.component_pools@[i].1.spec_slot(id).1 is Some
                <==> a.ec_manager.component_pools@[i].1.spec_slot(id).1 is Some)),
    ensures
        b.wf(),
{
    lemma_wf_value_update(a.ec_manager, b.ec_manager);
    assert forall|i: int, e: Entity|
        0 <= i < b.systems@.len() implies ((#[trigger] b.systems@[i].entities@.contains(e))
        <==> Registry::<C>::spec_qualifies(b.ec_manager, b.systems@[i].required_components@, e)) by {
        assert(a.systems@[i].entities@.contains(e) <==> Registry::<C>::spec_qualifies(
            a.ec_manager,
            a.systems@[i].required_components@,
            e,
        ));
        assert(b.ec_manager.spec_entry(e.id) == a.ec_manager.spec_entry(e.id));
    }
}

impl<C> Registry<C> {
    /// Re-evaluates, for every handle in `changed`, membership in every
    /// registered system's interest set, against the current store.
    /// Handles outside `changed` must be untouched since `base`, the
    /// store against which the interest sets were last correct; their
    /// membership therefore needs no revisit.
    fn reconcile_changed(&mut self, changed: &Vec<Entity>, base: Ghost<EntityComponentManager<C>>)
        requires
            old(self).ec_manager.wf(),
            forall|e: Entity|
                !(#[trigger] changed@.contains(e)) ==> (old(self).ec_manager.spec_live(e) == base@.spec_live(
                    e,
                )) && (old(self).ec_manager.spec_live(e) ==> old(self).ec_manager.spec_tag_set(e.id)
                    == base@.spec_tag_set(e.id)),
            forall|i: int, j: int|
                0 <= i < j < old(self).systems@.len() ==> (#[trigger] old(self).systems@[i]).system_tag
                    != (#[trigger] old(self).systems@[j]).system_tag,
            forall|i: int, a: int, b: int|
                0 <= i < old(self).systems@.len() && 0 <= a < b < old(self).systems@[i].entities@.len()
                    ==> (#[trigger] old(self).systems@[i].entities@[a]) != (#[trigger] old(
                    self,
                ).systems@[i].entities@[b]),
            forall|i: int, e: Entity|
                0 <= i < old(self).systems@.len() ==> ((#[trigger] old(
                    self,
                ).systems@[i].entities@.contains(e)) <==> Self::spec_qualifies(
                    base@,
                    old(self).systems@[i].required_components@,
                    e,
                )),
        ensures
            final(self).wf(),
            final(self).ec_manager == old(self).ec_manager,
            final(self).systems@.len() == old(self).systems@.len(),
            forall|i: int|
                0 <= i < old(self).systems@.len() ==> (#[trigger] final(self).systems@[i]).system_tag
                    == old(self).systems@[i].system_tag && final(self).systems@[i].required_components
                    == old(self).systems@[i].required_components,
    {
        let ghost m1 = self.ec_manager;
        let mut c: usize = 0;
        while c < changed.len()
            invariant
                c <= changed@.len(),
                self.ec_manager == m1,
                m1 == old(self).ec_manager,
                m1.wf(),
                forall|e: Entity|
                    !(#[trigger] changed@.contains(e)) ==> (m1.spec_live(e) == base@.spec_live(e))
                        && (m1.spec_live(e) ==> m1.spec_tag_set(e.id) == base@.spec_tag_set(e.id)),
                self.systems@.len() == old(self).systems@.len(),
                forall|i: int|
                    0 <= i < self.systems@.len() ==> (#[trigger] self.systems@[i]).system_tag
                        == old(self).systems@[i].system_tag && self.systems@[i].required_components
                        == old(self).systems@[i].required_components,
                forall|i: int, a: int, b: int|
                    0 <= i < self.systems@.len() && 0 <= a < b < self.systems@[i].entities@.len()
                        ==> (#[trigger] self.systems@[i].entities@[a]) != (
                    #[trigger] self.systems@[i].entities@[b]),
                forall|i: int, e2: Entity|
                    0 <= i < self.systems@.len() ==> ((#[trigger] self.systems@[i].entities@.contains(
                        e2,
                    )) <==> (if changed@.subrange(0, c as int).contains(e2) {
                        Self::spec_qualifies(m1, self.systems@[i].required_components@, e2)
                    } else {
                        old(self).systems@[i].entities@.contains(e2)
                    })),
                forall|i: int, e2: Entity|
                    0 <= i < old(self).systems@.len() ==> ((#[trigger] old(
                        self,
                    ).systems@[i].entities@.contains(e2)) <==> Self::spec_qualifies(
                        base@,
                        old(self).systems@[i].required_components@,
                        e2,
                    )),
            decreases changed@.len() - c,
        {
            let e = changed[c];
            let live_tags: Option<Vec<u64>> = match self.ec_manager.has_components(e) {
                Some(t) => Some(copy_u64s(t)),
                None => None,
            };
            let ghost sys_c = self.systems@;
            let mut k: usize = 0;
            while k < self.systems.len()
                invariant
                    k <= self.systems@.len(),
                    self.ec_manager == m1,
                    m1.wf(),
                    e == changed@[c as int],
                    c < changed@.len(),
                    match live_tags {
                        Some(t) => m1.spec_live(e) && t@ == m1.spec_tags(e.id),
                        None => !m1.spec_live(e),
                    },
                    self.systems@.len() == sys_c.len(),
                    forall|i: int|
                        0 <= i < self.systems@.len() ==> (#[trigger] self.systems@[i]).system_tag
                            == sys_c[i].system_tag && self.systems@[i].required_components
                            == sys_c[i].required_components,
                    forall|i: int| k <= i < self.systems@.len() ==> (#[trigger] self.systems@[i])
                        == sys_c[i],
                    forall|i: int, a: int, b: int|
                        0 <= i < self.systems@.len() && 0 <= a < b
                            < self.systems@[i].entities@.len() ==> (
                        #[trigger] self.systems@[i].entities@[a]) != (
                        #[trigger] self.systems@[i].entities@[b]),
                    forall|i: int, e2: Entity|
                        0 <= i < k ==> ((#[trigger] self.systems@[i].entities@.contains(e2))
                            <==> (if e2 == e {
                            Self::spec_qualifies(m1, self.systems@[i].required_components@, e2)
                        } else {
                            sys_c[i].entities@.contains(e2)
                        })),
                decreases self.systems@.len() - k,
            {
                let ghost pre_sys = self.systems@;
                let q = match &live_tags {
                    Some(t) => is_subset_tags(&self.systems[k].required_components, t),
                    None => false,
                };
                if q {
                    interest_insert(&mut self.systems[k].entities, e);
                } else {
                    interest_remove(&mut self.systems[k].entities, e);
                }
                proof {
                    let i = k as int;
                    let req = self.systems@[i].required_components@;
                    assert(q == Self::spec_qualifies(m1, req, e));
                    assert forall|i2: int, e2: Entity|
                        0 <= i2 < k + 1 implies ((#[trigger] self.systems@[i2].entities@.contains(
                        e2,
                    )) <==> (if e2 == e {
                        Self::spec_qualifies(m1, self.systems@[i2].required_components@, e2)
                    } else {
                        sys_c[i2].entities@.contains(e2)
                    })) by {
                        if i2 < i {
                            assert(self.systems@[i2] == pre_sys[i2]);
                            assert(pre_sys[i2].entities@.contains(e2) <==> (if e2 == e {
                                Self::spec_qualifies(m1, pre_sys[i2].required_components@, e2)
                            } else {
                                sys_c[i2].entities@.contains(e2)
                            }));
                        } else {
                            assert(pre_sys[i2] == sys_c[i2]);
                            if e2 != e {
                                assert(self.systems@[i2].entities@.contains(e2)
                                    == pre_sys[i2].entities@.contains(e2));
                            }
                        }
                    }
                }
                k = k + 1;
            }
            proof {
                let pc = changed@.subrange(0, c as int);
                let pc1 = changed@.subrange(0, c as int + 1);
                assert(pc1 =~= pc.push(e));
                assert forall|i: int, e2: Entity|
                    0 <= i < self.systems@.len() implies ((
                #[trigger] self.systems@[i].entities@.contains(e2)) <==> (if pc1.contains(e2) {
                    Self::spec_qualifies(m1, self.systems@[i].required_components@, e2)
                } else {
                    old(self).systems@[i].entities@.contains(e2)
                })) by {
                    lemma_push_contains_entity(pc, e, e2);
                    assert(self.systems@[i].entities@.contains(e2) <==> (if e2 == e {
                        Self::spec_qualifies(m1, self.systems@[i].required_components@, e2)
                    } else {
                        sys_c[i].entities@.contains(e2)
                    }));
                    assert(sys_c[i].entities@.contains(e2) <==> (if pc.contains(e2) {
                        Self::spec_qualifies(m1, sys_c[i].required_components@, e2)
                    } else {
                        old(self).systems@[i].entities@.contains(e2)
                    }));
                    assert(sys_c[i].required_components == self.systems@[i].required_components);
                }
            }
            c = c + 1;
        }
        proof {
            assert(changed@.subrange(0, changed@.len() as int) =~= changed@);
            assert forall|i: int, e2: Entity|
                0 <= i < self.systems@.len() implies ((
            #[trigger] self.systems@[i].entities@.contains(e2)) <==> Self::spec_qualifies(
                m1,
                self.systems@[i].required_components@,
                e2,
            )) by {
                if !changed@.contains(e2) {
                    assert(old(self).systems@[i].entities@.contains(e2) <==> Self::spec_qualifies(
                        base@,
                        old(self).systems@[i].required_components@,
                        e2,
                    ));
                    assert(m1.spec_live(e2) == base@.spec_live(e2));
                    if m1.spec_live(e2) {
                        assert(m1.spec_tag_set(e2.id) == base@.spec_tag_set(e2.id));
                    }
                }
            }
        }
    }

    /// Runs a registered system: its interest set as of now is handed to
    /// its `run` together with a change-tracking view of the store, and
    /// afterwards every entity the run touched -- created, destroyed, or
    /// changed in its components -- is re-evaluated against every
    /// registered system's interest set.  Entities the run did not touch
    /// keep their memberships, which are still exact.
    pub fn run_system<'i, S: System<C>>(&mut self, system: &S, input: S::Input<'i>) -> (r:
        Result<(), EcsError>)
        requires
            old(self).wf(),
        ensures
            final(self).wf(),
            !old(self).spec_has_system(S::tag_spec()) ==> r == Err::<(), EcsError>(
                EcsError::NoSuchSystem,
            ) && *final(self) == *old(self),
            old(self).spec_has_system(S::tag_spec()) ==> {
                &&& r == Ok::<(), EcsError>(())
                &&& final(self).systems@.len() == old(self).systems@.len()
                &&& forall|i: int|
                    0 <= i < old(self).systems@.len() ==> (
                    #[trigger] final(self).systems@[i]).system_tag == old(
                        self,
                    ).systems@[i].system_tag && final(self).systems@[i].required_components
                        == old(self).systems@[i].required_components
            },
    {
        let tag = system.system_tag();
        let idx = match self.find_system(tag) {
            None => {
                return Err(EcsError::NoSuchSystem);
            },
            Some(i) => i,
        };
        let interest = copy_entities(&self.systems[idx].entities);
        let mut m = EntityComponentManager::new();
        core::mem::swap(&mut self.ec_manager, &mut m);
        let mut w = EntityComponentWrapper::new(m);
        let ghost m0 = w.snapshot@;
        proof {
            assert(m0 == old(self).ec_manager);
        }
        system.run(&mut w, &interest, input);
        let EntityComponentWrapper { ec_manager, changed_entities, snapshot } = w;
        self.ec_manager = ec_manager;
        proof {
            assert(snapshot@ == m0);
        }
        self.reconcile_changed(&changed_entities, Ghost(m0));
        Ok(())
    }
}

impl<C> Registry<C> {
    /// Dispatches one event through a bus against this registry's store:
    /// every subscriber runs in registration order with a
    /// change-tracking view, and afterwards the touched entities are
    /// re-evaluated against every registered system's interest set, just
    /// as after `run_system`.
    pub fn dispatch_event<EV, H: HandlerBase<C, EV>>(
        &mut self,
        event_bus: &mut EventBus<H>,
        event_tag: u64,
        event: &EV,
    )
        requires
            old(self).wf(),
            old(event_bus).wf(),
        ensures
            final(self).wf(),
            final(event_bus).wf(),
            final(self).systems@.len() == old(self).systems@.len(),
            forall|i: int|
                0 <= i < old(self).systems@.len() ==> (#[trigger] final(self).systems@[i]).system_tag
                    == old(self).systems@[i].system_tag && final(self).systems@[i].required_components
                    == old(self).systems@[i].required_components,
            final(event_bus).handlers@.len() == old(event_bus).handlers@.len(),
            forall|i: int|
                0 <= i < old(event_bus).handlers@.len() ==> (
                #[trigger] final(event_bus).handlers@[i]).0 == old(event_bus).handlers@[i].0
                    && final(event_bus).handlers@[i].1@.len() == old(
                    event_bus,
                ).handlers@[i].1@.len(),
    {
        let mut m = EntityComponentManager::new();
        core::mem::swap(&mut self.ec_manager, &mut m);
        let mut w = EntityComponentWrapper::new(m);
        let ghost m0 = w.snapshot@;
        proof {
            assert(m0 == old(self).ec_manager);
        }
        event_bus.dispatch(&mut w, event_tag, event);
        let EntityComponentWrapper { ec_manager, changed_entities, snapshot } = w;
        self.ec_manager = ec_manager;
        proof {
            assert(snapshot@ == m0);
        }
        self.reconcile_changed(&changed_entities, Ghost(m0));
    }
}

/// Generation monotonicity: one removal of a live handle raises its
/// id's generation by exactly one and leaves every other id alone, so
/// repeated create/remove cycles strictly increase an id's generation,
/// one step per removal, and the removed handle itself is dead from
/// that state on.  The hypotheses are the postconditions of
/// `EntityManager::remove_entity` on its success path.
pub proof fn lemma_generation_monotonicity(
    pre: EntityManager,
    post: EntityManager,
    e: Entity,
)
    requires
        pre.wf(),
        pre.spec_removable(e),
        post.spec_generation(e.id) == e.generation + 1,
        forall|id: u32| id != e.id ==> post.spec_generation(id) == pre.spec_generation(id),
    ensures
        post.spec_generation(e.id) == pre.spec_generation(e.id) + 1,
        forall|id: u32| post.spec_generation(id) >= pre.spec_generation(id),
        !post.spec_alive(e),
{
}

/// Interest-set correctness: in a well-formed registry the interest set
/// of every registered system is exactly the live entities whose tag
/// sets cover the system's requirement.  Every mutating operation of
/// the registry -- component and entity changes, registration, running
/// a system, dispatching events -- ensures well-formedness, so this
/// holds after each of them.
pub proof fn lemma_interest_sets_exact<C>(reg: Registry<C>, tag: u64, e: Entity)
    requires
        reg.wf(),
        reg.spec_has_system(tag),
    ensures
        reg.spec_interest(tag).contains(e) <==> (reg.spec_live(e) && reg.spec_required(tag)
            <= reg.ec_manager.spec_tag_set(e.id)),
{
    let i = reg.spec_system_at(tag);
    assert(0 <= i < reg.systems@.len() && reg.systems@[i].system_tag == tag);
    assert(reg.systems@[i].entities@.contains(e) <==> Registry::<C>::spec_qualifies(
        reg.ec_manager,
        reg.systems@[i].required_components@,
        e,
    ));
    if reg.spec_interest(tag).contains(e) {
        assert(reg.systems@[i].entities@.contains(e));
    }
}

/// A handle whose id's recorded generation has moved past it is
/// permanently invalid: it can never be alive again, because no
/// operation ever lowers a generation.  Together with the
/// `Err(DeadEntity) <==> !spec_live` clauses of the registry's
/// operations, every operation taking such a handle reports
/// `DeadEntity` and never a stale value.
pub proof fn lemma_stale_handle_rejected<C>(reg: Registry<C>, e: Entity)
    requires
        reg.ec_manager.entity_manager.spec_generation(e.id) > e.generation,
    ensures
        !reg.spec_live(e),
        !reg.ec_manager.entity_manager.spec_alive(e),
        forall|tag: u64|
            reg.wf() && reg.spec_has_system(tag) ==> !reg.spec_interest(tag).contains(e),
{
    assert forall|tag: u64|
        reg.wf() && reg.spec_has_system(tag) implies !reg.spec_interest(tag).contains(e) by {
        let i = reg.spec_system_at(tag);
        assert(0 <= i < reg.systems@.len() && reg.systems@[i].system_tag == tag);
        if reg.spec_interest(tag).contains(e) {
            assert(reg.systems@[i].entities@.contains(e));
        }
    }
}

/// Id recycling: removing a live entity (below the generation ceiling)
/// and then creating the next entity yields the same id back, at a
/// strictly greater generation, while the removed handle stays dead.
/// The hypotheses are the postconditions of the store's remove/create
/// pair on the path where the freed id is reused.
pub proof fn lemma_id_recycled<C>(
    ec0: EntityComponentManager<C>,
    ec1: EntityComponentManager<C>,
    ec2: EntityComponentManager<C>,
    e: Entity,
    e2: Entity,
)
    requires
        ec0.wf(),
        ec0.spec_live(e),
        e.generation + 1 < u32::MAX,
        // the removal's effect on the allocator
        ec1.entity_manager.spec_generation(e.id) == e.generation + 1,
        forall|id: u32|
            id != e.id ==> ec1.entity_manager.spec_generation(id)
                == ec0.entity_manager.spec_generation(id),
        ec1.entity_manager.free_entity_ids@ == ec0.entity_manager.free_entity_ids@.push(e.id),
        // the creation's effect, on the path reusing a freed id
        ec1.entity_manager.free_entity_ids@.len() > 0,
        e2.id == ec1.entity_manager.free_entity_ids@.last(),
        e2.generation == ec1.entity_manager.spec_generation(e2.id),
        ec2.spec_live(e2),
        forall|id: u32|
            ec2.entity_manager.spec_generation(id) == ec1.entity_manager.spec_generation(id),
    ensures
        e2.id == e.id,
        e2.generation == e.generation + 1,
        e2.generation > e.generation,
        !ec2.spec_live(e),
{
    assert(ec1.entity_manager.free_entity_ids@.last() == e.id);
    assert(ec2.entity_manager.spec_generation(e.id) == e.generation + 1);
}

/// Component overwrite semantics: attaching the same component type
/// twice to one entity replaces the value and does not grow the
/// entity's tag set -- there is no second slot.  The hypotheses are the
/// postconditions of two back-to-back successful `add_component` calls
/// under one tag.
pub proof fn lemma_component_overwrite<C>(
    ec0: EntityComponentManager<C>,
    ec1: EntityComponentManager<C>,
    ec2: EntityComponentManager<C>,
    e: Entity,
    tag: u64,
    v1: C,
    v2: C,
)
    requires
        ec1.spec_tag_set(e.id) == ec0.spec_tag_set(e.id).insert(tag),
        ec1.spec_component(e, tag) == Some(v1),
        ec2.spec_tag_set(e.id) == ec1.spec_tag_set(e.id).insert(tag),
        ec2.spec_component(e, tag) == Some(v2),
    ensures
        ec2.spec_component(e, tag) == Some(v2),
        ec2.spec_tag_set(e.id) == ec1.spec_tag_set(e.id),
{
    assert(ec1.spec_tag_set(e.id).insert(tag) =~= ec1.spec_tag_set(e.id));
}

} // verus!
