use vstd::prelude::*;

verus! {

/// Entity ids are plain indices into sparse component stores. Ids are
/// recycled on despawn, so a stale id may alias a future entity: systems
/// must not cache ids across ticks.
pub type EntityId = u32;

/// Abstract state of the entity allocator: the next never-used id and the
/// stack of released ids, most recent last.
pub struct AllocatorModel {
    pub next_id: int,
    pub free: Seq<EntityId>,
}

/// Whether `spawn` can hand out an id without exhausting the id space.
pub open spec fn can_spawn_model(m: AllocatorModel) -> bool {
    m.free.len() > 0 || m.next_id < u32::MAX
}

/// The id `spawn` hands out: the most recently released id if there is
/// one, else the next never-used id.
pub open spec fn spawned_id(m: AllocatorModel) -> EntityId {
    if m.free.len() > 0 {
        m.free.last()
    } else {
        m.next_id as EntityId
    }
}

/// The allocator after a `spawn`.
pub open spec fn after_spawn(m: AllocatorModel) -> AllocatorModel {
    if m.free.len() > 0 {
        AllocatorModel { next_id: m.next_id, free: m.free.drop_last() }
    } else {
        AllocatorModel { next_id: m.next_id + 1, free: m.free }
    }
}

/// The allocator after `despawn(id)`: the id is released for reuse.
pub open spec fn after_despawn(m: AllocatorModel, id: EntityId) -> AllocatorModel {
    AllocatorModel { next_id: m.next_id, free: m.free.push(id) }
}

/// An id is live when it has been handed out and not released since.
pub open spec fn is_live(m: AllocatorModel, id: EntityId) -> bool {
    id < m.next_id && !m.free.contains(id)
}

/// The allocator's bookkeeping is consistent: every released id was handed
/// out before, and none is released twice.
pub open spec fn allocator_consistent(m: AllocatorModel) -> bool {
    &&& 0 <= m.next_id <= u32::MAX
    &&& m.free.no_duplicates()
    &&& forall|i: int| 0 <= i < m.free.len() ==> m.free[i] < m.next_id
}

/// The entity / component store at the heart of the engine.
///
/// The world hands out entity ids; each component type `T` lives in its
/// own dense `Vec<Option<T>>` indexed by `EntityId`, operated on by the
/// store functions below.
pub struct World {
    next_id: EntityId,
    free: Vec<EntityId>,
}

impl View for World {
    type V = AllocatorModel;

    closed spec fn view(&self) -> AllocatorModel {
        AllocatorModel { next_id: self.next_id as int, free: self.free@ }
    }
}

/// What a store holds for `id`: its slot, or nothing past the end.
pub open spec fn slot_of<T>(store: Seq<Option<T>>, id: int) -> Option<T> {
    if 0 <= id < store.len() {
        store[id]
    } else {
        None
    }
}

/// `store` extended with empty slots up to length `n`.
pub open spec fn padded<T>(store: Seq<Option<T>>, n: int) -> Seq<Option<T>> {
    if store.len() >= n {
        store
    } else {
        store + Seq::new((n - store.len()) as nat, |i: int| None::<T>)
    }
}

/// The store after `insert(id, c)`.
pub open spec fn store_after_insert<T>(store: Seq<Option<T>>, id: int, c: T) -> Seq<Option<T>> {
    padded(store, id + 1).update(id, Some(c))
}

/// The store after the component of `id` is taken out or cleared.
pub open spec fn store_after_clear<T>(store: Seq<Option<T>>, id: int) -> Seq<Option<T>> {
    if 0 <= id < store.len() {
        store.update(id, None)
    } else {
        store
    }
}

/// `ids` lists, in ascending order, exactly the ids whose slot holds a
/// component.
pub open spec fn lists_occupied<T>(store: Seq<Option<T>>, ids: Seq<EntityId>) -> bool {
    &&& forall|i: int| 0 <= i < ids.len() ==> #[trigger] slot_of(store, ids[i] as int) is Some
    &&& forall|i: int, j: int| 0 <= i < j < ids.len() ==> ids[i] < ids[j]
    &&& forall|id: int| 0 <= id < store.len() && #[trigger] store[id] is Some ==> ids.contains(id as EntityId)
}

impl World {
    pub fn new() -> (r: World)
        ensures
            r@.next_id == 0,
            r@.free == Seq::<EntityId>::empty(),
            allocator_consistent(r@),
    {
        World { next_id: 0, free: Vec::new() }
    }

    /// Whether `spawn` can hand out another id.
    pub fn can_spawn(&self) -> (r: bool)
        ensures
            r == can_spawn_model(self@),
    {
        self.free.len() > 0 || self.next_id < u32::MAX
    }

    /// Hands out an id: the most recently despawned one, else a new one.
    pub fn spawn(&mut self) -> (r: EntityId)
        requires
            can_spawn_model(old(self)@),
        ensures
            r == spawned_id(old(self)@),
            final(self)@ == after_spawn(old(self)@),
            allocator_consistent(old(self)@) ==> {
                &&& allocator_consistent(final(self)@)
                &&& !is_live(old(self)@, r)
                &&& is_live(final(self)@, r)
                &&& forall|other: EntityId| #[trigger] is_live(old(self)@, other) ==> is_live(final(self)@, other)
            },
    {
        match self.free.pop() {
            Some(id) => {
                proof {
                    let f = old(self)@.free;
                    assert(f.drop_last() =~= final(self)@.free);
                    if allocator_consistent(old(self)@) {
                        assert forall|other: EntityId| #[trigger] is_live(old(self)@, other) implies is_live(final(self)@, other) by {
                            if f.drop_last().contains(other) {
                                let k = choose|k: int| 0 <= k < f.drop_last().len() && f.drop_last()[k] == other;
                                assert(f[k] == other);
                            }
                        }
                        assert(!f.drop_last().contains(id)) by {
                            if f.drop_last().contains(id) {
                                let k = choose|k: int| 0 <= k < f.drop_last().len() && f.drop_last()[k] == id;
                                assert(f[k] == f[f.len() - 1]);
                            }
                        }
                        assert(f[f.len() - 1] == id);
                    }
                }
                id
            },
            None => {
                let id = self.next_id;
                self.next_id = self.next_id + 1;
                id
            },
        }
    }

    /// Releases `id` for reuse by a later `spawn`.
    pub fn despawn(&mut self, id: EntityId)
        ensures
            final(self)@ == after_despawn(old(self)@, id),
            allocator_consistent(old(self)@) && is_live(old(self)@, id) ==> {
                &&& allocator_consistent(final(self)@)
                &&& !is_live(final(self)@, id)
            },
    {
        self.free.push(id);
        proof {
            let f = old(self)@.free;
            assert(final(self)@.free == f.push(id));
            assert(f.push(id)[f.len() as int] == id);
        }
    }
}

impl World {
    /// The component `store` holds for `id`, if any.
    pub fn get<T>(store: &Vec<Option<T>>, id: EntityId) -> (r: Option<&T>)
        ensures
            match r {
                Some(c) => slot_of(store@, id as int) == Some(*c),
                None => slot_of(store@, id as int) is None,
            },
    {
        let i = id as usize;
        if i < store.len() {
            store[i].as_ref()
        } else {
            None
        }
    }

    /// Mutable access to the component `store` holds for `id`, if any.
    pub fn get_mut<T>(store: &mut Vec<Option<T>>, id: EntityId) -> (r: Option<&mut T>)
        ensures
            match r {
                Some(c) => {
                    &&& slot_of(old(store)@, id as int) == Some(*c)
                    &&& final(store)@ == old(store)@.update(id as int, Some(*final(c)))
                },
                None => {
                    &&& slot_of(old(store)@, id as int) is None
                    &&& final(store)@ == old(store)@
                },
            },
    {
        let i = id as usize;
        if i < store.len() {
            store[i].as_mut()
        } else {
            None
        }
    }

    /// Stores `component` for `id`, growing the store with empty slots as
    /// needed and replacing any component already there.
    pub fn insert<T>(store: &mut Vec<Option<T>>, id: EntityId, component: T)
        requires
            id as int + 1 <= usize::MAX,
        ensures
            final(store)@ == store_after_insert(old(store)@, id as int, component),
    {
        let i = id as usize;
        while store.len() <= i
            invariant
                i + 1 <= usize::MAX,
                store@.len() <= i + 1 || store@.len() == old(store)@.len(),
                store@ == padded(old(store)@, store@.len() as int),
            decreases i + 1 - store@.len(),
        {
            store.push(None);
            assert(store@ =~= padded(old(store)@, store@.len() as int));
        }
        proof {
            assert(store@ =~= padded(old(store)@, i as int + 1));
        }
        store[i] = Some(component);
    }

    /// Takes the component of `id` out of `store`, if any.
    pub fn remove<T>(store: &mut Vec<Option<T>>, id: EntityId) -> (r: Option<T>)
        ensures
            r == slot_of(old(store)@, id as int),
            final(store)@ == store_after_clear(old(store)@, id as int),
    {
        let i = id as usize;
        if i < store.len() {
            store[i].take()
        } else {
            None
        }
    }

    /// Whether `store` holds a component for `id`.
    pub fn has<T>(store: &Vec<Option<T>>, id: EntityId) -> (r: bool)
        ensures
            r == slot_of(store@, id as int) is Some,
    {
        World::get(store, id).is_some()
    }

    /// Empties the slot of `id` in `store`, if the store reaches that far.
    pub fn clear_at<T>(store: &mut Vec<Option<T>>, id: EntityId)
        ensures
            final(store)@ == store_after_clear(old(store)@, id as int),
    {
        let i = id as usize;
        if i < store.len() {
            store[i] = None;
        }
    }

    /// The ids that have a component in `store`, in ascending order.
    pub fn ids_with<T>(store: &Vec<Option<T>>) -> (r: Vec<EntityId>)
        requires
            store@.len() <= u32::MAX as int + 1,
        ensures
            lists_occupied(store@, r@),
    {
        let mut ids: Vec<EntityId> = Vec::new();
        let n = store.len();
        let mut i: usize = 0;
        while i < n
            invariant
                n == store@.len(),
                n <= u32::MAX as int + 1,
                i <= n,
                forall|k: int| 0 <= k < ids@.len() ==> #[trigger] slot_of(store@, ids@[k] as int) is Some,
                forall|k: int| 0 <= k < ids@.len() ==> ids@[k] < i,
                forall|a: int, b: int| 0 <= a < b < ids@.len() ==> ids@[a] < ids@[b],
                forall|id: int| 0 <= id < i && #[trigger] store@[id] is Some ==> ids@.contains(id as EntityId),
            decreases n - i,
        {
            if store[i].is_some() {
                let ghost before = ids@;
                ids.push(i as EntityId);
                proof {
                    assert(ids@[before.len() as int] == i as EntityId);
                    assert forall|id: int| 0 <= id < i + 1 && #[trigger] store@[id] is Some implies ids@.contains(id as EntityId) by {
                        if id < i {
                            let k = choose|k: int| 0 <= k < before.len() && before[k] == id as EntityId;
                            assert(ids@[k] == id as EntityId);
                        } else {
                            assert(ids@[before.len() as int] == id as EntityId);
                        }
                    }
                }
            }
            i += 1;
        }
        ids
    }

    /// Every component in `store` with its id, in ascending id order.
    pub fn iter<T>(store: &Vec<Option<T>>) -> (r: Vec<(EntityId, &T)>)
        requires
            store@.len() <= u32::MAX as int + 1,
        ensures
            lists_occupied(store@, r@.map_values(|p: (EntityId, &T)| p.0)),
            forall|k: int| 0 <= k < r@.len() ==> slot_of(store@, #[trigger] r@[k].0 as int) == Some(*r@[k].1),
    {
        let mut out: Vec<(EntityId, &T)> = Vec::new();
        let n = store.len();
        let mut i: usize = 0;
        while i < n
            invariant
                n == store@.len(),
                n <= u32::MAX as int + 1,
                i <= n,
                forall|k: int| 0 <= k < out@.len() ==> slot_of(store@, #[trigger] out@[k].0 as int) == Some(*out@[k].1),
                forall|k: int| 0 <= k < out@.len() ==> #[trigger] out@[k].0 < i,
                forall|a: int, b: int| 0 <= a < b < out@.len() ==> out@[a].0 < out@[b].0,
                forall|id: int| 0 <= id < i && #[trigger] store@[id] is Some ==> exists|k: int| 0 <= k < out@.len() && out@[k].0 == id,
            decreases n - i,
        {
            match &store[i] {
                Some(c) => {
                    let ghost before = out@;
                    out.push((i as EntityId, c));
                    proof {
                        assert(out@[before.len() as int].0 == i as EntityId);
                        assert forall|id: int| 0 <= id < i + 1 && #[trigger] store@[id] is Some implies exists|k: int| 0 <= k < out@.len() && out@[k].0 == id by {
                            if id < i {
                                let k = choose|k: int| 0 <= k < before.len() && before[k].0 == id;
                                assert(out@[k].0 == id);
                            } else {
                                assert(out@[before.len() as int].0 == id);
                            }
                        }
                    }
                },
                None => {},
            }
            i += 1;
        }
        proof {
            let ids = out@.map_values(|p: (EntityId, &T)| p.0);
            assert forall|id: int| 0 <= id < store@.len() && #[trigger] store@[id] is Some implies ids.contains(id as EntityId) by {
                let k = choose|k: int| 0 <= k < out@.len() && out@[k].0 == id;
                assert(ids[k] == id as EntityId);
            }
            assert forall|k: int| 0 <= k < ids.len() implies #[trigger] slot_of(store@, ids[k] as int) is Some by {
                assert(ids[k] == out@[k].0);
            }
        }
        out
    }
}

impl Default for World {
    fn default() -> (r: World)
        ensures
            r@.next_id == 0,
            r@.free == Seq::<EntityId>::empty(),
    {
        World::new()
    }
}

/// A read gives back what a write wrote: after `insert(id, c)` the store
/// holds `c` for `id`, and every other id keeps what it held.
pub proof fn law_get_after_insert<T>(store: Seq<Option<T>>, id: EntityId, c: T, other: EntityId)
    ensures
        slot_of(store_after_insert(store, id as int, c), id as int) == Some(c),
        other != id ==> slot_of(store_after_insert(store, id as int, c), other as int)
            == slot_of(store, other as int),
{
}

/// Removing a component just inserted gives it back and leaves the id
/// without a component; other ids keep what they held.
pub proof fn law_remove_after_insert<T>(store: Seq<Option<T>>, id: EntityId, c: T, other: EntityId)
    ensures
        slot_of(store_after_insert(store, id as int, c), id as int) == Some(c),
        slot_of(store_after_clear(store_after_insert(store, id as int, c), id as int), id as int) is None,
        other != id ==> slot_of(
            store_after_clear(store_after_insert(store, id as int, c), id as int),
            other as int,
        ) == slot_of(store, other as int),
{
}

/// Clearing an id empties exactly its slot.
pub proof fn law_clear_only_touches_its_id<T>(store: Seq<Option<T>>, id: EntityId, other: EntityId)
    ensures
        slot_of(store_after_clear(store, id as int), id as int) is None,
        other != id ==> slot_of(store_after_clear(store, id as int), other as int) == slot_of(
            store,
            other as int,
        ),
{
}

/// Ids are recycled: the next `spawn` after `despawn(id)` hands out `id`
/// again and leaves the allocator as it was before the despawn.
pub proof fn law_spawn_reuses_despawned(m: AllocatorModel, id: EntityId)
    ensures
        can_spawn_model(after_despawn(m, id)),
        spawned_id(after_despawn(m, id)) == id,
        after_spawn(after_despawn(m, id)) == m,
{
    assert(m.free.push(id).drop_last() =~= m.free);
}

/// A consistent allocator never hands out an id that is still live, and
/// stays consistent across spawns and despawns of live ids.
pub proof fn law_spawn_is_fresh(m: AllocatorModel)
    requires
        allocator_consistent(m),
        can_spawn_model(m),
    ensures
        !is_live(m, spawned_id(m)),
        is_live(after_spawn(m), spawned_id(m)),
        allocator_consistent(after_spawn(m)),
{
    let f = m.free;
    if f.len() > 0 {
        let id = f.last();
        assert(after_spawn(m).free =~= f.drop_last());
        assert(!f.drop_last().contains(id)) by {
            if f.drop_last().contains(id) {
                let k = choose|k: int| 0 <= k < f.drop_last().len() && f.drop_last()[k] == id;
                assert(f[k] == f[f.len() - 1]);
            }
        }
    }
}

/// Every component in `store` belongs to an entity that is live in `m`.
pub open spec fn store_tracks_live<T>(m: AllocatorModel, store: Seq<Option<T>>) -> bool {
    forall|id: int|
        0 <= id < store.len() && #[trigger] store[id] is Some ==> 0 <= id <= u32::MAX && is_live(
            m,
            id as EntityId,
        )
}

/// A freshly spawned id carries no component, in any store whose
/// components all belong to live entities.
pub proof fn law_spawned_id_has_no_component<T>(m: AllocatorModel, store: Seq<Option<T>>)
    requires
        allocator_consistent(m),
        can_spawn_model(m),
        store_tracks_live(m, store),
    ensures
        slot_of(store, spawned_id(m) as int) is None,
{
    law_spawn_is_fresh(m);
    let id = spawned_id(m) as int;
    if 0 <= id < store.len() && store[id] is Some {
        assert(is_live(m, id as EntityId));
    }
}

/// The stores keep holding only live entities' components across the
/// world's operations: spawning, inserting for a live id, and despawning an
/// id whose slot is cleared in the store (as `despawn` does in every store).
pub proof fn law_stores_track_live_entities<T>(
    m: AllocatorModel,
    store: Seq<Option<T>>,
    id: EntityId,
    c: T,
)
    requires
        allocator_consistent(m),
        store_tracks_live(m, store),
    ensures
        can_spawn_model(m) ==> store_tracks_live(after_spawn(m), store),
        is_live(m, id) ==> store_tracks_live(m, store_after_insert(store, id as int, c)),
        store_tracks_live(after_despawn(m, id), store_after_clear(store, id as int)),
{
    if can_spawn_model(m) {
        let f = m.free;
        assert forall|x: int| 0 <= x < store.len() && #[trigger] store[x] is Some implies 0 <= x <= u32::MAX
            && is_live(after_spawn(m), x as EntityId) by {
            let e = x as EntityId;
            if f.len() > 0 && f.drop_last().contains(e) {
                let k = choose|k: int| 0 <= k < f.drop_last().len() && f.drop_last()[k] == e;
                assert(f[k] == e);
            }
        }
    }
    if is_live(m, id) {
        let s2 = store_after_insert(store, id as int, c);
        assert forall|x: int| 0 <= x < s2.len() && #[trigger] s2[x] is Some implies 0 <= x <= u32::MAX
            && is_live(m, x as EntityId) by {
            if x != id as int {
                assert(x < store.len());
                assert(s2[x] == store[x]);
            }
        }
    }
    let s3 = store_after_clear(store, id as int);
    let m3 = after_despawn(m, id);
    assert forall|x: int| 0 <= x < s3.len() && #[trigger] s3[x] is Some implies 0 <= x <= u32::MAX
        && is_live(m3, x as EntityId) by {
        assert(s3[x] == store[x]);
        let e = x as EntityId;
        assert(e != id);
        if m.free.push(id).contains(e) {
            let k = choose|k: int| 0 <= k < m.free.push(id).len() && m.free.push(id)[k] == e;
            if k < m.free.len() {
                assert(m.free[k] == e);
            }
        }
    }
}

} // verus!
