//! The archetypes of a world, behind their latches.
//!
//! The registry sits behind one latch and every archetype behind a latch of
//! its own. An operation is one atomic step: it either gets every latch it
//! needs and does its work, or it changes nothing and reports that it has
//! to be tried again.

use vstd::prelude::*;
use crate::component::archetype::Archetype;
use crate::component::bundle::{distinct_type_ids, has_type_id, same_type_ids, Bundle};
use crate::component::query::{ComponentFilter, ComponentQuery};
use crate::component::{canonical, type_ids, ComponentTypeInfo};
use crate::entity::Entity;
use crate::util::rwlock::{RwLock, RwLockInner, RwLockReadGuard, RwLockWriteGuard, WRITE_LOCKED};
use crate::Poll;

verus! {

/// The archetypes of a world, behind the latch of the registry.
pub struct ArchetypeStorage<V> {
    raw: RwLock<RawArchetypeStorage<V>>,
}

/// One entry of the bundle cache: the component types of a bundle in the
/// order in which the bundle gives them, and the archetype they lead to.
pub struct BundleCacheEntry {
    pub type_ids: Vec<u64>,
    pub archetype_id: usize,
}

/// The registry of archetypes.
///
/// The archetypes stand in the order in which they were made, and the id of
/// an archetype is its place. Beside them the registry keeps a cache that
/// leads from a list of component types, in the order in which a bundle
/// gives them, to the archetype: it is filled when a lookup has the registry
/// to itself, and a lookup that misses it goes by the set of the types.
pub struct RawArchetypeStorage<V> {
    bundles: Vec<BundleCacheEntry>,
    components: Vec<Vec<u64>>,
    archetypes: Vec<RwLock<Archetype<V>>>,
}

/// Whether `group` holds every id of `ids` and is as long as `ids`: for
/// lists without repetition, whether both name the same set.
pub open spec fn same_id_set(group: Seq<u64>, ids: Seq<u64>) -> bool {
    group.len() == ids.len() && forall|i: int| 0 <= i < ids.len()
        ==> group.contains(#[trigger] ids[i])
}

/// Whether `ids` holds `id`.
pub fn contains_id(ids: &Vec<u64>, id: u64) -> (b: bool)
    ensures
        b == ids@.contains(id),
{
    let mut k: usize = 0;
    while k < ids.len()
        invariant
            k <= ids@.len(),
            forall|j: int| 0 <= j < k ==> ids@[j] != id,
        decreases ids@.len() - k,
    {
        if ids[k] == id {
            return true;
        }
        k += 1;
    }
    false
}

/// Whether `group` and `ids` name the same set of types.
pub fn ids_same_set(group: &Vec<u64>, ids: &Vec<u64>) -> (b: bool)
    ensures
        b == same_id_set(group@, ids@),
{
    if group.len() != ids.len() {
        return false;
    }
    let mut i: usize = 0;
    while i < ids.len()
        invariant
            i <= ids@.len(),
            forall|j: int| 0 <= j < i ==> group@.contains(#[trigger] ids@[j]),
        decreases ids@.len() - i,
    {
        if !contains_id(group, ids[i]) {
            return false;
        }
        i += 1;
    }
    true
}

/// Whether both lists hold the same ids in the same order.
pub fn ids_equal(a: &Vec<u64>, b: &Vec<u64>) -> (eq: bool)
    ensures
        eq == (a@ == b@),
{
    if a.len() != b.len() {
        return false;
    }
    let mut i: usize = 0;
    while i < a.len()
        invariant
            a@.len() == b@.len(),
            i <= a@.len(),
            forall|j: int| 0 <= j < i ==> a@[j] == b@[j],
        decreases a@.len() - i,
    {
        if a[i] != b[i] {
            return false;
        }
        i += 1;
    }
    assert(a@ =~= b@);
    true
}

impl<V> RawArchetypeStorage<V> {
    /// The number of archetypes.
    pub closed spec fn len(&self) -> nat {
        self.archetypes@.len()
    }

    /// The latch of the archetype `id`.
    pub closed spec fn latch(&self, id: int) -> RwLockInner<Archetype<V>> {
        self.archetypes@[id]@
    }

    /// The archetype `id`.
    pub open spec fn archetype(&self, id: int) -> Archetype<V> {
        self.latch(id).value()
    }

    /// The component types of each archetype, by archetype id.
    pub closed spec fn components(&self) -> Seq<Seq<u64>> {
        Seq::new(self.components@.len(), |i: int| self.components@[i]@)
    }

    /// The bundle cache: lists of component types, each with the archetype it leads to.
    pub closed spec fn bundles(&self) -> Seq<(Seq<u64>, usize)> {
        Seq::new(
            self.bundles@.len(),
            |i: int| (self.bundles@[i].type_ids@, self.bundles@[i].archetype_id),
        )
    }

    /// The invariant of the registry: every archetype is well-formed, knows
    /// its id, and has its component types listed; no two archetypes have
    /// the same component types; the cache leads to archetypes with the
    /// cached types.
    pub open spec fn wf(&self) -> bool {
        &&& self.components().len() == self.len()
        &&& forall|a: int|
            0 <= a < self.len() ==> (#[trigger] self.archetype(a)).wf() && self.archetype(a).id()
                == a && self.components()[a] == type_ids(self.archetype(a).column_infos())
        &&& forall|a: int, b: int|
            0 <= a < self.len() && 0 <= b < self.len() && a != b ==> !same_id_set(
                #[trigger] self.components()[a],
                #[trigger] self.components()[b],
            )
        &&& forall|k: int|
            0 <= k < self.bundles().len() ==> (#[trigger] self.bundles()[k]).1 < self.len()
                && same_id_set(self.components()[self.bundles()[k].1 as int], self.bundles()[k].0)
    }

    /// The archetype whose component types are the set `ids`, if there is one.
    pub open spec fn resolve(&self, ids: Seq<u64>) -> Option<int> {
        if exists|a: int| 0 <= a < self.len() && same_id_set(#[trigger] self.components()[a], ids) {
            Some(
                choose|a: int|
                    0 <= a < self.len() && same_id_set(#[trigger] self.components()[a], ids),
            )
        } else {
            None
        }
    }

    /// The component types of every archetype, each with the id of the archetype.
    pub fn archetype_components(&self) -> (list: Vec<(Vec<u64>, usize)>)
        ensures
            list@.len() == self.components().len(),
            forall|a: int|
                0 <= a < list@.len() ==> (#[trigger] list@[a]).0@ == self.components()[a]
                    && list@[a].1 == a,
    {
        let mut list: Vec<(Vec<u64>, usize)> = Vec::new();
        let mut a: usize = 0;
        while a < self.components.len()
            invariant
                a <= self.components@.len(),
                list@.len() == a,
                forall|k: int|
                    0 <= k < a ==> (#[trigger] list@[k]).0@ == self.components@[k]@ && list@[k].1
                        == k,
            decreases self.components@.len() - a,
        {
            list.push((self.components[a].clone(), a));
            a += 1;
        }
        list
    }

    /// The cached lists of component types, each with the id of the archetype
    /// that it leads to.
    pub fn archetype_bundles(&self) -> (list: Vec<(Vec<u64>, usize)>)
        ensures
            list@.len() == self.bundles().len(),
            forall|k: int|
                0 <= k < list@.len() ==> (#[trigger] list@[k]).0@ == self.bundles()[k].0
                    && list@[k].1 == self.bundles()[k].1,
    {
        let mut list: Vec<(Vec<u64>, usize)> = Vec::new();
        let mut k: usize = 0;
        while k < self.bundles.len()
            invariant
                k <= self.bundles@.len(),
                list@.len() == k,
                forall|j: int|
                    0 <= j < k ==> (#[trigger] list@[j]).0@ == self.bundles@[j].type_ids@
                        && list@[j].1 == self.bundles@[j].archetype_id,
            decreases self.bundles@.len() - k,
        {
            list.push((self.bundles[k].type_ids.clone(), self.bundles[k].archetype_id));
            k += 1;
        }
        list
    }

    /// The archetypes behind their latches, by archetype id.
    pub fn archetypes(&self) -> (list: &Vec<RwLock<Archetype<V>>>)
        ensures
            list@.len() == self.len(),
            forall|a: int| 0 <= a < self.len() ==> (#[trigger] list@[a])@ == self.latch(a),
    {
        &self.archetypes
    }

    /// The number of archetypes.
    pub fn archetype_count(&self) -> (n: usize)
        ensures
            n == self.len(),
    {
        self.archetypes.len()
    }

    /// Finds the archetype with the component types `ids`: first in the
    /// cache, by the list as it stands, then among the archetypes, by the set.
    pub fn find(&self, ids: &Vec<u64>) -> (found: Option<usize>)
        requires
            self.wf(),
            ids@.no_duplicates(),
        ensures
            match found {
                Some(a) => Some(a as int) == self.resolve(ids@),
                None => self.resolve(ids@) is None,
            },
    {
        let mut k: usize = 0;
        while k < self.bundles.len()
            invariant
                self.wf(),
                ids@.no_duplicates(),
                k <= self.bundles@.len(),
            decreases self.bundles@.len() - k,
        {
            if ids_equal(&self.bundles[k].type_ids, ids) {
                let a = self.bundles[k].archetype_id;
                proof {
                    assert(self.bundles()[k as int].1 == a);
                    assert(same_id_set(self.components()[a as int], ids@));
                    self.lemma_resolve(ids@, a as int);
                }
                return Some(a);
            }
            k += 1;
        }
        let mut a: usize = 0;
        while a < self.components.len()
            invariant
                self.wf(),
                ids@.no_duplicates(),
                a <= self.components@.len(),
                forall|b: int| 0 <= b < a ==> !same_id_set(#[trigger] self.components()[b], ids@),
            decreases self.components@.len() - a,
        {
            if ids_same_set(&self.components[a], ids) {
                proof {
                    assert(self.components()[a as int] == self.components@[a as int]@);
                    self.lemma_resolve(ids@, a as int);
                }
                return Some(a);
            }
            proof {
                assert(self.components()[a as int] == self.components@[a as int]@);
            }
            a += 1;
        }
        None
    }

    /// Looks `ids` up in the bundle cache, by the list as it stands.
    pub fn find_cached(&self, ids: &Vec<u64>) -> (found: Option<usize>)
        requires
            self.wf(),
            ids@.no_duplicates(),
        ensures
            match found {
                Some(a) => Some(a as int) == self.resolve(ids@) && exists|k: int|
                    0 <= k < self.bundles().len() && #[trigger] self.bundles()[k] == (ids@, a),
                None => forall|k: int|
                    0 <= k < self.bundles().len() ==> (#[trigger] self.bundles()[k]).0 != ids@,
            },
    {
        let mut k: usize = 0;
        while k < self.bundles.len()
            invariant
                self.wf(),
                ids@.no_duplicates(),
                k <= self.bundles@.len(),
                forall|j: int| 0 <= j < k ==> (#[trigger] self.bundles()[j]).0 != ids@,
            decreases self.bundles@.len() - k,
        {
            if ids_equal(&self.bundles[k].type_ids, ids) {
                let a = self.bundles[k].archetype_id;
                proof {
                    assert(self.bundles()[k as int] == (ids@, a));
                    assert(same_id_set(self.components()[a as int], ids@));
                    self.lemma_resolve(ids@, a as int);
                }
                return Some(a);
            }
            proof {
                assert(self.bundles()[k as int].0 == self.bundles@[k as int].type_ids@);
            }
            k += 1;
        }
        None
    }

    /// Puts a list of component types and the archetype it leads to into the cache.
    pub fn remember(&mut self, ids: Vec<u64>, archetype_id: usize)
        requires
            old(self).wf(),
            archetype_id < old(self).len(),
            same_id_set(old(self).components()[archetype_id as int], ids@),
        ensures
            final(self).wf(),
            final(self).len() == old(self).len(),
            final(self).components() == old(self).components(),
            final(self).bundles() == old(self).bundles().push((ids@, archetype_id)),
            forall|a: int| 0 <= a < final(self).len() ==> final(self).latch(a)
                == old(self).latch(a),
    {
        self.bundles.push(BundleCacheEntry { type_ids: ids, archetype_id });
        proof {
            assert(self.bundles() =~= old(self).bundles().push((ids@, archetype_id)));
            assert(self.components() =~= old(self).components());
            assert forall|a: int| 0 <= a < self.len() implies (#[trigger] self.archetype(a)).wf()
                && self.archetype(a).id() == a && self.components()[a] == type_ids(
                self.archetype(a).column_infos(),
            ) by {
                assert(self.archetype(a) == old(self).archetype(a));
            }
            assert forall|k: int| 0 <= k < self.bundles().len() implies (
            #[trigger] self.bundles()[k]).1 < self.len() && same_id_set(
                self.components()[self.bundles()[k].1 as int],
                self.bundles()[k].0,
            ) by {
                if k < old(self).bundles().len() {
                    assert(self.bundles()[k] == old(self).bundles()[k]);
                }
            }
        }
    }

    /// Adds an archetype with the given component types. It is born
    /// write-locked: its maker holds it before anybody else can ask for it.
    pub fn create(&mut self, name: &'static str, type_info: Vec<ComponentTypeInfo>) -> (res: (
        usize,
        RwLockWriteGuard,
    ))
        requires
            old(self).wf(),
            distinct_type_ids(type_info@),
            canonical(type_info@),
            old(self).resolve(type_ids(type_info@)) is None,
        ensures
            final(self).wf(),
            res.0 == old(self).len(),
            final(self).len() == old(self).len() + 1,
            final(self).bundles() == old(self).bundles(),
            final(self).components() == old(self).components().push(type_ids(type_info@)),
            forall|a: int| 0 <= a < old(self).len() ==> final(self).latch(a) == old(self).latch(a),
            final(self).latch(res.0 as int).is_write_locked(),
            final(self).latch(res.0 as int).waiting_writes() == 0,
            final(self).archetype(res.0 as int).wf(),
            final(self).archetype(res.0 as int).id() == res.0,
            final(self).archetype(res.0 as int).name() == name,
            final(self).archetype(res.0 as int).column_infos() == type_info@,
            final(self).archetype(res.0 as int).rows_high_water() == 0,
            final(self).archetype(res.0 as int).free_rows() == Seq::<usize>::empty(),
    {
        let archetype_id = self.archetypes.len();
        let mut ids: Vec<u64> = Vec::new();
        let mut c: usize = 0;
        while c < type_info.len()
            invariant
                c <= type_info@.len(),
                ids@.len() == c,
                forall|k: int| 0 <= k < c ==> ids@[k] == (#[trigger] type_info@[k]).type_id,
            decreases type_info@.len() - c,
        {
            ids.push(type_info[c].type_id);
            c += 1;
        }
        assert(ids@ =~= type_ids(type_info@));
        self.components.push(ids);
        let lock = RwLock::new_writing(Archetype::new(archetype_id, name, type_info));
        let guard = lock.inner().write_unchecked();
        self.archetypes.push(lock);
        proof {
            let new_ids = type_ids(type_info@);
            assert(self.components() =~= old(self).components().push(new_ids));
            assert(self.bundles() =~= old(self).bundles());
            lemma_type_ids_distinct(type_info@);
            assert forall|a: int| 0 <= a < self.len() implies (#[trigger] self.archetype(a)).wf()
                && self.archetype(a).id() == a && self.components()[a] == type_ids(
                self.archetype(a).column_infos(),
            ) by {
                if a < old(self).len() {
                    assert(self.archetype(a) == old(self).archetype(a));
                    assert(self.components()[a] == old(self).components()[a]);
                }
            }
            assert forall|a: int, b: int|
                0 <= a < self.len() && 0 <= b < self.len() && a != b implies !same_id_set(
                #[trigger] self.components()[a],
                #[trigger] self.components()[b],
            ) by {
                if a < old(self).len() && b < old(self).len() {
                    assert(self.components()[a] == old(self).components()[a]);
                    assert(self.components()[b] == old(self).components()[b]);
                } else if b == old(self).len() {
                    assert(self.components()[a] == old(self).components()[a]);
                    assert(!same_id_set(old(self).components()[a], new_ids));
                } else {
                    assert(self.components()[b] == old(self).components()[b]);
                    assert(!same_id_set(old(self).components()[b], new_ids));
                    if same_id_set(new_ids, old(self).components()[b]) {
                        assert(old(self).archetype(b).wf());
                        lemma_type_ids_distinct(old(self).archetype(b).column_infos());
                        lemma_cover_is_mutual(new_ids, old(self).components()[b]);
                    }
                }
            }
            assert forall|k: int| 0 <= k < self.bundles().len() implies (
            #[trigger] self.bundles()[k]).1 < self.len() && same_id_set(
                self.components()[self.bundles()[k].1 as int],
                self.bundles()[k].0,
            ) by {
                assert(self.bundles()[k] == old(self).bundles()[k]);
                assert(self.components()[self.bundles()[k].1 as int]
                    == old(self).components()[self.bundles()[k].1 as int]);
            }
        }
        (archetype_id, guard)
    }

    /// Spawns the entity of `bundle` in the archetype `archetype_id`, whose
    /// component types are those of the bundle.
    pub fn spawn_in(&mut self, archetype_id: usize, bundle: Bundle<V>) -> (entity: Entity)
        requires
            old(self).wf(),
            archetype_id < old(self).len(),
            bundle.matches(old(self).archetype(archetype_id as int).column_infos()),
            old(self).archetype(archetype_id as int).free_rows().len() == 0
                ==> old(self).archetype(archetype_id as int).rows_high_water() < usize::MAX,
        ensures
            final(self).wf(),
            final(self).len() == old(self).len(),
            final(self).bundles() == old(self).bundles(),
            final(self).components() == old(self).components(),
            forall|a: int|
                0 <= a < final(self).len() && a != archetype_id ==> final(self).latch(a)
                    == old(self).latch(a),
            final(self).latch(archetype_id as int).state() == old(self).latch(
                archetype_id as int,
            ).state(),
            final(self).latch(archetype_id as int).waiting_writes() == old(self).latch(
                archetype_id as int,
            ).waiting_writes(),
            entity.archetype_id == archetype_id,
            entity.archetype_name == old(self).archetype(archetype_id as int).name(),
            final(self).archetype(archetype_id as int).is_spawn_of(
                &old(self).archetype(archetype_id as int),
                &bundle,
                entity.archetype_row,
            ),
    {
        broadcast use {RwLockInner::lemma_make, RwLockInner::lemma_make_self};

        let archetype = self.archetypes[archetype_id].inner_mut().peek_mut();
        let row = archetype.spawn_unchecked(bundle);
        let name = archetype.archetype_name();
        proof {
            assert(self.bundles() =~= old(self).bundles());
            assert(self.components() =~= old(self).components());
            assert forall|a: int| 0 <= a < self.len() implies (#[trigger] self.archetype(a)).wf()
                && self.archetype(a).id() == a && self.components()[a] == type_ids(
                self.archetype(a).column_infos(),
            ) by {
                if a != archetype_id {
                    assert(self.archetype(a) == old(self).archetype(a));
                }
            }
            assert forall|k: int| 0 <= k < self.bundles().len() implies (
            #[trigger] self.bundles()[k]).1 < self.len() && same_id_set(
                self.components()[self.bundles()[k].1 as int],
                self.bundles()[k].0,
            ) by {
                assert(self.bundles()[k] == old(self).bundles()[k]);
            }
        }
        Entity::new(archetype_id, name, row)
    }

    /// Despawns the entity in `row` of the archetype `archetype_id`.
    pub fn despawn_in(&mut self, archetype_id: usize, row: usize)
        requires
            old(self).wf(),
            archetype_id < old(self).len(),
            old(self).archetype(archetype_id as int).is_occupied(row as int),
        ensures
            final(self).wf(),
            final(self).len() == old(self).len(),
            final(self).bundles() == old(self).bundles(),
            final(self).components() == old(self).components(),
            forall|a: int|
                0 <= a < final(self).len() && a != archetype_id ==> final(self).latch(a)
                    == old(self).latch(a),
            final(self).latch(archetype_id as int).state() == old(self).latch(
                archetype_id as int,
            ).state(),
            final(self).latch(archetype_id as int).waiting_writes() == old(self).latch(
                archetype_id as int,
            ).waiting_writes(),
            final(self).archetype(archetype_id as int).is_despawn_of(
                &old(self).archetype(archetype_id as int),
                row,
            ),
    {
        broadcast use {RwLockInner::lemma_make, RwLockInner::lemma_make_self};

        let archetype = self.archetypes[archetype_id].inner_mut().peek_mut();
        archetype.despawn_unchecked(row);
        proof {
            assert(self.bundles() =~= old(self).bundles());
            assert(self.components() =~= old(self).components());
            assert forall|a: int| 0 <= a < self.len() implies (#[trigger] self.archetype(a)).wf()
                && self.archetype(a).id() == a && self.components()[a] == type_ids(
                self.archetype(a).column_infos(),
            ) by {
                if a != archetype_id {
                    assert(self.archetype(a) == old(self).archetype(a));
                }
            }
            assert forall|k: int| 0 <= k < self.bundles().len() implies (
            #[trigger] self.bundles()[k]).1 < self.len() && same_id_set(
                self.components()[self.bundles()[k].1 as int],
                self.bundles()[k].0,
            ) by {
                assert(self.bundles()[k] == old(self).bundles()[k]);
            }
        }
    }

    /// An archetype with the component types `ids` is the one that `ids` resolves to.
    pub proof fn lemma_resolve(&self, ids: Seq<u64>, a: int)
        requires
            self.wf(),
            0 <= a < self.len(),
            same_id_set(self.components()[a], ids),
            ids.no_duplicates(),
        ensures
            self.resolve(ids) == Some(a),
    {
        let b = self.resolve(ids)->0;
        if b != a {
            lemma_same_id_set_shared(self.components()[a], self.components()[b], ids);
        }
    }
}

impl<V> ArchetypeStorage<V> {
    /// The latch of the registry, with the registry behind it.
    pub closed spec fn latch(&self) -> RwLockInner<RawArchetypeStorage<V>> {
        self.raw@
    }

    /// The registry.
    pub open spec fn raw(&self) -> RawArchetypeStorage<V> {
        self.latch().value()
    }

    /// The registry is well-formed.
    pub open spec fn wf(&self) -> bool {
        self.raw().wf()
    }

    /// Whether a step that reads the registry may be asked for: a latch
    /// whose reader count is exhausted cannot be asked.
    pub open spec fn askable(&self) -> bool {
        self.latch().can_read() ==> !self.latch().is_saturated()
    }

    /// The same storage as `old` but for the latch of the archetype `id` and
    /// what is behind it.
    pub open spec fn same_but(&self, old: &Self, id: int) -> bool {
        &&& self.latch().state() == old.latch().state()
        &&& self.latch().waiting_writes() == old.latch().waiting_writes()
        &&& self.raw().len() == old.raw().len()
        &&& self.raw().components() == old.raw().components()
        &&& self.raw().bundles() == old.raw().bundles()
        &&& forall|a: int|
            0 <= a < self.raw().len() && a != id ==> #[trigger] self.raw().latch(a)
                == old.raw().latch(a)
    }

    /// Storages with the same latch are the same storage.
    pub proof fn lemma_same_latch(&self, other: &Self)
        requires
            self.latch() == other.latch(),
        ensures
            *self == *other,
    {
        self.raw.lemma_view_ext(other.raw);
    }

    /// A storage without archetypes.
    pub fn new() -> (storage: Self)
        ensures
            storage.wf(),
            storage.raw().len() == 0,
            storage.latch().is_idle(),
            storage.latch().waiting_writes() == 0,
    {
        let storage = ArchetypeStorage {
            raw: RwLock::new(
                RawArchetypeStorage {
                    bundles: Vec::new(),
                    components: Vec::new(),
                    archetypes: Vec::new(),
                },
            ),
        };
        storage
    }

    /// Tries to get the registry for reading.
    pub fn try_read_raw(&mut self) -> (res: Poll<RwLockReadGuard>)
        requires
            old(self).askable(),
        ensures
            (res is Ready) == old(self).latch().can_read(),
            res is Ready ==> final(self).latch() == old(self).latch().with_state(
                (old(self).latch().state() + 1) as u32,
            ),
            res is Pending ==> final(self).latch() == old(self).latch(),
    {
        self.raw.inner_mut().try_read()
    }

    /// The registry, for the holder of a guard on it.
    pub fn raw_ref(&self, guard: &RwLockReadGuard) -> (raw: &RawArchetypeStorage<V>)
        ensures
            *raw == self.raw(),
    {
        guard.get_ref(self.raw.inner())
    }

    /// Gives a guard on the registry back.
    pub fn release_raw(&mut self, guard: RwLockReadGuard)
        ensures
            final(self).latch() == old(self).latch().with_state(
                old(self).latch().state().wrapping_sub(1),
            ),
    {
        guard.release(self.raw.inner_mut());
    }

    /// Tries to get the archetype `archetype_id` for writing.
    ///
    /// The step needs the registry to be readable and the archetype to be
    /// idle. It is pending where one of them is not, and finds nothing
    /// where the registry is readable and has no such archetype.
    pub fn get_mut_by_id(&mut self, archetype_id: usize) -> (res: Poll<Option<RwLockWriteGuard>>)
        requires
            old(self).askable(),
        ensures
            final(self).same_but(old(self), archetype_id as int),
            res is Pending <==> !old(self).latch().can_read()
                || (archetype_id < old(self).raw().len()
                && !old(self).raw().latch(archetype_id as int).is_idle()),
            res matches Poll::Ready(found) ==> (found is Some
                <==> archetype_id < old(self).raw().len()),
            res matches Poll::Ready(Some(_)) ==> final(self).raw().latch(archetype_id as int)
                == old(self).raw().latch(archetype_id as int).with_state(WRITE_LOCKED),
            !(res matches Poll::Ready(Some(_))) && archetype_id < old(self).raw().len()
                ==> final(self).raw().latch(archetype_id as int)
                == old(self).raw().latch(archetype_id as int),
    {
        broadcast use {RwLockInner::lemma_make, RwLockInner::lemma_make_self};

        if !self.raw.inner().readable() {
            return Poll::Pending;
        }
        let raw = self.raw.inner_mut().peek_mut();
        if archetype_id >= raw.archetypes.len() {
            return Poll::Ready(None);
        }
        match raw.archetypes[archetype_id].inner_mut().try_write() {
            Poll::Ready(guard) => Poll::Ready(Some(guard)),
            Poll::Pending => Poll::Pending,
        }
    }
}

impl<V> ArchetypeStorage<V> {
    /// Whether the archetype that `bundle` belongs to has room for one more row.
    pub open spec fn has_room_for(&self, bundle: &Bundle<V>) -> bool {
        match self.raw().resolve(type_ids(bundle.infos())) {
            Some(a) => self.raw().archetype(a).free_rows().len() == 0 ==> self.raw().archetype(
                a,
            ).rows_high_water() < usize::MAX,
            None => true,
        }
    }

    /// Whether the latches let `bundle` be spawned now. Into an archetype
    /// that exists: the registry is readable and the archetype idle. Into
    /// one that has to be made: nobody else holds or waits for the registry.
    pub open spec fn can_spawn(&self, bundle: &Bundle<V>) -> bool {
        match self.raw().resolve(type_ids(bundle.infos())) {
            Some(a) => self.latch().can_read() && self.raw().latch(a).is_idle(),
            None => self.latch().is_idle() && self.latch().waiting_writes() == 0,
        }
    }

    /// Whether this storage is `old` after `bundle` was spawned as `entity`.
    pub open spec fn is_spawn_of(&self, old: &Self, bundle: &Bundle<V>, entity: Entity) -> bool {
        let a = entity.archetype_id as int;
        &&& self.latch().state() == old.latch().state()
        &&& self.latch().waiting_writes() == old.latch().waiting_writes()
        &&& forall|b: int|
            0 <= b < old.raw().len() && b != a ==> #[trigger] self.raw().latch(b)
                == old.raw().latch(b)
        &&& self.raw().resolve(type_ids(bundle.infos())) == Some(a)
        &&& match old.raw().resolve(type_ids(bundle.infos())) {
            Some(found) => {
                &&& a == found
                &&& self.raw().len() == old.raw().len()
                &&& self.raw().components() == old.raw().components()
                &&& entity.archetype_name == old.raw().archetype(a).name()
                &&& self.raw().latch(a).state() == old.raw().latch(a).state()
                &&& self.raw().latch(a).waiting_writes() == old.raw().latch(a).waiting_writes()
                &&& self.raw().archetype(a).is_spawn_of(
                    &old.raw().archetype(a),
                    bundle,
                    entity.archetype_row,
                )
            },
            None => {
                &&& a == old.raw().len()
                &&& self.raw().len() == old.raw().len() + 1
                &&& entity.archetype_name == bundle.name()
                &&& entity.archetype_row == 0
                &&& self.raw().latch(a).is_idle()
                &&& self.raw().latch(a).waiting_writes() == 0
                &&& self.raw().archetype(a).id() == a
                &&& self.raw().archetype(a).name() == bundle.name()
                &&& bundle.matches(self.raw().archetype(a).column_infos())
                &&& self.raw().archetype(a).rows_high_water() == 1
                &&& self.raw().archetype(a).free_rows() == Seq::<usize>::empty()
                &&& forall|c: int|
                    0 <= c < self.raw().archetype(a).columns().len()
                        ==> #[trigger] self.raw().archetype(a).cell(c, 0) == Some(
                        bundle.value_of(self.raw().archetype(a).column_infos()[c].type_id),
                    )
            },
        }
    }

    /// Whether a step that reads the registry may be asked for.
    pub fn is_askable(&self) -> (b: bool)
        ensures
            b == self.askable(),
    {
        !(self.raw.inner().readable() && self.raw.inner().saturated())
    }

    /// Whether every latch of the storage can count `n` more readers.
    pub fn has_reader_room(&self, n: u32) -> (b: bool)
        ensures
            b == (counters_have_room(self.latch(), n) && forall|a: int|
                0 <= a < self.raw().len() ==> counters_have_room(
                    #[trigger] self.raw().latch(a),
                    n,
                )),
    {
        if !self.raw.inner().has_reader_room(n) {
            return false;
        }
        let raw = self.raw.inner().peek();
        let mut a: usize = 0;
        while a < raw.archetypes.len()
            invariant
                *raw == self.raw(),
                a <= raw.archetypes@.len(),
                forall|b: int| 0 <= b < a ==> counters_have_room(#[trigger] raw.latch(b), n),
            decreases raw.archetypes@.len() - a,
        {
            if !raw.archetypes[a].inner().has_reader_room(n) {
                assert(!counters_have_room(self.raw().latch(a as int), n));
                return false;
            }
            a += 1;
        }
        true
    }

    /// Whether the archetype that `bundle` belongs to has room for one more row.
    pub fn has_room(&self, bundle: &Bundle<V>) -> (b: bool)
        requires
            self.wf(),
            bundle.is_valid(),
        ensures
            b == self.has_room_for(bundle),
    {
        let ids = bundle.type_ids();
        proof {
            lemma_type_ids_distinct(bundle.infos());
        }
        let raw = self.raw.inner().peek();
        match raw.find(&ids) {
            Some(a) => raw.archetypes[a].inner().peek().has_room(),
            None => true,
        }
    }

    /// Spawns the entity of `bundle`: finds the archetype of its component
    /// types, makes it where there is none, and adds a row to it.
    ///
    /// The step is atomic. Where the latches do not allow it now, the bundle
    /// comes back and nothing has changed.
    pub fn spawn_unchecked(&mut self, bundle: Bundle<V>) -> (res: Result<Entity, Bundle<V>>)
        requires
            old(self).wf(),
            old(self).askable(),
            bundle.is_valid(),
            old(self).has_room_for(&bundle),
        ensures
            final(self).wf(),
            res is Ok == old(self).can_spawn(&bundle),
            res matches Ok(entity) ==> final(self).is_spawn_of(old(self), &bundle, entity),
            res matches Err(back) ==> back == bundle && final(self).latch() == old(self).latch(),
    {
        broadcast use {RwLockInner::lemma_make, RwLockInner::lemma_make_self};

        let ids = bundle.type_ids();
        proof {
            lemma_type_ids_distinct(bundle.infos());
        }
        if !self.raw.inner().readable() {
            return Err(bundle);
        }
        let sole = self.raw.inner().idle();
        let raw = self.raw.inner_mut().peek_mut();
        let ghost start = *raw;
        let cached = raw.find_cached(&ids);
        let found = match cached {
            Some(a) => Some(a),
            None => raw.find(&ids),
        };
        match found {
            Some(a) => {
                if !raw.archetypes[a].inner().idle() {
                    return Err(bundle);
                }
                proof {
                    assert(start.archetype(a as int).wf());
                    assert(start.components()[a as int] == type_ids(
                        start.archetype(a as int).column_infos(),
                    ));
                    lemma_same_set_same_types(
                        start.archetype(a as int).column_infos(),
                        bundle.infos(),
                    );
                }
                if sole && cached.is_none() {
                    raw.remember(ids, a);
                }
                let ghost middle = *raw;
                let entity = raw.spawn_in(a, bundle);
                proof {
                    assert(raw.components()[a as int] == start.components()[a as int]);
                    raw.lemma_resolve(type_ids(bundle.infos()), a as int);
                }
                Ok(entity)
            },
            None => {
                if !sole {
                    return Err(bundle);
                }
                let infos = bundle.type_info();
                let name = bundle.bundle_name();
                proof {
                    lemma_type_ids_distinct(infos@);
                    lemma_type_ids_distinct(bundle.infos());
                    // the canonical list names the set that the bundle names
                    assert(same_id_set(type_ids(infos@), type_ids(bundle.infos()))) by {
                        assert forall|i: int|
                            0 <= i < type_ids(bundle.infos()).len() implies type_ids(
                            infos@,
                        ).contains(#[trigger] type_ids(bundle.infos())[i]) by {
                            assert(has_type_id(infos@, bundle.infos()[i].type_id));
                        }
                    }
                    if start.resolve(type_ids(infos@)) is Some {
                        let b = start.resolve(type_ids(infos@))->0;
                        lemma_cover_is_mutual(type_ids(infos@), type_ids(bundle.infos()));
                        lemma_same_id_set_shared(
                            start.components()[b],
                            type_ids(bundle.infos()),
                            type_ids(infos@),
                        );
                        assert(same_id_set(start.components()[b], type_ids(bundle.infos())));
                    }
                }
                let (a, guard) = raw.create(name, infos);
                proof {
                    assert(raw.components()[a as int] == type_ids(infos@));
                }
                raw.remember(ids, a);
                let ghost middle = *raw;
                let entity = raw.spawn_in(a, bundle);
                let ghost spawned = *raw;
                guard.release(raw.archetypes[a].inner_mut());
                proof {
                    assert forall|b: int| 0 <= b < raw.len() implies #[trigger] raw.archetype(b)
                        == spawned.archetype(b) by {
                        if b != a {
                            assert(raw.latch(b) == spawned.latch(b));
                        } else {
                            assert(raw.latch(b) == spawned.latch(b).with_state(0));
                        }
                    }
                    let made = middle.archetype(a as int);
                    assert(raw.archetype(a as int).is_spawn_of(
                        &made,
                        &bundle,
                        entity.archetype_row,
                    ));
                    assert(raw.bundles() =~= middle.bundles());
                    assert(raw.components() =~= middle.components());
                    assert forall|b: int| 0 <= b < raw.len() implies (#[trigger] raw.archetype(
                        b,
                    )).wf() && raw.archetype(b).id() == b && raw.components()[b] == type_ids(
                        raw.archetype(b).column_infos(),
                    ) by {
                        assert(spawned.archetype(b).wf());
                    }
                    assert forall|k: int| 0 <= k < raw.bundles().len() implies (
                    #[trigger] raw.bundles()[k]).1 < raw.len() && same_id_set(
                        raw.components()[raw.bundles()[k].1 as int],
                        raw.bundles()[k].0,
                    ) by {}
                    raw.lemma_resolve(type_ids(bundle.infos()), a as int);
                }
                Ok(entity)
            },
        }
    }
}

impl<V> ArchetypeStorage<V> {
    /// Spawns the entity of `bundle`; see [`ArchetypeStorage::spawn_unchecked`].
    ///
    /// A bundle that holds a component type twice cannot be spawned:
    /// [`Bundle::validate`] tells such bundles apart.
    pub fn spawn(&mut self, bundle: Bundle<V>) -> (res: Result<Entity, Bundle<V>>)
        requires
            old(self).wf(),
            old(self).askable(),
            bundle.is_valid(),
            old(self).has_room_for(&bundle),
        ensures
            final(self).wf(),
            res is Ok == old(self).can_spawn(&bundle),
            res matches Ok(entity) ==> final(self).is_spawn_of(old(self), &bundle, entity),
            res matches Err(back) ==> back == bundle && final(self).latch() == old(self).latch(),
    {
        bundle.validate().panic_on_violation();
        self.spawn_unchecked(bundle)
    }

    /// Tries to get the archetype `archetype_id` for reading.
    ///
    /// The step needs the registry and the archetype to be readable. It is
    /// pending where one of them is not, and finds nothing where the
    /// registry is readable and has no such archetype.
    pub fn get_ref_by_id(&mut self, archetype_id: usize) -> (res: Poll<Option<RwLockReadGuard>>)
        requires
            old(self).askable(),
            archetype_id < old(self).raw().len() && old(self).raw().latch(
                archetype_id as int,
            ).can_read() ==> !old(self).raw().latch(archetype_id as int).is_saturated(),
        ensures
            final(self).same_but(old(self), archetype_id as int),
            res is Pending <==> !old(self).latch().can_read()
                || (archetype_id < old(self).raw().len()
                && !old(self).raw().latch(archetype_id as int).can_read()),
            res matches Poll::Ready(found) ==> (found is Some
                <==> archetype_id < old(self).raw().len()),
            res matches Poll::Ready(Some(_)) ==> final(self).raw().latch(archetype_id as int)
                == old(self).raw().latch(archetype_id as int).with_state(
                (old(self).raw().latch(archetype_id as int).state() + 1) as u32,
            ),
            !(res matches Poll::Ready(Some(_))) && archetype_id < old(self).raw().len()
                ==> final(self).raw().latch(archetype_id as int)
                == old(self).raw().latch(archetype_id as int),
    {
        broadcast use {RwLockInner::lemma_make, RwLockInner::lemma_make_self};

        if !self.raw.inner().readable() {
            return Poll::Pending;
        }
        let raw = self.raw.inner_mut().peek_mut();
        if archetype_id >= raw.archetypes.len() {
            return Poll::Ready(None);
        }
        match raw.archetypes[archetype_id].inner_mut().try_read() {
            Poll::Ready(guard) => Poll::Ready(Some(guard)),
            Poll::Pending => Poll::Pending,
        }
    }

    /// The archetype `archetype_id`, for the holder of a guard on it.
    pub fn archetype_ref(&self, archetype_id: usize, guard: &RwLockReadGuard) -> (archetype: &Archetype<
        V,
    >)
        requires
            archetype_id < self.raw().len(),
        ensures
            *archetype == self.raw().archetype(archetype_id as int),
    {
        guard.get_ref(self.raw.inner().peek().archetypes[archetype_id].inner())
    }

    /// The archetype `archetype_id`, for the holder of the writer's guard on it.
    pub fn archetype_view(&self, archetype_id: usize, guard: &RwLockWriteGuard) -> (archetype: &Archetype<
        V,
    >)
        requires
            archetype_id < self.raw().len(),
        ensures
            *archetype == self.raw().archetype(archetype_id as int),
    {
        guard.get_ref(self.raw.inner().peek().archetypes[archetype_id].inner())
    }

    /// The archetype `archetype_id`, to change, for the holder of the
    /// writer's guard on it. Whoever changes it answers for its invariant.
    pub fn archetype_mut(&mut self, archetype_id: usize, guard: &RwLockWriteGuard) -> (archetype: &mut Archetype<
        V,
    >)
        requires
            archetype_id < old(self).raw().len(),
        ensures
            *archetype == old(self).raw().archetype(archetype_id as int),
            final(self).same_but(old(self), archetype_id as int),
            final(self).raw().latch(archetype_id as int) == RwLockInner::make(
                *final(archetype),
                old(self).raw().latch(archetype_id as int).state(),
                old(self).raw().latch(archetype_id as int).waiting_writes(),
            ),
    {
        broadcast use {RwLockInner::lemma_make, RwLockInner::lemma_make_self};

        guard.get_mut(self.raw.inner_mut().peek_mut().archetypes[archetype_id].inner_mut())
    }

    /// Gives a reader's guard on the archetype `archetype_id` back.
    pub fn release_read(&mut self, archetype_id: usize, guard: RwLockReadGuard)
        requires
            archetype_id < old(self).raw().len(),
        ensures
            final(self).same_but(old(self), archetype_id as int),
            final(self).raw().latch(archetype_id as int) == old(self).raw().latch(
                archetype_id as int,
            ).with_state(old(self).raw().latch(archetype_id as int).state().wrapping_sub(1)),
    {
        broadcast use {RwLockInner::lemma_make, RwLockInner::lemma_make_self};

        guard.release(self.raw.inner_mut().peek_mut().archetypes[archetype_id].inner_mut());
    }

    /// Gives the writer's guard on the archetype `archetype_id` back.
    pub fn release_write(&mut self, archetype_id: usize, guard: RwLockWriteGuard)
        requires
            archetype_id < old(self).raw().len(),
        ensures
            final(self).same_but(old(self), archetype_id as int),
            final(self).raw().latch(archetype_id as int) == old(self).raw().latch(
                archetype_id as int,
            ).with_state(0),
    {
        broadcast use {RwLockInner::lemma_make, RwLockInner::lemma_make_self};

        guard.release(self.raw.inner_mut().peek_mut().archetypes[archetype_id].inner_mut());
    }

    /// Whether this storage is `old` after the entity `entity` was
    /// despawned: the row is given up if the entity lived, and nothing has
    /// changed if it did not.
    pub open spec fn is_despawn_of(&self, old: &Self, entity: Entity) -> bool {
        let a = entity.archetype_id as int;
        &&& self.latch().state() == old.latch().state()
        &&& self.latch().waiting_writes() == old.latch().waiting_writes()
        &&& self.raw().len() == old.raw().len()
        &&& self.raw().components() == old.raw().components()
        &&& forall|b: int|
            0 <= b < old.raw().len() && b != a ==> #[trigger] self.raw().latch(b)
                == old.raw().latch(b)
        &&& a < old.raw().len() ==> {
            &&& self.raw().latch(a).state() == old.raw().latch(a).state()
            &&& self.raw().latch(a).waiting_writes() == old.raw().latch(a).waiting_writes()
            &&& if old.raw().archetype(a).is_occupied(entity.archetype_row as int) {
                self.raw().archetype(a).is_despawn_of(
                    &old.raw().archetype(a),
                    entity.archetype_row,
                )
            } else {
                self.raw().archetype(a) == old.raw().archetype(a)
            }
        }
    }

    /// Removes the entity from its archetype, if the archetype exists and
    /// the entity lives in it.
    ///
    /// The step needs the registry to be readable and the archetype to be
    /// idle; where one of them is not, it is pending and nothing has changed.
    pub fn despawn(&mut self, entity: Entity) -> (res: Poll<()>)
        requires
            old(self).wf(),
            old(self).askable(),
        ensures
            final(self).wf(),
            res is Pending <==> !old(self).latch().can_read()
                || (entity.archetype_id < old(self).raw().len()
                && !old(self).raw().latch(entity.archetype_id as int).is_idle()),
            res is Ready ==> final(self).is_despawn_of(old(self), entity),
            res is Pending ==> final(self).latch() == old(self).latch(),
    {
        broadcast use {RwLockInner::lemma_make, RwLockInner::lemma_make_self};

        if !self.raw.inner().readable() {
            return Poll::Pending;
        }
        let raw = self.raw.inner_mut().peek_mut();
        let archetype_id = entity.archetype_id();
        if archetype_id >= raw.archetypes.len() {
            return Poll::Ready(());
        }
        if !raw.archetypes[archetype_id].inner().idle() {
            return Poll::Pending;
        }
        let row = entity.archetype_row();
        if raw.archetypes[archetype_id].inner().peek().has_row(row) {
            raw.despawn_in(archetype_id, row);
        }
        Poll::Ready(())
    }

    /// Removes an entity that lives.
    ///
    /// The step needs the registry to be readable and the archetype to be
    /// idle; where one of them is not, it is pending and nothing has changed.
    pub fn despawn_unchecked(&mut self, entity: Entity) -> (res: Poll<()>)
        requires
            old(self).wf(),
            old(self).askable(),
            entity.archetype_id < old(self).raw().len(),
            old(self).raw().archetype(entity.archetype_id as int).is_occupied(
                entity.archetype_row as int,
            ),
        ensures
            final(self).wf(),
            res is Pending <==> !old(self).latch().can_read() || !old(self).raw().latch(
                entity.archetype_id as int,
            ).is_idle(),
            res is Ready ==> final(self).is_despawn_of(old(self), entity),
            res is Pending ==> final(self).latch() == old(self).latch(),
    {
        broadcast use {RwLockInner::lemma_make, RwLockInner::lemma_make_self};

        if !self.raw.inner().readable() {
            return Poll::Pending;
        }
        let raw = self.raw.inner_mut().peek_mut();
        let archetype_id = entity.archetype_id();
        if !raw.archetypes[archetype_id].inner().idle() {
            return Poll::Pending;
        }
        raw.despawn_in(archetype_id, entity.archetype_row());
        Poll::Ready(())
    }
}

impl<V> ArchetypeStorage<V> {
    /// Tries to get the archetype with the component types `type_ids` for
    /// reading.
    ///
    /// The step is pending where the registry or the archetype cannot be
    /// read now, and finds nothing where the registry is readable and has
    /// no archetype with these component types.
    pub fn get_ref(&mut self, type_ids: &Vec<u64>) -> (res: Poll<Option<(usize, RwLockReadGuard)>>)
        requires
            old(self).wf(),
            old(self).askable(),
            type_ids@.no_duplicates(),
            old(self).raw().resolve(type_ids@) matches Some(a) ==> (old(self).raw().latch(
                a,
            ).can_read() ==> !old(self).raw().latch(a).is_saturated()),
        ensures
            final(self).wf(),
            match old(self).raw().resolve(type_ids@) {
                Some(a) => {
                    &&& final(self).same_but(old(self), a)
                    &&& res is Pending <==> !old(self).latch().can_read()
                        || !old(self).raw().latch(a).can_read()
                    &&& res matches Poll::Ready(found) ==> found matches Some(held) && held.0 == a
                        && final(self).raw().latch(a) == old(self).raw().latch(a).with_state(
                        (old(self).raw().latch(a).state() + 1) as u32,
                    )
                    &&& res is Pending ==> final(self).raw().latch(a) == old(self).raw().latch(a)
                },
                None => {
                    &&& final(self).same_but(old(self), -1)
                    &&& res is Pending <==> !old(self).latch().can_read()
                    &&& res matches Poll::Ready(found) ==> found is None
                },
            },
    {
        broadcast use {RwLockInner::lemma_make, RwLockInner::lemma_make_self};

        if !self.raw.inner().readable() {
            return Poll::Pending;
        }
        let raw = self.raw.inner_mut().peek_mut();
        let ghost start = *raw;
        match raw.find(type_ids) {
            Some(a) => {
                if !raw.archetypes[a].inner().readable() {
                    return Poll::Pending;
                }
                match raw.archetypes[a].inner_mut().try_read() {
                    Poll::Ready(guard) => {
                        proof {
                            lemma_raw_wf(start, *raw);
                        }
                        Poll::Ready(Some((a, guard)))
                    },
                    Poll::Pending => Poll::Pending,
                }
            },
            None => Poll::Ready(None),
        }
    }

    /// Tries to get the archetype with the component types `type_ids` for
    /// writing.
    ///
    /// The step is pending where the registry cannot be read or the
    /// archetype is in use, and finds nothing where the registry is
    /// readable and has no archetype with these component types.
    pub fn get_mut(&mut self, type_ids: &Vec<u64>) -> (res: Poll<Option<(usize, RwLockWriteGuard)>>)
        requires
            old(self).wf(),
            old(self).askable(),
            type_ids@.no_duplicates(),
        ensures
            final(self).wf(),
            match old(self).raw().resolve(type_ids@) {
                Some(a) => {
                    &&& final(self).same_but(old(self), a)
                    &&& res is Pending <==> !old(self).latch().can_read()
                        || !old(self).raw().latch(a).is_idle()
                    &&& res matches Poll::Ready(found) ==> found matches Some(held) && held.0 == a
                        && final(self).raw().latch(a) == old(self).raw().latch(a).with_state(
                        WRITE_LOCKED,
                    )
                    &&& res is Pending ==> final(self).raw().latch(a) == old(self).raw().latch(a)
                },
                None => {
                    &&& final(self).same_but(old(self), -1)
                    &&& res is Pending <==> !old(self).latch().can_read()
                    &&& res matches Poll::Ready(found) ==> found is None
                },
            },
    {
        broadcast use {RwLockInner::lemma_make, RwLockInner::lemma_make_self};

        if !self.raw.inner().readable() {
            return Poll::Pending;
        }
        let raw = self.raw.inner_mut().peek_mut();
        let ghost start = *raw;
        match raw.find(type_ids) {
            Some(a) => {
                if !raw.archetypes[a].inner().idle() {
                    return Poll::Pending;
                }
                match raw.archetypes[a].inner_mut().try_write() {
                    Poll::Ready(guard) => {
                        proof {
                            lemma_raw_wf(start, *raw);
                        }
                        Poll::Ready(Some((a, guard)))
                    },
                    Poll::Pending => Poll::Pending,
                }
            },
            None => Poll::Ready(None),
        }
    }

    /// Whether this storage is `old` after the first `entities.len()` of
    /// `bundles` were spawned, in order, as `entities`.
    pub open spec fn is_batch_of(
        &self,
        old: &Self,
        bundles: Seq<Bundle<V>>,
        entities: Seq<Entity>,
    ) -> bool
        decreases entities.len(),
    {
        if entities.len() == 0 {
            *self == *old
        } else {
            &&& entities.len() <= bundles.len()
            &&& exists|middle: Self|
                {
                    &&& middle.is_batch_of(old, bundles, entities.drop_last())
                    &&& #[trigger] self.is_next_of(
                        &middle,
                        &bundles[entities.len() - 1],
                        entities.last(),
                    )
                }
        }
    }

    /// Whether this storage is the well-formed storage `middle` after
    /// `bundle` was spawned as `entity`.
    pub open spec fn is_next_of(&self, middle: &Self, bundle: &Bundle<V>, entity: Entity) -> bool {
        middle.wf() && self.is_spawn_of(middle, bundle, entity)
    }

    /// Spawns the entities of `bundles`, one after the other, for as long
    /// as the latches allow it: hands out the entities that were spawned,
    /// and the bundles that were not.
    ///
    /// No bundle holds a component type twice, and there is room for as
    /// many rows as there are bundles.
    pub fn spawn_batch(&mut self, bundles: Vec<Bundle<V>>) -> (res: (Vec<Entity>, Vec<Bundle<V>>))
        requires
            old(self).wf(),
            old(self).askable(),
            forall|k: int| 0 <= k < bundles@.len() ==> (#[trigger] bundles@[k]).is_valid(),
            forall|a: int|
                0 <= a < old(self).raw().len() ==> (#[trigger] old(self).raw().archetype(
                    a,
                )).rows_high_water() + bundles@.len() <= usize::MAX,
            bundles@.len() < usize::MAX,
        ensures
            final(self).wf(),
            res.0@.len() + res.1@.len() == bundles@.len(),
            res.1@ == bundles@.skip(res.0@.len() as int),
            final(self).is_batch_of(old(self), bundles@, res.0@),
            res.1@.len() > 0 ==> !final(self).can_spawn(&res.1@[0]),
            final(self).latch().state() == old(self).latch().state(),
            final(self).latch().waiting_writes() == old(self).latch().waiting_writes(),
    {
        self.spawn_batch_unchecked(bundles)
    }

    /// Spawns the entities of `bundles`; see [`ArchetypeStorage::spawn_batch`].
    pub fn spawn_batch_unchecked(&mut self, bundles: Vec<Bundle<V>>) -> (res: (
        Vec<Entity>,
        Vec<Bundle<V>>,
    ))
        requires
            old(self).wf(),
            old(self).askable(),
            forall|k: int| 0 <= k < bundles@.len() ==> (#[trigger] bundles@[k]).is_valid(),
            forall|a: int|
                0 <= a < old(self).raw().len() ==> (#[trigger] old(self).raw().archetype(
                    a,
                )).rows_high_water() + bundles@.len() <= usize::MAX,
            bundles@.len() < usize::MAX,
        ensures
            final(self).wf(),
            res.0@.len() + res.1@.len() == bundles@.len(),
            res.1@ == bundles@.skip(res.0@.len() as int),
            final(self).is_batch_of(old(self), bundles@, res.0@),
            res.1@.len() > 0 ==> !final(self).can_spawn(&res.1@[0]),
            final(self).latch().state() == old(self).latch().state(),
            final(self).latch().waiting_writes() == old(self).latch().waiting_writes(),
    {
        let mut rest = bundles;
        let ghost all = rest@;
        let mut entities: Vec<Entity> = Vec::new();
        while rest.len() > 0
            invariant
                self.wf(),
                self.askable(),
                all == bundles@,
                entities@.len() + rest@.len() == all.len(),
                rest@ == all.skip(entities@.len() as int),
                self.is_batch_of(old(self), all, entities@),
                forall|k: int| 0 <= k < all.len() ==> (#[trigger] all[k]).is_valid(),
                forall|a: int|
                    0 <= a < self.raw().len() ==> (#[trigger] self.raw().archetype(
                        a,
                    )).rows_high_water() + rest@.len() <= usize::MAX,
                all.len() < usize::MAX,
                self.latch().state() == old(self).latch().state(),
                self.latch().waiting_writes() == old(self).latch().waiting_writes(),
            decreases rest@.len(),
        {
            let ghost k = entities@.len() as int;
            let ghost before = *self;
            let bundle = rest.remove(0);
            proof {
                assert(bundle == all[k]);
                assert(rest@ =~= all.skip(k + 1));
                if self.raw().resolve(type_ids(bundle.infos())) is Some {
                    let a = self.raw().resolve(type_ids(bundle.infos()))->0;
                    assert(self.raw().archetype(a).rows_high_water() + rest@.len() + 1
                        <= usize::MAX);
                }
            }
            match self.spawn_unchecked(bundle) {
                Ok(entity) => {
                    let ghost earlier = entities@;
                    entities.push(entity);
                    proof {
                        assert(entities@.drop_last() == earlier);
                        assert(before.is_batch_of(old(self), all, earlier));
                        assert(self.is_spawn_of(&before, &all[k], entity));
                        assert(entities@.last() == entity);
                        assert(entities@.len() - 1 == k);
                        assert(before.is_batch_of(old(self), all, entities@.drop_last())
                            && self.is_next_of(
                            &before,
                            &all[entities@.len() - 1],
                            entities@.last(),
                        ));
                        assert(self.is_batch_of(old(self), all, entities@));
                        let target = entity.archetype_id as int;
                        assert forall|a: int| 0 <= a < self.raw().len() implies (
                        #[trigger] self.raw().archetype(a)).rows_high_water() + rest@.len()
                            <= usize::MAX by {
                            if a != target {
                                assert(self.raw().latch(a) == before.raw().latch(a));
                                assert(before.raw().archetype(a).rows_high_water() + rest@.len() + 1
                                    <= usize::MAX);
                            } else if before.raw().resolve(type_ids(all[k].infos())) is Some {
                                assert(a < before.raw().len());
                                assert(before.raw().archetype(a).rows_high_water() + rest@.len() + 1
                                    <= usize::MAX);
                                assert(self.raw().archetype(a).is_spawn_of(
                                    &before.raw().archetype(a),
                                    &all[k],
                                    entity.archetype_row,
                                ));
                                assert(self.raw().archetype(a).rows_high_water() <= before.raw().archetype(
                                    a,
                                ).rows_high_water() + 1);
                            } else {
                                assert(self.raw().archetype(a).rows_high_water() == 1);
                            }
                        }
                    }
                },
                Err(back) => {
                    rest.insert(0, back);
                    proof {
                        self.lemma_same_latch(&before);
                        assert(rest@ =~= all.skip(k));
                        assert(rest@[0] == all[k]);
                    }
                    return (entities, rest);
                },
            }
        }
        (entities, rest)
    }
}

/// A registry whose archetypes are those of a well-formed one, whatever
/// their latches count, is well-formed.
pub proof fn lemma_raw_wf<V>(before: RawArchetypeStorage<V>, after: RawArchetypeStorage<V>)
    requires
        before.wf(),
        after.len() == before.len(),
        after.components() == before.components(),
        after.bundles() == before.bundles(),
        forall|a: int|
            0 <= a < before.len() ==> (#[trigger] after.latch(a)).value()
                == before.latch(a).value(),
    ensures
        after.wf(),
{
    assert forall|a: int| 0 <= a < after.len() implies (#[trigger] after.archetype(a)).wf()
        && after.archetype(a).id() == a && after.components()[a] == type_ids(
        after.archetype(a).column_infos(),
    ) by {
        assert(after.latch(a).value() == before.latch(a).value());
        assert(before.archetype(a).wf());
    }
}

/// Archetype identity: two lists of component types that name the same set
/// resolve to the same archetype, in whatever order they name it.
pub proof fn lemma_archetype_identity<V>(
    raw: RawArchetypeStorage<V>,
    a: Seq<ComponentTypeInfo>,
    b: Seq<ComponentTypeInfo>,
)
    requires
        raw.wf(),
        distinct_type_ids(a),
        distinct_type_ids(b),
        same_type_ids(a, b),
    ensures
        raw.resolve(type_ids(a)) == raw.resolve(type_ids(b)),
{
    lemma_type_ids_distinct(a);
    lemma_type_ids_distinct(b);
    lemma_same_types_same_len(a, b);
    if raw.resolve(type_ids(a)) is Some {
        let x = raw.resolve(type_ids(a))->0;
        assert forall|i: int| 0 <= i < type_ids(b).len() implies raw.components()[x].contains(
            #[trigger] type_ids(b)[i],
        ) by {
            assert(has_type_id(a, b[i].type_id));
            let k = choose|k: int| 0 <= k < a.len() && (#[trigger] a[k]).type_id == b[i].type_id;
            assert(type_ids(a)[k] == b[i].type_id);
            assert(raw.components()[x].contains(type_ids(a)[k]));
        }
        raw.lemma_resolve(type_ids(b), x);
    } else if raw.resolve(type_ids(b)) is Some {
        let x = raw.resolve(type_ids(b))->0;
        assert forall|i: int| 0 <= i < type_ids(a).len() implies raw.components()[x].contains(
            #[trigger] type_ids(a)[i],
        ) by {
            assert(has_type_id(b, a[i].type_id));
            let k = choose|k: int| 0 <= k < b.len() && (#[trigger] b[k]).type_id == a[i].type_id;
            assert(type_ids(b)[k] == a[i].type_id);
            assert(raw.components()[x].contains(type_ids(b)[k]));
        }
        raw.lemma_resolve(type_ids(a), x);
    }
}

/// Lists of distinct component types that name the same set are equally long.
pub proof fn lemma_same_types_same_len(a: Seq<ComponentTypeInfo>, b: Seq<ComponentTypeInfo>)
    requires
        distinct_type_ids(a),
        distinct_type_ids(b),
        same_type_ids(a, b),
    ensures
        a.len() == b.len(),
{
    let ia = type_ids(a);
    let ib = type_ids(b);
    lemma_type_ids_distinct(a);
    lemma_type_ids_distinct(b);
    ia.unique_seq_to_set();
    ib.unique_seq_to_set();
    assert(ia.to_set() =~= ib.to_set()) by {
        assert forall|x: u64| ia.to_set().contains(x) <==> ib.to_set().contains(x) by {
            if ia.contains(x) {
                let k = choose|k: int| 0 <= k < ia.len() && ia[k] == x;
                assert(has_type_id(b, a[k].type_id));
            }
            if ib.contains(x) {
                let k = choose|k: int| 0 <= k < ib.len() && ib[k] == x;
                assert(has_type_id(a, b[k].type_id));
            }
        }
    }
}

/// Whether a latch can count `n` more readers without exhausting its counter.
pub open spec fn counters_have_room<T>(latch: RwLockInner<T>, n: u32) -> bool {
    latch.state() == WRITE_LOCKED || latch.state() + n < WRITE_LOCKED - 1
}

/// Whether a query of the components `Q` with the filter `F` looks at an
/// archetype with these component types.
pub open spec fn selects<Q: ComponentQuery, F: ComponentFilter>(column_types: Seq<u64>) -> bool {
    F::matches(column_types) && Q::subset(column_types)
}

/// The archetypes that a query of the components `Q` with the filter `F`
/// looks at, in rising order.
pub open spec fn selected_ids<Q: ComponentQuery, F: ComponentFilter>(
    components: Seq<Seq<u64>>,
) -> Seq<usize> {
    Seq::new(components.len(), |a: int| a as usize).filter(
        |a: usize| selects::<Q, F>(components[a as int]),
    )
}

impl<V> RawArchetypeStorage<V> {
    /// The number of archetypes fits the machine.
    pub proof fn lemma_len_bound(&self)
        ensures
            self.len() <= usize::MAX,
    {
        assert(self.archetypes.len() == self.archetypes@.len());
    }

    /// Whether every archetype that the query looks at is idle.
    pub open spec fn selected_are_idle<Q: ComponentQuery, F: ComponentFilter>(&self) -> bool {
        forall|a: int|
            0 <= a < self.len() && selects::<Q, F>(#[trigger] self.components()[a])
                ==> self.latch(a).is_idle()
    }

    /// Whether this registry is `old` with every archetype that the query
    /// looks at taken for writing.
    pub open spec fn has_acquired<Q: ComponentQuery, F: ComponentFilter>(&self, old: &Self) -> bool {
        &&& self.len() == old.len()
        &&& self.components() == old.components()
        &&& self.bundles() == old.bundles()
        &&& forall|a: int|
            0 <= a < self.len() ==> #[trigger] self.latch(a) == if selects::<Q, F>(
                old.components()[a],
            ) {
                old.latch(a).with_state(WRITE_LOCKED)
            } else {
                old.latch(a)
            }
    }

    /// Whether every archetype that the query looks at admits a reader.
    pub open spec fn selected_are_readable<Q: ComponentQuery, F: ComponentFilter>(&self) -> bool {
        forall|a: int|
            0 <= a < self.len() && selects::<Q, F>(#[trigger] self.components()[a])
                ==> self.latch(a).can_read()
    }

    /// Whether this registry is `old` with every archetype that the query
    /// looks at taken for reading.
    pub open spec fn has_acquired_read<Q: ComponentQuery, F: ComponentFilter>(&self, old: &Self) -> bool {
        &&& self.len() == old.len()
        &&& self.components() == old.components()
        &&& self.bundles() == old.bundles()
        &&& forall|a: int|
            0 <= a < self.len() ==> #[trigger] self.latch(a) == if selects::<Q, F>(
                old.components()[a],
            ) {
                old.latch(a).with_state((old.latch(a).state() + 1) as u32)
            } else {
                old.latch(a)
            }
    }

    /// Whether every latch that admits a reader can count one more.
    pub open spec fn readers_have_room(&self) -> bool {
        forall|a: int|
            0 <= a < self.len() && (#[trigger] self.latch(a)).can_read() ==> !self.latch(
                a,
            ).is_saturated()
    }

    /// Whether this registry is `old` in every part.
    pub open spec fn unchanged(&self, old: &Self) -> bool {
        &&& self.len() == old.len()
        &&& self.components() == old.components()
        &&& self.bundles() == old.bundles()
        &&& forall|a: int| 0 <= a < self.len() ==> #[trigger] self.latch(a) == old.latch(a)
    }

    /// Takes every archetype that the query looks at for writing, or none:
    /// where one of them is in use, those already taken are given back.
    pub fn try_write_selected<Q: ComponentQuery, F: ComponentFilter>(&mut self) -> (res: Option<
        (Vec<usize>, Vec<RwLockWriteGuard>),
    >)
        requires
            old(self).components().len() == old(self).len(),
        ensures
            res is Some == old(self).selected_are_idle::<Q, F>(),
            res matches Some(held) ==> held.0@ == selected_ids::<Q, F>(old(self).components())
                && held.1@.len() == held.0@.len() && final(self).has_acquired::<Q, F>(old(self)),
            res is None ==> final(self).unchanged(old(self)),
    {
        broadcast use {RwLockInner::lemma_make, RwLockInner::lemma_make_self};

        let mut ids: Vec<usize> = Vec::new();
        let mut guards: Vec<RwLockWriteGuard> = Vec::new();
        let n = self.archetypes.len();
        let mut a: usize = 0;
        let ghost components = self.components();
        let ghost pred = |a: usize| selects::<Q, F>(components[a as int]);
        proof {
            reveal(Seq::filter);
            assert(Seq::new(0, |a: int| a as usize).filter(pred) =~= Seq::<usize>::empty());
        }
        while a < n
            invariant
                n == self.archetypes@.len(),
                n == old(self).archetypes@.len(),
                a <= n,
                self.components@ == old(self).components@,
                self.bundles@ == old(self).bundles@,
                components == old(self).components(),
                components.len() == n,
                pred == |a: usize| selects::<Q, F>(components[a as int]),
                ids@ == Seq::new(a as nat, |a: int| a as usize).filter(pred),
                guards@.len() == ids@.len(),
                forall|b: int|
                    0 <= b < a ==> #[trigger] self.latch(b) == if selects::<Q, F>(components[b]) {
                        old(self).latch(b).with_state(WRITE_LOCKED)
                    } else {
                        old(self).latch(b)
                    },
                forall|b: int|
                    0 <= b < a && selects::<Q, F>(#[trigger] components[b]) ==> old(self).latch(
                        b,
                    ).is_idle(),
                forall|b: int| a <= b < n ==> #[trigger] self.latch(b) == old(self).latch(b),
            decreases n - a,
        {
            let ghost seen = Seq::new(a as nat, |a: int| a as usize);
            let ghost next = Seq::new((a + 1) as nat, |a: int| a as usize);
            proof {
                reveal(Seq::filter);
                assert(next.drop_last() =~= seen);
                assert(next.last() == a);
                assert(components[a as int] == self.components@[a as int]@);
            }
            if F::archetype_matches(&self.components[a]) && Q::is_subset_of_archetype(
                &self.components[a],
            ) {
                let ghost before = *self;
                proof {
                    assert(self.latch(a as int) == old(self).latch(a as int));
                }
                match self.archetypes[a].inner_mut().try_write() {
                    Poll::Ready(guard) => {
                        ids.push(a);
                        guards.push(guard);
                        proof {
                            assert(self.latch(a as int) == before.latch(a as int).with_state(
                                WRITE_LOCKED,
                            ));
                            assert forall|b: int| 0 <= b < a + 1 implies #[trigger] self.latch(b)
                                == if selects::<Q, F>(components[b]) {
                                old(self).latch(b).with_state(WRITE_LOCKED)
                            } else {
                                old(self).latch(b)
                            } by {
                                if b < a {
                                    assert(self.latch(b) == before.latch(b));
                                }
                            }
                            assert forall|b: int| a + 1 <= b < n implies #[trigger] self.latch(b)
                                == old(self).latch(b) by {
                                assert(self.latch(b) == before.latch(b));
                            }
                        }
                    },
                    Poll::Pending => {
                        proof {
                            assert(!old(self).latch(a as int).is_idle());
                            assert forall|b: int| 0 <= b < n implies #[trigger] self.latch(b)
                                == before.latch(b) by {}
                            assert forall|b: int| 0 <= b < a implies #[trigger] self.latch(b)
                                == if selects::<Q, F>(components[b]) {
                                old(self).latch(b).with_state(WRITE_LOCKED)
                            } else {
                                old(self).latch(b)
                            } by {
                                assert(self.latch(b) == before.latch(b));
                            }
                            assert forall|b: int| a <= b < n implies #[trigger] self.latch(b)
                                == old(self).latch(b) by {
                                assert(self.latch(b) == before.latch(b));
                            }
                        }
                        self.undo_selected::<Q, F>(a, Ghost(*old(self)));
                        return None;
                    },
                }
            }
            a += 1;
        }
        proof {
            assert(self.components() =~= old(self).components());
            assert(self.bundles() =~= old(self).bundles());
        }
        Some((ids, guards))
    }

    /// Gives back the archetypes below `upto` that the query looks at.
    fn undo_selected<Q: ComponentQuery, F: ComponentFilter>(
        &mut self,
        upto: usize,
        Ghost(start): Ghost<Self>,
    )
        requires
            upto <= old(self).len(),
            old(self).len() == start.len(),
            old(self).components@ == start.components@,
            old(self).bundles@ == start.bundles@,
            start.components().len() == start.len(),
            forall|b: int|
                0 <= b < upto ==> #[trigger] old(self).latch(b) == if selects::<Q, F>(
                    start.components()[b],
                ) {
                    start.latch(b).with_state(WRITE_LOCKED)
                } else {
                    start.latch(b)
                },
            forall|b: int|
                0 <= b < upto && selects::<Q, F>(#[trigger] start.components()[b]) ==> start.latch(
                    b,
                ).is_idle(),
            forall|b: int| upto <= b < start.len() ==> #[trigger] old(self).latch(b)
                == start.latch(b),
        ensures
            final(self).unchanged(&start),
    {
        broadcast use {RwLockInner::lemma_make, RwLockInner::lemma_make_self};

        let mut b: usize = 0;
        while b < upto
            invariant
                b <= upto,
                upto <= self.len(),
                self.len() == start.len(),
                self.components@ == start.components@,
                self.bundles@ == start.bundles@,
                start.components().len() == start.len(),
                forall|c: int| 0 <= c < b ==> #[trigger] self.latch(c) == start.latch(c),
                forall|c: int|
                    b <= c < upto ==> #[trigger] self.latch(c) == if selects::<Q, F>(
                        start.components()[c],
                    ) {
                        start.latch(c).with_state(WRITE_LOCKED)
                    } else {
                        start.latch(c)
                    },
                forall|c: int|
                    0 <= c < upto && selects::<Q, F>(#[trigger] start.components()[c])
                        ==> start.latch(c).is_idle(),
                forall|c: int| upto <= c < start.len() ==> #[trigger] self.latch(c)
                    == start.latch(c),
            decreases upto - b,
        {
            proof {
                assert(start.components()[b as int] == self.components@[b as int]@);
            }
            if F::archetype_matches(&self.components[b]) && Q::is_subset_of_archetype(
                &self.components[b],
            ) {
                let ghost before = *self;
                proof {
                    assert(self.latch(b as int) == start.latch(b as int).with_state(WRITE_LOCKED));
                }
                self.archetypes[b].inner_mut().undo_write();
                proof {
                    start.latch(b as int).lemma_write_release();
                    assert(self.latch(b as int) == before.latch(b as int).with_state(0));
                    assert forall|c: int| 0 <= c < b + 1 implies #[trigger] self.latch(c)
                        == start.latch(c) by {
                        if c < b {
                            assert(self.latch(c) == before.latch(c));
                        }
                    }
                    assert forall|c: int| b + 1 <= c < upto implies #[trigger] self.latch(c)
                        == if selects::<Q, F>(start.components()[c]) {
                        start.latch(c).with_state(WRITE_LOCKED)
                    } else {
                        start.latch(c)
                    } by {
                        assert(self.latch(c) == before.latch(c));
                    }
                    assert forall|c: int| upto <= c < start.len() implies #[trigger] self.latch(c)
                        == start.latch(c) by {
                        assert(self.latch(c) == before.latch(c));
                    }
                }
            }
            b += 1;
        }
        proof {
            assert(self.components() =~= start.components());
            assert(self.bundles() =~= start.bundles());
        }
    }

    /// Takes every archetype that the query looks at for reading, or none:
    /// where one of them admits no reader, those already taken are given back.
    pub fn try_read_selected<Q: ComponentQuery, F: ComponentFilter>(&mut self) -> (res: Option<
        (Vec<usize>, Vec<RwLockReadGuard>),
    >)
        requires
            old(self).components().len() == old(self).len(),
            old(self).readers_have_room(),
        ensures
            res is Some == old(self).selected_are_readable::<Q, F>(),
            res matches Some(held) ==> held.0@ == selected_ids::<Q, F>(old(self).components())
                && held.1@.len() == held.0@.len() && final(self).has_acquired_read::<Q,
                    F>(old(self)),
            res is None ==> final(self).unchanged(old(self)),
    {
        broadcast use {RwLockInner::lemma_make, RwLockInner::lemma_make_self};

        let mut ids: Vec<usize> = Vec::new();
        let mut guards: Vec<RwLockReadGuard> = Vec::new();
        let n = self.archetypes.len();
        let mut a: usize = 0;
        let ghost components = self.components();
        let ghost pred = |a: usize| selects::<Q, F>(components[a as int]);
        proof {
            reveal(Seq::filter);
            assert(Seq::new(0, |a: int| a as usize).filter(pred) =~= Seq::<usize>::empty());
        }
        while a < n
            invariant
                n == self.archetypes@.len(),
                n == old(self).archetypes@.len(),
                a <= n,
                old(self).readers_have_room(),
                self.components@ == old(self).components@,
                self.bundles@ == old(self).bundles@,
                components == old(self).components(),
                components.len() == n,
                pred == |a: usize| selects::<Q, F>(components[a as int]),
                ids@ == Seq::new(a as nat, |a: int| a as usize).filter(pred),
                guards@.len() == ids@.len(),
                forall|b: int|
                    0 <= b < a ==> #[trigger] self.latch(b) == if selects::<Q, F>(components[b]) {
                        old(self).latch(b).with_state((old(self).latch(b).state() + 1) as u32)
                    } else {
                        old(self).latch(b)
                    },
                forall|b: int|
                    0 <= b < a && selects::<Q, F>(#[trigger] components[b]) ==> old(self).latch(
                        b,
                    ).can_read(),
                forall|b: int| a <= b < n ==> #[trigger] self.latch(b) == old(self).latch(b),
            decreases n - a,
        {
            let ghost seen = Seq::new(a as nat, |a: int| a as usize);
            let ghost next = Seq::new((a + 1) as nat, |a: int| a as usize);
            proof {
                reveal(Seq::filter);
                assert(next.drop_last() =~= seen);
                assert(next.last() == a);
                assert(components[a as int] == self.components@[a as int]@);
            }
            if F::archetype_matches(&self.components[a]) && Q::is_subset_of_archetype(
                &self.components[a],
            ) {
                let ghost before = *self;
                proof {
                    assert(self.latch(a as int) == old(self).latch(a as int));
                    assert(old(self).latch(a as int).can_read() ==> !old(self).latch(
                        a as int,
                    ).is_saturated());
                }
                match self.archetypes[a].inner_mut().try_read() {
                    Poll::Ready(guard) => {
                        ids.push(a);
                        guards.push(guard);
                        proof {
                            assert(self.latch(a as int)
                                == before.latch(a as int).with_state((before.latch(a as int).state() + 1) as u32));
                            assert forall|b: int| 0 <= b < a + 1 implies #[trigger] self.latch(b)
                                == if selects::<Q, F>(components[b]) {
                                old(self).latch(b).with_state((old(self).latch(b).state() + 1) as u32)
                            } else {
                                old(self).latch(b)
                            } by {
                                if b < a {
                                    assert(self.latch(b) == before.latch(b));
                                }
                            }
                            assert forall|b: int| a + 1 <= b < n implies #[trigger] self.latch(b)
                                == old(self).latch(b) by {
                                assert(self.latch(b) == before.latch(b));
                            }
                        }
                    },
                    Poll::Pending => {
                        proof {
                            assert(!old(self).latch(a as int).can_read());
                            assert forall|b: int| 0 <= b < n implies #[trigger] self.latch(b)
                                == before.latch(b) by {}
                            assert forall|b: int| 0 <= b < a implies #[trigger] self.latch(b)
                                == if selects::<Q, F>(components[b]) {
                                old(self).latch(b).with_state((old(self).latch(b).state() + 1) as u32)
                            } else {
                                old(self).latch(b)
                            } by {
                                assert(self.latch(b) == before.latch(b));
                            }
                            assert forall|b: int| a <= b < n implies #[trigger] self.latch(b)
                                == old(self).latch(b) by {
                                assert(self.latch(b) == before.latch(b));
                            }
                        }
                        self.undo_read_selected::<Q, F>(a, Ghost(*old(self)));
                        return None;
                    },
                }
            }
            a += 1;
        }
        proof {
            assert(self.components() =~= old(self).components());
            assert(self.bundles() =~= old(self).bundles());
        }
        Some((ids, guards))
    }

    /// Gives back the archetypes below `upto` that the query looks at.
    fn undo_read_selected<Q: ComponentQuery, F: ComponentFilter>(
        &mut self,
        upto: usize,
        Ghost(start): Ghost<Self>,
    )
        requires
            upto <= old(self).len(),
            old(self).len() == start.len(),
            old(self).components@ == start.components@,
            old(self).bundles@ == start.bundles@,
            start.components().len() == start.len(),
            start.readers_have_room(),
            forall|b: int|
                0 <= b < upto ==> #[trigger] old(self).latch(b) == if selects::<Q, F>(
                    start.components()[b],
                ) {
                    start.latch(b).with_state((start.latch(b).state() + 1) as u32)
                } else {
                    start.latch(b)
                },
            forall|b: int|
                0 <= b < upto && selects::<Q, F>(#[trigger] start.components()[b]) ==> start.latch(
                    b,
                ).can_read(),
            forall|b: int| upto <= b < start.len() ==> #[trigger] old(self).latch(b)
                == start.latch(b),
        ensures
            final(self).unchanged(&start),
    {
        broadcast use {RwLockInner::lemma_make, RwLockInner::lemma_make_self};

        let mut b: usize = 0;
        while b < upto
            invariant
                b <= upto,
                upto <= self.len(),
                self.len() == start.len(),
                self.components@ == start.components@,
                self.bundles@ == start.bundles@,
                start.components().len() == start.len(),
                start.readers_have_room(),
                forall|c: int| 0 <= c < b ==> #[trigger] self.latch(c) == start.latch(c),
                forall|c: int|
                    b <= c < upto ==> #[trigger] self.latch(c) == if selects::<Q, F>(
                        start.components()[c],
                    ) {
                        start.latch(c).with_state((start.latch(c).state() + 1) as u32)
                    } else {
                        start.latch(c)
                    },
                forall|c: int|
                    0 <= c < upto && selects::<Q, F>(#[trigger] start.components()[c])
                        ==> start.latch(c).can_read(),
                forall|c: int| upto <= c < start.len() ==> #[trigger] self.latch(c)
                    == start.latch(c),
            decreases upto - b,
        {
            proof {
                assert(start.components()[b as int] == self.components@[b as int]@);
            }
            if F::archetype_matches(&self.components[b]) && Q::is_subset_of_archetype(
                &self.components[b],
            ) {
                let ghost before = *self;
                proof {
                    assert(self.latch(b as int)
                        == start.latch(b as int).with_state((start.latch(b as int).state() + 1) as u32));
                }
                self.archetypes[b].inner_mut().undo_read();
                proof {
                    start.latch(b as int).lemma_read_release();
                    assert(self.latch(b as int) == before.latch(b as int).with_state(
                        before.latch(b as int).state().wrapping_sub(1),
                    ));
                    assert forall|c: int| 0 <= c < b + 1 implies #[trigger] self.latch(c)
                        == start.latch(c) by {
                        if c < b {
                            assert(self.latch(c) == before.latch(c));
                        }
                    }
                    assert forall|c: int| b + 1 <= c < upto implies #[trigger] self.latch(c)
                        == if selects::<Q, F>(start.components()[c]) {
                        start.latch(c).with_state((start.latch(c).state() + 1) as u32)
                    } else {
                        start.latch(c)
                    } by {
                        assert(self.latch(c) == before.latch(c));
                    }
                    assert forall|c: int| upto <= c < start.len() implies #[trigger] self.latch(c)
                        == start.latch(c) by {
                        assert(self.latch(c) == before.latch(c));
                    }
                }
            }
            b += 1;
        }
        proof {
            assert(self.components() =~= start.components());
            assert(self.bundles() =~= start.bundles());
        }
    }
}

impl<V> ArchetypeStorage<V> {
    /// Whether the latches let a query of the components `Q` with the filter
    /// `F` be answered now. The registry has to be readable. A query that
    /// changes components takes its archetypes for writing, so that each
    /// has to be idle; one that only reads takes them for reading, so that
    /// each has to admit a reader, and shares them with other readers.
    pub open spec fn can_query<Q: ComponentQuery, F: ComponentFilter>(&self) -> bool {
        self.latch().can_read() && if Q::reads_only() {
            self.raw().selected_are_readable::<Q, F>()
        } else {
            self.raw().selected_are_idle::<Q, F>()
        }
    }

    /// Whether this storage is `old` with every archetype that the query
    /// looks at taken: for reading by a query that only reads, for writing
    /// by one that changes components.
    pub open spec fn is_taken_by<Q: ComponentQuery, F: ComponentFilter>(&self, old: &Self) -> bool {
        if Q::reads_only() {
            self.raw().has_acquired_read::<Q, F>(&old.raw())
        } else {
            self.raw().has_acquired::<Q, F>(&old.raw())
        }
    }

    /// Takes every archetype that the query looks at for reading, or none.
    ///
    /// Where the registry cannot be read, or one of the archetypes admits
    /// no reader, the step is pending and has taken nothing: whatever was
    /// taken on the way has been given back.
    pub fn try_read_selected<Q: ComponentQuery, F: ComponentFilter>(&mut self) -> (res: Poll<
        (Vec<usize>, Vec<RwLockReadGuard>),
    >)
        requires
            old(self).wf(),
            old(self).askable(),
            old(self).raw().readers_have_room(),
        ensures
            res is Ready == (old(self).latch().can_read()
                && old(self).raw().selected_are_readable::<
                Q,
                F,
            >()),
            final(self).latch().state() == old(self).latch().state(),
            final(self).latch().waiting_writes() == old(self).latch().waiting_writes(),
            res matches Poll::Ready(held) ==> held.0@ == selected_ids::<Q, F>(
                old(self).raw().components(),
            ) && held.1@.len() == held.0@.len() && final(self).raw().has_acquired_read::<Q, F>(
                &old(self).raw(),
            ),
            res is Pending ==> final(self).raw().unchanged(&old(self).raw()),
    {
        broadcast use {RwLockInner::lemma_make, RwLockInner::lemma_make_self};

        if !self.raw.inner().readable() {
            return Poll::Pending;
        }
        match self.raw.inner_mut().peek_mut().try_read_selected::<Q, F>() {
            Some(held) => Poll::Ready(held),
            None => Poll::Pending,
        }
    }

    /// Takes every archetype that the query looks at for writing, or none.
    ///
    /// Where the registry cannot be read, or one of the archetypes is in
    /// use, the step is pending and has taken nothing: whatever was taken on
    /// the way has been given back.
    pub fn try_write_selected<Q: ComponentQuery, F: ComponentFilter>(&mut self) -> (res: Poll<
        (Vec<usize>, Vec<RwLockWriteGuard>),
    >)
        requires
            old(self).wf(),
            old(self).askable(),
        ensures
            res is Ready == (old(self).latch().can_read() && old(self).raw().selected_are_idle::<
                Q,
                F,
            >()),
            final(self).latch().state() == old(self).latch().state(),
            final(self).latch().waiting_writes() == old(self).latch().waiting_writes(),
            res matches Poll::Ready(held) ==> held.0@ == selected_ids::<Q, F>(
                old(self).raw().components(),
            ) && held.1@.len() == held.0@.len() && final(self).raw().has_acquired::<Q, F>(
                &old(self).raw(),
            ),
            res is Pending ==> final(self).raw().unchanged(&old(self).raw()),
    {
        broadcast use {RwLockInner::lemma_make, RwLockInner::lemma_make_self};

        if !self.raw.inner().readable() {
            return Poll::Pending;
        }
        match self.raw.inner_mut().peek_mut().try_write_selected::<Q, F>() {
            Some(held) => Poll::Ready(held),
            None => Poll::Pending,
        }
    }
}

/// A storage whose archetypes are those of a well-formed one, whatever its
/// latches count, is well-formed.
pub proof fn lemma_storage_wf<V>(before: ArchetypeStorage<V>, after: ArchetypeStorage<V>)
    requires
        before.wf(),
        after.raw().len() == before.raw().len(),
        after.raw().components() == before.raw().components(),
        after.raw().bundles() == before.raw().bundles(),
        forall|a: int|
            0 <= a < before.raw().len() ==> (#[trigger] after.raw().latch(a)).value()
                == before.raw().latch(a).value(),
    ensures
        after.wf(),
{
    assert forall|a: int| 0 <= a < after.raw().len() implies (#[trigger] after.raw().archetype(
        a,
    )).wf() && after.raw().archetype(a).id() == a && after.raw().components()[a] == type_ids(
        after.raw().archetype(a).column_infos(),
    ) by {
        assert(after.raw().latch(a).value() == before.raw().latch(a).value());
        assert(before.raw().archetype(a).wf());
    }
}

/// Whether the list of archetypes holds the archetype `a`.
pub open spec fn holds_archetype(ids: Seq<usize>, a: int) -> bool {
    exists|k: int| 0 <= k < ids.len() && #[trigger] ids[k] == a
}

/// The archetypes that a query looks at are those that its filter lets
/// through and that have the components it needs.
pub proof fn lemma_selected_ids<Q: ComponentQuery, F: ComponentFilter>(
    components: Seq<Seq<u64>>,
    a: int,
)
    requires
        components.len() <= usize::MAX,
    ensures
        holds_archetype(selected_ids::<Q, F>(components), a) <==> (0 <= a < components.len()
            && selects::<Q, F>(components[a])),
{
    let all = Seq::new(components.len(), |a: int| a as usize);
    let pred = |a: usize| selects::<Q, F>(components[a as int]);
    let ids = selected_ids::<Q, F>(components);
    assert(ids == all.filter(pred));
    if holds_archetype(ids, a) {
        let k = choose|k: int| 0 <= k < ids.len() && #[trigger] ids[k] == a;
        all.lemma_filter_pred(pred, k);
        assert(ids.contains(ids[k]));
        all.lemma_filter_contains_rev(pred, ids[k]);
        let j = choose|j: int| 0 <= j < all.len() && all[j] == ids[k];
        assert(j == a);
    }
    if 0 <= a < components.len() && selects::<Q, F>(components[a]) {
        assert(all[a] == a as usize);
        assert(pred(all[a]));
        all.lemma_filter_contains(pred, a);
        let k = choose|k: int| 0 <= k < ids.len() && ids[k] == all[a];
        assert(ids[k] == a);
    }
}

/// The numbers below `n` that pass a test, taken in rising order, are in
/// rising order.
proof fn lemma_filter_rising(n: nat, pred: spec_fn(usize) -> bool, passed: Seq<usize>)
    requires
        n <= usize::MAX,
        passed == Seq::new(n, |a: int| a as usize).filter(pred),
    ensures
        forall|k: int| 0 <= k < passed.len() ==> (#[trigger] passed[k]) < n,
        forall|i: int, j: int| 0 <= i < j < passed.len() ==> passed[i] < passed[j],
    decreases n,
{
    reveal(Seq::filter);
    if n > 0 {
        let all = Seq::new(n, |a: int| a as usize);
        let rest = Seq::new((n - 1) as nat, |a: int| a as usize);
        assert(all.drop_last() =~= rest);
        lemma_filter_rising((n - 1) as nat, pred, rest.filter(pred));
    }
}

/// The archetypes that a query looks at are named in rising order.
pub proof fn lemma_selected_ids_rising<Q: ComponentQuery, F: ComponentFilter>(
    components: Seq<Seq<u64>>,
)
    requires
        components.len() <= usize::MAX,
    ensures
        forall|i: int, j: int|
            0 <= i < j < selected_ids::<Q, F>(components).len() ==> selected_ids::<Q, F>(
                components,
            )[i] < selected_ids::<Q, F>(components)[j],
{
    let pred = |a: usize| selects::<Q, F>(components[a as int]);
    lemma_filter_rising(components.len(), pred, selected_ids::<Q, F>(components));
}

/// Atomic acquisition: a query that finds one of its archetypes in use
/// takes none of them. After a pending query every latch is as it was, so a
/// query that succeeds on the state before succeeds on the state after.
pub proof fn lemma_atomic_acquisition<V, Q: ComponentQuery, F: ComponentFilter>(
    before: RawArchetypeStorage<V>,
    after: RawArchetypeStorage<V>,
)
    requires
        after.unchanged(&before),
    ensures
        forall|a: int| 0 <= a < before.len() ==> after.latch(a).state() == before.latch(a).state(),
        after.selected_are_idle::<Q, F>() == before.selected_are_idle::<Q, F>(),
{
    assert forall|a: int| 0 <= a < before.len() implies after.latch(a).state() == before.latch(
        a,
    ).state() by {
        assert(after.latch(a) == before.latch(a));
    }
    if before.selected_are_idle::<Q, F>() {
        assert forall|a: int|
            0 <= a < after.len() && selects::<Q, F>(
                #[trigger] after.components()[a],
            ) implies after.latch(a).is_idle() by {
            assert(after.latch(a) == before.latch(a));
            assert(selects::<Q, F>(before.components()[a]));
        }
    }
    if after.selected_are_idle::<Q, F>() {
        assert forall|a: int|
            0 <= a < before.len() && selects::<Q, F>(
                #[trigger] before.components()[a],
            ) implies before.latch(a).is_idle() by {
            assert(after.latch(a) == before.latch(a));
            assert(selects::<Q, F>(after.components()[a]));
        }
    }
}

/// Distinct component types have distinct ids in the list of their ids.
pub proof fn lemma_type_ids_distinct(infos: Seq<ComponentTypeInfo>)
    requires
        distinct_type_ids(infos),
    ensures
        type_ids(infos).no_duplicates(),
        type_ids(infos).len() == infos.len(),
        forall|id: u64| type_ids(infos).contains(id) <==> has_type_id(infos, id),
{
    let ids = type_ids(infos);
    assert forall|id: u64| ids.contains(id) <==> has_type_id(infos, id) by {
        if ids.contains(id) {
            let k = choose|k: int| 0 <= k < ids.len() && ids[k] == id;
            assert(infos[k].type_id == id);
        }
        if has_type_id(infos, id) {
            let k = choose|k: int| 0 <= k < infos.len() && (#[trigger] infos[k]).type_id == id;
            assert(ids[k] == id);
        }
    }
}

/// Lists of component types whose ids name the same set name the same types.
pub proof fn lemma_same_set_same_types(columns: Seq<ComponentTypeInfo>, infos: Seq<ComponentTypeInfo>)
    requires
        distinct_type_ids(infos),
        same_id_set(type_ids(columns), type_ids(infos)),
    ensures
        same_type_ids(infos, columns),
{
    lemma_type_ids_distinct(infos);
    lemma_cover_is_mutual(type_ids(columns), type_ids(infos));
    assert forall|i: int| 0 <= i < infos.len() implies has_type_id(
        columns,
        (#[trigger] infos[i]).type_id,
    ) by {
        assert(type_ids(infos)[i] == infos[i].type_id);
        assert(type_ids(columns).contains(type_ids(infos)[i]));
        let k = choose|k: int|
            0 <= k < type_ids(columns).len() && type_ids(columns)[k] == infos[i].type_id;
        assert(columns[k].type_id == infos[i].type_id);
    }
    assert forall|i: int| 0 <= i < columns.len() implies has_type_id(
        infos,
        (#[trigger] columns[i]).type_id,
    ) by {
        assert(type_ids(columns)[i] == columns[i].type_id);
        assert(type_ids(infos).contains(type_ids(columns)[i]));
    }
}

/// Two groups that name the set of `ids` name the same set.
pub proof fn lemma_same_id_set_shared(a: Seq<u64>, b: Seq<u64>, ids: Seq<u64>)
    requires
        same_id_set(a, ids),
        same_id_set(b, ids),
        ids.no_duplicates(),
    ensures
        same_id_set(a, b),
{
    lemma_cover_is_mutual(b, ids);
    assert forall|i: int| 0 <= i < b.len() implies a.contains(#[trigger] b[i]) by {
        assert(ids.contains(b[i]));
        let k = choose|k: int| 0 <= k < ids.len() && ids[k] == b[i];
        assert(a.contains(ids[k]));
    }
}

/// A list without repetition that lies within a list of its own length
/// covers that list, which has no repetition either.
pub proof fn lemma_cover_is_mutual(group: Seq<u64>, ids: Seq<u64>)
    requires
        same_id_set(group, ids),
        ids.no_duplicates(),
    ensures
        forall|i: int| 0 <= i < group.len() ==> ids.contains(#[trigger] group[i]),
        same_id_set(ids, group),
{
    ids.unique_seq_to_set();
    vstd::seq_lib::seq_to_set_is_finite(ids);
    vstd::seq_lib::seq_to_set_is_finite(group);
    assert(ids.to_set().subset_of(group.to_set())) by {
        assert forall|x: u64| ids.to_set().contains(x) implies group.to_set().contains(x) by {
            let k = choose|k: int| 0 <= k < ids.len() && ids[k] == x;
            assert(group.contains(ids[k]));
        }
    }
    vstd::set_lib::lemma_len_subset(ids.to_set(), group.to_set());
    group.lemma_cardinality_of_set();
    vstd::set_lib::lemma_subset_equality(ids.to_set(), group.to_set());
    assert forall|i: int| 0 <= i < group.len() implies ids.contains(#[trigger] group[i]) by {
        assert(group.to_set().contains(group[i]));
        assert(ids.to_set().contains(group[i]));
    }
}

} // verus!
