//! Entities grouped by their components.
//!
//! An archetype is a table: each row is an entity, each column a component
//! type. Rows keep their index for as long as their entity lives, and a row
//! that was given up is used again before a new one is allocated.

use vstd::prelude::*;

pub mod column;
pub mod storage;

pub use column::{ArchetypeCell, ArchetypeColumn};
pub use storage::{ArchetypeStorage, RawArchetypeStorage};
use crate::component::bundle::{
    distinct_type_ids, has_type_id, same_type_ids, Bundle, BundleComponent,
};
use crate::component::{canonical, ComponentTypeInfo};
use crate::util::sparsevec::{is_free_list, lemma_free_list_full};
use crate::util::text::{decimal, to_decimal};
use crate::util::unqualified::{unqualified, unqualify};
use vstd::string::StringExecFns;

verus! {

/// One table of entities that all have the same component types.
pub struct Archetype<V> {
    archetype_id: usize,
    archetype_name: &'static str,
    columns: Vec<ArchetypeColumn<V>>,
    rows_dense_next: usize,
    unoccupied_rows: Vec<usize>,
}

/// Whether `rows` holds `row`.
pub fn contains_row(rows: &Vec<usize>, row: usize) -> (b: bool)
    ensures
        b == rows@.contains(row),
{
    let mut k: usize = 0;
    while k < rows.len()
        invariant
            k <= rows@.len(),
            forall|j: int| 0 <= j < k ==> rows@[j] != row,
        decreases rows@.len() - k,
    {
        if rows[k] == row {
            return true;
        }
        k += 1;
    }
    false
}

/// The rows below `high_water` that `free` does not list, in rising order.
pub open spec fn occupied_rows(high_water: nat, free: Seq<usize>) -> Seq<usize> {
    Seq::new(high_water, |r: int| r as usize).filter(|r: usize| !free.contains(r))
}

impl<V> Archetype<V> {
    /// The id of the archetype.
    pub closed spec fn id(&self) -> usize {
        self.archetype_id
    }

    /// The name of the archetype.
    pub closed spec fn name(&self) -> &'static str {
        self.archetype_name
    }

    /// The columns, in their fixed order.
    pub closed spec fn columns(&self) -> Seq<ArchetypeColumn<V>> {
        self.columns@
    }

    /// The number of rows that were ever allocated.
    pub closed spec fn rows_high_water(&self) -> nat {
        self.rows_dense_next as nat
    }

    /// The rows that are allocated and not in use, the one given up last at the end.
    pub closed spec fn free_rows(&self) -> Seq<usize> {
        self.unoccupied_rows@
    }

    /// The component types of the columns, in the order of the columns.
    pub open spec fn column_infos(&self) -> Seq<ComponentTypeInfo> {
        Seq::new(self.columns().len(), |c: int| self.columns()[c].info())
    }

    /// Whether an entity lives in `row`.
    pub open spec fn is_occupied(&self, row: int) -> bool {
        0 <= row < self.rows_high_water() && !self.free_rows().contains(row as usize)
    }

    /// What the cell of `column` in `row` holds.
    pub open spec fn cell(&self, column: int, row: int) -> Option<V> {
        self.columns()[column]@[row]
    }

    /// Where the column of the given component type stands.
    pub open spec fn column_of(&self, type_id: u64) -> int {
        choose|c: int| 0 <= c < self.columns().len()
            && (#[trigger] self.columns()[c]).info().type_id
            == type_id
    }

    /// The invariant of the table: the columns are of distinct types and in
    /// canonical order; every column has a cell for every allocated row; the
    /// free list names allocated rows, each once; and a cell holds a value
    /// exactly when its row is in use.
    pub open spec fn wf(&self) -> bool {
        &&& distinct_type_ids(self.column_infos())
        &&& canonical(self.column_infos())
        &&& is_free_list(self.free_rows(), self.rows_high_water())
        &&& forall|c: int|
            0 <= c < self.columns().len() ==> (#[trigger] self.columns()[c])@.len()
                == self.rows_high_water()
        &&& forall|c: int, r: int|
            0 <= c < self.columns().len() && 0 <= r < self.rows_high_water() ==> ((
            #[trigger] self.cell(c, r)) is Some <==> self.is_occupied(r))
    }

    /// The same table as `old` but for what the cells hold.
    pub open spec fn same_shape(&self, old: &Self) -> bool {
        &&& self.id() == old.id()
        &&& self.name() == old.name()
        &&& self.columns().len() == old.columns().len()
        &&& self.column_infos() == old.column_infos()
    }

    /// Returns the id of the archetype.
    pub fn archetype_id(&self) -> (id: usize)
        ensures
            id == self.id(),
    {
        self.archetype_id
    }

    /// Returns the name of the archetype.
    pub fn archetype_name(&self) -> (name: &'static str)
        ensures
            name == self.name(),
    {
        self.archetype_name
    }

    /// An archetype without rows, with one column for each of the given
    /// component types.
    pub fn new(archetype_id: usize, archetype_name: &'static str, type_info: Vec<ComponentTypeInfo>) -> (archetype: Self)
        requires
            distinct_type_ids(type_info@),
            canonical(type_info@),
        ensures
            archetype.wf(),
            archetype.id() == archetype_id,
            archetype.name() == archetype_name,
            archetype.column_infos() == type_info@,
            archetype.rows_high_water() == 0,
            archetype.free_rows() == Seq::<usize>::empty(),
    {
        let mut columns: Vec<ArchetypeColumn<V>> = Vec::new();
        let mut c: usize = 0;
        while c < type_info.len()
            invariant
                c <= type_info@.len(),
                columns@.len() == c,
                forall|k: int|
                    0 <= k < c ==> (#[trigger] columns@[k]).info() == type_info@[k]
                        && columns@[k]@.len()
                        == 0,
            decreases type_info@.len() - c,
        {
            columns.push(ArchetypeColumn::new(type_info[c]));
            c += 1;
        }
        let archetype = Archetype {
            archetype_id,
            archetype_name,
            columns,
            rows_dense_next: 0,
            unoccupied_rows: Vec::new(),
        };
        assert(archetype.column_infos() =~= type_info@);
        archetype
    }

    /// The number of columns.
    pub fn column_count(&self) -> (n: usize)
        ensures
            n == self.columns().len(),
    {
        self.columns.len()
    }

    /// The ids of the component types of the columns, in the order of the columns.
    pub fn column_types(&self) -> (ids: Vec<u64>)
        ensures
            ids@ == crate::component::type_ids(self.column_infos()),
    {
        let mut ids: Vec<u64> = Vec::new();
        let mut c: usize = 0;
        while c < self.columns.len()
            invariant
                c <= self.columns@.len(),
                ids@.len() == c,
                forall|k: int| 0 <= k < c ==> ids@[k]
                    == (#[trigger] self.columns@[k]).info().type_id,
            decreases self.columns@.len() - c,
        {
            ids.push(self.columns[c].type_id());
            c += 1;
        }
        assert(ids@ =~= crate::component::type_ids(self.column_infos()));
        ids
    }

    /// Where the column of the given component type stands, if there is one.
    pub fn column_index(&self, type_id: u64) -> (found: Option<usize>)
        ensures
            match found {
                Some(c) => c < self.columns().len() && self.columns()[c as int].info().type_id
                    == type_id,
                None => !has_type_id(self.column_infos(), type_id),
            },
    {
        let mut c: usize = 0;
        while c < self.columns.len()
            invariant
                c <= self.columns@.len(),
                forall|k: int| 0 <= k < c
                    ==> (#[trigger] self.columns@[k]).info().type_id != type_id,
            decreases self.columns@.len() - c,
        {
            if self.columns[c].type_id() == type_id {
                return Some(c);
            }
            c += 1;
        }
        proof {
            if has_type_id(self.column_infos(), type_id) {
                let k = choose|k: int|
                    0 <= k < self.column_infos().len()
                        && (#[trigger] self.column_infos()[k]).type_id
                        == type_id;
                assert(self.columns@[k].info().type_id == type_id);
            }
        }
        None
    }

    /// The column of the given component type, if the archetype has one.
    pub fn get_column_ref(&self, type_id: u64) -> (column: Option<&ArchetypeColumn<V>>)
        ensures
            column is Some == has_type_id(self.column_infos(), type_id),
            column matches Some(col) ==> col.info().type_id == type_id && exists|c: int|
                0 <= c < self.columns().len() && *col == #[trigger] self.columns()[c],
    {
        match self.column_index(type_id) {
            Some(c) => {
                assert(self.column_infos()[c as int].type_id == type_id);
                Some(&self.columns[c])
            },
            None => None,
        }
    }

    /// The column of the given component type, to change, if the archetype
    /// has one. Whoever changes which cells are occupied answers for the
    /// invariant of the table.
    pub fn get_column_mut(&mut self, type_id: u64) -> (column: Option<&mut ArchetypeColumn<V>>)
        requires
            old(self).wf(),
        ensures
            column is Some == has_type_id(old(self).column_infos(), type_id),
            column matches Some(col) ==> col.info().type_id == type_id && *col
                == old(self).columns()[old(self).column_of(type_id)] && final(self).columns()
                == old(self).columns().update(old(self).column_of(type_id), *final(col))
                && final(self).id() == old(self).id() && final(self).name() == old(self).name()
                && final(self).rows_high_water()
                == old(self).rows_high_water() && final(self).free_rows() == old(self).free_rows(),
            column is None ==> *final(self) == *old(self),
    {
        match self.column_index(type_id) {
            Some(c) => {
                proof {
                    assert(self.column_infos()[c as int].type_id == type_id);
                    self.lemma_column_of(c as int);
                }
                Some(&mut self.columns[c])
            },
            None => None,
        }
    }

    /// Returns `true` if an entity lives in `row`.
    pub fn has_row(&self, row: usize) -> (b: bool)
        ensures
            b == self.is_occupied(row as int),
    {
        row < self.rows_dense_next && !contains_row(&self.unoccupied_rows, row)
    }

    /// The rows in which an entity lives, in rising order.
    pub fn rows(&self) -> (rows: Vec<usize>)
        ensures
            rows@ == occupied_rows(self.rows_high_water(), self.free_rows()),
    {
        let mut rows: Vec<usize> = Vec::new();
        let mut r: usize = 0;
        let ghost free = self.unoccupied_rows@;
        let ghost pred = |r: usize| !free.contains(r);
        proof {
            reveal(Seq::filter);
            assert(Seq::new(0, |r: int| r as usize).filter(pred) =~= Seq::<usize>::empty());
        }
        while r < self.rows_dense_next
            invariant
                r <= self.rows_dense_next,
                free == self.unoccupied_rows@,
                pred == |r: usize| !free.contains(r),
                rows@ == Seq::new(r as nat, |r: int| r as usize).filter(pred),
            decreases self.rows_dense_next - r,
        {
            let ghost seen = Seq::new(r as nat, |r: int| r as usize);
            let ghost next = Seq::new((r + 1) as nat, |r: int| r as usize);
            proof {
                reveal(Seq::filter);
                assert(next.drop_last() =~= seen);
                assert(next.last() == r);
            }
            if !contains_row(&self.unoccupied_rows, r) {
                rows.push(r);
            }
            r += 1;
        }
        rows
    }

    /// The value that the entity in `row` has of the given component type.
    pub fn get(&self, row: usize, type_id: u64) -> (component: Option<&V>)
        requires
            self.wf(),
        ensures
            component is Some == (self.is_occupied(row as int) && has_type_id(
                self.column_infos(),
                type_id,
            )),
            component matches Some(value) ==> Some(*value) == self.cell(
                self.column_of(type_id),
                row as int,
            ),
    {
        if !self.has_row(row) {
            return None;
        }
        match self.column_index(type_id) {
            Some(c) => {
                proof {
                    self.lemma_column_of(c as int);
                    assert(self.cell(c as int, row as int) is Some);
                    assert(self.column_infos()[c as int].type_id == type_id);
                }
                Some(self.columns[c].get_ref(row))
            },
            None => None,
        }
    }

    /// The value that the entity in `row` has of the given component type, to change.
    pub fn get_mut(&mut self, row: usize, type_id: u64) -> (component: Option<&mut V>)
        requires
            old(self).wf(),
        ensures
            component is Some == (old(self).is_occupied(row as int) && has_type_id(
                old(self).column_infos(),
                type_id,
            )),
            component matches Some(value) ==> Some(*value) == old(self).cell(
                old(self).column_of(type_id),
                row as int,
            ),
            component matches Some(value) ==> final(self).changed_cell(
                old(self),
                old(self).column_of(type_id),
                row as int,
                *final(value),
            ),
            component is None ==> *final(self) == *old(self),
    {
        if !self.has_row(row) {
            return None;
        }
        match self.column_index(type_id) {
            Some(c) => {
                proof {
                    self.lemma_column_of(c as int);
                    assert(self.cell(c as int, row as int) is Some);
                    assert(self.column_infos()[c as int].type_id == type_id);
                }
                Some(self.columns[c].get_mut(row))
            },
            None => None,
        }
    }

    /// The same table as `old` but for the one cell, which holds `value`.
    pub open spec fn changed_cell(&self, old: &Self, column: int, row: int, value: V) -> bool {
        &&& self.id() == old.id()
        &&& self.name() == old.name()
        &&& self.rows_high_water() == old.rows_high_water()
        &&& self.free_rows() == old.free_rows()
        &&& self.columns() == old.columns().update(column, self.columns()[column])
        &&& self.columns()[column].info() == old.columns()[column].info()
        &&& self.columns()[column]@ == old.columns()[column]@.update(row, Some(value))
    }

    /// Changing the value of an occupied cell keeps the invariant of the
    /// table, and every other cell.
    pub proof fn lemma_changed_cell(&self, old: &Self, column: int, row: int, value: V)
        requires
            old.wf(),
            self.changed_cell(old, column, row, value),
            0 <= column < old.columns().len(),
            old.is_occupied(row),
        ensures
            self.wf(),
            self.same_shape(old),
            self.cell(column, row) == Some(value),
            forall|c: int, r: int|
                0 <= c < self.columns().len() && 0 <= r < self.rows_high_water() && !(c == column
                    && r == row) ==> #[trigger] self.cell(c, r) == old.cell(c, r),
    {
        assert(self.column_infos() =~= old.column_infos());
        assert(old.columns()[column]@.len() == old.rows_high_water());
        assert forall|c: int, r: int|
            0 <= c < self.columns().len() && 0 <= r < self.rows_high_water() implies ((
        #[trigger] self.cell(c, r)) is Some <==> self.is_occupied(r)) by {
            assert(old.cell(c, r) is Some <==> old.is_occupied(r));
        }
        assert forall|c: int| 0 <= c < self.columns().len() implies (#[trigger] self.columns()[c])@.len()
            == self.rows_high_water() by {
            assert(old.columns()[c]@.len() == old.rows_high_water());
        }
    }

    /// Whether this table is `old` after the entity `bundle` was put into `row`:
    /// the row is the one given up last, or a new one where none was free;
    /// its cells hold the components of the bundle; nothing else changed.
    pub open spec fn is_spawn_of(&self, old: &Self, bundle: &Bundle<V>, row: usize) -> bool {
        &&& self.same_shape(old)
        &&& old.free_rows().len() > 0 ==> row == old.free_rows().last() && self.free_rows()
            == old.free_rows().drop_last() && self.rows_high_water() == old.rows_high_water()
        &&& old.free_rows().len() == 0 ==> row == old.rows_high_water() && self.free_rows()
            == old.free_rows() && self.rows_high_water() == old.rows_high_water() + 1
        &&& !old.is_occupied(row as int)
        &&& self.is_occupied(row as int)
        &&& forall|c: int|
            0 <= c < self.columns().len() ==> #[trigger] self.cell(c, row as int) == Some(
                bundle.value_of(old.column_infos()[c].type_id),
            )
        &&& forall|c: int, r: int|
            0 <= c < self.columns().len() && 0 <= r < old.rows_high_water() && r != row
                ==> #[trigger] self.cell(c, r) == old.cell(c, r)
    }

    /// Whether this table is `old` after the entity in `row` was removed: the
    /// cells of the row are empty, the row is the one given up last, and
    /// nothing else changed.
    pub open spec fn is_despawn_of(&self, old: &Self, row: usize) -> bool {
        &&& self.same_shape(old)
        &&& self.free_rows() == old.free_rows().push(row)
        &&& self.rows_high_water() == old.rows_high_water()
        &&& forall|c: int|
            0 <= c < self.columns().len() ==> (#[trigger] self.columns()[c])@.len()
                == old.rows_high_water()
        &&& forall|c: int|
            0 <= c < self.columns().len() ==> (#[trigger] self.cell(c, row as int)) is None
        &&& forall|c: int, r: int|
            0 <= c < self.columns().len() && 0 <= r < old.rows_high_water() && r != row
                ==> #[trigger] self.cell(c, r) == old.cell(c, r)
    }

    /// Adds a row to the archetype: the entity of `bundle` is spawned.
    ///
    /// A row that was given up is used again, the one given up last first;
    /// only where none is free a new row is allocated. The bundle holds
    /// exactly the component types of the archetype.
    pub fn spawn_unchecked(&mut self, bundle: Bundle<V>) -> (row: usize)
        requires
            old(self).wf(),
            bundle.matches(old(self).column_infos()),
            old(self).free_rows().len() == 0 ==> old(self).rows_high_water() < usize::MAX,
        ensures
            final(self).wf(),
            final(self).is_spawn_of(old(self), &bundle, row),
    {
        let reuse = self.unoccupied_rows.len() > 0;
        let row: usize;
        if reuse {
            row = self.unoccupied_rows.pop().unwrap();
        } else {
            row = self.rows_dense_next;
            self.rows_dense_next = row + 1;
        }
        let ghost start = *old(self);
        let ghost infos = old(self).column_infos();
        let ghost all = bundle@;
        let mut components = bundle.into_components();
        proof {
            assert(components@.take(components@.len() as int) == components@);
            if reuse {
                assert(start.unoccupied_rows@.contains(row)) by {
                    assert(start.unoccupied_rows@[start.unoccupied_rows@.len() - 1] == row);
                }
            }
            assert forall|c: int| 0 <= c < start.columns@.len() implies 0
                <= #[trigger] bundle.index_of(start.columns@[c].info().type_id) < all.len() by {
                assert(infos[c].type_id == start.columns@[c].info().type_id);
                bundle.lemma_index_of_exists(infos[c].type_id);
            }
        }
        while components.len() > 0
            invariant
                start == *old(self),
                start.wf(),
                all == bundle@,
                bundle.matches(start.column_infos()),
                components@ == all.take(components@.len() as int),
                components@.len() <= all.len(),
                self.archetype_id == start.archetype_id,
                self.archetype_name == start.archetype_name,
                self.columns@.len() == start.columns@.len(),
                reuse ==> row < start.rows_dense_next && start.unoccupied_rows@.contains(row)
                    && self.rows_dense_next == start.rows_dense_next && start.unoccupied_rows@.len()
                    > 0 && row == start.unoccupied_rows@.last() && self.unoccupied_rows@
                    == start.unoccupied_rows@.drop_last(),
                !reuse ==> row == start.rows_dense_next && self.rows_dense_next == row + 1
                    && self.unoccupied_rows@ == start.unoccupied_rows@
                    && start.unoccupied_rows@.len() == 0,
                forall|c: int|
                    0 <= c < self.columns@.len() ==> (#[trigger] self.columns@[c]).info()
                        == start.columns@[c].info(),
                forall|c: int|
                    0 <= c < start.columns@.len() ==> 0 <= #[trigger] bundle.index_of(
                        start.columns@[c].info().type_id,
                    ) < all.len(),
                forall|c: int|
                    0 <= c < self.columns@.len() ==> (#[trigger] self.columns@[c])@ == ({
                        let j = bundle.index_of(start.columns@[c].info().type_id);
                        if j < components@.len() {
                            start.columns@[c]@
                        } else if reuse {
                            start.columns@[c]@.update(row as int, Some(all[j].value))
                        } else {
                            start.columns@[c]@.push(Some(all[j].value))
                        }
                    }),
            decreases components@.len(),
        {
            let ghost k = components@.len() - 1;
            let component = components.pop().unwrap();
            proof {
                assert(component == all[k]);
                assert(components@ =~= all.take(k));
                bundle.lemma_index_of(k);
                assert(bundle.infos()[k].type_id == component.info.type_id);
                assert(has_type_id(start.column_infos(), component.info.type_id));
            }
            let found = self.column_index(component.info.type_id);
            proof {
                if found is None {
                    let c = choose|c: int|
                        0 <= c < start.column_infos().len() && (
                        #[trigger] start.column_infos()[c]).type_id == component.info.type_id;
                    assert(self.column_infos()[c].type_id == component.info.type_id);
                }
            }
            if let Some(c) = found {
                let ghost others = self.columns@;
                proof {
                    assert(start.columns@[c as int].info().type_id == component.info.type_id);
                    assert(bundle.index_of(start.columns@[c as int].info().type_id) == k);
                    assert(others[c as int]@ == start.columns@[c as int]@);
                    assert(start.columns()[c as int]@.len() == start.rows_high_water());
                    if reuse {
                        assert(!start.is_occupied(row as int));
                        assert(start.cell(c as int, row as int) is None);
                    }
                }
                if reuse {
                    self.columns[c].write(row, component.value);
                } else {
                    self.columns[c].push(component.value);
                }
                proof {
                    assert forall|d: int| 0 <= d < self.columns@.len() implies (
                    #[trigger] self.columns@[d])@ == ({
                        let j = bundle.index_of(start.columns@[d].info().type_id);
                        if j < components@.len() {
                            start.columns@[d]@
                        } else if reuse {
                            start.columns@[d]@.update(row as int, Some(all[j].value))
                        } else {
                            start.columns@[d]@.push(Some(all[j].value))
                        }
                    }) by {
                        if d != c {
                            assert(self.columns@[d] == others[d]);
                            let j = bundle.index_of(start.columns@[d].info().type_id);
                            if j == k {
                                assert(start.column_infos()[d].type_id
                                    == start.column_infos()[c as int].type_id);
                            }
                        }
                    }
                }
            }
        }
        proof {
            assert(self.column_infos() =~= start.column_infos());
            let free = self.unoccupied_rows@;
            let old_free = start.unoccupied_rows@;
            if reuse {
                assert(free == old_free.drop_last());
                assert forall|r: usize| r != row implies (free.contains(r) <==> old_free.contains(
                    r,
                )) by {
                    if free.contains(r) {
                        let i = choose|i: int| 0 <= i < free.len() && free[i] == r;
                        assert(old_free[i] == r);
                    }
                    if old_free.contains(r) {
                        let i = choose|i: int| 0 <= i < old_free.len() && old_free[i] == r;
                        assert(i != old_free.len() - 1);
                        assert(free[i] == r);
                    }
                }
                assert(!free.contains(row)) by {
                    if free.contains(row) {
                        let i = choose|i: int| 0 <= i < free.len() && free[i] == row;
                        assert(old_free[i] == old_free[old_free.len() - 1]);
                    }
                }
                assert forall|k: int| 0 <= k < free.len() implies (#[trigger] free[k])
                    < self.rows_high_water() by {
                    assert(free[k] == old_free[k]);
                }
            } else {
                assert(free == old_free);
                assert(!free.contains(row)) by {
                    if free.contains(row) {
                        let i = choose|i: int| 0 <= i < free.len() && free[i] == row;
                        assert(old_free[i] < start.rows_high_water());
                    }
                }
            }
            assert forall|c: int, r: int|
                0 <= c < self.columns().len() && 0 <= r < self.rows_high_water() implies ((
            #[trigger] self.cell(c, r)) is Some <==> self.is_occupied(r)) by {
                assert(start.columns()[c]@.len() == start.rows_high_water());
                if r != row {
                    assert(self.cell(c, r) == start.cell(c, r));
                    assert(start.cell(c, r) is Some <==> start.is_occupied(r));
                }
            }
            assert forall|c: int| 0 <= c < self.columns().len() implies (
            #[trigger] self.columns()[c])@.len() == self.rows_high_water() by {
                assert(start.columns()[c]@.len() == start.rows_high_water());
            }
            assert forall|c: int| 0 <= c < self.columns().len() implies #[trigger] self.cell(
                c,
                row as int,
            ) == Some(bundle.value_of(start.column_infos()[c].type_id)) by {
                assert(start.columns()[c]@.len() == start.rows_high_water());
            }
            assert forall|c: int, r: int|
                0 <= c < self.columns().len() && 0 <= r < start.rows_high_water() && r
                    != row implies #[trigger] self.cell(c, r) == start.cell(c, r) by {
                assert(start.columns()[c]@.len() == start.rows_high_water());
            }
        }
        row
    }

    /// Removes a row from the archetype: the entity in `row` is despawned.
    ///
    /// The values of the row are dropped and the row is marked as free. No
    /// other row moves.
    pub fn despawn_unchecked(&mut self, row: usize)
        requires
            old(self).wf(),
            old(self).is_occupied(row as int),
        ensures
            final(self).wf(),
            final(self).is_despawn_of(old(self), row),
    {
        let ghost start = *old(self);
        let mut c: usize = 0;
        while c < self.columns.len()
            invariant
                start == *old(self),
                start.wf(),
                start.is_occupied(row as int),
                c <= self.columns@.len(),
                self.archetype_id == start.archetype_id,
                self.archetype_name == start.archetype_name,
                self.rows_dense_next == start.rows_dense_next,
                self.unoccupied_rows@ == start.unoccupied_rows@,
                self.columns@.len() == start.columns@.len(),
                forall|d: int|
                    0 <= d < self.columns@.len() ==> (#[trigger] self.columns@[d]).info()
                        == start.columns@[d].info(),
                forall|d: int|
                    0 <= d < self.columns@.len() ==> (#[trigger] self.columns@[d])@ == if d < c {
                        start.columns@[d]@.update(row as int, None)
                    } else {
                        start.columns@[d]@
                    },
            decreases self.columns@.len() - c,
        {
            let ghost others = self.columns@;
            proof {
                assert(start.columns()[c as int]@.len() == start.rows_high_water());
                assert(start.cell(c as int, row as int) is Some);
            }
            self.columns[c].drop(row);
            proof {
                assert forall|d: int| 0 <= d < self.columns@.len() implies (
                #[trigger] self.columns@[d])@ == if d < c + 1 {
                    start.columns@[d]@.update(row as int, None)
                } else {
                    start.columns@[d]@
                } by {
                    if d != c {
                        assert(self.columns@[d] == others[d]);
                    }
                }
            }
            c += 1;
        }
        self.unoccupied_rows.push(row);
        proof {
            assert(self.column_infos() =~= start.column_infos());
            let free = self.unoccupied_rows@;
            let old_free = start.unoccupied_rows@;
            assert(free[old_free.len() as int] == row);
            assert forall|r: usize| free.contains(r) <==> (r == row || old_free.contains(r)) by {
                if free.contains(r) {
                    let i = choose|i: int| 0 <= i < free.len() && free[i] == r;
                    if i < old_free.len() {
                        assert(old_free[i] == r);
                    }
                }
                if old_free.contains(r) {
                    let i = choose|i: int| 0 <= i < old_free.len() && old_free[i] == r;
                    assert(free[i] == r);
                }
            }
            assert forall|i: int, j: int| 0 <= i < j < free.len() implies free[i] != free[j] by {
                if j == old_free.len() {
                    assert(old_free[i] == free[i]);
                    assert(old_free.contains(free[i]));
                } else {
                    assert(old_free[i] == free[i] && old_free[j] == free[j]);
                }
            }
            assert forall|k: int| 0 <= k < free.len() implies (#[trigger] free[k])
                < self.rows_high_water() by {
                if k < old_free.len() {
                    assert(free[k] == old_free[k]);
                }
            }
            assert forall|d: int, r: int|
                0 <= d < self.columns().len() && 0 <= r < self.rows_high_water() implies ((
            #[trigger] self.cell(d, r)) is Some <==> self.is_occupied(r)) by {
                assert(start.columns()[d]@.len() == start.rows_high_water());
                if r != row {
                    assert(self.cell(d, r) == start.cell(d, r));
                    assert(start.cell(d, r) is Some <==> start.is_occupied(r));
                }
            }
            assert forall|d: int| 0 <= d < self.columns().len() implies (
            #[trigger] self.columns()[d])@.len() == self.rows_high_water() by {
                assert(start.columns()[d]@.len() == start.rows_high_water());
            }
            assert forall|d: int| 0 <= d < self.columns().len() implies (#[trigger] self.cell(
                d,
                row as int,
            )) is None by {
                assert(start.columns()[d]@.len() == start.rows_high_water());
            }
            assert forall|d: int, r: int|
                0 <= d < self.columns().len() && 0 <= r < start.rows_high_water() && r
                    != row implies #[trigger] self.cell(d, r) == start.cell(d, r) by {
                assert(start.columns()[d]@.len() == start.rows_high_water());
            }
        }
    }

    /// A component type has one column only.
    pub proof fn lemma_column_of(&self, c: int)
        requires
            self.wf(),
            0 <= c < self.columns().len(),
        ensures
            self.column_of(self.columns()[c].info().type_id) == c,
    {
        let k = self.column_of(self.columns()[c].info().type_id);
        assert(self.columns()[c].info().type_id == self.columns()[c].info().type_id);
        if k != c {
            assert(self.column_infos()[k].type_id == self.column_infos()[c].type_id);
        }
    }
}

impl<V> Archetype<V> {
    /// Takes the archetype apart: the values of the rows that are in use
    /// are dropped, column by column, and no cell of a row that was given up
    /// is dropped again. The dropped values are handed out, for each column
    /// in row order.
    pub fn dealloc(self) -> (dropped: Vec<Vec<V>>)
        requires
            self.wf(),
        ensures
            dropped@.len() == self.columns().len(),
            forall|c: int|
                0 <= c < dropped@.len() ==> (#[trigger] dropped@[c])@ == column::live_values(
                    self.columns()[c]@,
                ),
    {
        let mut columns = self.columns;
        let unoccupied_rows = self.unoccupied_rows;
        let mut dropped: Vec<Vec<V>> = Vec::new();
        let ghost all = columns@;
        let rows = self.rows_dense_next;
        while columns.len() > 0
            invariant
                all == self.columns@,
                self.wf(),
                rows == self.rows_dense_next,
                unoccupied_rows@ == self.unoccupied_rows@,
                columns@.len() + dropped@.len() == all.len(),
                columns@ == all.take(columns@.len() as int),
                forall|c: int|
                    0 <= c < dropped@.len() ==> (#[trigger] dropped@[c])@ == column::live_values(
                        all[all.len() - 1 - c]@,
                    ),
            decreases columns@.len(),
        {
            let ghost k = columns@.len() - 1;
            let column = columns.pop().unwrap();
            proof {
                assert(column == all[k]);
                assert(columns@ =~= all.take(k));
                assert(self.columns()[k]@.len() == self.rows_high_water());
                assert forall|i: int| 0 <= i < column@.len() implies ((#[trigger] column@[i]) is None
                    <==> unoccupied_rows@.contains(i as usize)) by {
                    assert(self.cell(k, i) is Some <==> self.is_occupied(i));
                }
            }
            let values = column.drop_dealloc_except(&unoccupied_rows);
            let ghost before = dropped@;
            dropped.push(values);
            proof {
                assert forall|c: int| 0 <= c < dropped@.len() implies (#[trigger] dropped@[c])@
                    == column::live_values(all[all.len() - 1 - c]@) by {
                    if c < before.len() {
                        assert(dropped@[c] == before[c]);
                    }
                }
            }
        }
        // the columns were taken from the back: turn the list round
        let mut ordered: Vec<Vec<V>> = Vec::new();
        let ghost reversed = dropped@;
        while dropped.len() > 0
            invariant
                all == self.columns@,
                reversed.len() == all.len(),
                dropped@ == reversed.take(dropped@.len() as int),
                ordered@.len() + dropped@.len() == all.len(),
                forall|c: int|
                    0 <= c < reversed.len() ==> (#[trigger] reversed[c])@ == column::live_values(
                        all[all.len() - 1 - c]@,
                    ),
                forall|c: int|
                    0 <= c < ordered@.len() ==> (#[trigger] ordered@[c])@ == column::live_values(
                        all[c]@,
                    ),
            decreases dropped@.len(),
        {
            let ghost k = dropped@.len() - 1;
            let values = dropped.pop().unwrap();
            let ghost before = ordered@;
            ordered.push(values);
            proof {
                assert(values == reversed[k]);
                assert(dropped@ =~= reversed.take(k));
                assert forall|c: int| 0 <= c < ordered@.len() implies (#[trigger] ordered@[c])@
                    == column::live_values(all[c]@) by {
                    if c < before.len() {
                        assert(ordered@[c] == before[c]);
                    }
                }
            }
        }
        ordered
    }

    /// The values of the column of the given component type, for the rows
    /// that are in use, in row order; `None` if the archetype has no such
    /// column.
    pub fn get_column_cells_ref(&self, type_id: u64) -> (cells: Option<Vec<&V>>)
        requires
            self.wf(),
        ensures
            cells is Some == has_type_id(self.column_infos(), type_id),
            cells matches Some(values) ==> values@.len() == column::live_values(
                self.columns()[self.column_of(type_id)]@,
            ).len() && forall|k: int|
                0 <= k < values@.len() ==> *(#[trigger] values@[k]) == column::live_values(
                    self.columns()[self.column_of(type_id)]@,
                )[k],
    {
        match self.column_index(type_id) {
            Some(c) => {
                proof {
                    self.lemma_column_of(c as int);
                    assert(self.column_infos()[c as int].type_id == type_id);
                }
                let column = &self.columns[c];
                let mut values: Vec<&V> = Vec::new();
                let n = column.len();
                let mut r: usize = 0;
                while r < n
                    invariant
                        r <= n,
                        n == column@.len(),
                        values@.len() == column::live_values(column@.take(r as int)).len(),
                        forall|k: int|
                            0 <= k < values@.len() ==> *(#[trigger] values@[k])
                                == column::live_values(column@.take(r as int))[k],
                    decreases n - r,
                {
                    proof {
                        assert(column@.take(r + 1).drop_last() == column@.take(r as int));
                        assert(column@.take(r + 1).last() == column@[r as int]);
                    }
                    if column.is_occupied(r) {
                        values.push(column.get_ref(r));
                    }
                    r += 1;
                }
                proof {
                    assert(column@.take(n as int) == column@);
                }
                Some(values)
            },
            None => None,
        }
    }
}

/// Drop exactness, for a spawn: every column gains exactly the value that
/// the bundle has for it. No value that was there is overwritten.
pub proof fn lemma_spawn_adds_values<V>(
    before: Archetype<V>,
    after: Archetype<V>,
    bundle: Bundle<V>,
    row: usize,
    c: int,
)
    requires
        before.wf(),
        after.wf(),
        after.is_spawn_of(&before, &bundle, row),
        0 <= c < before.columns().len(),
    ensures
        column::live_values(after.columns()[c]@).to_multiset() == column::live_values(
            before.columns()[c]@,
        ).to_multiset().insert(bundle.value_of(before.column_infos()[c].type_id)),
{
    let old_cells = before.columns()[c]@;
    let new_cells = after.columns()[c]@;
    let value = bundle.value_of(before.column_infos()[c].type_id);
    assert(old_cells.len() == before.rows_high_water());
    assert(new_cells.len() == after.rows_high_water());
    assert(after.cell(c, row as int) == Some(value));
    if before.free_rows().len() > 0 {
        assert(before.free_rows()[before.free_rows().len() - 1] == row);
        assert(before.cell(c, row as int) is Some <==> before.is_occupied(row as int));
        assert(new_cells =~= old_cells.update(row as int, Some(value))) by {
            assert forall|r: int| 0 <= r < new_cells.len() implies new_cells[r] == old_cells.update(
                row as int,
                Some(value),
            )[r] by {
                if r != row {
                    assert(after.cell(c, r) == before.cell(c, r));
                }
            }
        }
        column::lemma_live_values_filled(old_cells, row as int, value);
    } else {
        assert(new_cells =~= old_cells.push(Some(value))) by {
            assert forall|r: int| 0 <= r < new_cells.len() implies new_cells[r] == old_cells.push(
                Some(value),
            )[r] by {
                if r != row {
                    assert(after.cell(c, r) == before.cell(c, r));
                }
            }
        }
        column::lemma_live_values_pushed(old_cells, value);
    }
}

/// Drop exactness, for a despawn: every column loses exactly the value of
/// the row, once, and no other.
pub proof fn lemma_despawn_drops_values<V>(before: Archetype<V>, after: Archetype<V>, row: usize, c: int)
    requires
        before.wf(),
        before.is_occupied(row as int),
        after.is_despawn_of(&before, row),
        0 <= c < before.columns().len(),
    ensures
        before.cell(c, row as int) is Some,
        column::live_values(before.columns()[c]@).to_multiset() == column::live_values(
            after.columns()[c]@,
        ).to_multiset().insert(before.cell(c, row as int)->0),
{
    let old_cells = before.columns()[c]@;
    let new_cells = after.columns()[c]@;
    assert(old_cells.len() == before.rows_high_water());
    assert(before.cell(c, row as int) is Some <==> before.is_occupied(row as int));
    assert(after.cell(c, row as int) is None);
    assert(new_cells.len() == old_cells.len()) by {
        // the shape of the table is part of what a despawn keeps
        assert(after.columns()[c]@.len() == new_cells.len());
        lemma_despawn_keeps_length(before, after, row, c);
    }
    assert(new_cells =~= old_cells.update(row as int, None)) by {
        assert forall|r: int| 0 <= r < new_cells.len() implies new_cells[r] == old_cells.update(
            row as int,
            None,
        )[r] by {
            if r != row {
                assert(after.cell(c, r) == before.cell(c, r));
            }
        }
    }
    column::lemma_live_values_emptied(old_cells, row as int);
}

/// The names of the component types, each without its path and with a
/// comma behind it, and with a blank between one and the next.
pub open spec fn column_names(infos: Seq<ComponentTypeInfo>) -> Seq<char>
    decreases infos.len(),
{
    if infos.len() == 0 {
        Seq::empty()
    } else {
        column_names(infos.drop_last()) + (if infos.len() > 1 {
            " "@
        } else {
            ""@
        }) + unqualified(infos.last().name@) + ","@
    }
}

impl<V> Archetype<V> {
    /// The number of entities that live in the archetype.
    pub open spec fn spec_len(&self) -> nat {
        (self.rows_high_water() - self.free_rows().len()) as nat
    }

    /// How the archetype is written: its component types and the number of
    /// its entities.
    pub open spec fn text(&self) -> Seq<char> {
        "Archetype<("@ + column_names(self.column_infos()) + ")>[_; "@ + decimal(self.spec_len())
            + "]"@
    }

    /// Whether one more entity can be spawned: a row is free, or one more
    /// can be allocated.
    pub fn has_room(&self) -> (b: bool)
        ensures
            b == (self.free_rows().len() == 0 ==> self.rows_high_water() < usize::MAX),
    {
        self.unoccupied_rows.len() > 0 || self.rows_dense_next < usize::MAX
    }

    /// The number of entities that live in the archetype.
    pub fn len(&self) -> (n: usize)
        requires
            self.wf(),
        ensures
            n == self.spec_len(),
            self.free_rows().len() <= self.rows_high_water(),
    {
        proof {
            lemma_free_list_full(self.unoccupied_rows@, self.rows_dense_next as nat);
        }
        self.rows_dense_next - self.unoccupied_rows.len()
    }

    /// Writes the archetype, for messages.
    pub fn to_string(&self) -> (text: String)
        requires
            self.wf(),
        ensures
            text@ == self.text(),
    {
        let mut text = String::from_str("Archetype<(");
        let mut c: usize = 0;
        let ghost infos = self.column_infos();
        proof {
            reveal_strlit("");
            assert(column_names(infos.take(0)) =~= Seq::<char>::empty());
            assert(text@ =~= "Archetype<("@ + column_names(infos.take(0)));
        }
        while c < self.columns.len()
            invariant
                c <= self.columns@.len(),
                infos == self.column_infos(),
                text@ == "Archetype<("@ + column_names(infos.take(c as int)),
            decreases self.columns@.len() - c,
        {
            let ghost written = text@;
            if c > 0 {
                text.append(" ");
            }
            let name = unqualify(self.columns[c].name());
            text.append(name.as_str());
            text.append(",");
            proof {
                reveal_strlit("");
                let next = infos.take(c + 1);
                assert(next.drop_last() == infos.take(c as int));
                assert(next.last() == infos[c as int]);
                assert(next.last().name == self.columns@[c as int].info().name);
                assert(text@ =~= "Archetype<("@ + column_names(next));
            }
            c += 1;
        }
        proof {
            assert(infos.take(self.columns@.len() as int) == infos);
        }
        text.append(")>[_; ");
        let count = to_decimal(self.len());
        text.append(count.as_str());
        text.append("]");
        text
    }
}

/// A despawn keeps the length of every column.
pub proof fn lemma_despawn_keeps_length<V>(before: Archetype<V>, after: Archetype<V>, row: usize, c: int)
    requires
        before.wf(),
        after.is_despawn_of(&before, row),
        0 <= c < before.columns().len(),
    ensures
        after.columns()[c]@.len() == before.columns()[c]@.len(),
{
    assert(after.columns()[c]@.len() == before.rows_high_water());
    assert(before.columns()[c]@.len() == before.rows_high_water());
}

/// Row stability: a despawn moves no other entity. Every other row is in
/// use after it exactly when it was before, and holds the same values.
pub proof fn lemma_row_stability<V>(before: Archetype<V>, after: Archetype<V>, row: usize, other: usize)
    requires
        before.wf(),
        before.is_occupied(row as int),
        after.is_despawn_of(&before, row),
        other != row,
    ensures
        after.is_occupied(other as int) == before.is_occupied(other as int),
        !after.is_occupied(row as int),
        forall|c: int|
            0 <= c < before.columns().len() && other < before.rows_high_water() ==> after.cell(
                c,
                other as int,
            ) == before.cell(c, other as int),
{
    let free = after.free_rows();
    let old_free = before.free_rows();
    assert(free[old_free.len() as int] == row);
    if free.contains(other) {
        let i = choose|i: int| 0 <= i < free.len() && free[i] == other;
        assert(old_free[i] == other);
    }
    if old_free.contains(other) {
        let i = choose|i: int| 0 <= i < old_free.len() && old_free[i] == other;
        assert(free[i] == other);
    }
}

/// Row reuse: the spawn that follows a despawn of `row` returns `row`, and
/// allocates no new row.
pub proof fn lemma_row_reuse<V>(
    before: Archetype<V>,
    despawned: Archetype<V>,
    respawned: Archetype<V>,
    row: usize,
    bundle: Bundle<V>,
    new_row: usize,
)
    requires
        despawned.is_despawn_of(&before, row),
        respawned.is_spawn_of(&despawned, &bundle, new_row),
    ensures
        new_row == row,
        respawned.rows_high_water() == before.rows_high_water(),
        respawned.free_rows() == before.free_rows(),
{
    assert(despawned.free_rows().last() == row);
    assert(despawned.free_rows().drop_last() =~= before.free_rows());
}

} // verus!
