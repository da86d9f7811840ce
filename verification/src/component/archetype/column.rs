//! One column of an archetype, and its cells.

use vstd::prelude::*;
use crate::component::{ComponentTypeInfo, Layout};
use crate::component::archetype::contains_row;

verus! {

/// One cell of a column: room for one component value. A cell is occupied
/// while it holds a value.
pub struct ArchetypeCell<V> {
    value: Option<V>,
}

impl<V> ArchetypeCell<V> {
    /// The value in the cell, `None` for a cell that is not occupied.
    pub closed spec fn view(&self) -> Option<V> {
        self.value
    }

    /// An occupied cell.
    pub fn new(component: V) -> (cell: Self)
        ensures
            cell@ == Some(component),
    {
        ArchetypeCell { value: Some(component) }
    }

    /// Whether the cell holds a value.
    pub fn is_occupied(&self) -> (b: bool)
        ensures
            b == (self@ is Some),
    {
        self.value.is_some()
    }

    /// The value in an occupied cell.
    pub fn get_ref(&self) -> (component: &V)
        requires
            self@ is Some,
        ensures
            *component == self@->0,
    {
        self.value.as_ref().unwrap()
    }

    /// The value in an occupied cell, to change.
    pub fn get_mut(&mut self) -> (component: &mut V)
        requires
            old(self)@ is Some,
        ensures
            *component == old(self)@->0,
            final(self)@ == Some(*final(component)),
    {
        self.value.as_mut().unwrap()
    }

    /// Moves the value out of an occupied cell, which is then not occupied.
    pub fn read(&mut self) -> (component: V)
        requires
            old(self)@ is Some,
        ensures
            component == old(self)@->0,
            final(self)@ is None,
    {
        self.value.take().unwrap()
    }

    /// Moves a value into a cell that is not occupied.
    pub fn write(&mut self, component: V)
        requires
            old(self)@ is None,
        ensures
            final(self)@ == Some(component),
    {
        self.value = Some(component);
    }

    /// Drops the value of an occupied cell, which is then not occupied.
    pub fn drop(&mut self)
        requires
            old(self)@ is Some,
        ensures
            final(self)@ is None,
    {
        self.value = None;
    }
}

/// One column of an archetype: the cells of one component type, one for each
/// row that was ever allocated. The column does not know which rows are in
/// use: it knows which cells hold a value.
pub struct ArchetypeColumn<V> {
    type_info: ComponentTypeInfo,
    cells: Vec<ArchetypeCell<V>>,
}

impl<V> ArchetypeColumn<V> {
    /// The component type of the column.
    pub closed spec fn info(&self) -> ComponentTypeInfo {
        self.type_info
    }

    /// The cells in row order, `None` for a cell that is not occupied.
    pub closed spec fn view(&self) -> Seq<Option<V>> {
        Seq::new(self.cells@.len(), |i: int| self.cells@[i]@)
    }

    /// An empty column for the given component type.
    pub fn new(type_info: ComponentTypeInfo) -> (column: Self)
        ensures
            column.info() == type_info,
            column@ == Seq::<Option<V>>::empty(),
    {
        let column = ArchetypeColumn { type_info, cells: Vec::new() };
        assert(column@ =~= Seq::<Option<V>>::empty());
        column
    }

    /// The id of the component type of the column.
    pub fn type_id(&self) -> (id: u64)
        ensures
            id == self.info().type_id,
    {
        self.type_info.type_id
    }

    /// The layout of the component type of the column.
    pub fn type_layout(&self) -> (layout: Layout)
        ensures
            layout == self.info().layout,
    {
        self.type_info.layout
    }

    /// The name of the component type of the column.
    pub fn name(&self) -> (name: &'static str)
        ensures
            name == self.info().name,
    {
        self.type_info.name
    }

    /// The number of cells.
    pub fn len(&self) -> (n: usize)
        ensures
            n == self@.len(),
    {
        self.cells.len()
    }

    /// Whether the cell at `index` holds a value.
    pub fn is_occupied(&self, index: usize) -> (b: bool)
        requires
            index < self@.len(),
        ensures
            b == (self@[index as int] is Some),
    {
        self.cells[index].is_occupied()
    }

    /// The value in the occupied cell at `index`.
    pub fn get_ref(&self, index: usize) -> (component: &V)
        requires
            index < self@.len(),
            self@[index as int] is Some,
        ensures
            *component == self@[index as int]->0,
    {
        self.cells[index].get_ref()
    }

    /// The value in the occupied cell at `index`, to change.
    pub fn get_mut(&mut self, index: usize) -> (component: &mut V)
        requires
            index < old(self)@.len(),
            old(self)@[index as int] is Some,
        ensures
            *component == old(self)@[index as int]->0,
            final(self)@ =~= old(self)@.update(index as int, Some(*final(component))),
            final(self).info() == old(self).info(),
    {
        self.cells[index].get_mut()
    }

    /// Adds an occupied cell at the end.
    pub fn push(&mut self, component: V)
        ensures
            final(self)@ == old(self)@.push(Some(component)),
            final(self).info() == old(self).info(),
    {
        self.cells.push(ArchetypeCell::new(component));
        assert(self@ =~= old(self)@.push(Some(component)));
    }

    /// Moves a value into the cell at `index`, which is not occupied.
    pub fn write(&mut self, index: usize, component: V)
        requires
            index < old(self)@.len(),
            old(self)@[index as int] is None,
        ensures
            final(self)@ == old(self)@.update(index as int, Some(component)),
            final(self).info() == old(self).info(),
    {
        self.cells[index].write(component);
        assert(self@ =~= old(self)@.update(index as int, Some(component)));
    }

    /// Drops the value of the occupied cell at `index`, which is then not occupied.
    pub fn drop(&mut self, index: usize)
        requires
            index < old(self)@.len(),
            old(self)@[index as int] is Some,
        ensures
            final(self)@ == old(self)@.update(index as int, None),
            final(self).info() == old(self).info(),
    {
        self.cells[index].drop();
        assert(self@ =~= old(self)@.update(index as int, None));
    }

    /// Moves the value out of the occupied cell at `index`, which is then
    /// not occupied.
    pub fn read(&mut self, index: usize) -> (component: V)
        requires
            index < old(self)@.len(),
            old(self)@[index as int] is Some,
        ensures
            component == old(self)@[index as int]->0,
            final(self)@ == old(self)@.update(index as int, None),
            final(self).info() == old(self).info(),
    {
        let component = self.cells[index].read();
        assert(self@ =~= old(self)@.update(index as int, None));
        component
    }
}

/// The values that the cells hold, in row order.
pub open spec fn live_values<V>(cells: Seq<Option<V>>) -> Seq<V>
    decreases cells.len(),
{
    if cells.len() == 0 {
        Seq::empty()
    } else if cells.last() is Some {
        live_values(cells.drop_last()).push(cells.last()->0)
    } else {
        live_values(cells.drop_last())
    }
}

/// Filling an empty cell adds its value to the values that the cells hold,
/// and changes no other.
pub proof fn lemma_live_values_filled<V>(cells: Seq<Option<V>>, i: int, value: V)
    requires
        0 <= i < cells.len(),
        cells[i] is None,
    ensures
        live_values(cells.update(i, Some(value))).to_multiset() == live_values(
            cells,
        ).to_multiset().insert(value),
    decreases cells.len(),
{
    broadcast use vstd::seq_lib::to_multiset_build;

    let filled = cells.update(i, Some(value));
    if i == cells.len() - 1 {
        assert(filled.drop_last() == cells.drop_last());
    } else {
        assert(filled.drop_last() == cells.drop_last().update(i, Some(value)));
        assert(filled.last() == cells.last());
        lemma_live_values_filled(cells.drop_last(), i, value);
        if cells.last() is Some {
            let rest = live_values(cells.drop_last());
            let rest_filled = live_values(filled.drop_last());
            assert(rest_filled.push(cells.last()->0).to_multiset() =~= rest.push(
                cells.last()->0,
            ).to_multiset().insert(value));
        }
    }
}

/// A new occupied cell adds its value to the values that the cells hold.
pub proof fn lemma_live_values_pushed<V>(cells: Seq<Option<V>>, value: V)
    ensures
        live_values(cells.push(Some(value))) == live_values(cells).push(value),
        live_values(cells.push(Some(value))).to_multiset() == live_values(
            cells,
        ).to_multiset().insert(value),
{
    broadcast use vstd::seq_lib::to_multiset_build;

    assert(cells.push(Some(value)).drop_last() == cells);
}

/// Emptying an occupied cell takes its value, once, out of the values that
/// the cells hold, and changes no other.
pub proof fn lemma_live_values_emptied<V>(cells: Seq<Option<V>>, i: int)
    requires
        0 <= i < cells.len(),
        cells[i] is Some,
    ensures
        live_values(cells).to_multiset() == live_values(
            cells.update(i, None),
        ).to_multiset().insert(cells[i]->0),
    decreases cells.len(),
{
    broadcast use vstd::seq_lib::to_multiset_build;

    let emptied = cells.update(i, None);
    if i == cells.len() - 1 {
        assert(emptied.drop_last() == cells.drop_last());
    } else {
        assert(emptied.drop_last() == cells.drop_last().update(i, None));
        assert(emptied.last() == cells.last());
        lemma_live_values_emptied(cells.drop_last(), i);
        if cells.last() is Some {
            let rest = live_values(cells.drop_last());
            let rest_emptied = live_values(emptied.drop_last());
            assert(rest.push(cells.last()->0).to_multiset() =~= rest_emptied.push(
                cells.last()->0,
            ).to_multiset().insert(cells[i]->0));
        }
    }
}

impl<V> ArchetypeColumn<V> {
    /// Takes the column apart: drops the value of every cell but those at
    /// `except_indices`, which are the cells that are not occupied, and hands
    /// the dropped values out, in row order.
    pub fn drop_dealloc_except(self, except_indices: &Vec<usize>) -> (dropped: Vec<V>)
        requires
            forall|i: int|
                0 <= i < self@.len() ==> ((#[trigger] self@[i]) is None
                    <==> except_indices@.contains(i as usize)),
        ensures
            dropped@ == live_values(self@),
    {
        let mut column = self;
        let mut dropped: Vec<V> = Vec::new();
        let n = column.cells.len();
        let mut i: usize = 0;
        while i < n
            invariant
                i <= n,
                n == column@.len(),
                n == self@.len(),
                forall|j: int| i <= j < n ==> (#[trigger] column@[j]) == self@[j],
                forall|j: int|
                    0 <= j < n ==> ((#[trigger] self@[j]) is None <==> except_indices@.contains(
                        j as usize,
                    )),
                dropped@ == live_values(self@.take(i as int)),
            decreases n - i,
        {
            proof {
                assert(self@.take(i + 1).drop_last() == self@.take(i as int));
                assert(self@.take(i + 1).last() == self@[i as int]);
                assert(column@[i as int] == self@[i as int]);
            }
            if !contains_row(except_indices, i) {
                dropped.push(column.read(i));
            }
            i += 1;
        }
        proof {
            assert(self@.take(n as int) == self@);
        }
        dropped
    }
}

} // verus!
