//! Components: pieces of data that are attached to entities, one of each
//! type at most.

use vstd::prelude::*;

pub mod archetype;
pub mod bundle;
pub mod query;
pub mod validate;

pub use bundle::{Bundle, BundleComponent};
pub use validate::{BundleValidator, BundleValidatorEntryState};

verus! {

/// The size and the alignment of a component type, in bytes.
#[derive(Clone, Copy, Debug, PartialEq, Eq, Structural)]
pub struct Layout {
    pub size: usize,
    pub align: usize,
}

impl Layout {
    /// The size in bytes.
    pub fn size(&self) -> (size: usize)
        ensures
            size == self.size,
    {
        self.size
    }

    /// The alignment in bytes.
    pub fn align(&self) -> (align: usize)
        ensures
            align == self.align,
    {
        self.align
    }
}

/// What the storage knows of a component type: its id, its layout and its name.
#[derive(Clone, Copy, Debug)]
pub struct ComponentTypeInfo {
    pub type_id: u64,
    pub layout: Layout,
    pub name: &'static str,
}

/// A type of component. The id tells component types apart: two types with
/// one id are one type to the storage.
pub trait Component {
    /// What the storage is told of this type.
    spec fn spec_type_info() -> ComponentTypeInfo;

    /// What the storage is told of this type.
    fn type_info() -> (info: ComponentTypeInfo)
        ensures
            info == Self::spec_type_info(),
    ;
}

/// Whether `a` stands before `b` in the canonical order of columns: the
/// larger alignment first, and among equal alignments the smaller id.
pub open spec fn canonical_lt(a: ComponentTypeInfo, b: ComponentTypeInfo) -> bool {
    a.layout.align > b.layout.align || (a.layout.align == b.layout.align && a.type_id < b.type_id)
}

/// Whether `a` may stand before `b` in the canonical order of columns.
pub open spec fn canonical_le(a: ComponentTypeInfo, b: ComponentTypeInfo) -> bool {
    a.layout.align > b.layout.align || (a.layout.align == b.layout.align && a.type_id <= b.type_id)
}

/// Whether the list is in the canonical order of columns.
pub open spec fn canonical(infos: Seq<ComponentTypeInfo>) -> bool {
    forall|i: int, j: int| 0 <= i < j < infos.len() ==> canonical_le(infos[i], infos[j])
}

/// The ids of the listed types, in the order of the list.
pub open spec fn type_ids(infos: Seq<ComponentTypeInfo>) -> Seq<u64> {
    infos.map_values(|info: ComponentTypeInfo| info.type_id)
}

impl ComponentTypeInfo {
    /// The description of a component type.
    pub fn new(type_id: u64, size: usize, align: usize, name: &'static str) -> (info: Self)
        ensures
            info == (ComponentTypeInfo { type_id, layout: Layout { size, align }, name }),
    {
        ComponentTypeInfo { type_id, layout: Layout { size, align }, name }
    }

    /// The description that the component type `C` gives of itself.
    pub fn of<C: Component>() -> (info: Self)
        ensures
            info == C::spec_type_info(),
    {
        C::type_info()
    }

    /// The id of the component type.
    pub fn type_id(&self) -> (id: u64)
        ensures
            id == self.type_id,
    {
        self.type_id
    }

    /// The layout of the component type.
    pub fn layout(&self) -> (layout: Layout)
        ensures
            layout == self.layout,
    {
        self.layout
    }

    /// The name of the component type.
    pub fn name(&self) -> (name: &'static str)
        ensures
            name == self.name,
    {
        self.name
    }

    /// Whether both describe the same component type, which the id decides.
    pub fn same_type(&self, other: &Self) -> (b: bool)
        ensures
            b == (self.type_id == other.type_id),
    {
        self.type_id == other.type_id
    }

    /// Whether this type stands before `other` in the canonical order of columns.
    pub fn precedes(&self, other: &Self) -> (b: bool)
        ensures
            b == canonical_lt(*self, *other),
    {
        self.layout.align > other.layout.align || (self.layout.align == other.layout.align
            && self.type_id < other.type_id)
    }
}

} // verus!
