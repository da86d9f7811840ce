//! Resources: values of which a world holds one of each type.

use vstd::prelude::*;

pub mod query;
pub mod storage;

pub use query::{Res, ResInner};
pub use storage::{
    RawResourceStorage, ResourceCell, ResourceCellReadGuard, ResourceCellWriteGuard,
    ResourceStorage,
};

verus! {

/// A type of resource. The id tells resource types apart. Component types
/// have ids of their own: a resource type and a component type with one
/// id are two values to a query.
pub trait Resource {
    /// The id of the resource type.
    spec fn spec_resource_id() -> u64;

    /// The id of the resource type.
    fn resource_id() -> (id: u64)
        ensures
            id == Self::spec_resource_id(),
    ;

    /// The name of the resource type, for messages.
    spec fn spec_resource_name() -> &'static str;

    /// The name of the resource type, for messages.
    fn resource_name() -> (name: &'static str)
        ensures
            name == Self::spec_resource_name(),
    ;
}

} // verus!
