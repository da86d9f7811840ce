//! Building blocks shared by the rest of the crate.

pub mod claims;
pub mod future;
pub mod lazycell;
pub mod rwlock;
pub mod sparsevec;
pub mod text;
pub mod unqualified;
