//! Entities: the things that components are attached to.

use vstd::prelude::*;
use vstd::string::StringExecFns;
use crate::util::text::{decimal, to_decimal};
use crate::util::unqualified::{unqualified, unqualify};

pub mod query;

pub use query::Entities;

verus! {

/// The light handle of an entity: its archetype and its row there.
///
/// A handle does not know whether its entity still lives: after a despawn
/// the row may belong to another entity.
#[derive(Clone, Copy, Debug)]
pub struct Entity {
    pub archetype_id: usize,
    pub archetype_name: &'static str,
    pub archetype_row: usize,
}

impl Entity {
    /// The handle of the entity in the given row of the given archetype.
    pub fn new(archetype_id: usize, archetype_name: &'static str, archetype_row: usize) -> (entity: Self)
        ensures
            entity == (Entity { archetype_id, archetype_name, archetype_row }),
    {
        Entity { archetype_id, archetype_name, archetype_row }
    }

    /// The id of the archetype that the entity belongs to.
    pub fn archetype_id(&self) -> (id: usize)
        ensures
            id == self.archetype_id,
    {
        self.archetype_id
    }

    /// The name of the archetype that the entity belongs to.
    pub fn archetype_name(&self) -> (name: &'static str)
        ensures
            name == self.archetype_name,
    {
        self.archetype_name
    }

    /// The row of the archetype that the entity is in.
    pub fn archetype_row(&self) -> (row: usize)
        ensures
            row == self.archetype_row,
    {
        self.archetype_row
    }
}

/// How an entity is written: its archetype by name, and its row.
pub open spec fn entity_text(entity: Entity) -> Seq<char> {
    "Entity(a<"@ + unqualified(entity.archetype_name@) + ">:r"@ + decimal(
        entity.archetype_row as nat,
    ) + ")"@
}

impl Entity {
    /// Writes the handle, for messages.
    pub fn to_string(&self) -> (text: String)
        ensures
            text@ == entity_text(*self),
    {
        let mut text = String::from_str("Entity(a<");
        let name = unqualify(self.archetype_name);
        text.append(name.as_str());
        text.append(">:r");
        let row = to_decimal(self.archetype_row);
        text.append(row.as_str());
        text.append(")");
        text
    }
}

} // verus!
