//! What the checker knows of the program around the body that it checks.

use vstd::prelude::*;
use crate::entity::Entity;
use crate::ty::GenericDeclarations;

verus! {

/// The generic declarations of the entities of a program. An entity is
/// recorded after the item that contains it, so that the chain from an
/// entity to its outermost item leads to ever earlier entities.
pub struct GenericsTable {
    rows: Vec<Option<GenericDeclarations>>,
}

impl View for GenericsTable {
    type V = Seq<Option<GenericDeclarations>>;

    closed spec fn view(&self) -> Seq<Option<GenericDeclarations>> {
        self.rows@
    }
}

/// Whether the parent of each entity of `rows` is an earlier entity.
pub open spec fn parents_earlier(rows: Seq<Option<GenericDeclarations>>) -> bool {
    forall|entity: int|
        0 <= entity < rows.len() ==> match (#[trigger] rows[entity]) {
            Some(GenericDeclarations { parent_item: Some(parent), .. }) => parent.index < entity,
            _ => true,
        }
}

impl GenericsTable {
    /// The invariant of the table.
    pub open spec fn wf(&self) -> bool {
        parents_earlier(self@)
    }

    /// What is recorded of `entity`, if anything is.
    pub open spec fn row(&self, entity: Entity) -> Option<GenericDeclarations> {
        if entity.index < self@.len() {
            self@[entity.index as int]
        } else {
            None
        }
    }

    /// A table in which nothing is recorded.
    pub fn new() -> (table: Self)
        ensures
            table.wf(),
            table@.len() == 0,
    {
        GenericsTable { rows: Vec::new() }
    }

    /// Records the generic declarations of `entity`. They are refused, and
    /// the table stays as it is, where they name a parent that is not
    /// earlier than `entity`.
    pub fn record(&mut self, entity: Entity, declarations: GenericDeclarations) -> (recorded: bool)
        requires
            old(self).wf(),
        ensures
            final(self).wf(),
            recorded == match declarations.parent_item {
                Some(parent) => parent.index < entity.index,
                None => true,
            },
            !recorded ==> final(self)@ == old(self)@,
            recorded ==> final(self).row(entity) == Some(declarations),
            recorded ==> forall|other: Entity|
                other != entity ==> #[trigger] final(self).row(other) == old(self).row(other),
    {
        match declarations.parent_item {
            Some(parent) => {
                if parent.index >= entity.index {
                    return false;
                }
            },
            None => {},
        }
        while self.rows.len() <= entity.index
            invariant
                parents_earlier(self.rows@),
                old(self).rows@.len() <= self.rows@.len(),
                forall|i: int| 0 <= i < old(self).rows@.len() ==> self.rows@[i] == old(self).rows@[i],
                forall|i: int|
                    old(self).rows@.len() <= i < self.rows@.len() ==> self.rows@[i] is None,
            decreases entity.index + 1 - self.rows@.len(),
        {
            self.rows.push(None);
        }
        self.rows[entity.index] = Some(declarations);
        true
    }

    /// The generic declarations of `entity`, if they are recorded.
    pub fn generic_declarations(&self, entity: Entity) -> (row: Option<&GenericDeclarations>)
        ensures
            match row {
                Some(declarations) => self.row(entity) == Some(*declarations),
                None => self.row(entity) is None,
            },
    {
        if entity.index < self.rows.len() {
            self.rows[entity.index].as_ref()
        } else {
            None
        }
    }
}

} // verus!
