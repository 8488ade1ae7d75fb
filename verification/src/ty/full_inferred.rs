//! The family of types that have been inferred in full. Of a permission only
//! its kind is kept.

use vstd::prelude::*;
use crate::intern::{lemma_interned, InternKey, InternTable, Interner};
use crate::ty::{
    Atom, BaseData, Erased, FamilyModel, FamilyTypes, PermKind, Placeholder, ReprKind, TypeFamily,
};

verus! {

/// The family of fully inferred types.
#[derive(Clone, Copy, Debug, PartialEq, Eq, Hash, Structural)]
pub struct FullInferred;

/// The key of a base of a fully inferred type.
#[derive(Clone, Copy, Debug, PartialEq, Eq, Hash, Structural)]
pub struct Base {
    pub index: usize,
}

impl Atom for Base {
    fn same(&self, other: &Self) -> (same: bool) {
        self.index == other.index
    }

    open spec fn hashed(self) -> u64 {
        self.index as u64
    }

    fn hash_atom(&self) -> (code: u64) {
        self.index as u64
    }
}

impl InternKey for Base {
    open spec fn index(self) -> nat {
        self.index as nat
    }

    fn from_usize(index: usize) -> (key: Self) {
        Base { index }
    }

    fn as_usize(self) -> (index: usize) {
        self.index
    }

    proof fn index_injective(a: Self, b: Self) {
    }
}

/// The tables behind the keys of fully inferred types.
pub struct FullInferredTables {
    pub bases: InternTable<Base, BaseData<FullInferred>>,
}

impl FullInferredTables {
    /// Empty tables.
    pub fn new() -> (tables: Self)
        ensures
            tables.wf(),
            tables.bases@.len() == 0,
    {
        FullInferredTables { bases: InternTable::new() }
    }

    /// The invariant of the tables.
    pub open spec fn wf(&self) -> bool {
        self.bases.wf()
    }

    /// The key of the base `base`.
    pub fn intern_base(&mut self, base: BaseData<FullInferred>) -> (key: Base)
        requires
            old(self).wf(),
        ensures
            final(self).wf(),
            final(self).bases@ == crate::intern::with_interned(old(self).bases@, base@),
            key.index() == crate::intern::position_of(old(self).bases@, base@),
    {
        self.bases.intern(base)
    }

    /// The base that `key` stands for.
    pub fn lookup_base(&self, key: Base) -> (base: BaseData<FullInferred>)
        requires
            self.wf(),
            key.index() < self.bases@.len(),
        ensures
            base@ == self.bases@[key.index() as int],
    {
        self.bases.lookup(key)
    }
}

impl Base {
    /// The structure that this base stands for in `tables`.
    pub fn lookup(self, tables: &FullInferredTables) -> (base: BaseData<FullInferred>)
        requires
            tables.wf(),
            self.index() < tables.bases@.len(),
        ensures
            base@ == tables.bases@[self.index() as int],
    {
        tables.lookup_base(self)
    }
}

impl FamilyTypes for FullInferred {
    type Repr = Erased;

    type Perm = PermKind;

    type Base = Base;

    type Placeholder = Placeholder;
}

impl TypeFamily for FullInferred {
    type Tables = FullInferredTables;

    open spec fn tables_wf(tables: &FullInferredTables) -> bool {
        tables.wf()
    }

    open spec fn model(tables: &FullInferredTables) -> FamilyModel<FullInferred> {
        FamilyModel {
            owning: Set::new(|perm: PermKind| perm == PermKind::Own),
            reprs: Set::new(|pair: (Erased, ReprKind)| true),
            bases: Map::new(
                |base: Base| base.index < tables.bases@.len(),
                |base: Base| tables.bases@[base.index as int],
            ),
        }
    }

    proof fn bases_distinct(tables: &FullInferredTables, a: Base, b: Base) {
        tables.bases.entries_distinct();
    }

    fn own_perm(tables: &mut FullInferredTables) -> (perm: PermKind)
        ensures
            perm == PermKind::Own,
            *final(tables) == *old(tables),
    {
        proof {
            let before = Self::model(old(tables));
            assert(before.owning.insert(PermKind::Own) =~= before.owning);
        }
        PermKind::Own
    }

    fn known_repr(tables: &mut FullInferredTables, repr_kind: ReprKind) -> (repr: Erased)
        ensures
            *final(tables) == *old(tables),
    {
        proof {
            let before = Self::model(old(tables));
            assert(before.reprs.insert((Erased, repr_kind)) =~= before.reprs);
        }
        Erased
    }

    fn intern_base_data(tables: &mut FullInferredTables, base_data: BaseData<FullInferred>) -> (base: Base)
        ensures
            final(tables).bases@ == crate::intern::with_interned(old(tables).bases@, base_data@),
            base.index() == crate::intern::position_of(old(tables).bases@, base_data@),
    {
        proof {
            tables.bases.entries_distinct();
            lemma_interned(tables.bases@, base_data@);
        }
        let base = tables.intern_base(base_data);
        proof {
            let before = Self::model(old(tables));
            let after = Self::model(tables);
            assert(after.bases =~= before.bases.insert(base, base_data@));
        }
        base
    }
}

} // verus!
