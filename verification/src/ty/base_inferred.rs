//! The family of types whose bases have all been inferred, with every
//! permission erased.

use vstd::prelude::*;
use crate::intern::{lemma_interned, InternKey, InternTable, Interner};
use crate::ty::{
    Atom, BaseData, Erased, FamilyModel, FamilyTypes, Placeholder, ReprKind, TypeFamily,
};

verus! {

/// The family of types with inferred bases and erased permissions.
#[derive(Clone, Copy, Debug, PartialEq, Eq, Hash, Structural)]
pub struct BaseInferred;

/// The key of a base of a type with an inferred base.
#[derive(Clone, Copy, Debug, PartialEq, Eq, Hash, Structural)]
pub struct Base {
    pub index: usize,
}

impl Atom for Base {
    fn same(&self, other: &Self) -> (same: bool) {
        self.index == other.index
    }

    open spec fn hashed(self) -> u64 {
        self.index as u64
    }

    fn hash_atom(&self) -> (code: u64) {
        self.index as u64
    }
}

impl InternKey for Base {
    open spec fn index(self) -> nat {
        self.index as nat
    }

    fn from_usize(index: usize) -> (key: Self) {
        Base { index }
    }

    fn as_usize(self) -> (index: usize) {
        self.index
    }

    proof fn index_injective(a: Self, b: Self) {
    }
}

/// The tables behind the keys of types with inferred bases.
pub struct BaseInferredTables {
    pub bases: InternTable<Base, BaseData<BaseInferred>>,
}

impl BaseInferredTables {
    /// Empty tables.
    pub fn new() -> (tables: Self)
        ensures
            tables.wf(),
            tables.bases@.len() == 0,
    {
        BaseInferredTables { bases: InternTable::new() }
    }

    /// The invariant of the tables.
    pub open spec fn wf(&self) -> bool {
        self.bases.wf()
    }

    /// The key of the base `base`.
    pub fn intern_base(&mut self, base: BaseData<BaseInferred>) -> (key: Base)
        requires
            old(self).wf(),
        ensures
            final(self).wf(),
            final(self).bases@ == crate::intern::with_interned(old(self).bases@, base@),
            key.index() == crate::intern::position_of(old(self).bases@, base@),
    {
        self.bases.intern(base)
    }

    /// The base that `key` stands for.
    pub fn lookup_base(&self, key: Base) -> (base: BaseData<BaseInferred>)
        requires
            self.wf(),
            key.index() < self.bases@.len(),
        ensures
            base@ == self.bases@[key.index() as int],
    {
        self.bases.lookup(key)
    }
}

impl Base {
    /// The structure that this base stands for in `tables`.
    pub fn lookup(self, tables: &BaseInferredTables) -> (base: BaseData<BaseInferred>)
        requires
            tables.wf(),
            self.index() < tables.bases@.len(),
        ensures
            base@ == tables.bases@[self.index() as int],
    {
        tables.lookup_base(self)
    }
}

impl FamilyTypes for BaseInferred {
    type Repr = Erased;

    type Perm = Erased;

    type Base = Base;

    type Placeholder = Placeholder;
}

impl TypeFamily for BaseInferred {
    type Tables = BaseInferredTables;

    open spec fn tables_wf(tables: &BaseInferredTables) -> bool {
        tables.wf()
    }

    open spec fn model(tables: &BaseInferredTables) -> FamilyModel<BaseInferred> {
        FamilyModel {
            owning: Set::new(|perm: Erased| perm == Erased),
            reprs: Set::new(|pair: (Erased, ReprKind)| true),
            bases: Map::new(
                |base: Base| base.index < tables.bases@.len(),
                |base: Base| tables.bases@[base.index as int],
            ),
        }
    }

    proof fn bases_distinct(tables: &BaseInferredTables, a: Base, b: Base) {
        tables.bases.entries_distinct();
    }

    fn own_perm(tables: &mut BaseInferredTables) -> (perm: Erased)
        ensures
            perm == Erased,
            *final(tables) == *old(tables),
    {
        proof {
            let before = Self::model(old(tables));
            assert(before.owning.insert(Erased) =~= before.owning);
        }
        Erased
    }

    fn known_repr(tables: &mut BaseInferredTables, repr_kind: ReprKind) -> (repr: Erased)
        ensures
            *final(tables) == *old(tables),
    {
        proof {
            let before = Self::model(old(tables));
            assert(before.reprs.insert((Erased, repr_kind)) =~= before.reprs);
        }
        Erased
    }

    fn intern_base_data(tables: &mut BaseInferredTables, base_data: BaseData<BaseInferred>) -> (base: Base)
        ensures
            final(tables).bases@ == crate::intern::with_interned(old(tables).bases@, base_data@),
            base.index() == crate::intern::position_of(old(tables).bases@, base_data@),
    {
        proof {
            tables.bases.entries_distinct();
            lemma_interned(tables.bases@, base_data@);
        }
        let base = tables.intern_base(base_data);
        proof {
            let before = Self::model(old(tables));
            let after = Self::model(tables);
            assert(after.bases =~= before.bases.insert(base, base_data@));
        }
        base
    }
}

} // verus!
