//! The family of types while inference is in progress: a base or a
//! permission may be a variable that inference has yet to resolve.
//! Representations are erased.

use vstd::prelude::*;
use crate::intern::{
    lemma_interned, mix, mixed, InternData, InternKey, InternTable, Interner,
};
use crate::ty::{
    Atom, BaseData, BaseDataView, Erased, FamilyModel, FamilyTypes, InferVarOr, PermKind,
    Placeholder, ReprKind, TypeFamily,
};
use crate::unify::InferVar;

verus! {

/// The family of types while inference is in progress.
#[derive(Clone, Copy, Debug, PartialEq, Eq, Hash, Structural)]
pub struct FullInference;

/// The key of a base of a type under inference.
#[derive(Clone, Copy, Debug, PartialEq, Eq, Hash, Structural)]
pub struct Base {
    pub index: usize,
}

/// The key of a permission of a type under inference.
#[derive(Clone, Copy, Debug, PartialEq, Eq, Hash, Structural)]
pub struct Perm {
    pub index: usize,
}

/// What a permission of a type under inference is.
#[derive(Clone, Copy, Debug, PartialEq, Eq, Hash, Structural)]
pub enum PermData {
    /// A permission that is known.
    Known(PermKind),
    /// A permission that inference has yet to determine.
    Inferred(InferVar),
}

impl Atom for Base {
    fn same(&self, other: &Self) -> (same: bool) {
        self.index == other.index
    }

    open spec fn hashed(self) -> u64 {
        self.index as u64
    }

    fn hash_atom(&self) -> (code: u64) {
        self.index as u64
    }
}

impl InternKey for Base {
    open spec fn index(self) -> nat {
        self.index as nat
    }

    fn from_usize(index: usize) -> (key: Self) {
        Base { index }
    }

    fn as_usize(self) -> (index: usize) {
        self.index
    }

    proof fn index_injective(a: Self, b: Self) {
    }
}

impl Atom for Perm {
    fn same(&self, other: &Self) -> (same: bool) {
        self.index == other.index
    }

    open spec fn hashed(self) -> u64 {
        self.index as u64
    }

    fn hash_atom(&self) -> (code: u64) {
        self.index as u64
    }
}

impl InternKey for Perm {
    open spec fn index(self) -> nat {
        self.index as nat
    }

    fn from_usize(index: usize) -> (key: Self) {
        Perm { index }
    }

    fn as_usize(self) -> (index: usize) {
        self.index
    }

    proof fn index_injective(a: Self, b: Self) {
    }
}

impl View for PermData {
    type V = PermData;

    open spec fn view(&self) -> PermData {
        *self
    }
}

impl InternData for PermData {
    fn same(&self, other: &Self) -> (same: bool) {
        *self == *other
    }

    fn duplicate(&self) -> (copy: Self) {
        *self
    }

    open spec fn hash_of(view: PermData) -> u64 {
        match view {
            PermData::Known(kind) => mix(1, kind.hashed()),
            PermData::Inferred(var) => mix(2, var.index as u64),
        }
    }

    fn hash_data(&self) -> (code: u64) {
        match self {
            PermData::Known(kind) => mixed(1, kind.hash_atom()),
            PermData::Inferred(var) => mixed(2, var.index as u64),
        }
    }
}

/// The tables behind the keys of types under inference.
pub struct FullInferenceTables {
    pub base_table: InternTable<Base, InferVarOr<BaseData<FullInference>>>,
    pub perm_table: InternTable<Perm, PermData>,
}

impl FullInferenceTables {
    /// Empty tables.
    pub fn new() -> (tables: Self)
        ensures
            tables.wf(),
            tables.base_table@.len() == 0,
            tables.perm_table@.len() == 0,
    {
        FullInferenceTables { base_table: InternTable::new(), perm_table: InternTable::new() }
    }

    /// The invariant of the tables.
    pub open spec fn wf(&self) -> bool {
        &&& self.base_table.wf()
        &&& self.perm_table.wf()
    }

    /// The key of a representation: itself, as nothing is kept of it.
    pub fn intern_repr(&self, repr: Erased) -> (key: Erased)
        ensures
            key == repr,
    {
        repr
    }

    /// The representation that `key` stands for: itself.
    pub fn lookup_repr(&self, key: Erased) -> (repr: Erased)
        ensures
            repr == key,
    {
        key
    }

    /// The key of the permission `value`.
    pub fn intern_perm(&mut self, value: PermData) -> (key: Perm)
        requires
            old(self).wf(),
        ensures
            final(self).wf(),
            final(self).base_table == old(self).base_table,
            final(self).perm_table@ == crate::intern::with_interned(old(self).perm_table@, value),
            key.index() == crate::intern::position_of(old(self).perm_table@, value),
    {
        self.perm_table.intern(value)
    }

    /// The permission that `key` stands for.
    pub fn lookup_perm(&self, key: Perm) -> (value: PermData)
        requires
            self.wf(),
            key.index() < self.perm_table@.len(),
        ensures
            value == self.perm_table@[key.index() as int],
    {
        self.perm_table.lookup(key)
    }

    /// The key of the base `base`.
    pub fn intern_base(&mut self, base: InferVarOr<BaseData<FullInference>>) -> (key: Base)
        requires
            old(self).wf(),
        ensures
            final(self).wf(),
            final(self).perm_table == old(self).perm_table,
            final(self).base_table@ == crate::intern::with_interned(old(self).base_table@, base@),
            key.index() == crate::intern::position_of(old(self).base_table@, base@),
    {
        self.base_table.intern(base)
    }

    /// The base that `key` stands for.
    pub fn lookup_base(&self, key: Base) -> (base: InferVarOr<BaseData<FullInference>>)
        requires
            self.wf(),
            key.index() < self.base_table@.len(),
        ensures
            base@ == self.base_table@[key.index() as int],
    {
        self.base_table.lookup(key)
    }
}

impl FamilyTypes for FullInference {
    type Repr = Erased;

    type Perm = Perm;

    type Base = Base;

    type Placeholder = Placeholder;
}

impl TypeFamily for FullInference {
    type Tables = FullInferenceTables;

    open spec fn tables_wf(tables: &FullInferenceTables) -> bool {
        tables.wf()
    }

    open spec fn model(tables: &FullInferenceTables) -> FamilyModel<FullInference> {
        FamilyModel {
            owning: Set::new(
                |perm: Perm|
                    perm.index < tables.perm_table@.len() && tables.perm_table@[perm.index as int]
                        == PermData::Known(PermKind::Own),
            ),
            reprs: Set::new(|pair: (Erased, ReprKind)| true),
            bases: Map::new(
                |base: Base|
                    base.index < tables.base_table@.len()
                        && tables.base_table@[base.index as int] is Known,
                |base: Base| tables.base_table@[base.index as int]->Known_0,
            ),
        }
    }

    proof fn bases_distinct(tables: &FullInferenceTables, a: Base, b: Base) {
        tables.base_table.entries_distinct();
        assert(tables.base_table@[a.index as int] == tables.base_table@[b.index as int]);
    }

    fn own_perm(tables: &mut FullInferenceTables) -> (perm: Perm)
        ensures
            final(tables).base_table == old(tables).base_table,
            final(tables).perm_table@ == crate::intern::with_interned(
                old(tables).perm_table@,
                PermData::Known(PermKind::Own),
            ),
            perm.index() == crate::intern::position_of(
                old(tables).perm_table@,
                PermData::Known(PermKind::Own),
            ),
    {
        proof {
            tables.perm_table.entries_distinct();
            lemma_interned(tables.perm_table@, PermData::Known(PermKind::Own));
        }
        let perm = tables.intern_perm(PermData::Known(PermKind::Own));
        proof {
            let before = Self::model(old(tables));
            let after = Self::model(tables);
            assert(after.owning =~= before.owning.insert(perm));
            assert(after.reprs =~= before.reprs);
            assert(after.bases =~= before.bases);
        }
        perm
    }

    fn known_repr(tables: &mut FullInferenceTables, repr_kind: ReprKind) -> (repr: Erased)
        ensures
            *final(tables) == *old(tables),
    {
        proof {
            let before = Self::model(old(tables));
            assert(before.reprs.insert((Erased, repr_kind)) =~= before.reprs);
        }
        Erased
    }

    fn intern_base_data(tables: &mut FullInferenceTables, base_data: BaseData<FullInference>) -> (base:
        Base)
        ensures
            final(tables).perm_table == old(tables).perm_table,
            final(tables).base_table@ == crate::intern::with_interned(
                old(tables).base_table@,
                InferVarOr::Known(base_data@),
            ),
            base.index() == crate::intern::position_of(
                old(tables).base_table@,
                InferVarOr::Known(base_data@),
            ),
    {
        proof {
            tables.base_table.entries_distinct();
            lemma_interned(
                tables.base_table@,
                InferVarOr::<BaseDataView<FullInference>>::Known(base_data@),
            );
        }
        let base = tables.intern_base(InferVarOr::Known(base_data));
        proof {
            let before = Self::model(old(tables));
            let after = Self::model(tables);
            assert(after.owning =~= before.owning);
            assert(after.bases =~= before.bases.insert(base, base_data@));
        }
        base
    }
}

} // verus!
