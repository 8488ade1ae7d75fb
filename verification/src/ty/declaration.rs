//! The family of types as they are declared: what the user wrote is kept in
//! all cases. Nothing is inferred, and a base may be a generic parameter of
//! the declaring item.

use vstd::prelude::*;
use crate::intern::{lemma_interned, InternData, InternKey, InternTable, Interner};
use crate::ty::{
    Atom, BaseData, BaseDataView, BoundVar, BoundVarOr, FamilyModel, FamilyTypes, NoPlaceholder,
    ReprKind, TypeFamily,
};

verus! {

/// The family of declared types.
#[derive(Clone, Copy, Debug, PartialEq, Eq, Hash, Structural)]
pub struct Declaration;

/// The key of a permission of a declared type.
#[derive(Clone, Copy, Debug, PartialEq, Eq, Hash, Structural)]
pub struct Perm {
    pub index: usize,
}

/// The key of a base of a declared type.
#[derive(Clone, Copy, Debug, PartialEq, Eq, Hash, Structural)]
pub struct Base {
    pub index: usize,
}

/// The permissions that a declaration can state. For now that is `own`
/// alone.
#[derive(Clone, Copy, Debug, PartialEq, Eq, Hash, Structural)]
pub enum DeclaredPermKind {
    Own,
}

impl Atom for Perm {
    fn same(&self, other: &Self) -> (same: bool) {
        self.index == other.index
    }

    open spec fn hashed(self) -> u64 {
        self.index as u64
    }

    fn hash_atom(&self) -> (code: u64) {
        self.index as u64
    }
}

impl InternKey for Perm {
    open spec fn index(self) -> nat {
        self.index as nat
    }

    fn from_usize(index: usize) -> (key: Self) {
        Perm { index }
    }

    fn as_usize(self) -> (index: usize) {
        self.index
    }

    proof fn index_injective(a: Self, b: Self) {
    }
}

impl Atom for Base {
    fn same(&self, other: &Self) -> (same: bool) {
        self.index == other.index
    }

    open spec fn hashed(self) -> u64 {
        self.index as u64
    }

    fn hash_atom(&self) -> (code: u64) {
        self.index as u64
    }
}

impl InternKey for Base {
    open spec fn index(self) -> nat {
        self.index as nat
    }

    fn from_usize(index: usize) -> (key: Self) {
        Base { index }
    }

    fn as_usize(self) -> (index: usize) {
        self.index
    }

    proof fn index_injective(a: Self, b: Self) {
    }
}

impl View for DeclaredPermKind {
    type V = DeclaredPermKind;

    open spec fn view(&self) -> DeclaredPermKind {
        *self
    }
}

impl Atom for DeclaredPermKind {
    fn same(&self, other: &Self) -> (same: bool) {
        *self == *other
    }

    open spec fn hashed(self) -> u64 {
        0
    }

    fn hash_atom(&self) -> (code: u64) {
        0
    }
}

impl InternData for DeclaredPermKind {
    fn same(&self, other: &Self) -> (same: bool) {
        *self == *other
    }

    fn duplicate(&self) -> (copy: Self) {
        *self
    }

    open spec fn hash_of(view: DeclaredPermKind) -> u64 {
        0
    }

    fn hash_data(&self) -> (code: u64) {
        0
    }
}

/// The tables behind the keys of declared types.
pub struct DeclarationTables {
    pub perms: InternTable<Perm, DeclaredPermKind>,
    pub bases: InternTable<Base, BoundVarOr<BaseData<Declaration>>>,
}

impl DeclarationTables {
    /// Empty tables.
    pub fn new() -> (tables: Self)
        ensures
            tables.wf(),
            tables.perms@.len() == 0,
            tables.bases@.len() == 0,
    {
        DeclarationTables { perms: InternTable::new(), bases: InternTable::new() }
    }

    /// The invariant of the tables.
    pub open spec fn wf(&self) -> bool {
        &&& self.perms.wf()
        &&& self.bases.wf()
    }

    /// The key of the permission `perm`.
    pub fn intern_perm(&mut self, perm: DeclaredPermKind) -> (key: Perm)
        requires
            old(self).wf(),
        ensures
            final(self).wf(),
            final(self).bases == old(self).bases,
            final(self).perms@ == crate::intern::with_interned(old(self).perms@, perm),
            key.index() == crate::intern::position_of(old(self).perms@, perm),
    {
        self.perms.intern(perm)
    }

    /// The permission that `key` stands for.
    pub fn lookup_perm(&self, key: Perm) -> (perm: DeclaredPermKind)
        requires
            self.wf(),
            key.index() < self.perms@.len(),
        ensures
            perm == self.perms@[key.index() as int],
    {
        self.perms.lookup(key)
    }

    /// The key of the base `base`.
    pub fn intern_base(&mut self, base: BoundVarOr<BaseData<Declaration>>) -> (key: Base)
        requires
            old(self).wf(),
        ensures
            final(self).wf(),
            final(self).perms == old(self).perms,
            final(self).bases@ == crate::intern::with_interned(old(self).bases@, base@),
            key.index() == crate::intern::position_of(old(self).bases@, base@),
    {
        self.bases.intern(base)
    }

    /// The base that `key` stands for.
    pub fn lookup_base(&self, key: Base) -> (base: BoundVarOr<BaseData<Declaration>>)
        requires
            self.wf(),
            key.index() < self.bases@.len(),
        ensures
            base@ == self.bases@[key.index() as int],
    {
        self.bases.lookup(key)
    }
}

impl Base {
    /// What this base stands for in `tables`.
    pub fn lookup(self, tables: &DeclarationTables) -> (base: BoundVarOr<BaseData<Declaration>>)
        requires
            tables.wf(),
            self.index() < tables.bases@.len(),
        ensures
            base@ == tables.bases@[self.index() as int],
    {
        tables.lookup_base(self)
    }
}

impl Perm {
    /// The permission that this key stands for in `tables`.
    pub fn lookup(self, tables: &DeclarationTables) -> (perm: DeclaredPermKind)
        requires
            tables.wf(),
            self.index() < tables.perms@.len(),
        ensures
            perm == tables.perms@[self.index() as int],
    {
        tables.lookup_perm(self)
    }
}

impl FamilyTypes for Declaration {
    type Repr = ReprKind;

    type Perm = Perm;

    type Base = Base;

    type Placeholder = NoPlaceholder;
}

impl TypeFamily for Declaration {
    type Tables = DeclarationTables;

    open spec fn tables_wf(tables: &DeclarationTables) -> bool {
        tables.wf()
    }

    open spec fn model(tables: &DeclarationTables) -> FamilyModel<Declaration> {
        FamilyModel {
            owning: Set::new(
                |perm: Perm|
                    perm.index < tables.perms@.len() && tables.perms@[perm.index as int]
                        == DeclaredPermKind::Own,
            ),
            reprs: Set::new(|pair: (ReprKind, ReprKind)| pair.0 == pair.1),
            bases: Map::new(
                |base: Base|
                    base.index < tables.bases@.len() && tables.bases@[base.index as int] is Known,
                |base: Base| tables.bases@[base.index as int]->Known_0,
            ),
        }
    }

    proof fn bases_distinct(tables: &DeclarationTables, a: Base, b: Base) {
        tables.bases.entries_distinct();
        assert(tables.bases@[a.index as int] == tables.bases@[b.index as int]);
    }

    fn own_perm(tables: &mut DeclarationTables) -> (perm: Perm)
        ensures
            final(tables).bases == old(tables).bases,
            final(tables).perms@ == crate::intern::with_interned(
                old(tables).perms@,
                DeclaredPermKind::Own,
            ),
            perm.index() == crate::intern::position_of(old(tables).perms@, DeclaredPermKind::Own),
    {
        proof {
            tables.perms.entries_distinct();
            lemma_interned(tables.perms@, DeclaredPermKind::Own);
        }
        let perm = tables.intern_perm(DeclaredPermKind::Own);
        proof {
            let before = Self::model(old(tables));
            let after = Self::model(tables);
            assert(after.owning =~= before.owning.insert(perm));
            assert(after.reprs =~= before.reprs);
            assert(after.bases =~= before.bases);
        }
        perm
    }

    fn known_repr(tables: &mut DeclarationTables, repr_kind: ReprKind) -> (repr: ReprKind)
        ensures
            repr == repr_kind,
            *final(tables) == *old(tables),
    {
        proof {
            let before = Self::model(old(tables));
            assert(before.reprs.insert((repr_kind, repr_kind)) =~= before.reprs);
        }
        repr_kind
    }

    fn intern_base_data(tables: &mut DeclarationTables, base_data: BaseData<Declaration>) -> (base:
        Base)
        ensures
            final(tables).perms == old(tables).perms,
            final(tables).bases@ == crate::intern::with_interned(
                old(tables).bases@,
                BoundVarOr::Known(base_data@),
            ),
            base.index() == crate::intern::position_of(
                old(tables).bases@,
                BoundVarOr::Known(base_data@),
            ),
    {
        proof {
            tables.bases.entries_distinct();
            lemma_interned(tables.bases@, BoundVarOr::<BaseDataView<Declaration>>::Known(base_data@));
        }
        let base = tables.intern_base(BoundVarOr::Known(base_data));
        proof {
            let before = Self::model(old(tables));
            let after = Self::model(tables);
            assert(after.owning =~= before.owning);
            assert(after.bases =~= before.bases.insert(base, base_data@));
        }
        base
    }
}

impl Declaration {
    /// The base that stands for the generic parameter `bv` of the declaring
    /// item.
    pub fn intern_bound_var(tables: &mut DeclarationTables, bv: BoundVar) -> (base: Base)
        requires
            old(tables).wf(),
        ensures
            final(tables).wf(),
            final(tables).perms == old(tables).perms,
            final(tables).bases@ == crate::intern::with_interned(
                old(tables).bases@,
                BoundVarOr::BoundVar(bv),
            ),
            base.index() == crate::intern::position_of(
                old(tables).bases@,
                BoundVarOr::BoundVar(bv),
            ),
    {
        let bv: BoundVarOr<BaseData<Declaration>> = BoundVarOr::BoundVar(bv);
        tables.intern_base(bv)
    }
}

} // verus!
