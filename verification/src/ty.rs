//! Types, the data behind them, and the families that give them their
//! representation.

use vstd::prelude::*;

pub mod base_inferred;
pub mod declaration;
pub mod full_inferred;
pub mod identity;
use crate::entity::{Entity, GlobalIdentifier};
use crate::intern::{mix, mixed, InternData};
use crate::unify::InferVar;

verus! {

/// A small copyable value whose executable comparison is equality itself.
pub trait Atom: Copy {
    /// Whether `self` and `other` are equal.
    fn same(&self, other: &Self) -> (same: bool)
        ensures
            same == (*self == *other),
    ;

    /// A number that goes with the value: equal values have the same.
    spec fn hashed(self) -> u64;

    /// The number that goes with the value.
    fn hash_atom(&self) -> (code: u64)
        ensures
            code == self.hashed(),
    ;
}

impl Atom for usize {
    fn same(&self, other: &Self) -> (same: bool) {
        *self == *other
    }

    open spec fn hashed(self) -> u64 {
        self as u64
    }

    fn hash_atom(&self) -> (code: u64) {
        *self as u64
    }
}

/// How a value is laid out: in place, or behind a reference.
#[derive(Clone, Copy, Debug, PartialEq, Eq, Hash, Structural)]
pub enum ReprKind {
    Direct,
    Indirect,
}

/// What the holder of a value may do with it.
#[derive(Clone, Copy, Debug, PartialEq, Eq, Hash, Structural)]
pub enum PermKind {
    Own,
    Share,
    Borrow,
}

/// Stands where a family keeps no information.
#[derive(Clone, Copy, Debug, PartialEq, Eq, Hash, Structural)]
pub struct Erased;

/// The position of a generic parameter among those that an item declares.
#[derive(Clone, Copy, Debug, PartialEq, Eq, Hash, Structural)]
pub struct BoundVar {
    pub index: usize,
}

/// A scope of generic parameters that are held rigid. A universe sees the
/// names of every universe that is smaller than it.
#[derive(Clone, Copy, Debug, PartialEq, Eq, Hash, Structural)]
pub struct Universe {
    pub index: usize,
}

/// A generic parameter held rigid: the parameter `bound_var` of the binder
/// that introduced `universe`.
#[derive(Clone, Copy, Debug, PartialEq, Eq, Hash, Structural)]
pub struct Placeholder {
    pub universe: Universe,
    pub bound_var: BoundVar,
}

/// The placeholder of a family whose types never hold one: no value of it
/// can be made.
#[derive(Clone, Copy, Debug, PartialEq, Eq, Hash, Structural)]
pub struct NoPlaceholder {
    absent: bool,
}

impl Atom for ReprKind {
    fn same(&self, other: &Self) -> (same: bool) {
        *self == *other
    }

    open spec fn hashed(self) -> u64 {
        match self {
            ReprKind::Direct => 0,
            ReprKind::Indirect => 1,
        }
    }

    fn hash_atom(&self) -> (code: u64) {
        match self {
            ReprKind::Direct => 0,
            ReprKind::Indirect => 1,
        }
    }
}

impl Atom for PermKind {
    fn same(&self, other: &Self) -> (same: bool) {
        *self == *other
    }

    open spec fn hashed(self) -> u64 {
        match self {
            PermKind::Own => 0,
            PermKind::Share => 1,
            PermKind::Borrow => 2,
        }
    }

    fn hash_atom(&self) -> (code: u64) {
        match self {
            PermKind::Own => 0,
            PermKind::Share => 1,
            PermKind::Borrow => 2,
        }
    }
}

impl Atom for Erased {
    fn same(&self, other: &Self) -> (same: bool) {
        true
    }

    open spec fn hashed(self) -> u64 {
        0
    }

    fn hash_atom(&self) -> (code: u64) {
        0
    }
}

impl Atom for BoundVar {
    fn same(&self, other: &Self) -> (same: bool) {
        self.index == other.index
    }

    open spec fn hashed(self) -> u64 {
        self.index as u64
    }

    fn hash_atom(&self) -> (code: u64) {
        self.index as u64
    }
}

impl Atom for Universe {
    fn same(&self, other: &Self) -> (same: bool) {
        self.index == other.index
    }

    open spec fn hashed(self) -> u64 {
        self.index as u64
    }

    fn hash_atom(&self) -> (code: u64) {
        self.index as u64
    }
}

impl Atom for Placeholder {
    fn same(&self, other: &Self) -> (same: bool) {
        self.universe.index == other.universe.index && self.bound_var.index
            == other.bound_var.index
    }

    open spec fn hashed(self) -> u64 {
        mix(self.universe.index as u64, self.bound_var.index as u64)
    }

    fn hash_atom(&self) -> (code: u64) {
        mixed(self.universe.index as u64, self.bound_var.index as u64)
    }
}

impl Atom for NoPlaceholder {
    fn same(&self, other: &Self) -> (same: bool) {
        self.absent == other.absent
    }

    open spec fn hashed(self) -> u64 {
        0
    }

    fn hash_atom(&self) -> (code: u64) {
        0
    }
}

impl BoundVar {
    /// The parameter at position `index`.
    pub fn new(index: usize) -> (bound_var: BoundVar)
        ensures
            bound_var.index == index,
    {
        BoundVar { index }
    }
}

impl Universe {
    /// The universe that is there before any binder is entered.
    pub fn root() -> (universe: Universe)
        ensures
            universe.index == 0,
    {
        Universe { index: 0 }
    }
}

/// The key and placeholder types that one family uses.
pub trait FamilyTypes: Sized {
    /// What stands for a representation in a type of this family.
    type Repr: Atom;

    /// What stands for a permission in a type of this family.
    type Perm: Atom;

    /// What stands for a base type in a type of this family.
    type Base: Atom;

    /// What stands for a generic parameter held rigid.
    type Placeholder: Atom;
}

/// A type: a permission to use a value of some base type, laid out in some
/// way. All three parts belong to one family.
#[derive(Debug, PartialEq, Eq, Hash)]
pub struct Ty<F: FamilyTypes> {
    pub repr: F::Repr,
    pub perm: F::Perm,
    pub base: F::Base,
}

impl<F: FamilyTypes> Clone for Ty<F> {
    fn clone(&self) -> (ty: Self)
        ensures
            ty == *self,
    {
        *self
    }
}

impl<F: FamilyTypes> Copy for Ty<F> {

}

impl<F: FamilyTypes> Atom for Ty<F> {
    fn same(&self, other: &Self) -> (same: bool) {
        self.repr.same(&other.repr) && self.perm.same(&other.perm) && self.base.same(&other.base)
    }

    open spec fn hashed(self) -> u64 {
        mix(mix(self.repr.hashed(), self.perm.hashed()), self.base.hashed())
    }

    fn hash_atom(&self) -> (code: u64) {
        mixed(mixed(self.repr.hash_atom(), self.perm.hash_atom()), self.base.hash_atom())
    }
}

/// One generic argument.
#[derive(Debug, PartialEq, Eq, Hash)]
pub enum GenericKind<T> {
    Ty(T),
}

impl<T: Copy> Clone for GenericKind<T> {
    fn clone(&self) -> (generic: Self)
        ensures
            generic == *self,
    {
        *self
    }
}

impl<T: Copy> Copy for GenericKind<T> {

}

impl<T: Atom> Atom for GenericKind<T> {
    fn same(&self, other: &Self) -> (same: bool) {
        match (self, other) {
            (GenericKind::Ty(a), GenericKind::Ty(b)) => a.same(b),
        }
    }

    open spec fn hashed(self) -> u64 {
        self->Ty_0.hashed()
    }

    fn hash_atom(&self) -> (code: u64) {
        match self {
            GenericKind::Ty(ty) => ty.hash_atom(),
        }
    }
}

/// One generic argument of a family's types.
pub type Generic<F> = GenericKind<Ty<F>>;

/// The number that goes with a list of generic arguments.
pub open spec fn hash_generics<F: FamilyTypes>(generics: Seq<Generic<F>>) -> u64
    decreases generics.len(),
{
    if generics.len() == 0 {
        0
    } else {
        mix(hash_generics(generics.drop_last()), generics.last().hashed())
    }
}

/// The generic arguments of a type, in the order of the parameters that
/// they stand for: those of the outermost item first.
pub struct Generics<F: FamilyTypes> {
    pub elements: Vec<Generic<F>>,
}

impl<F: FamilyTypes> View for Generics<F> {
    type V = Seq<Generic<F>>;

    open spec fn view(&self) -> Seq<Generic<F>> {
        self.elements@
    }
}

impl<F: FamilyTypes> Generics<F> {
    /// No arguments.
    pub fn empty() -> (generics: Self)
        ensures
            generics@ == Seq::<Generic<F>>::empty(),
    {
        Generics { elements: Vec::new() }
    }

    /// The number of arguments.
    pub fn len(&self) -> (len: usize)
        ensures
            len == self@.len(),
    {
        self.elements.len()
    }

    /// Whether there is no argument.
    pub fn is_empty(&self) -> (empty: bool)
        ensures
            empty == (self@.len() == 0),
    {
        self.elements.len() == 0
    }

    /// Whether there is an argument.
    pub fn is_not_empty(&self) -> (not_empty: bool)
        ensures
            not_empty == (self@.len() > 0),
    {
        self.elements.len() > 0
    }

    /// The argument at position `index`.
    pub fn get(&self, index: usize) -> (generic: Generic<F>)
        requires
            index < self@.len(),
        ensures
            generic == self@[index as int],
    {
        self.elements[index]
    }

    /// Adds `generic` behind the arguments that are there.
    pub fn push(&mut self, generic: Generic<F>)
        ensures
            final(self)@ == old(self)@.push(generic),
    {
        self.elements.push(generic);
    }

    /// Adds the arguments of `more`, in their order, behind those that are
    /// there.
    pub fn extend(&mut self, more: &Generics<F>)
        ensures
            final(self)@ == old(self)@ + more@,
    {
        let mut i: usize = 0;
        while i < more.elements.len()
            invariant
                i <= more@.len(),
                self@ == old(self)@ + more@.subrange(0, i as int),
            decreases more@.len() - i,
        {
            self.elements.push(more.elements[i]);
            assert(more@.subrange(0, i as int).push(more@[i as int]) =~= more@.subrange(
                0,
                i + 1,
            ));
            assert(self@ =~= old(self)@ + more@.subrange(0, i + 1));
            i += 1;
        }
        assert(more@.subrange(0, i as int) =~= more@);
    }
}

impl<F: FamilyTypes> InternData for Generics<F> {
    fn same(&self, other: &Self) -> (same: bool) {
        if self.elements.len() != other.elements.len() {
            return false;
        }
        let mut i: usize = 0;
        while i < self.elements.len()
            invariant
                i <= self@.len(),
                self@.len() == other@.len(),
                forall|j: int| 0 <= j < i ==> self@[j] == other@[j],
            decreases self@.len() - i,
        {
            if !self.elements[i].same(&other.elements[i]) {
                return false;
            }
            i += 1;
        }
        assert(self@ =~= other@);
        true
    }

    fn duplicate(&self) -> (copy: Self) {
        let mut copy = Generics::empty();
        copy.extend(self);
        assert(copy@ =~= self@);
        copy
    }

    open spec fn hash_of(view: Seq<Generic<F>>) -> u64 {
        hash_generics(view)
    }

    fn hash_data(&self) -> (code: u64) {
        let mut code: u64 = 0;
        let mut i: usize = 0;
        while i < self.elements.len()
            invariant
                i <= self@.len(),
                code == hash_generics(self@.subrange(0, i as int)),
            decreases self@.len() - i,
        {
            proof {
                assert(self@.subrange(0, i + 1).drop_last() =~= self@.subrange(0, i as int));
                assert(self@.subrange(0, i + 1).last() == self@[i as int]);
            }
            code = mixed(code, self.elements[i].hash_atom());
            i += 1;
        }
        proof {
            assert(self@.subrange(0, i as int) =~= self@);
            assert(code == hash_generics(self@));
            assert(Self::hash_of(self@) == hash_generics(self@));
        }
        code
    }
}

/// What a base type is, before its generic arguments.
#[derive(Debug, PartialEq, Eq, Hash)]
pub enum BaseKind<F: FamilyTypes> {
    /// A type named by an entity: a struct, or one of the built-in types.
    Named(Entity),
    /// A generic parameter held rigid.
    Placeholder(F::Placeholder),
    /// Stands for a type that could not be determined because of an error
    /// that has been reported.
    Error,
}

impl<F: FamilyTypes> Clone for BaseKind<F> {
    fn clone(&self) -> (kind: Self)
        ensures
            kind == *self,
    {
        *self
    }
}

impl<F: FamilyTypes> Copy for BaseKind<F> {

}

impl<F: FamilyTypes> Atom for BaseKind<F> {
    fn same(&self, other: &Self) -> (same: bool) {
        match (self, other) {
            (BaseKind::Named(a), BaseKind::Named(b)) => a.index == b.index,
            (BaseKind::Placeholder(a), BaseKind::Placeholder(b)) => a.same(b),
            (BaseKind::Error, BaseKind::Error) => true,
            _ => false,
        }
    }

    open spec fn hashed(self) -> u64 {
        match self {
            BaseKind::Named(entity) => mix(1, entity.index as u64),
            BaseKind::Placeholder(placeholder) => mix(2, placeholder.hashed()),
            BaseKind::Error => 3,
        }
    }

    fn hash_atom(&self) -> (code: u64) {
        match self {
            BaseKind::Named(entity) => mixed(1, entity.index as u64),
            BaseKind::Placeholder(placeholder) => mixed(2, placeholder.hash_atom()),
            BaseKind::Error => 3,
        }
    }
}

/// The structure of a base type: what it is, applied to generic arguments.
pub struct BaseData<F: FamilyTypes> {
    pub kind: BaseKind<F>,
    pub generics: Generics<F>,
}

/// A `BaseData` as a mathematical value.
pub struct BaseDataView<F: FamilyTypes> {
    pub kind: BaseKind<F>,
    pub generics: Seq<Generic<F>>,
}

impl<F: FamilyTypes> View for BaseData<F> {
    type V = BaseDataView<F>;

    open spec fn view(&self) -> BaseDataView<F> {
        BaseDataView { kind: self.kind, generics: self.generics@ }
    }
}

impl<F: FamilyTypes> InternData for BaseData<F> {
    fn same(&self, other: &Self) -> (same: bool) {
        self.kind.same(&other.kind) && self.generics.same(&other.generics)
    }

    fn duplicate(&self) -> (copy: Self) {
        BaseData { kind: self.kind, generics: self.generics.duplicate() }
    }

    open spec fn hash_of(view: BaseDataView<F>) -> u64 {
        mix(view.kind.hashed(), hash_generics(view.generics))
    }

    fn hash_data(&self) -> (code: u64) {
        mixed(self.kind.hash_atom(), self.generics.hash_data())
    }
}

impl<F: FamilyTypes> BaseData<F> {
    /// The base type of the generic parameter `placeholder`.
    pub fn from_placeholder(placeholder: F::Placeholder) -> (data: Self)
        ensures
            data@ == (BaseDataView::<F> {
                kind: BaseKind::Placeholder(placeholder),
                generics: Seq::empty(),
            }),
    {
        BaseData { kind: BaseKind::Placeholder(placeholder), generics: Generics::empty() }
    }
}

/// Either a generic parameter of the declaring item, or something known.
pub enum BoundVarOr<T> {
    BoundVar(BoundVar),
    Known(T),
}

impl<T: View> View for BoundVarOr<T> {
    type V = BoundVarOr<T::V>;

    open spec fn view(&self) -> BoundVarOr<T::V> {
        match self {
            BoundVarOr::BoundVar(var) => BoundVarOr::BoundVar(*var),
            BoundVarOr::Known(known) => BoundVarOr::Known(known@),
        }
    }
}

impl<T: InternData> InternData for BoundVarOr<T> {
    fn same(&self, other: &Self) -> (same: bool) {
        match (self, other) {
            (BoundVarOr::BoundVar(a), BoundVarOr::BoundVar(b)) => a.index == b.index,
            (BoundVarOr::Known(a), BoundVarOr::Known(b)) => a.same(b),
            _ => false,
        }
    }

    fn duplicate(&self) -> (copy: Self) {
        match self {
            BoundVarOr::BoundVar(var) => BoundVarOr::BoundVar(*var),
            BoundVarOr::Known(known) => BoundVarOr::Known(known.duplicate()),
        }
    }

    open spec fn hash_of(view: BoundVarOr<T::V>) -> u64 {
        match view {
            BoundVarOr::BoundVar(var) => mix(1, var.index as u64),
            BoundVarOr::Known(known) => mix(2, T::hash_of(known)),
        }
    }

    fn hash_data(&self) -> (code: u64) {
        match self {
            BoundVarOr::BoundVar(var) => mixed(1, var.index as u64),
            BoundVarOr::Known(known) => mixed(2, known.hash_data()),
        }
    }
}

/// Either an inference variable, or something known.
pub enum InferVarOr<T> {
    InferVar(InferVar),
    Known(T),
}

impl<T: View> View for InferVarOr<T> {
    type V = InferVarOr<T::V>;

    open spec fn view(&self) -> InferVarOr<T::V> {
        match self {
            InferVarOr::InferVar(var) => InferVarOr::InferVar(*var),
            InferVarOr::Known(known) => InferVarOr::Known(known@),
        }
    }
}

impl<T: InternData> InternData for InferVarOr<T> {
    fn same(&self, other: &Self) -> (same: bool) {
        match (self, other) {
            (InferVarOr::InferVar(a), InferVarOr::InferVar(b)) => a.index == b.index,
            (InferVarOr::Known(a), InferVarOr::Known(b)) => a.same(b),
            _ => false,
        }
    }

    fn duplicate(&self) -> (copy: Self) {
        match self {
            InferVarOr::InferVar(var) => InferVarOr::InferVar(*var),
            InferVarOr::Known(known) => InferVarOr::Known(known.duplicate()),
        }
    }

    open spec fn hash_of(view: InferVarOr<T::V>) -> u64 {
        match view {
            InferVarOr::InferVar(var) => mix(1, var.index as u64),
            InferVarOr::Known(known) => mix(2, T::hash_of(known)),
        }
    }

    fn hash_data(&self) -> (code: u64) {
        match self {
            InferVarOr::InferVar(var) => mixed(1, var.index as u64),
            InferVarOr::Known(known) => mixed(2, known.hash_data()),
        }
    }
}

/// What the keys of one family stand for at some moment.
pub struct FamilyModel<F: FamilyTypes> {
    /// The permissions that mean owning.
    pub owning: Set<F::Perm>,
    /// Each representation, with every kind that it stands for.
    pub reprs: Set<(F::Repr, ReprKind)>,
    /// The structure of each base that stands for a known one.
    pub bases: Map<F::Base, BaseDataView<F>>,
}

impl<F: FamilyTypes> FamilyModel<F> {
    /// Whether every key that stands for something in `self` stands for the
    /// same in `later`.
    pub open spec fn extended_by(self, later: FamilyModel<F>) -> bool {
        &&& self.owning.subset_of(later.owning)
        &&& self.reprs.subset_of(later.reprs)
        &&& self.bases.submap_of(later.bases)
    }

    /// What the keys stand for once `ty` is the type with the structure
    /// `data`, owned and held directly.
    pub open spec fn with_owned(self, ty: Ty<F>, data: BaseDataView<F>) -> FamilyModel<F> {
        FamilyModel {
            owning: self.owning.insert(ty.perm),
            reprs: self.reprs.insert((ty.repr, ReprKind::Direct)),
            bases: self.bases.insert(ty.base, data),
        }
    }
}

/// A family of types: the keys that its types are made of, the tables
/// behind those keys, and the operations that make the keys.
pub trait TypeFamily: FamilyTypes {
    /// The tables behind the keys of this family.
    type Tables;

    /// The invariant of the tables.
    spec fn tables_wf(tables: &Self::Tables) -> bool;

    /// What the keys stand for in `tables`.
    spec fn model(tables: &Self::Tables) -> FamilyModel<Self>;

    /// In well-formed tables no two bases stand for the same structure.
    proof fn bases_distinct(tables: &Self::Tables, a: Self::Base, b: Self::Base)
        requires
            Self::tables_wf(tables),
            Self::model(tables).bases.dom().contains(a),
            Self::model(tables).bases.dom().contains(b),
            Self::model(tables).bases[a] == Self::model(tables).bases[b],
        ensures
            a == b,
    ;

    /// The permission that means owning. It is the only key that may be
    /// new.
    fn own_perm(tables: &mut Self::Tables) -> (perm: Self::Perm)
        requires
            Self::tables_wf(old(tables)),
        ensures
            Self::tables_wf(final(tables)),
            Self::model(old(tables)).extended_by(Self::model(final(tables))),
            Self::model(final(tables)) == (FamilyModel::<Self> {
                owning: Self::model(old(tables)).owning.insert(perm),
                ..Self::model(old(tables))
            }),
    ;

    /// The representation that stands for `repr_kind`. It is the only key
    /// that may be new.
    fn known_repr(tables: &mut Self::Tables, repr_kind: ReprKind) -> (repr: Self::Repr)
        requires
            Self::tables_wf(old(tables)),
        ensures
            Self::tables_wf(final(tables)),
            Self::model(old(tables)).extended_by(Self::model(final(tables))),
            Self::model(final(tables)) == (FamilyModel::<Self> {
                reprs: Self::model(old(tables)).reprs.insert((repr, repr_kind)),
                ..Self::model(old(tables))
            }),
    ;

    /// The base that stands for the structure `base_data`. It is the only
    /// key that may be new.
    fn intern_base_data(tables: &mut Self::Tables, base_data: BaseData<Self>) -> (base: Self::Base)
        requires
            Self::tables_wf(old(tables)),
        ensures
            Self::tables_wf(final(tables)),
            Self::model(old(tables)).extended_by(Self::model(final(tables))),
            Self::model(final(tables)) == (FamilyModel::<Self> {
                bases: Self::model(old(tables)).bases.insert(base, base_data@),
                ..Self::model(old(tables))
            }),
    ;
}

impl<F: TypeFamily> Ty<F> {
    /// The type with the structure `base_data`, owned and held directly.
    /// Its keys are the only ones that may be new.
    pub fn owned(tables: &mut F::Tables, base_data: BaseData<F>) -> (ty: Ty<F>)
        requires
            F::tables_wf(old(tables)),
        ensures
            F::tables_wf(final(tables)),
            F::model(old(tables)).extended_by(F::model(final(tables))),
            F::model(final(tables)) == F::model(old(tables)).with_owned(ty, base_data@),
    {
        let ghost data = base_data@;
        let repr = F::known_repr(tables, ReprKind::Direct);
        let perm = F::own_perm(tables);
        let base = F::intern_base_data(tables, base_data);
        proof {
            let before = F::model(old(tables));
            let after = F::model(tables);
            let expected = before.with_owned(Ty { repr, perm, base }, data);
            assert(after.owning =~= expected.owning);
            assert(after.reprs =~= expected.reprs);
            assert(after.bases =~= expected.bases);
        }
        Ty { repr, perm, base }
    }

    /// The type that `entity` names, applied to `generics`: owned and held
    /// directly.
    pub fn named(tables: &mut F::Tables, entity: Entity, generics: Generics<F>) -> (ty: Ty<F>)
        requires
            F::tables_wf(old(tables)),
        ensures
            F::tables_wf(final(tables)),
            F::model(old(tables)).extended_by(F::model(final(tables))),
            F::model(final(tables)) == F::model(old(tables)).with_owned(
                ty,
                BaseDataView { kind: BaseKind::Named(entity), generics: generics@ },
            ),
    {
        Ty::owned(tables, BaseData { kind: BaseKind::Named(entity), generics })
    }

    /// The type that stands for a type which could not be determined
    /// because of an error.
    pub fn error(tables: &mut F::Tables) -> (ty: Ty<F>)
        requires
            F::tables_wf(old(tables)),
        ensures
            F::tables_wf(final(tables)),
            F::model(old(tables)).extended_by(F::model(final(tables))),
            F::model(final(tables)) == F::model(old(tables)).with_owned(
                ty,
                BaseDataView { kind: BaseKind::Error, generics: Seq::empty() },
            ),
    {
        Ty::owned(tables, BaseData { kind: BaseKind::Error, generics: Generics::empty() })
    }

    /// The type of the generic parameter `placeholder`, which is held
    /// rigid.
    pub fn placeholder(tables: &mut F::Tables, placeholder: F::Placeholder) -> (ty: Ty<F>)
        requires
            F::tables_wf(old(tables)),
        ensures
            F::tables_wf(final(tables)),
            F::model(old(tables)).extended_by(F::model(final(tables))),
            F::model(final(tables)) == F::model(old(tables)).with_owned(
                ty,
                BaseDataView { kind: BaseKind::Placeholder(placeholder), generics: Seq::empty() },
            ),
    {
        Ty::owned(tables, BaseData::from_placeholder(placeholder))
    }
}

/// The declaration of one generic type parameter.
#[derive(Clone, Copy, Debug, PartialEq, Eq, Hash, Structural)]
pub struct GenericTyDeclaration {
    pub def_id: Entity,
    pub name: GlobalIdentifier,
}

/// The declaration of one generic parameter.
pub type GenericDeclaration = GenericKind<GenericTyDeclaration>;

/// The generic parameters that an entity declares itself. Those of the
/// entity `parent_item`, if there is one, come before them.
pub struct GenericDeclarations {
    pub parent_item: Option<Entity>,
    pub declarations: Vec<GenericDeclaration>,
}

impl GenericDeclarations {
    /// No parameters, in `parent_item`.
    pub fn empty(parent_item: Option<Entity>) -> (declarations: Self)
        ensures
            declarations.parent_item == parent_item,
            declarations.declarations@.len() == 0,
    {
        GenericDeclarations { parent_item, declarations: Vec::new() }
    }

    /// Whether the entity declares no parameter itself.
    pub fn is_empty(&self) -> (empty: bool)
        ensures
            empty == (self.declarations@.len() == 0),
    {
        self.declarations.len() == 0
    }
}

/// The types of the parameters of a function or method, and the type that
/// it returns.
pub struct Signature<F: FamilyTypes> {
    pub inputs: Vec<Ty<F>>,
    pub output: Ty<F>,
}

} // verus!
