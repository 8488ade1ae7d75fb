//! Mapping the types of one family to those of another, and the mapping
//! that leaves every type as it is.

use vstd::prelude::*;
use crate::ty::{FamilyTypes, Ty};

verus! {

/// A way of turning the types of one family into types of another.
pub trait FamilyMapper {
    /// The family of the types that are mapped.
    type Source: FamilyTypes;

    /// The family of the types that they become.
    type Target: FamilyTypes;

    /// The type that `ty` becomes.
    fn map_ty(&mut self, ty: Ty<Self::Source>) -> Ty<Self::Target>;

    /// The placeholder that `placeholder` becomes.
    fn map_placeholder(&mut self, placeholder: <Self::Source as FamilyTypes>::Placeholder) -> <Self::Target as FamilyTypes>::Placeholder;

    /// The permission that `perm` becomes.
    fn map_perm(&mut self, perm: <Self::Source as FamilyTypes>::Perm) -> <Self::Target as FamilyTypes>::Perm;
}

/// The mapping of the family `F` to itself that changes nothing. It holds
/// the tables that the types belong to.
pub struct Identity<'me, DB, F> {
    db: &'me DB,
    family: core::marker::PhantomData<F>,
}

impl<'me, DB, F> Identity<'me, DB, F> {
    /// The identity mapping over the tables `db`.
    pub fn new(db: &'me DB) -> (identity: Self)
        ensures
            identity.tables() == db,
    {
        Identity { db, family: core::marker::PhantomData }
    }

    /// The tables that the mapping holds.
    pub closed spec fn tables(&self) -> &DB {
        self.db
    }

    /// The tables that the mapping holds.
    pub fn as_ref(&self) -> (db: &DB)
        ensures
            db == self.tables(),
    {
        self.db
    }
}

impl<'me, DB, F: FamilyTypes> FamilyMapper for Identity<'me, DB, F> {
    type Source = F;

    type Target = F;

    fn map_ty(&mut self, ty: Ty<F>) -> (mapped: Ty<F>)
        ensures
            mapped == ty,
            *final(self) == *old(self),
    {
        ty
    }

    fn map_placeholder(&mut self, placeholder: F::Placeholder) -> (mapped: F::Placeholder)
        ensures
            mapped == placeholder,
            *final(self) == *old(self),
    {
        placeholder
    }

    fn map_perm(&mut self, perm: F::Perm) -> (mapped: F::Perm)
        ensures
            mapped == perm,
            *final(self) == *old(self),
    {
        perm
    }
}

} // verus!
