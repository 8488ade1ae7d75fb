//! The generic arguments of an entity, seen from inside it: each parameter
//! is held rigid as a placeholder, or is left to inference as a variable.
//!
//! The generics of an entity extend those of the item that contains it, so
//! the arguments of the outermost item come first.

use vstd::prelude::*;
use crate::entity::Entity;
use crate::intern::{
    lemma_all_interned_push, lemma_interned, with_all_interned, with_interned,
    Interner,
};
use crate::ty::{
    BaseData, BaseDataView, BaseKind, BoundVar, GenericKind, Generics, Generic, InferVarOr,
    PermKind, Placeholder, Ty, Universe,
};
use crate::type_check::database::GenericsTable;
use crate::type_check::full_inference::{FullInference, PermData};
use crate::type_check::scheduler::OpIndex;
use crate::type_check::{TypeChecker, UniverseBinder};
use crate::unify::InferVar;

verus! {

/// The item that contains `entity`, where it is recorded and is an earlier
/// entity.
pub open spec fn parent_of(generics: &GenericsTable, entity: Entity) -> Option<Entity> {
    match generics.row(entity) {
        Some(declarations) => match declarations.parent_item {
            Some(parent) => if parent.index < entity.index {
                Some(parent)
            } else {
                None
            },
            None => None,
        },
        None => None,
    }
}

/// The number of generic parameters that `entity` declares itself.
pub open spec fn declared_by(generics: &GenericsTable, entity: Entity) -> nat {
    match generics.row(entity) {
        Some(declarations) => declarations.declarations@.len(),
        None => 0,
    }
}

/// The number of generic parameters of `entity`: its own, and those of the
/// items that contain it.
pub open spec fn generics_count(generics: &GenericsTable, entity: Entity) -> nat
    decreases entity.index,
{
    declared_by(generics, entity) + match parent_of(generics, entity) {
        Some(parent) => generics_count(generics, parent),
        None => 0,
    }
}

/// The binders of the universes that hold the generic parameters of
/// `entity`: one for each item on the way from the outermost item to
/// `entity` that declares a parameter.
pub open spec fn binders_for(generics: &GenericsTable, entity: Entity) -> Seq<UniverseBinder>
    decreases entity.index,
{
    let outer = match parent_of(generics, entity) {
        Some(parent) => binders_for(generics, parent),
        None => Seq::empty(),
    };
    if declared_by(generics, entity) > 0 {
        outer.push(UniverseBinder::FromItem(entity))
    } else {
        outer
    }
}

/// The placeholders for the generic parameters of `entity`, where `first`
/// is the first universe that is free: each item that declares a parameter
/// gets the next universe, and its parameters are numbered from 0 in it.
pub open spec fn placeholders_in(generics: &GenericsTable, entity: Entity, first: nat) -> Seq<
    Placeholder,
>
    decreases entity.index,
{
    let outer = match parent_of(generics, entity) {
        Some(parent) => placeholders_in(generics, parent, first),
        None => Seq::empty(),
    };
    let universe = match parent_of(generics, entity) {
        Some(parent) => first + binders_for(generics, parent).len(),
        None => first,
    };
    outer + Seq::new(
        declared_by(generics, entity),
        |i: int|
            Placeholder {
                universe: Universe { index: universe as usize },
                bound_var: BoundVar { index: i as usize },
            },
    )
}

/// The structure of the base type of the generic parameter `placeholder`.
pub open spec fn placeholder_data(placeholder: Placeholder) -> BaseDataView<FullInference> {
    BaseDataView { kind: BaseKind::Placeholder(placeholder), generics: Seq::empty() }
}

/// What the base table holds for each of `placeholders`.
pub open spec fn placeholder_entries(placeholders: Seq<Placeholder>) -> Seq<
    InferVarOr<BaseDataView<FullInference>>,
> {
    Seq::new(placeholders.len(), |i: int| InferVarOr::Known(placeholder_data(placeholders[i])))
}

/// The universe that `fresh_universe` makes in a pass whose universes were
/// introduced by `binders`.
pub open spec fn next_universe(binders: Seq<UniverseBinder>) -> Universe {
    Universe { index: binders.len() as usize }
}

/// Of two universes that are made in one pass, the one made later is the
/// larger, whatever universes are made in between.
pub proof fn law_universes_increase(
    binders: Seq<UniverseBinder>,
    first: UniverseBinder,
    between: Seq<UniverseBinder>,
)
    requires
        binders.len() + 1 + between.len() <= usize::MAX,
    ensures
        next_universe(binders).index < next_universe(binders.push(first) + between).index,
{
}

/// Two placeholders of different universes are different, and so are the
/// structures of their types, whatever their parameters are.
pub proof fn law_placeholders_differ(a: Placeholder, b: Placeholder)
    requires
        a.universe != b.universe,
    ensures
        a != b,
        placeholder_data(a) != placeholder_data(b),
{
}

impl TypeChecker {
    /// The types of two placeholders of different universes have different
    /// bases.
    pub proof fn law_placeholder_types_differ(
        &self,
        ty_a: Ty<FullInference>,
        a: Placeholder,
        ty_b: Ty<FullInference>,
        b: Placeholder,
    )
        requires
            self.is_owned(ty_a, placeholder_data(a)),
            self.is_owned(ty_b, placeholder_data(b)),
            a.universe != b.universe,
        ensures
            ty_a.base != ty_b.base,
    {
    }

    /// Whether `generics` are the owned types of `placeholders`, in order.
    pub open spec fn are_placeholders(
        &self,
        generics: Seq<Generic<FullInference>>,
        placeholders: Seq<Placeholder>,
    ) -> bool {
        &&& generics.len() == placeholders.len()
        &&& forall|i: int|
            0 <= i < generics.len() ==> self.is_owned(
                (#[trigger] generics[i])->Ty_0,
                placeholder_data(placeholders[i]),
            )
    }

    /// Whether `later` differs from `self` in its tables at most, which hold
    /// what they held and the owned types of `placeholders` besides.
    pub open spec fn with_placeholders(&self, later: &Self, placeholders: Seq<Placeholder>) -> bool {
        &&& later.entities == self.entities
        &&& later.generics == self.generics
        &&& later.unify == self.unify
        &&& later.ops == self.ops
        &&& later.errors == self.errors
        &&& later.constraints == self.constraints
        &&& later.tables.base_table@ == with_all_interned(
            self.tables.base_table@,
            placeholder_entries(placeholders),
        )
        &&& later.tables.perm_table@ == if placeholders.len() > 0 {
            with_interned(self.tables.perm_table@, PermData::Known(PermKind::Own))
        } else {
            self.tables.perm_table@
        }
    }

    /// A type that is owned stays so when another owned type is added to
    /// the tables.
    pub proof fn lemma_owned_kept(
        &self,
        later: &Self,
        added: BaseDataView<FullInference>,
        ty: Ty<FullInference>,
        data: BaseDataView<FullInference>,
    )
        requires
            self.wf(),
            self.with_owned(later, added),
            self.is_owned(ty, data),
        ensures
            later.is_owned(ty, data),
    {
        self.tables.perm_table.entries_distinct();
        self.tables.base_table.entries_distinct();
        lemma_interned(self.tables.perm_table@, PermData::Known(PermKind::Own));
        lemma_interned(
            self.tables.base_table@,
            InferVarOr::<BaseDataView<FullInference>>::Known(added),
        );
    }

    /// The generic arguments of `def_id` as placeholders: those of the item
    /// that contains it come first, and then, if `def_id` declares
    /// parameters itself, one placeholder for each of them, in a fresh
    /// universe that `def_id` introduces.
    pub fn placeholders_for(&mut self, def_id: Entity) -> (generics: Generics<FullInference>)
        requires
            old(self).wf(),
        ensures
            final(self).wf(),
            final(self).universe_binders@ == old(self).universe_binders@ + binders_for(
                &old(self).generics,
                def_id,
            ),
            old(self).with_placeholders(
                final(self),
                placeholders_in(&old(self).generics, def_id, old(self).universe_binders@.len()),
            ),
            final(self).are_placeholders(
                generics@,
                placeholders_in(&old(self).generics, def_id, old(self).universe_binders@.len()),
            ),
        decreases def_id.index,
    {
        let ghost first = self.universe_binders@.len();
        let ghost table = self.generics;
        let (parent_item, count) = match self.generics.generic_declarations(def_id) {
            Some(declarations) => (declarations.parent_item, declarations.declarations.len()),
            None => (None, 0),
        };
        assert(parent_item == parent_of(&table, def_id)) by {
            match table.row(def_id) {
                Some(declarations) => {
                    assert(table@[def_id.index as int] == Some(declarations));
                },
                None => {},
            }
        }
        assert(count == declared_by(&table, def_id));
        let mut generics = match parent_item {
            Some(parent) => self.placeholders_for(parent),
            None => {
                proof {
                    assert(placeholder_entries(Seq::<Placeholder>::empty()) =~= Seq::empty());
                }
                Generics::empty()
            },
        };
        let ghost outer = match parent_item {
            Some(parent) => placeholders_in(&table, parent, first),
            None => Seq::empty(),
        };
        let ghost all = placeholders_in(&table, def_id, first);
        assert(all.subrange(0, outer.len() as int) =~= outer);
        assert(all.len() == outer.len() + count);
        if count > 0 {
            let universe = self.fresh_universe(UniverseBinder::FromItem(def_id));
            assert(universe.index == match parent_item {
                Some(parent) => first + binders_for(&table, parent).len(),
                None => first,
            });
            let mut i: usize = 0;
            while i < count
                invariant
                    i <= count,
                    count == declared_by(&table, def_id),
                    all == placeholders_in(&table, def_id, first),
                    all.len() == outer.len() + count,
                    universe.index == match parent_of(&table, def_id) {
                        Some(parent) => first + binders_for(&table, parent).len(),
                        None => first,
                    },
                    self.wf(),
                    old(self).wf(),
                    table == old(self).generics,
                    self.universe_binders@ == old(self).universe_binders@ + binders_for(
                        &table,
                        def_id,
                    ),
                    old(self).with_placeholders(self, all.subrange(0, outer.len() + i)),
                    self.are_placeholders(generics@, all.subrange(0, outer.len() + i)),
                decreases count - i,
            {
                let ghost before = *self;
                let ghost done = all.subrange(0, outer.len() + i);
                let placeholder = Placeholder { universe, bound_var: BoundVar::new(i) };
                assert(all[outer.len() + i] == placeholder);
                let ty = self.owned_type(BaseData::from_placeholder(placeholder));
                generics.push(GenericKind::Ty(ty));
                proof {
                    let next = all.subrange(0, outer.len() + i + 1);
                    assert(next =~= done.push(placeholder));
                    assert(placeholder_entries(next) =~= placeholder_entries(done).push(
                        InferVarOr::Known(placeholder_data(placeholder)),
                    ));
                    lemma_all_interned_push(
                        old(self).tables.base_table@,
                        placeholder_entries(done),
                        InferVarOr::Known(placeholder_data(placeholder)),
                    );
                    old(self).tables.perm_table.entries_distinct();
                    lemma_interned(old(self).tables.perm_table@, PermData::Known(PermKind::Own));
                    assert forall|k: int| 0 <= k < generics@.len() implies self.is_owned(
                        (#[trigger] generics@[k])->Ty_0,
                        placeholder_data(next[k]),
                    ) by {
                        if k < generics@.len() - 1 {
                            before.lemma_owned_kept(
                                self,
                                placeholder_data(placeholder),
                                generics@[k]->Ty_0,
                                placeholder_data(done[k]),
                            );
                        }
                    }
                }
                i += 1;
            }
            assert(all.subrange(0, outer.len() + count) =~= all);
        }
        generics
    }

    /// Whether `generics` are the types of the `generics.len()` variables
    /// that follow the first `first` variables, in order.
    pub open spec fn are_variables(&self, generics: Seq<Generic<FullInference>>, first: nat) -> bool {
        forall|i: int|
            0 <= i < generics.len() ==> self.is_variable(
                (#[trigger] generics[i])->Ty_0,
                InferVar { index: (first + i) as usize },
            )
    }

    /// Whether `later` differs from `self` in that it has `count` more
    /// variables, each unbound, in a class of its own and waited for by
    /// nothing, and in its tables the base and the permission of each.
    pub open spec fn with_variables(&self, later: &Self, count: nat) -> bool {
        &&& later.entities == self.entities
        &&& later.generics == self.generics
        &&& later.universe_binders == self.universe_binders
        &&& later.errors == self.errors
        &&& later.constraints == self.constraints
        &&& self.unify.grown_to(&later.unify)
        &&& later.unify.len() == self.unify.len() + count
        &&& later.ops.pending() == self.ops.pending()
        &&& later.ops.retired() == self.ops.retired()
        &&& later.ops.enqueued() == self.ops.enqueued()
        &&& later.ops.waiting() == self.ops.waiting() + Seq::new(count, |i: int| Seq::empty())
        &&& later.tables.base_table@ == self.tables.base_table@ + Seq::new(
            count,
            |i: int| InferVarOr::InferVar(InferVar { index: (self.unify.len() + i) as usize }),
        )
        &&& later.tables.perm_table@ == self.tables.perm_table@ + Seq::new(
            count,
            |i: int| PermData::Inferred(InferVar { index: (self.unify.len() + i) as usize }),
        )
    }

    /// The generic arguments of `entity` as inference variables: those of
    /// the item that contains it come first, and then one fresh variable for
    /// each parameter that `entity` declares itself.
    pub fn inference_variables_for(&mut self, entity: Entity) -> (generics: Generics<FullInference>)
        requires
            old(self).wf(),
        ensures
            final(self).wf(),
            generics@.len() == generics_count(&old(self).generics, entity),
            old(self).with_variables(final(self), generics@.len()),
            final(self).are_variables(generics@, old(self).unify.len()),
        decreases entity.index,
    {
        let ghost first = self.unify.len();
        let ghost table = self.generics;
        let (parent_item, count) = match self.generics.generic_declarations(entity) {
            Some(declarations) => (declarations.parent_item, declarations.declarations.len()),
            None => (None, 0),
        };
        assert(parent_item == parent_of(&table, entity)) by {
            match table.row(entity) {
                Some(declarations) => {
                    assert(table@[entity.index as int] == Some(declarations));
                },
                None => {},
            }
        }
        assert(count == declared_by(&table, entity));
        // If the generics of `entity` extend those of its parent, the
        // parent's come first.
        let mut generics = match parent_item {
            Some(parent) => self.inference_variables_for(parent),
            None => {
                proof {
                    assert(self.ops.waiting() + Seq::new(0, |i: int| Seq::<OpIndex>::empty())
                        =~= self.ops.waiting());
                    assert(self.tables.base_table@ + Seq::new(
                        0,
                        |i: int|
                            InferVarOr::<BaseDataView<FullInference>>::InferVar(
                                InferVar { index: (self.unify.len() + i) as usize },
                            ),
                    ) =~= self.tables.base_table@);
                    assert(self.tables.perm_table@ + Seq::new(
                        0,
                        |i: int|
                            PermData::Inferred(InferVar { index: (self.unify.len() + i) as usize }),
                    ) =~= self.tables.perm_table@);
                }
                Generics::empty()
            },
        };
        let ghost outer = generics@.len();
        let mut i: usize = 0;
        while i < count
            invariant
                i <= count,
                self.wf(),
                old(self).wf(),
                first == old(self).unify.len(),
                generics@.len() == outer + i,
                old(self).with_variables(self, generics@.len()),
                self.are_variables(generics@, first),
            decreases count - i,
        {
            let ghost before = *self;
            let ghost done = generics@;
            let ty = self.new_variable();
            generics.push(GenericKind::Ty(ty));
            proof {
                old(self).unify.lemma_len_fits();
                before.unify.lemma_len_fits();
                self.unify.lemma_len_fits();
                let fresh = InferVar { index: before.unify.len() as usize };
                assert(self.ops.waiting() =~= old(self).ops.waiting() + Seq::new(
                    generics@.len(),
                    |i: int| Seq::<OpIndex>::empty(),
                ));
                assert(self.tables.base_table@ =~= old(self).tables.base_table@ + Seq::new(
                    generics@.len(),
                    |i: int|
                        InferVarOr::<BaseDataView<FullInference>>::InferVar(
                            InferVar { index: (first + i) as usize },
                        ),
                ));
                assert(self.tables.perm_table@ =~= old(self).tables.perm_table@ + Seq::new(
                    generics@.len(),
                    |i: int| PermData::Inferred(InferVar { index: (first + i) as usize }),
                ));
                assert forall|other: InferVar| old(self).unify.contains(other) implies (
                #[trigger] self.unify.root(other)) == old(self).unify.root(other) by {
                    assert(before.unify.contains(other));
                    assert(before.unify.root(other) == old(self).unify.root(other));
                }
                assert forall|other: InferVar| old(self).unify.contains(other) implies (
                #[trigger] self.unify.value(other)) == old(self).unify.value(other) by {
                    assert(before.unify.contains(other));
                    assert(before.unify.value(other) == old(self).unify.value(other));
                }
                assert forall|var: InferVar|
                    self.unify.contains(var) && !old(self).unify.contains(var) implies (
                #[trigger] self.unify.root(var)) == var by {
                    if var != fresh {
                        assert(before.unify.contains(var));
                        assert(before.unify.root(var) == var);
                    }
                }
                assert forall|var: InferVar|
                    self.unify.contains(var) && !old(self).unify.contains(var) implies (
                #[trigger] self.unify.value(var)) is None by {
                    if var != fresh {
                        assert(before.unify.contains(var));
                        assert(before.unify.value(var) is None);
                    }
                }
                assert forall|k: int| 0 <= k < generics@.len() implies self.is_variable(
                    (#[trigger] generics@[k])->Ty_0,
                    InferVar { index: (first + k) as usize },
                ) by {
                    if k < done.len() {
                        assert(before.is_variable(
                            done[k]->Ty_0,
                            InferVar { index: (first + k) as usize },
                        ));
                    }
                }
            }
            i += 1;
        }
        generics
    }
}

} // verus!
