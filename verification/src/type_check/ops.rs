//! The operations of a type-checking pass.

use vstd::prelude::*;
use crate::entity::{Entity, EntityData, LangItem, Span};
use crate::intern::{lemma_interned, position_of, with_interned, InternData, InternKey, Interner};
use crate::ty::{
    BaseData, BaseDataView, BaseKind, Erased, Generics, InferVarOr, PermKind,
    ReprKind, Ty, TypeFamily, Universe,
};
use crate::type_check::full_inference::{Base, FullInference, Perm, PermData};
use crate::type_check::generics::next_universe;
use crate::type_check::scheduler::{
    blocked_on, lemma_blocked_on, waited_for, woken, DeferredOp, EquateWith, HirLocation, OpIndex,
};
use crate::type_check::{Diagnostic, TypeChecker, UniverseBinder};
use crate::unify::InferVar;

verus! {

/// The structure of the type that `entity` names, without generic
/// arguments.
pub open spec fn named_data(entity: Entity) -> BaseDataView<FullInference> {
    BaseDataView { kind: BaseKind::Named(entity), generics: Seq::empty() }
}

/// The structure of the type that stands for an error.
pub open spec fn error_data() -> BaseDataView<FullInference> {
    BaseDataView { kind: BaseKind::Error, generics: Seq::empty() }
}

impl TypeChecker {
    /// Whether `ty` is made of keys of this pass.
    pub open spec fn has_type(&self, ty: Ty<FullInference>) -> bool {
        &&& self.has_base(ty.base)
        &&& ty.perm.index < self.tables.perm_table@.len()
    }

    /// Whether each of `generics` is made of keys of this pass.
    pub open spec fn has_types(&self, generics: Seq<crate::ty::Generic<FullInference>>) -> bool {
        forall|i: int| 0 <= i < generics.len() ==> self.has_type((#[trigger] generics[i])->Ty_0)
    }

    /// Whether `ty` is the type with the known structure `data`, owned and
    /// held directly.
    pub open spec fn is_owned(&self, ty: Ty<FullInference>, data: BaseDataView<FullInference>) -> bool {
        &&& self.has_type(ty)
        &&& self.base_entry(ty.base) == InferVarOr::Known(data)
        &&& self.tables.perm_table@[ty.perm.index as int] == PermData::Known(PermKind::Own)
    }

    /// Whether `later` differs from `self` in its tables at most, which hold
    /// what they held and the owned type of `data` besides.
    pub open spec fn with_owned(&self, later: &Self, data: BaseDataView<FullInference>) -> bool {
        &&& later.generics == self.generics
        &&& later.unify == self.unify
        &&& later.ops == self.ops
        &&& later.universe_binders == self.universe_binders
        &&& later.errors == self.errors
        &&& later.constraints == self.constraints
        &&& later.tables.base_table@ == with_interned(
            self.tables.base_table@,
            InferVarOr::Known(data),
        )
        &&& later.tables.perm_table@ == with_interned(
            self.tables.perm_table@,
            PermData::Known(PermKind::Own),
        )
    }

    /// Keeps the invariant over tables that have grown by entries that are
    /// closed.
    pub proof fn lemma_tables_grown(&self, later: &Self)
        requires
            self.wf(),
            later.entities.wf(),
            later.generics.wf(),
            later.tables.wf(),
            later.unify == self.unify,
            later.ops == self.ops,
            later.universe_binders@.len() > 0,
            later.universe_binders@[0] == UniverseBinder::Root,
            self.tables.base_table@.len() <= later.tables.base_table@.len(),
            self.tables.perm_table@.len() <= later.tables.perm_table@.len(),
            forall|i: int|
                0 <= i < self.tables.base_table@.len() ==> later.tables.base_table@[i]
                    == self.tables.base_table@[i],
            forall|i: int|
                0 <= i < later.tables.perm_table@.len() ==> (
                #[trigger] later.tables.perm_table@[i]) == (if i < self.tables.perm_table@.len() {
                    self.tables.perm_table@[i]
                } else {
                    PermData::Known(PermKind::Own)
                }),
            forall|base: Base| #[trigger]
                later.has_base(base) && !self.has_base(base) ==> match later.base_entry(base) {
                    InferVarOr::InferVar(var) => later.unify.contains(var),
                    InferVarOr::Known(data) => forall|i: int|
                        0 <= i < data.generics.len() ==> later.has_base(
                            (#[trigger] data.generics[i])->Ty_0.base,
                        ) && data.generics[i]->Ty_0.perm.index < later.tables.perm_table@.len(),
                },
        ensures
            later.wf(),
    {
        assert forall|base: Base| #[trigger] later.has_base(base) implies match later.base_entry(
            base,
        ) {
            InferVarOr::InferVar(var) => later.unify.contains(var),
            InferVarOr::Known(data) => forall|i: int|
                0 <= i < data.generics.len() ==> later.has_base(
                    (#[trigger] data.generics[i])->Ty_0.base,
                ) && data.generics[i]->Ty_0.perm.index < later.tables.perm_table@.len(),
        } by {
            if self.has_base(base) {
                assert(later.base_entry(base) == self.base_entry(base));
                match self.base_entry(base) {
                    InferVarOr::InferVar(var) => {},
                    InferVarOr::Known(data) => {
                        assert forall|i: int| 0 <= i < data.generics.len() implies later.has_base(
                            (#[trigger] data.generics[i])->Ty_0.base,
                        ) && data.generics[i]->Ty_0.perm.index
                            < later.tables.perm_table@.len() by {
                            assert(self.has_base(data.generics[i]->Ty_0.base));
                        }
                    },
                }
            }
        }
        assert forall|var: InferVar| #[trigger] later.unify.contains(var) implies match later.unify.value(
            var,
        ) {
            Some(base) => later.has_base(base) && later.base_entry(base) is Known,
            None => true,
        } by {
            assert(self.unify.contains(var));
            match self.unify.value(var) {
                Some(base) => {
                    assert(self.has_base(base));
                    assert(later.base_entry(base) == self.base_entry(base));
                },
                None => {},
            }
        }
    }

    /// Keeps the invariant over a scheduler that has changed, where
    /// operations still wait only for unresolved variables.
    pub proof fn lemma_scheduler_changed(&self, later: &Self)
        requires
            self.wf(),
            later.entities == self.entities,
            later.generics == self.generics,
            later.tables == self.tables,
            later.unify == self.unify,
            later.universe_binders == self.universe_binders,
            later.ops.wf(),
            later.waits_unresolved(),
        ensures
            later.wf(),
    {
        assert forall|base: Base| #[trigger] later.has_base(base) implies match later.base_entry(
            base,
        ) {
            InferVarOr::InferVar(var) => later.unify.contains(var),
            InferVarOr::Known(data) => forall|i: int|
                0 <= i < data.generics.len() ==> later.has_base(
                    (#[trigger] data.generics[i])->Ty_0.base,
                ) && data.generics[i]->Ty_0.perm.index < later.tables.perm_table@.len(),
        } by {
            assert(self.has_base(base));
            match self.base_entry(base) {
                InferVarOr::InferVar(var) => {},
                InferVarOr::Known(data) => {
                    assert forall|i: int| 0 <= i < data.generics.len() implies later.has_base(
                        (#[trigger] data.generics[i])->Ty_0.base,
                    ) && data.generics[i]->Ty_0.perm.index < later.tables.perm_table@.len() by {
                        assert(self.has_base(data.generics[i]->Ty_0.base));
                    }
                },
            }
        }
        assert forall|var: InferVar| #[trigger] later.unify.contains(var) implies match later.unify.value(
            var,
        ) {
            Some(base) => later.has_base(base) && later.base_entry(base) is Known,
            None => true,
        } by {
            assert(self.unify.contains(var));
            match self.unify.value(var) {
                Some(base) => {
                    assert(self.has_base(base));
                },
                None => {},
            }
        }
    }

    /// The permission that means owning.
    pub fn own_perm(&mut self) -> (perm: Perm)
        requires
            old(self).wf(),
        ensures
            final(self).wf(),
            final(self).entities == old(self).entities,
            final(self).generics == old(self).generics,
            final(self).unify == old(self).unify,
            final(self).ops == old(self).ops,
            final(self).universe_binders == old(self).universe_binders,
            final(self).errors == old(self).errors,
            final(self).constraints == old(self).constraints,
            final(self).tables.base_table == old(self).tables.base_table,
            final(self).tables.perm_table@ == with_interned(
                old(self).tables.perm_table@,
                PermData::Known(PermKind::Own),
            ),
            perm.index() == position_of(
                old(self).tables.perm_table@,
                PermData::Known(PermKind::Own),
            ),
    {
        proof {
            self.tables.perm_table.entries_distinct();
            lemma_interned(self.tables.perm_table@, PermData::Known(PermKind::Own));
        }
        let perm = FullInference::own_perm(&mut self.tables);
        proof {
            old(self).lemma_tables_grown(self);
        }
        perm
    }

    /// The representation of a value that is held directly.
    pub fn direct_repr(&mut self) -> (repr: Erased)
        ensures
            *final(self) == *old(self),
    {
        Erased
    }

    /// The owned type with the structure `data`, which has no generic
    /// arguments.
    pub(crate) fn owned_type(&mut self, data: BaseData<FullInference>) -> (ty: Ty<FullInference>)
        requires
            old(self).wf(),
            old(self).has_types(data@.generics),
        ensures
            final(self).wf(),
            final(self).entities == old(self).entities,
            old(self).with_owned(final(self), data@),
            final(self).is_owned(ty, data@),
    {
        proof {
            self.tables.perm_table.entries_distinct();
            self.tables.base_table.entries_distinct();
            lemma_interned(self.tables.perm_table@, PermData::Known(PermKind::Own));
            lemma_interned(
                self.tables.base_table@,
                InferVarOr::<BaseDataView<FullInference>>::Known(data@),
            );
        }
        let repr = FullInference::known_repr(&mut self.tables, ReprKind::Direct);
        let perm = FullInference::own_perm(&mut self.tables);
        let base = FullInference::intern_base_data(&mut self.tables, data);
        proof {
            old(self).lemma_tables_grown(self);
        }
        Ty { repr, perm, base }
    }

    /// The type that `entity` names, applied to `generics`: owned and held
    /// directly.
    pub fn named_type(&mut self, entity: Entity, generics: Generics<FullInference>) -> (ty: Ty<
        FullInference,
    >)
        requires
            old(self).wf(),
            old(self).has_types(generics@),
        ensures
            final(self).wf(),
            final(self).entities == old(self).entities,
            old(self).with_owned(
                final(self),
                BaseDataView { kind: BaseKind::Named(entity), generics: generics@ },
            ),
            final(self).is_owned(
                ty,
                BaseDataView { kind: BaseKind::Named(entity), generics: generics@ },
            ),
    {
        self.owned_type(BaseData { kind: BaseKind::Named(entity), generics })
    }

    /// The type that stands for a type which could not be determined because
    /// of an error.
    pub fn error_type(&mut self) -> (ty: Ty<FullInference>)
        requires
            old(self).wf(),
        ensures
            final(self).wf(),
            final(self).entities == old(self).entities,
            old(self).with_owned(final(self), error_data()),
            final(self).is_owned(ty, error_data()),
    {
        self.owned_type(BaseData { kind: BaseKind::Error, generics: Generics::empty() })
    }

    /// The type of the built-in `item`: the entity of the item is interned,
    /// and the type is the owned type that it names.
    fn primitive_type(&mut self, item: LangItem) -> (ty: Ty<FullInference>)
        requires
            old(self).wf(),
        ensures
            final(self).wf(),
            final(self).entities@ == with_interned(old(self).entities@, EntityData::LangItem(item)),
            old(self).with_owned(final(self), named_data(final(self).lang_item(item))),
            final(self).is_owned(ty, named_data(final(self).lang_item(item))),
    {
        proof {
            self.entities.entries_distinct();
            lemma_interned(self.entities@, EntityData::LangItem(item));
        }
        let entity: Entity = self.entities.intern(EntityData::LangItem(item));
        proof {
            Entity::index_injective(entity, self.lang_item(item));
            old(self).lemma_tables_grown(self);
        }
        self.owned_type(BaseData { kind: BaseKind::Named(entity), generics: Generics::empty() })
    }

    /// The entity of the built-in `item`, once it has been interned.
    pub open spec fn lang_item(&self, item: LangItem) -> Entity {
        Entity { index: self.entities@.index_of(EntityData::LangItem(item)) as usize }
    }

    /// The type of truth values.
    pub fn boolean_type(&mut self) -> (ty: Ty<FullInference>)
        requires
            old(self).wf(),
        ensures
            final(self).wf(),
            final(self).entities@ == with_interned(
                old(self).entities@,
                EntityData::LangItem(LangItem::Boolean),
            ),
            old(self).with_owned(final(self), named_data(final(self).lang_item(LangItem::Boolean))),
            final(self).is_owned(ty, named_data(final(self).lang_item(LangItem::Boolean))),
    {
        self.primitive_type(LangItem::Boolean)
    }

    /// The type of signed integers.
    pub fn int_type(&mut self) -> (ty: Ty<FullInference>)
        requires
            old(self).wf(),
        ensures
            final(self).wf(),
            final(self).entities@ == with_interned(
                old(self).entities@,
                EntityData::LangItem(LangItem::Int),
            ),
            old(self).with_owned(final(self), named_data(final(self).lang_item(LangItem::Int))),
            final(self).is_owned(ty, named_data(final(self).lang_item(LangItem::Int))),
    {
        self.primitive_type(LangItem::Int)
    }

    /// The type of unsigned integers.
    pub fn uint_type(&mut self) -> (ty: Ty<FullInference>)
        requires
            old(self).wf(),
        ensures
            final(self).wf(),
            final(self).entities@ == with_interned(
                old(self).entities@,
                EntityData::LangItem(LangItem::Uint),
            ),
            old(self).with_owned(final(self), named_data(final(self).lang_item(LangItem::Uint))),
            final(self).is_owned(ty, named_data(final(self).lang_item(LangItem::Uint))),
    {
        self.primitive_type(LangItem::Uint)
    }

    /// The type of strings.
    pub fn string_type(&mut self) -> (ty: Ty<FullInference>)
        requires
            old(self).wf(),
        ensures
            final(self).wf(),
            final(self).entities@ == with_interned(
                old(self).entities@,
                EntityData::LangItem(LangItem::String),
            ),
            old(self).with_owned(final(self), named_data(final(self).lang_item(LangItem::String))),
            final(self).is_owned(ty, named_data(final(self).lang_item(LangItem::String))),
    {
        self.primitive_type(LangItem::String)
    }

    /// The type without values of interest: the tuple of no elements.
    pub fn unit_type(&mut self) -> (ty: Ty<FullInference>)
        requires
            old(self).wf(),
        ensures
            final(self).wf(),
            final(self).entities@ == with_interned(
                old(self).entities@,
                EntityData::LangItem(LangItem::Tuple(0)),
            ),
            old(self).with_owned(final(self), named_data(final(self).lang_item(LangItem::Tuple(0)))),
            final(self).is_owned(ty, named_data(final(self).lang_item(LangItem::Tuple(0)))),
    {
        self.primitive_type(LangItem::Tuple(0))
    }

    /// Records that an error was found at `span`.
    pub fn record_error(&mut self, label: String, span: Span)
        requires
            old(self).wf(),
        ensures
            final(self).wf(),
            final(self).errors@ == old(self).errors@.push(Diagnostic { label, span }),
            final(self).constraints == old(self).constraints,
            final(self).entities == old(self).entities,
            final(self).generics == old(self).generics,
            final(self).tables == old(self).tables,
            final(self).unify == old(self).unify,
            final(self).ops == old(self).ops,
            final(self).universe_binders == old(self).universe_binders,
    {
        self.errors.push(Diagnostic { label, span });
        proof {
            old(self).lemma_tables_grown(self);
        }
    }

    /// A fresh universe, introduced by `binder`. It is larger than every
    /// universe that there was, and so sees the names of them all.
    pub fn fresh_universe(&mut self, binder: UniverseBinder) -> (universe: Universe)
        requires
            old(self).wf(),
        ensures
            final(self).wf(),
            universe == next_universe(old(self).universe_binders@),
            universe.index == old(self).universe_binders@.len(),
            final(self).universe_binders@ == old(self).universe_binders@.push(binder),
            final(self).entities == old(self).entities,
            final(self).generics == old(self).generics,
            final(self).tables == old(self).tables,
            final(self).unify == old(self).unify,
            final(self).ops == old(self).ops,
            final(self).errors == old(self).errors,
            final(self).constraints == old(self).constraints,
    {
        let index = self.universe_binders.len();
        self.universe_binders.push(binder);
        proof {
            old(self).lemma_tables_grown(self);
        }
        Universe { index }
    }

    /// A type that inference has yet to determine: its base is a fresh
    /// inference variable, and its permission is the one that goes with that
    /// variable.
    pub fn new_variable(&mut self) -> (ty: Ty<FullInference>)
        requires
            old(self).wf(),
        ensures
            final(self).wf(),
            final(self).has_type(ty),
            final(self).is_variable(ty, InferVar { index: old(self).unify.len() as usize }),
            old(self).unify.grown_by(&final(self).unify, InferVar { index: old(self).unify.len() as usize }),
            final(self).ops.pending() == old(self).ops.pending(),
            final(self).ops.retired() == old(self).ops.retired(),
            final(self).ops.enqueued() == old(self).ops.enqueued(),
            final(self).ops.waiting() == old(self).ops.waiting().push(Seq::empty()),
            final(self).tables.base_table@ == old(self).tables.base_table@.push(
                InferVarOr::InferVar(InferVar { index: old(self).unify.len() as usize }),
            ),
            final(self).tables.perm_table@ == old(self).tables.perm_table@.push(
                PermData::Inferred(InferVar { index: old(self).unify.len() as usize }),
            ),
            final(self).entities == old(self).entities,
            final(self).generics == old(self).generics,
            final(self).universe_binders == old(self).universe_binders,
            final(self).errors == old(self).errors,
            final(self).constraints == old(self).constraints,
    {
        let var = self.unify.new_variable();
        self.ops.add_variable();
        proof {
            self.tables.base_table.entries_distinct();
            self.tables.perm_table.entries_distinct();
            old(self).lemma_variable_unused(var);
        }
        let base = self.tables.intern_base(InferVarOr::InferVar(var));
        let perm = self.tables.intern_perm(PermData::Inferred(var));
        proof {
            let earlier = old(self);
            assert forall|other: InferVar| #[trigger] self.unify.contains(other) implies match self.unify.value(
                other,
            ) {
                Some(bound) => self.has_base(bound) && self.base_entry(bound) is Known,
                None => true,
            } by {
                if other != var {
                    assert(earlier.unify.contains(other));
                    assert(self.unify.value(other) == earlier.unify.value(other));
                }
            }
            assert forall|other: InferVar| #[trigger]
                self.unify.contains(other) && self.ops.waiting()[other.index as int].len()
                    > 0 implies self.unify.value(other) is None && self.unify.root(other)
                == other by {
                if other != var {
                    assert(earlier.unify.contains(other));
                    assert(self.unify.value(other) == earlier.unify.value(other));
                    assert(self.unify.root(other) == earlier.unify.root(other));
                }
            }
            assert forall|key: Base| #[trigger] self.has_base(key) implies match self.base_entry(
                key,
            ) {
                InferVarOr::InferVar(var) => self.unify.contains(var),
                InferVarOr::Known(data) => forall|i: int|
                    0 <= i < data.generics.len() ==> self.has_base(
                        (#[trigger] data.generics[i])->Ty_0.base,
                    ) && data.generics[i]->Ty_0.perm.index < self.tables.perm_table@.len(),
            } by {
                if earlier.has_base(key) {
                    assert(self.base_entry(key) == earlier.base_entry(key));
                    match earlier.base_entry(key) {
                        InferVarOr::InferVar(var) => {},
                        InferVarOr::Known(data) => {
                            assert forall|i: int|
                                0 <= i < data.generics.len() implies self.has_base(
                                (#[trigger] data.generics[i])->Ty_0.base,
                            ) && data.generics[i]->Ty_0.perm.index
                                < self.tables.perm_table@.len() by {
                                assert(earlier.has_base(data.generics[i]->Ty_0.base));
                            }
                        },
                    }
                }
            }
        }
        Ty { repr: Erased, perm, base }
    }

    /// Whether `ty` is the type of the inference variable `var`.
    pub open spec fn is_variable(&self, ty: Ty<FullInference>, var: InferVar) -> bool {
        &&& self.has_type(ty)
        &&& self.base_entry(ty.base) == InferVarOr::<BaseDataView<FullInference>>::InferVar(var)
        &&& self.tables.perm_table@[ty.perm.index as int] == PermData::Inferred(var)
    }

    /// A variable that the store does not have yet stands nowhere in the
    /// tables.
    pub proof fn lemma_variable_unused(&self, var: InferVar)
        requires
            self.wf(),
            !self.unify.contains(var),
        ensures
            !self.tables.base_table@.contains(InferVarOr::InferVar(var)),
            self.perms_closed() ==> !self.tables.perm_table@.contains(PermData::Inferred(var)),
    {
        if self.tables.base_table@.contains(InferVarOr::InferVar(var)) {
            let at = self.tables.base_table@.index_of(InferVarOr::InferVar(var));
            self.tables.base_table.lemma_len_fits();
            assert(0 <= at < self.tables.base_table@.len());
            assert(self.tables.base_table@[at] == InferVarOr::<
                BaseDataView<FullInference>,
            >::InferVar(var));
            assert(self.has_base(Base { index: at as usize }));
        }
        if self.perms_closed() && self.tables.perm_table@.contains(PermData::Inferred(var)) {
            let at = self.tables.perm_table@.index_of(PermData::Inferred(var));
            assert(self.tables.perm_table@[at] == PermData::Inferred(var));
        }
    }

    /// What is known of `base`: the key of the known structure that it
    /// stands for, or else the variable that stands for its unbound class.
    pub open spec fn resolve(&self, base: Base) -> Result<Base, InferVar> {
        match self.base_entry(base) {
            InferVarOr::Known(_) => Ok(base),
            InferVarOr::InferVar(var) => match self.unify.value(var) {
                Some(bound) => Ok(bound),
                None => Err(self.unify.root(var)),
            },
        }
    }

    /// The known structure that the key `base` stands for.
    pub open spec fn known_data(&self, base: Base) -> BaseDataView<FullInference> {
        self.base_entry(base)->Known_0
    }

    /// The variables that the bases `values` are still waiting for, in the
    /// order of `values`.
    pub open spec fn unresolved(&self, values: Seq<Base>) -> Seq<InferVar>
        decreases values.len(),
    {
        if values.len() == 0 {
            Seq::empty()
        } else {
            let earlier = self.unresolved(values.drop_last());
            match self.resolve(values.last()) {
                Ok(_) => earlier,
                Err(var) => earlier.push(var),
            }
        }
    }

    /// What is known of `base`, by its key.
    pub fn shallow_resolve(&self, base: Base) -> (result: Result<Base, InferVar>)
        requires
            self.wf(),
            self.has_base(base),
        ensures
            result == self.resolve(base),
            match result {
                Ok(known) => self.has_base(known) && self.base_entry(known) is Known,
                Err(var) => self.unify.contains(var) && self.unify.value(var) is None
                    && self.unify.root(var) == var,
            },
    {
        match self.tables.lookup_base(base) {
            InferVarOr::Known(_) => Ok(base),
            InferVarOr::InferVar(var) => {
                proof {
                    self.unify.lemma_root(var);
                }
                match self.unify.probe(var) {
                    Some(bound) => Ok(bound),
                    None => Err(self.unify.find(var)),
                }
            },
        }
    }

    /// What is known of `base`: the structure that it stands for, or else
    /// the variable that stands for its unbound class.
    pub fn shallow_resolve_data(&self, base: Base) -> (result: Result<
        BaseData<FullInference>,
        InferVar,
    >)
        requires
            self.wf(),
            self.has_base(base),
        ensures
            match result {
                Ok(data) => self.resolve(base) is Ok && data@ == self.known_data(
                    self.resolve(base)->Ok_0,
                ),
                Err(var) => self.resolve(base) == Err::<Base, InferVar>(var),
            },
    {
        match self.shallow_resolve(base) {
            Ok(known) => match self.tables.lookup_base(known) {
                InferVarOr::Known(data) => Ok(data),
                // A base resolves to a known one: this does not come about.
                InferVarOr::InferVar(var) => Err(var),
            },
            Err(var) => Err(var),
        }
    }

    /// What is known of the permission `perm`: its kind, or else the
    /// variable that it goes with.
    pub fn shallow_resolve_perm(&self, perm: Perm) -> (result: Result<PermKind, InferVar>)
        requires
            self.wf(),
            perm.index < self.tables.perm_table@.len(),
        ensures
            result == match self.tables.perm_table@[perm.index as int] {
                PermData::Known(kind) => Ok::<PermKind, InferVar>(kind),
                PermData::Inferred(var) => Err(var),
            },
    {
        match self.tables.lookup_perm(perm) {
            PermData::Known(kind) => Ok(kind),
            PermData::Inferred(var) => Err(var),
        }
    }

    /// Whether `later` differs from `self` in its scheduler alone, where the
    /// operation `op` is stored under the unused index `index` and waits for
    /// each variable that one of its values is waiting for.
    pub open spec fn with_enqueued(&self, later: &Self, op: DeferredOp, index: OpIndex) -> bool {
        &&& later.entities == self.entities
        &&& later.generics == self.generics
        &&& later.tables == self.tables
        &&& later.unify == self.unify
        &&& later.universe_binders == self.universe_binders
        &&& later.errors == self.errors
        &&& later.constraints == self.constraints
        &&& !self.ops.pending().dom().contains(index)
        &&& !self.ops.is_listed(index)
        &&& later.ops.pending() == self.ops.pending().insert(index, op)
        &&& later.ops.retired() == self.ops.retired()
        &&& later.ops.enqueued() == self.ops.enqueued() + 1
        &&& later.ops.waiting() == blocked_on(
            self.ops.waiting(),
            self.unresolved(op.values@),
            index,
        )
    }

    /// Stores `op`, to be woken when one of the variables that its values
    /// are waiting for is resolved.
    fn enqueue(&mut self, op: DeferredOp) -> (index: OpIndex)
        requires
            old(self).wf(),
            old(self).ops.has_room(),
            forall|i: int| 0 <= i < op.values@.len() ==> old(self).has_base(#[trigger] op.values@[i]),
            old(self).unresolved(op.values@).len() > 0,
        ensures
            final(self).wf(),
            old(self).with_enqueued(final(self), op, index),
    {
        let mut vars: Vec<InferVar> = Vec::new();
        let mut i: usize = 0;
        while i < op.values.len()
            invariant
                i <= op.values@.len(),
                self.wf(),
                forall|k: int| 0 <= k < op.values@.len() ==> self.has_base(#[trigger] op.values@[k]),
                vars@ == self.unresolved(op.values@.subrange(0, i as int)),
                forall|k: int|
                    0 <= k < vars@.len() ==> self.unify.contains(#[trigger] vars@[k])
                        && self.unify.value(vars@[k]) is None && self.unify.root(vars@[k])
                        == vars@[k],
            decreases op.values@.len() - i,
        {
            proof {
                assert(op.values@.subrange(0, i + 1).drop_last() =~= op.values@.subrange(
                    0,
                    i as int,
                ));
                assert(op.values@.subrange(0, i + 1).last() == op.values@[i as int]);
            }
            match self.shallow_resolve(op.values[i]) {
                Ok(_) => {},
                Err(var) => {
                    vars.push(var);
                },
            }
            i += 1;
        }
        proof {
            assert(op.values@.subrange(0, i as int) =~= op.values@);
        }
        let ghost waiting = self.ops.waiting();
        let index = self.ops.enqueue(&vars, op);
        proof {
            lemma_blocked_on(waiting, vars@, index);
            assert forall|var: InferVar| #[trigger]
                self.unify.contains(var) && self.ops.waiting()[var.index as int].len()
                    > 0 implies self.unify.value(var) is None && self.unify.root(var) == var by {
                if !vars@.contains(var) {
                    assert(self.ops.waiting()[var.index as int] == waiting[var.index as int]);
                } else {
                    let at = choose|at: int| 0 <= at < vars@.len() && vars@[at] == var;
                    assert(vars@[at] == var);
                }
            }
            old(self).lemma_scheduler_changed(self);
        }
        index
    }

    /// Enqueues the continuation `op`, to be run when one of `values` is
    /// inferred. At least one of them must still be waiting for a variable:
    /// a continuation that waits for nothing is to be run at once instead.
    pub fn enqueue_op(&mut self, values: Vec<Base>, op: usize) -> (index: OpIndex)
        requires
            old(self).wf(),
            old(self).ops.has_room(),
            forall|i: int| 0 <= i < values@.len() ==> old(self).has_base(#[trigger] values@[i]),
            old(self).unresolved(values@).len() > 0,
        ensures
            final(self).wf(),
            old(self).with_enqueued(
                final(self),
                DeferredOp { values, op, equate: None },
                index,
            ),
    {
        self.enqueue(DeferredOp { values, op, equate: None })
    }

    /// Wakes the operations that wait for `var`, which has just been
    /// resolved: each operation on its wait list leaves the store, unless
    /// another variable has woken it before, and is handed out to be run.
    /// An operation is handed out once only.
    pub fn trigger_ops(&mut self, var: InferVar) -> (ops: Vec<DeferredOp>)
        requires
            old(self).wf(),
            old(self).unify.contains(var),
        ensures
            final(self).wf(),
            ops@ == woken(old(self).ops.pending(), old(self).ops.waiting()[var.index as int]),
            final(self).ops.pending() == old(self).ops.pending().remove_keys(
                old(self).ops.waiting()[var.index as int].to_set(),
            ),
            final(self).ops.waiting() == old(self).ops.waiting().update(
                var.index as int,
                Seq::empty(),
            ),
            final(self).ops.retired() == old(self).ops.retired() + ops@.len(),
            final(self).ops.enqueued() == old(self).ops.enqueued(),
            final(self).entities == old(self).entities,
            final(self).generics == old(self).generics,
            final(self).tables == old(self).tables,
            final(self).unify == old(self).unify,
            final(self).universe_binders == old(self).universe_binders,
            final(self).errors == old(self).errors,
            final(self).constraints == old(self).constraints,
    {
        let ops = self.ops.trigger(var);
        proof {
            old(self).lemma_scheduler_changed(self);
        }
        ops
    }

    /// Adds to `output`, in ascending order, each variable that an operation
    /// is still waiting for. Each of them is unresolved.
    pub fn untriggered_ops(&self, output: &mut Vec<InferVar>)
        requires
            self.wf(),
        ensures
            final(output)@ == old(output)@ + waited_for(
                self.ops.pending(),
                self.ops.waiting(),
                self.ops.waiting().len(),
            ),
    {
        self.ops.untriggered(output);
    }

    /// Every variable that an operation is waiting for is a variable of the
    /// store that is unbound and stands for its class.
    pub proof fn law_untriggered_unresolved(&self, count: nat, at: int)
        requires
            self.wf(),
            count <= self.ops.waiting().len(),
            0 <= at < waited_for(self.ops.pending(), self.ops.waiting(), count).len(),
        ensures
            self.unify.contains(waited_for(self.ops.pending(), self.ops.waiting(), count)[at]),
            self.unify.value(waited_for(self.ops.pending(), self.ops.waiting(), count)[at]) is None,
            self.unify.root(waited_for(self.ops.pending(), self.ops.waiting(), count)[at])
                == waited_for(self.ops.pending(), self.ops.waiting(), count)[at],
        decreases count,
    {
        let earlier = waited_for(self.ops.pending(), self.ops.waiting(), (count - 1) as nat);
        if at < earlier.len() {
            self.law_untriggered_unresolved((count - 1) as nat, at);
        } else {
            self.unify.lemma_len_fits();
            let var = InferVar { index: (count - 1) as usize };
            let list = self.ops.waiting()[count - 1];
            let live = choose|live: int|
                0 <= live < list.len() && self.ops.pending().dom().contains(#[trigger] list[live]);
            assert(self.unify.contains(var));
            assert(self.ops.waiting()[var.index as int].len() > 0);
        }
    }
}

/// What came of asking for the structure of a base.
pub enum BaseDataStep {
    /// The structure is known: the continuation is to be run with it now.
    Known(BaseData<FullInference>),
    /// The structure is not known yet: the continuation has been enqueued
    /// under this index.
    Enqueued(OpIndex),
}

impl TypeChecker {
    /// Whether `later` differs from `self` in that the continuation `op`
    /// waits for `base`, under the unused index `index`, and is to have its
    /// result equated as `equate` says.
    pub open spec fn with_waiting(
        &self,
        later: &Self,
        base: Base,
        op: usize,
        equate: EquateWith,
        index: OpIndex,
    ) -> bool {
        &&& later.ops.pending().dom().contains(index)
        &&& later.ops.pending()[index].values@ == seq![base]
        &&& later.ops.pending()[index].op == op
        &&& later.ops.pending()[index].equate == Some(equate)
        &&& self.with_enqueued(later, later.ops.pending()[index], index)
    }

    /// Runs the continuation `op` on the structure of `base` and equates
    /// the result as `equate` says, as far as that can be done now. Where
    /// the structure is known, it is the result, and the caller is to run
    /// the continuation with it and equate what that gives; nothing has
    /// changed. Where it is not known yet, the continuation is enqueued to
    /// be tried again when the variable behind `base` is resolved.
    pub fn with_base_data_equate(&mut self, base: Base, op: usize, equate: EquateWith) -> (step:
        BaseDataStep)
        requires
            old(self).wf(),
            old(self).ops.has_room(),
            old(self).has_base(base),
        ensures
            final(self).wf(),
            match step {
                BaseDataStep::Known(data) => {
                    &&& *final(self) == *old(self)
                    &&& old(self).resolve(base) is Ok
                    &&& data@ == old(self).known_data(old(self).resolve(base)->Ok_0)
                },
                BaseDataStep::Enqueued(index) => {
                    &&& old(self).resolve(base) is Err
                    &&& old(self).with_waiting(final(self), base, op, equate, index)
                },
            },
    {
        match self.shallow_resolve_data(base) {
            Ok(data) => BaseDataStep::Known(data),
            Err(var) => {
                let mut values: Vec<Base> = Vec::new();
                values.push(base);
                proof {
                    assert(values@ =~= seq![base]);
                    assert(values@.drop_last() =~= Seq::<Base>::empty());
                    assert(self.unresolved(values@.drop_last()) =~= Seq::<InferVar>::empty());
                    assert(self.unresolved(values@) =~= seq![var]);
                }
                let index = self.enqueue(DeferredOp { values, op, equate: Some(equate) });
                proof {
                    assert(self.ops.pending().dom().contains(index));
                }
                BaseDataStep::Enqueued(index)
            },
        }
    }
}

/// What came of asking for the result of a continuation that needs the
/// structure of a base.
pub enum WithBaseData {
    /// The structure is known: the continuation is to be run with it now,
    /// and what it gives is the result.
    Known(BaseData<FullInference>),
    /// The structure is not known yet: the fresh variable `var` stands for
    /// the result, and the continuation has been enqueued under `index`.
    Deferred { var: Ty<FullInference>, index: OpIndex },
}

impl TypeChecker {
    /// Whether `later` differs from `self` in that the fresh variable `var`
    /// stands for the result of the continuation `op`, which waits for
    /// `base` under the unused index `index`.
    pub open spec fn with_deferred(
        &self,
        later: &Self,
        cause: Span,
        location: HirLocation,
        base: Base,
        op: usize,
        var: Ty<FullInference>,
        index: OpIndex,
    ) -> bool {
        let fresh = InferVar { index: self.unify.len() as usize };
        &&& self.resolve(base) is Err
        &&& self.unify.grown_by(&later.unify, fresh)
        &&& later.is_variable(var, fresh)
        &&& later.tables.base_table@ == self.tables.base_table@.push(InferVarOr::InferVar(fresh))
        &&& later.tables.perm_table@ == self.tables.perm_table@.push(PermData::Inferred(fresh))
        &&& !self.ops.pending().dom().contains(index)
        &&& !self.ops.is_listed(index)
        &&& later.ops.pending().dom().contains(index)
        &&& later.ops.pending() == self.ops.pending().insert(index, later.ops.pending()[index])
        &&& later.ops.pending()[index].values@ == seq![base]
        &&& later.ops.pending()[index].op == op
        &&& later.ops.pending()[index].equate == Some(EquateWith { cause, location, var })
        &&& later.ops.retired() == self.ops.retired()
        &&& later.ops.enqueued() == self.ops.enqueued() + 1
        &&& later.ops.waiting() == blocked_on(
            self.ops.waiting().push(Seq::empty()),
            seq![self.resolve(base)->Err_0],
            index,
        )
        &&& later.entities == self.entities
        &&& later.generics == self.generics
        &&& later.universe_binders == self.universe_binders
        &&& later.errors == self.errors
        &&& later.constraints == self.constraints
    }

    /// Gives the result of the continuation `op`, which needs the structure
    /// of `base`. Where the structure is known, the caller is to run the
    /// continuation with it, and nothing has changed. Where it is not, a
    /// fresh variable stands for the result: once the structure is known,
    /// the continuation is to be run and what it gives equated with the
    /// variable, at `location` and on behalf of `cause`.
    pub fn with_base_data(&mut self, cause: Span, location: HirLocation, base: Base, op: usize) -> (result:
        WithBaseData)
        requires
            old(self).wf(),
            old(self).ops.has_room(),
            old(self).has_base(base),
        ensures
            final(self).wf(),
            match result {
                WithBaseData::Known(data) => {
                    &&& *final(self) == *old(self)
                    &&& old(self).resolve(base) is Ok
                    &&& data@ == old(self).known_data(old(self).resolve(base)->Ok_0)
                },
                WithBaseData::Deferred { var, index } => old(self).with_deferred(
                    final(self),
                    cause,
                    location,
                    base,
                    op,
                    var,
                    index,
                ),
            },
    {
        match self.shallow_resolve_data(base) {
            Ok(data) => WithBaseData::Known(data),
            Err(root) => {
                let var = self.new_variable();
                let ghost mid = *self;
                proof {
                    assert(mid.base_entry(base) == old(self).base_entry(base));
                    assert(mid.resolve(base) == old(self).resolve(base));
                    assert(mid.unresolved(seq![base].drop_last()) =~= Seq::<InferVar>::empty());
                    assert(mid.unresolved(seq![base]) =~= seq![root]);
                }
                match self.with_base_data_equate(base, op, EquateWith { cause, location, var }) {
                    // A fresh variable resolves nothing: this does not come
                    // about.
                    BaseDataStep::Known(data) => WithBaseData::Known(data),
                    BaseDataStep::Enqueued(index) => {
                        proof {
                            if old(self).ops.is_listed(index) {
                                let (v, at) = choose|v: int, at: int|
                                    0 <= v < old(self).ops.waiting().len() && 0 <= at < old(
                                        self,
                                    ).ops.waiting()[v].len() && #[trigger] old(
                                        self,
                                    ).ops.waiting()[v][at] == index;
                                assert(mid.ops.waiting()[v][at] == index);
                                assert(mid.ops.is_listed(index));
                            }
                        }
                        WithBaseData::Deferred { var, index }
                    },
                }
            },
        }
    }
}

} // verus!
