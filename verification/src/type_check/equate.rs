//! Equating types: what it does to the state of a pass.
//!
//! Two types are equated by equating their bases. An unbound variable is
//! bound to what the other side is known to be, two unbound variables are
//! linked, and two known structures must agree in what they are and are
//! then equated argument by argument. Permissions are not compared here:
//! that two of them are to be the same is noted as a constraint.

use vstd::prelude::*;
use crate::entity::Span;
use crate::intern::{position_of, with_interned, Interner};
use crate::ty::{
    Atom, BaseDataView, BaseKind, Erased, Generic, GenericKind, Generics, InferVarOr,
    PermKind, Ty,
};
use crate::type_check::full_inference::{Base, FullInference, Perm, PermData};
use crate::type_check::scheduler::{woken, DeferredOp, HirLocation, OpIndex};
use crate::type_check::{Constraint, ConstraintAt, DiagnosticView, TypeChecker};
use crate::unify::InferVar;

verus! {

/// How deeply the generic arguments of two types are compared. Types that
/// are nested more deeply are reported as an error.
pub const RECURSION_LIMIT: usize = 64;

/// What equating changes of a pass, as a mathematical value.
pub struct PassState {
    /// What each base stands for.
    pub bases: Seq<InferVarOr<BaseDataView<FullInference>>>,
    /// What each permission stands for.
    pub perms: Seq<PermData>,
    /// For each variable, the variable that stands for its class.
    pub roots: Seq<InferVar>,
    /// For each variable, the base that its class is bound to.
    pub values: Seq<Option<Base>>,
    /// The operations that are waiting.
    pub pending: Map<OpIndex, DeferredOp>,
    /// The wait list of each variable.
    pub waiting: Seq<Seq<OpIndex>>,
    /// The number of operations that have been woken.
    pub retired: nat,
    /// The errors found.
    pub errors: Seq<DiagnosticView>,
    /// The constraints noted.
    pub constraints: Seq<ConstraintAt>,
}

/// The type that a generic argument is.
pub open spec fn type_of(generic: Generic<FullInference>) -> Ty<FullInference> {
    generic->Ty_0
}

/// The generic arguments of two structures, side by side.
pub open spec fn paired(
    left: Seq<Generic<FullInference>>,
    right: Seq<Generic<FullInference>>,
) -> Seq<(Ty<FullInference>, Ty<FullInference>)> {
    Seq::new(left.len(), |i: int| (type_of(left[i]), type_of(right[i])))
}

/// Each of `generics` beside the type `ty`.
pub open spec fn paired_with(ty: Ty<FullInference>, generics: Seq<Generic<FullInference>>) -> Seq<
    (Ty<FullInference>, Ty<FullInference>),
> {
    Seq::new(generics.len(), |i: int| (ty, type_of(generics[i])))
}

/// The structure of the type that stands for an error.
pub open spec fn error_entry() -> InferVarOr<BaseDataView<FullInference>> {
    InferVarOr::Known(BaseDataView { kind: BaseKind::Error, generics: Seq::empty() })
}

impl PassState {
    /// What is known of `base`: the key of the known structure that it
    /// stands for, or else the variable that stands for its unbound class.
    pub open spec fn resolve(self, base: Base) -> Result<Base, InferVar> {
        match self.bases[base.index as int] {
            InferVarOr::Known(_) => Ok(base),
            InferVarOr::InferVar(var) => match self.values[var.index as int] {
                Some(bound) => Ok(bound),
                None => Err(self.roots[var.index as int]),
            },
        }
    }

    /// The known structure that the key `base` stands for.
    pub open spec fn data(self, base: Base) -> BaseDataView<FullInference> {
        self.bases[base.index as int]->Known_0
    }

    /// The state after the operations that wait for `var` have been woken,
    /// and those operations.
    pub open spec fn woken_by(self, var: InferVar) -> (PassState, Seq<DeferredOp>) {
        let list = self.waiting[var.index as int];
        let ops = woken(self.pending, list);
        (
            PassState {
                pending: self.pending.remove_keys(list.to_set()),
                waiting: self.waiting.update(var.index as int, Seq::empty()),
                retired: self.retired + ops.len(),
                ..self
            },
            ops,
        )
    }

    /// The state after the class of `var` has been bound to `base`.
    pub open spec fn bound(self, var: InferVar, base: Base) -> PassState {
        PassState {
            values: Seq::new(
                self.values.len(),
                |other: int|
                    if self.roots[other] == self.roots[var.index as int] {
                        Some(base)
                    } else {
                        self.values[other]
                    },
            ),
            ..self
        }
    }

    /// The state after the classes of the roots `a` and `b` have been
    /// joined: the earlier of the two stands for the joined class.
    pub open spec fn linked(self, a: InferVar, b: InferVar) -> PassState {
        let to = if a.index < b.index {
            a
        } else {
            b
        };
        PassState {
            roots: Seq::new(
                self.roots.len(),
                |other: int|
                    if self.roots[other] == a || self.roots[other] == b {
                        to
                    } else {
                        self.roots[other]
                    },
            ),
            ..self
        }
    }

    /// The state after an error with the text `label` has been recorded at
    /// `span`.
    pub open spec fn with_error(self, label: Seq<char>, span: Span) -> PassState {
        PassState { errors: self.errors.push(DiagnosticView { label, span }), ..self }
    }

    /// The state after the type that stands for an error has been made.
    pub open spec fn with_error_type(self) -> PassState {
        PassState {
            bases: with_interned(self.bases, error_entry()),
            perms: with_interned(self.perms, PermData::Known(PermKind::Own)),
            ..self
        }
    }

    /// The type that stands for an error, once it has been made.
    pub open spec fn error_type(self) -> Ty<FullInference> {
        Ty {
            repr: Erased,
            perm: Perm { index: position_of(self.perms, PermData::Known(PermKind::Own)) as usize },
            base: Base { index: position_of(self.bases, error_entry()) as usize },
        }
    }

    /// The state after it has been noted, where the permissions of `a` and
    /// `b` are two, that they are to be the same.
    pub open spec fn with_perms_equated(
        self,
        cause: Span,
        location: HirLocation,
        a: Perm,
        b: Perm,
    ) -> PassState {
        if a == b {
            self
        } else {
            PassState {
                constraints: self.constraints.push(
                    ConstraintAt { cause, location, constraint: Constraint::PermEquate { a, b } },
                ),
                ..self
            }
        }
    }
}

/// The state after `a` and `b` have been equated on behalf of `cause`, and
/// the operations that this has woken, in the order in which they were
/// woken. Generic arguments are compared down to `depth` levels.
pub open spec fn equated(
    state: PassState,
    cause: Span,
    location: HirLocation,
    a: Ty<FullInference>,
    b: Ty<FullInference>,
    depth: nat,
) -> (PassState, Seq<DeferredOp>)
    decreases depth, 1nat,
{
    let state = state.with_perms_equated(cause, location, a.perm, b.perm);
    match (state.resolve(a.base), state.resolve(b.base)) {
        (Err(var_a), Err(var_b)) => {
            if var_a == var_b {
                (state, Seq::empty())
            } else {
                let later = if var_a.index < var_b.index {
                    var_b
                } else {
                    var_a
                };
                let (state, ops) = state.woken_by(later);
                (state.linked(var_a, var_b), ops)
            }
        },
        (Err(var_a), Ok(known_b)) => {
            let (state, ops) = state.woken_by(var_a);
            (state.bound(var_a, known_b), ops)
        },
        (Ok(known_a), Err(var_b)) => {
            let (state, ops) = state.woken_by(var_b);
            (state.bound(var_b, known_a), ops)
        },
        (Ok(known_a), Ok(known_b)) => {
            let data_a = state.data(known_a);
            let data_b = state.data(known_b);
            if known_a == known_b {
                (state, Seq::empty())
            } else if data_a.kind is Error {
                propagated(state, cause, data_b.generics, depth)
            } else if data_b.kind is Error {
                propagated(state, cause, data_a.generics, depth)
            } else if data_a.kind != data_b.kind || data_a.generics.len()
                != data_b.generics.len() {
                (state.with_error(mismatched_types(), cause), Seq::empty())
            } else if data_a.generics.len() == 0 {
                (state, Seq::empty())
            } else if depth == 0 {
                (state.with_error(nested_too_deeply(), cause), Seq::empty())
            } else {
                equated_all(
                    state,
                    cause,
                    location,
                    paired(data_a.generics, data_b.generics),
                    (depth - 1) as nat,
                )
            }
        },
    }
}

/// The state after each of `generics` has been equated with the type that
/// stands for an error, and the operations that this has woken.
pub open spec fn propagated(
    state: PassState,
    cause: Span,
    generics: Seq<Generic<FullInference>>,
    depth: nat,
) -> (PassState, Seq<DeferredOp>)
    decreases depth, 0nat,
{
    if generics.len() == 0 {
        (state, Seq::empty())
    } else if depth == 0 {
        (state.with_error(nested_too_deeply(), cause), Seq::empty())
    } else {
        let state = state.with_error_type();
        equated_all(
            state,
            cause,
            HirLocation::Error,
            paired_with(state.error_type(), generics),
            (depth - 1) as nat,
        )
    }
}

/// The state after the two types of each pair have been equated, in the
/// order of `pairs`, and the operations that this has woken.
pub open spec fn equated_all(
    state: PassState,
    cause: Span,
    location: HirLocation,
    pairs: Seq<(Ty<FullInference>, Ty<FullInference>)>,
    depth: nat,
) -> (PassState, Seq<DeferredOp>)
    decreases depth, pairs.len() + 2,
{
    if pairs.len() == 0 {
        (state, Seq::empty())
    } else {
        let (state, first) = equated(state, cause, location, pairs[0].0, pairs[0].1, depth);
        let (state, rest) = equated_all(state, cause, location, pairs.drop_first(), depth);
        (state, first + rest)
    }
}

/// Equating a type with itself changes nothing and wakes nothing.
pub proof fn law_equated_with_itself(
    state: PassState,
    cause: Span,
    location: HirLocation,
    ty: Ty<FullInference>,
    depth: nat,
)
    ensures
        equated(state, cause, location, ty, ty, depth) == (state, Seq::<DeferredOp>::empty()),
{
}

/// The text of the error for two types that do not agree.
pub open spec fn mismatched_types() -> Seq<char> {
    "mismatched types"@
}

/// The text of the error for types that are nested more deeply than they
/// are compared.
pub open spec fn nested_too_deeply() -> Seq<char> {
    "types are nested too deeply to be compared"@
}

impl TypeChecker {
    /// What equating changes of this pass.
    pub open spec fn state(&self) -> PassState {
        PassState {
            bases: self.tables.base_table@,
            perms: self.tables.perm_table@,
            roots: Seq::new(
                self.unify.len(),
                |var: int| self.unify.root(InferVar { index: var as usize }),
            ),
            values: Seq::new(
                self.unify.len(),
                |var: int| self.unify.value(InferVar { index: var as usize }),
            ),
            pending: self.ops.pending(),
            waiting: self.ops.waiting(),
            retired: self.ops.retired(),
            errors: Seq::new(self.errors@.len(), |i: int| self.errors@[i]@),
            constraints: self.constraints@,
        }
    }
}

/// The generic arguments of two structures that have equally many, side by
/// side.
fn pair_up(left: &Generics<FullInference>, right: &Generics<FullInference>) -> (pairs: Vec<
    (Ty<FullInference>, Ty<FullInference>),
>)
    requires
        left@.len() == right@.len(),
    ensures
        pairs@ == paired(left@, right@),
{
    let mut pairs: Vec<(Ty<FullInference>, Ty<FullInference>)> = Vec::new();
    let mut i: usize = 0;
    while i < left.len()
        invariant
            i <= left@.len(),
            left@.len() == right@.len(),
            pairs@ == paired(left@, right@).subrange(0, i as int),
        decreases left@.len() - i,
    {
        match (left.get(i), right.get(i)) {
            (GenericKind::Ty(a), GenericKind::Ty(b)) => {
                pairs.push((a, b));
            },
        }
        assert(pairs@ =~= paired(left@, right@).subrange(0, i + 1));
        i += 1;
    }
    assert(pairs@ =~= paired(left@, right@));
    pairs
}

/// Each of `generics` beside the type `ty`.
fn pair_with(ty: Ty<FullInference>, generics: &Generics<FullInference>) -> (pairs: Vec<
    (Ty<FullInference>, Ty<FullInference>),
>)
    ensures
        pairs@ == paired_with(ty, generics@),
{
    let mut pairs: Vec<(Ty<FullInference>, Ty<FullInference>)> = Vec::new();
    let mut i: usize = 0;
    while i < generics.len()
        invariant
            i <= generics@.len(),
            pairs@ == paired_with(ty, generics@).subrange(0, i as int),
        decreases generics@.len() - i,
    {
        match generics.get(i) {
            GenericKind::Ty(other) => {
                pairs.push((ty, other));
            },
        }
        assert(pairs@ =~= paired_with(ty, generics@).subrange(0, i + 1));
        i += 1;
    }
    assert(pairs@ =~= paired_with(ty, generics@));
    pairs
}

impl TypeChecker {
    /// The state of a pass resolves a base as the pass does.
    pub proof fn lemma_resolve_state(&self, base: Base)
        requires
            self.wf(),
            self.has_base(base),
        ensures
            self.state().resolve(base) == self.resolve(base),
            self.state().data(base) == self.known_data(base),
    {
        match self.base_entry(base) {
            InferVarOr::Known(_) => {},
            InferVarOr::InferVar(var) => {
                assert(self.unify.contains(var));
                assert(InferVar { index: var.index as int as usize } == var);
            },
        }
    }

    /// Whether equating has left alone what it does not change, and has
    /// kept what it only adds to: the keys and the bindings that there were
    /// are there, no operation has come to wait, and the errors and the
    /// constraints that there were come first.
    pub open spec fn kept_by_equating(&self, later: &Self) -> bool {
        &&& later.entities == self.entities
        &&& later.generics == self.generics
        &&& later.universe_binders == self.universe_binders
        &&& later.unify.len() == self.unify.len()
        &&& self.unify.keeps_bindings(&later.unify)
        &&& self.tables.base_table@.is_prefix_of(later.tables.base_table@)
        &&& self.tables.perm_table@.is_prefix_of(later.tables.perm_table@)
        &&& later.ops.pending().submap_of(self.ops.pending())
        &&& later.ops.enqueued() == self.ops.enqueued()
        &&& self.errors@.is_prefix_of(later.errors@)
        &&& self.constraints@.is_prefix_of(later.constraints@)
    }

    /// What equating keeps, it keeps over any number of steps.
    pub proof fn lemma_kept_on(&self, then: &Self, later: &Self)
        requires
            self.kept_by_equating(then),
            then.kept_by_equating(later),
        ensures
            self.kept_by_equating(later),
    {
        assert forall|var: InferVar|
            self.unify.contains(var) && self.unify.value(
                var,
            ) is Some implies #[trigger] later.unify.value(var) == self.unify.value(var) by {
            assert(then.unify.value(var) == self.unify.value(var));
        }
        assert forall|index: OpIndex| #[trigger]
            later.ops.pending().dom().contains(index) implies self.ops.pending().dom().contains(
            index,
        ) && later.ops.pending()[index] == self.ops.pending()[index] by {
            assert(then.ops.pending().dom().contains(index));
        }
        assert(self.errors@ =~= later.errors@.subrange(0, self.errors@.len() as int)) by {
            assert(self.errors@ =~= then.errors@.subrange(0, self.errors@.len() as int));
            assert(then.errors@ =~= later.errors@.subrange(0, then.errors@.len() as int));
        }
        assert(self.tables.base_table@ =~= later.tables.base_table@.subrange(
            0,
            self.tables.base_table@.len() as int,
        )) by {
            assert(self.tables.base_table@ =~= then.tables.base_table@.subrange(
                0,
                self.tables.base_table@.len() as int,
            ));
            assert(then.tables.base_table@ =~= later.tables.base_table@.subrange(
                0,
                then.tables.base_table@.len() as int,
            ));
        }
        assert(self.tables.perm_table@ =~= later.tables.perm_table@.subrange(
            0,
            self.tables.perm_table@.len() as int,
        )) by {
            assert(self.tables.perm_table@ =~= then.tables.perm_table@.subrange(
                0,
                self.tables.perm_table@.len() as int,
            ));
            assert(then.tables.perm_table@ =~= later.tables.perm_table@.subrange(
                0,
                then.tables.perm_table@.len() as int,
            ));
        }
        assert(self.constraints@ =~= later.constraints@.subrange(
            0,
            self.constraints@.len() as int,
        )) by {
            assert(self.constraints@ =~= then.constraints@.subrange(
                0,
                self.constraints@.len() as int,
            ));
            assert(then.constraints@ =~= later.constraints@.subrange(
                0,
                then.constraints@.len() as int,
            ));
        }
    }

    /// Equating keeps a pass that differs from an earlier one in its store
    /// of variables alone, where that has kept its bindings, or in what it
    /// has added to its tables.
    pub proof fn lemma_kept_as_is(&self, later: &Self)
        requires
            later.entities == self.entities,
            later.generics == self.generics,
            later.universe_binders == self.universe_binders,
            later.unify.len() == self.unify.len(),
            self.unify.keeps_bindings(&later.unify),
            self.tables.base_table@.is_prefix_of(later.tables.base_table@),
            self.tables.perm_table@.is_prefix_of(later.tables.perm_table@),
            later.ops == self.ops,
            later.errors == self.errors,
            later.constraints == self.constraints,
        ensures
            self.kept_by_equating(later),
    {
        assert(self.errors@ =~= later.errors@.subrange(0, self.errors@.len() as int));
        assert(self.constraints@ =~= later.constraints@.subrange(
            0,
            self.constraints@.len() as int,
        ));
    }

    /// Wakes the operations that wait for `var` and adds them to `woken`.
    fn wake(&mut self, var: InferVar, woken: &mut Vec<DeferredOp>)
        requires
            old(self).wf(),
            old(self).unify.contains(var),
        ensures
            final(self).wf(),
            final(self).state() == old(self).state().woken_by(var).0,
            final(woken)@ == old(woken)@ + old(self).state().woken_by(var).1,
            final(self).entities == old(self).entities,
            final(self).generics == old(self).generics,
            final(self).universe_binders == old(self).universe_binders,
            final(self).tables == old(self).tables,
            final(self).unify == old(self).unify,
            old(self).kept_by_equating(final(self)),
    {
        let mut ops = self.trigger_ops(var);
        woken.append(&mut ops);
        proof {
            let expected = old(self).state().woken_by(var).0;
            assert(self.state().roots =~= expected.roots);
            assert(self.state().values =~= expected.values);
            assert(self.state().errors =~= expected.errors);
            assert(self.errors@ =~= self.errors@.subrange(0, self.errors@.len() as int));
            assert(self.constraints@ =~= self.constraints@.subrange(
                0,
                self.constraints@.len() as int,
            ));
        }
    }

    /// Binds the unbound variable `var` to the known base `known`, and adds
    /// the operations that were waiting for it to `woken`.
    fn bind_variable(&mut self, var: InferVar, known: Base, woken: &mut Vec<DeferredOp>)
        requires
            old(self).wf(),
            old(self).unify.contains(var),
            old(self).unify.value(var) is None,
            old(self).unify.root(var) == var,
            old(self).has_base(known),
            old(self).base_entry(known) is Known,
        ensures
            final(self).wf(),
            final(self).state() == old(self).state().woken_by(var).0.bound(var, known),
            final(woken)@ == old(woken)@ + old(self).state().woken_by(var).1,
            old(self).kept_by_equating(final(self)),
    {
        self.wake(var, woken);
        let ghost before = *self;
        let _ = self.unify.bind(var, known);
        proof {
            let expected = before.state().bound(var, known);
            assert(self.state().roots =~= expected.roots);
            assert(self.state().values =~= expected.values) by {
                assert forall|other: int| 0 <= other < self.unify.len() implies self.state().values[other]
                    == expected.values[other] by {
                    let as_var = InferVar { index: other as usize };
                    assert(before.unify.contains(as_var));
                    assert(self.unify.value(as_var) == (if before.unify.root(as_var)
                        == before.unify.root(var) {
                        Some(known)
                    } else {
                        before.unify.value(as_var)
                    }));
                }
            }
            assert(self.state().errors =~= expected.errors);
            assert forall|other: InferVar| #[trigger] self.unify.contains(other) implies match self.unify.value(
                other,
            ) {
                Some(base) => self.has_base(base) && self.base_entry(base) is Known,
                None => true,
            } by {
                assert(before.unify.contains(other));
                assert(self.unify.value(other) == (if before.unify.root(other)
                    == before.unify.root(var) {
                    Some(known)
                } else {
                    before.unify.value(other)
                }));
            }
            assert forall|other: InferVar| #[trigger]
                self.unify.contains(other) && self.ops.waiting()[other.index as int].len()
                    > 0 implies self.unify.value(other) is None && self.unify.root(other)
                == other by {
                assert(before.unify.contains(other));
                assert(self.unify.root(other) == before.unify.root(other));
                assert(self.unify.value(other) == (if before.unify.root(other)
                    == before.unify.root(var) {
                    Some(known)
                } else {
                    before.unify.value(other)
                }));
            }
            before.lemma_closed_kept(self);
            before.lemma_kept_as_is(self);
            old(self).lemma_kept_on(&before, self);
        }
    }

    /// The tables stay closed while they stay as they are and no variable
    /// leaves the store.
    pub proof fn lemma_closed_kept(&self, later: &Self)
        requires
            self.wf(),
            later.tables == self.tables,
            later.unify.len() == self.unify.len(),
        ensures
            later.bases_closed(),
            later.perms_closed(),
    {
        assert forall|base: Base| #[trigger] later.has_base(base) implies match later.base_entry(
            base,
        ) {
            InferVarOr::InferVar(var) => later.unify.contains(var),
            InferVarOr::Known(data) => forall|i: int|
                0 <= i < data.generics.len() ==> later.has_base(
                    (#[trigger] data.generics[i])->Ty_0.base,
                ) && data.generics[i]->Ty_0.perm.index < later.tables.perm_table@.len(),
        } by {
            assert(self.has_base(base));
            match self.base_entry(base) {
                InferVarOr::InferVar(var) => {},
                InferVarOr::Known(data) => {
                    assert forall|i: int| 0 <= i < data.generics.len() implies later.has_base(
                        (#[trigger] data.generics[i])->Ty_0.base,
                    ) && data.generics[i]->Ty_0.perm.index < later.tables.perm_table@.len() by {
                        assert(self.has_base(data.generics[i]->Ty_0.base));
                    }
                },
            }
        }
    }

    /// Links the two unbound variables `a` and `b`, which stand for two
    /// classes, and adds to `woken` the operations that were waiting for the
    /// later of the two, which no longer stands for a class.
    fn link_variables(&mut self, a: InferVar, b: InferVar, woken: &mut Vec<DeferredOp>)
        requires
            old(self).wf(),
            old(self).unify.contains(a),
            old(self).unify.contains(b),
            old(self).unify.value(a) is None,
            old(self).unify.value(b) is None,
            old(self).unify.root(a) == a,
            old(self).unify.root(b) == b,
            a != b,
        ensures
            final(self).wf(),
            final(self).state() == old(self).state().woken_by(
                if a.index < b.index {
                    b
                } else {
                    a
                },
            ).0.linked(a, b),
            final(woken)@ == old(woken)@ + old(self).state().woken_by(
                if a.index < b.index {
                    b
                } else {
                    a
                },
            ).1,
            old(self).kept_by_equating(final(self)),
    {
        let later = if a.index < b.index {
            b
        } else {
            a
        };
        self.wake(later, woken);
        let ghost before = *self;
        let _ = self.unify.union(a, b);
        proof {
            let expected = before.state().linked(a, b);
            assert(before.unify.joins(a, b));
            assert(self.state().roots =~= expected.roots) by {
                assert forall|other: int| 0 <= other < self.unify.len() implies self.state().roots[other]
                    == expected.roots[other] by {
                    let as_var = InferVar { index: other as usize };
                    assert(before.unify.contains(as_var));
                    assert(self.unify.root(as_var) == (if before.unify.joins(a, b)
                        && before.unify.in_either(a, b, as_var) {
                        if before.unify.root(a).index < before.unify.root(b).index {
                            before.unify.root(a)
                        } else {
                            before.unify.root(b)
                        }
                    } else {
                        before.unify.root(as_var)
                    }));
                }
            }
            assert(self.state().values =~= expected.values) by {
                assert forall|other: int| 0 <= other < self.unify.len() implies self.state().values[other]
                    == expected.values[other] by {
                    let as_var = InferVar { index: other as usize };
                    assert(before.unify.contains(as_var));
                    before.unify.lemma_root(as_var);
                    assert(self.unify.value(as_var) == (if before.unify.joins(a, b)
                        && before.unify.in_either(a, b, as_var) {
                        if before.unify.value(a) is Some {
                            before.unify.value(a)
                        } else {
                            before.unify.value(b)
                        }
                    } else {
                        before.unify.value(as_var)
                    }));
                    if before.unify.in_either(a, b, as_var) {
                        assert(before.unify.value(as_var) is None);
                    }
                }
            }
            assert(self.state().errors =~= expected.errors);
            assert forall|other: InferVar| #[trigger] self.unify.contains(other) implies match self.unify.value(
                other,
            ) {
                Some(base) => self.has_base(base) && self.base_entry(base) is Known,
                None => true,
            } by {
                assert(before.unify.contains(other));
                before.unify.lemma_root(other);
                assert(self.unify.value(other) == (if before.unify.joins(a, b)
                    && before.unify.in_either(a, b, other) {
                    if before.unify.value(a) is Some {
                        before.unify.value(a)
                    } else {
                        before.unify.value(b)
                    }
                } else {
                    before.unify.value(other)
                }));
            }
            assert forall|other: InferVar| #[trigger]
                self.unify.contains(other) && self.ops.waiting()[other.index as int].len()
                    > 0 implies self.unify.value(other) is None && self.unify.root(other)
                == other by {
                assert(before.unify.contains(other));
                assert(before.unify.root(other) == other);
                assert(self.unify.root(other) == (if before.unify.joins(a, b)
                    && before.unify.in_either(a, b, other) {
                    if before.unify.root(a).index < before.unify.root(b).index {
                        before.unify.root(a)
                    } else {
                        before.unify.root(b)
                    }
                } else {
                    before.unify.root(other)
                }));
                assert(self.unify.value(other) == (if before.unify.joins(a, b)
                    && before.unify.in_either(a, b, other) {
                    if before.unify.value(a) is Some {
                        before.unify.value(a)
                    } else {
                        before.unify.value(b)
                    }
                } else {
                    before.unify.value(other)
                }));
                assert(other != later);
            }
            before.lemma_closed_kept(self);
            before.lemma_kept_as_is(self);
            old(self).lemma_kept_on(&before, self);
        }
    }

    /// Records the error `label` at `span`.
    fn report(&mut self, label: &str, span: Span)
        requires
            old(self).wf(),
        ensures
            final(self).wf(),
            final(self).state() == old(self).state().with_error(label@, span),
            old(self).kept_by_equating(final(self)),
    {
        self.record_error(String::from_str(label), span);
        proof {
            let expected = old(self).state().with_error(label@, span);
            assert(self.state().roots =~= expected.roots);
            assert(self.state().values =~= expected.values);
            assert(self.state().errors =~= expected.errors);
            assert(old(self).errors@ =~= self.errors@.subrange(0, old(self).errors@.len() as int));
            assert(self.constraints@ =~= self.constraints@.subrange(
                0,
                self.constraints@.len() as int,
            ));
        }
    }

    /// Notes that the permissions `a` and `b` are to be the same, where
    /// they are two.
    fn equate_perms(&mut self, cause: Span, location: HirLocation, a: Perm, b: Perm)
        requires
            old(self).wf(),
        ensures
            final(self).wf(),
            final(self).state() == old(self).state().with_perms_equated(cause, location, a, b),
            final(self).tables == old(self).tables,
            final(self).unify == old(self).unify,
            final(self).ops == old(self).ops,
            old(self).kept_by_equating(final(self)),
    {
        if !a.same(&b) {
            self.constraints.push(
                ConstraintAt { cause, location, constraint: Constraint::PermEquate { a, b } },
            );
            proof {
                let expected = old(self).state().with_perms_equated(cause, location, a, b);
                assert(self.state().roots =~= expected.roots);
                assert(self.state().values =~= expected.values);
                assert(self.state().errors =~= expected.errors);
                old(self).lemma_scheduler_changed(self);
                assert(old(self).constraints@ =~= self.constraints@.subrange(
                    0,
                    old(self).constraints@.len() as int,
                ));
            }
        }
        proof {
            assert(old(self).errors@ =~= self.errors@.subrange(0, old(self).errors@.len() as int));
            if a == b {
                assert(self.constraints@ =~= self.constraints@.subrange(
                    0,
                    self.constraints@.len() as int,
                ));
            }
        }
    }

    /// Makes the type that stands for an error.
    fn make_error_type(&mut self) -> (ty: Ty<FullInference>)
        requires
            old(self).wf(),
        ensures
            final(self).wf(),
            final(self).state() == old(self).state().with_error_type(),
            ty == final(self).state().error_type(),
            final(self).has_base(ty.base),
            old(self).kept_by_equating(final(self)),
    {
        proof {
            self.tables.perm_table.entries_distinct();
            self.tables.base_table.entries_distinct();
            crate::intern::lemma_interned(self.tables.perm_table@, PermData::Known(PermKind::Own));
            crate::intern::lemma_interned(self.tables.base_table@, error_entry());
        }
        let ty = self.error_type();
        proof {
            let expected = old(self).state().with_error_type();
            assert(self.state().roots =~= expected.roots);
            assert(self.state().values =~= expected.values);
            assert(self.state().errors =~= expected.errors);
            self.tables.perm_table.entries_distinct();
            self.tables.base_table.entries_distinct();
            self.tables.perm_table.lemma_len_fits();
            self.tables.base_table.lemma_len_fits();
            let bases = self.tables.base_table@;
            let perms = self.tables.perm_table@;
            assert(bases[ty.base.index as int] == error_entry());
            assert(bases.contains(error_entry()));
            let base_at = bases.index_of(error_entry());
            assert(0 <= base_at < bases.len() && bases[base_at] == error_entry());
            assert(base_at == ty.base.index);
            assert(perms[ty.perm.index as int] == PermData::Known(PermKind::Own));
            assert(perms.contains(PermData::Known(PermKind::Own)));
            let perm_at = perms.index_of(PermData::Known(PermKind::Own));
            assert(0 <= perm_at < perms.len() && perms[perm_at] == PermData::Known(PermKind::Own));
            assert(perm_at == ty.perm.index);
            old(self).lemma_kept_as_is(self);
            let expected = self.state().error_type();
            assert(ty.repr == expected.repr);
            assert(ty.perm == expected.perm);
            assert(ty.base == expected.base);
        }
        ty
    }

    /// Equates `a` and `b`, comparing generic arguments down to `depth`
    /// levels, and adds the operations that this wakes to `woken`.
    fn equate_at(
        &mut self,
        cause: Span,
        location: HirLocation,
        a: Ty<FullInference>,
        b: Ty<FullInference>,
        depth: usize,
        woken: &mut Vec<DeferredOp>,
    )
        requires
            old(self).wf(),
            old(self).has_base(a.base),
            old(self).has_base(b.base),
        ensures
            final(self).wf(),
            final(self).state() == equated(old(self).state(), cause, location, a, b, depth as nat).0,
            final(woken)@ == old(woken)@ + equated(
                old(self).state(),
                cause,
                location,
                a,
                b,
                depth as nat,
            ).1,
            old(self).kept_by_equating(final(self)),
        decreases depth, 1nat,
    {
        self.equate_perms(cause, location, a.perm, b.perm);
        let ghost start = *self;
        proof {
            start.lemma_resolve_state(a.base);
            start.lemma_resolve_state(b.base);
            assert(woken@ + Seq::<DeferredOp>::empty() =~= woken@);
        }
        match (self.shallow_resolve(a.base), self.shallow_resolve(b.base)) {
            (Err(var_a), Err(var_b)) => {
                if var_a.index != var_b.index {
                    self.link_variables(var_a, var_b, woken);
                }
            },
            (Err(var_a), Ok(known_b)) => {
                self.bind_variable(var_a, known_b, woken);
            },
            (Ok(known_a), Err(var_b)) => {
                self.bind_variable(var_b, known_a, woken);
            },
            (Ok(known_a), Ok(known_b)) => {
                if known_a.index != known_b.index {
                    proof {
                        start.lemma_resolve_state(known_a);
                        start.lemma_resolve_state(known_b);
                    }
                    match (self.tables.lookup_base(known_a), self.tables.lookup_base(known_b)) {
                        (InferVarOr::Known(data_a), InferVarOr::Known(data_b)) => {
                            proof {
                                let known_data_a = self.base_entry(known_a)->Known_0;
                                let known_data_b = self.base_entry(known_b)->Known_0;
                                assert forall|i: int|
                                    0 <= i < data_a.generics@.len() implies self.has_base(
                                    type_of(#[trigger] data_a.generics@[i]).base,
                                ) by {
                                    assert(data_a.generics@[i] == known_data_a.generics[i]);
                                }
                                assert forall|i: int|
                                    0 <= i < data_b.generics@.len() implies self.has_base(
                                    type_of(#[trigger] data_b.generics@[i]).base,
                                ) by {
                                    assert(data_b.generics@[i] == known_data_b.generics[i]);
                                }
                            }
                            if data_a.kind.same(&BaseKind::Error) {
                                self.propagate(cause, &data_b.generics, depth, woken);
                            } else if data_b.kind.same(&BaseKind::Error) {
                                self.propagate(cause, &data_a.generics, depth, woken);
                            } else if !data_a.kind.same(&data_b.kind) || data_a.generics.len()
                                != data_b.generics.len() {
                                self.report("mismatched types", cause);
                            } else if data_a.generics.len() == 0 {
                            } else if depth == 0 {
                                self.report("types are nested too deeply to be compared", cause);
                            } else {
                                let pairs = pair_up(&data_a.generics, &data_b.generics);
                                self.equate_all(cause, location, &pairs, depth - 1, woken);
                            }
                        },
                        _ => {},
                    }
                }
            },
        }
    }

    /// Equates each of `generics` with the type that stands for an error,
    /// comparing down to `depth` levels, and adds the operations that this
    /// wakes to `woken`.
    fn propagate(
        &mut self,
        cause: Span,
        generics: &Generics<FullInference>,
        depth: usize,
        woken: &mut Vec<DeferredOp>,
    )
        requires
            old(self).wf(),
            forall|i: int|
                0 <= i < generics@.len() ==> old(self).has_base(
                    type_of(#[trigger] generics@[i]).base,
                ),
        ensures
            final(self).wf(),
            final(self).state() == propagated(old(self).state(), cause, generics@, depth as nat).0,
            final(woken)@ == old(woken)@ + propagated(
                old(self).state(),
                cause,
                generics@,
                depth as nat,
            ).1,
            old(self).kept_by_equating(final(self)),
        decreases depth, 0nat,
    {
        proof {
            assert(woken@ + Seq::<DeferredOp>::empty() =~= woken@);
        }
        if generics.len() == 0 {
        } else if depth == 0 {
            self.report("types are nested too deeply to be compared", cause);
        } else {
            let error = self.make_error_type();
            let pairs = pair_with(error, generics);
            self.equate_all(cause, HirLocation::Error, &pairs, depth - 1, woken);
        }
    }

    /// Equates the two types of each of `pairs`, in order, comparing
    /// generic arguments down to `depth` levels, and adds the operations
    /// that this wakes to `woken`.
    fn equate_all(
        &mut self,
        cause: Span,
        location: HirLocation,
        pairs: &Vec<(Ty<FullInference>, Ty<FullInference>)>,
        depth: usize,
        woken: &mut Vec<DeferredOp>,
    )
        requires
            old(self).wf(),
            forall|i: int|
                0 <= i < pairs@.len() ==> old(self).has_base((#[trigger] pairs@[i]).0.base) && old(
                    self,
                ).has_base(pairs@[i].1.base),
        ensures
            final(self).wf(),
            final(self).state() == equated_all(
                old(self).state(),
                cause,
                location,
                pairs@,
                depth as nat,
            ).0,
            final(woken)@ == old(woken)@ + equated_all(
                old(self).state(),
                cause,
                location,
                pairs@,
                depth as nat,
            ).1,
            old(self).kept_by_equating(final(self)),
        decreases depth, 2nat,
    {
        let ghost target = equated_all(old(self).state(), cause, location, pairs@, depth as nat);
        let mut i: usize = 0;
        proof {
            assert(pairs@.subrange(0, pairs@.len() as int) =~= pairs@);
        }
        while i < pairs.len()
            invariant
                i <= pairs@.len(),
                self.wf(),
                old(self).kept_by_equating(self),
                forall|k: int|
                    0 <= k < pairs@.len() ==> self.has_base((#[trigger] pairs@[k]).0.base)
                        && self.has_base(pairs@[k].1.base),
                target == equated_all(old(self).state(), cause, location, pairs@, depth as nat),
                equated_all(
                    self.state(),
                    cause,
                    location,
                    pairs@.subrange(i as int, pairs@.len() as int),
                    depth as nat,
                ).0 == target.0,
                woken@ + equated_all(
                    self.state(),
                    cause,
                    location,
                    pairs@.subrange(i as int, pairs@.len() as int),
                    depth as nat,
                ).1 == old(woken)@ + target.1,
            decreases pairs@.len() - i,
        {
            let ghost prior = *self;
            let ghost before = self.state();
            let ghost rest = pairs@.subrange(i as int, pairs@.len() as int);
            let ghost so_far = woken@;
            let (a, b) = pairs[i];
            proof {
                assert(rest[0] == pairs@[i as int]);
                assert(rest.drop_first() =~= pairs@.subrange(i + 1, pairs@.len() as int));
            }
            self.equate_at(cause, location, a, b, depth, woken);
            proof {
                let first = equated(before, cause, location, a, b, depth as nat);
                let later = equated_all(first.0, cause, location, rest.drop_first(), depth as nat);
                assert(equated_all(before, cause, location, rest, depth as nat) == (
                    later.0,
                    first.1 + later.1,
                ));
                assert(woken@ + later.1 =~= so_far + (first.1 + later.1));
                old(self).lemma_kept_on(&prior, self);
            }
            i += 1;
        }
        proof {
            assert(pairs@.subrange(i as int, pairs@.len() as int) =~= Seq::<
                (Ty<FullInference>, Ty<FullInference>),
            >::empty());
            assert(woken@ + Seq::<DeferredOp>::empty() =~= woken@);
        }
    }

    /// Equates the types `a` and `b` on behalf of `cause`, at `location`,
    /// and hands out the operations that were waiting for a variable which
    /// this has resolved: the caller is to run them.
    pub fn equate(
        &mut self,
        cause: Span,
        location: HirLocation,
        a: Ty<FullInference>,
        b: Ty<FullInference>,
    ) -> (woken: Vec<DeferredOp>)
        requires
            old(self).wf(),
            old(self).has_base(a.base),
            old(self).has_base(b.base),
        ensures
            final(self).wf(),
            final(self).state() == equated(
                old(self).state(),
                cause,
                location,
                a,
                b,
                RECURSION_LIMIT as nat,
            ).0,
            woken@ == equated(old(self).state(), cause, location, a, b, RECURSION_LIMIT as nat).1,
            old(self).kept_by_equating(final(self)),
    {
        let mut woken: Vec<DeferredOp> = Vec::new();
        self.equate_at(cause, location, a, b, RECURSION_LIMIT, &mut woken);
        proof {
            let ops = equated(old(self).state(), cause, location, a, b, RECURSION_LIMIT as nat).1;
            assert(Seq::<DeferredOp>::empty() + ops =~= ops);
        }
        woken
    }

    /// Equates each of `generics` with the type that stands for an error,
    /// so that nothing waits for what an error has made unknowable, and
    /// hands out the operations that this has woken.
    pub fn propagate_error(&mut self, cause: Span, generics: &Generics<FullInference>) -> (woken: Vec<
        DeferredOp,
    >)
        requires
            old(self).wf(),
            forall|i: int|
                0 <= i < generics@.len() ==> old(self).has_base(
                    type_of(#[trigger] generics@[i]).base,
                ),
        ensures
            final(self).wf(),
            final(self).state() == propagated(
                old(self).state(),
                cause,
                generics@,
                RECURSION_LIMIT as nat,
            ).0,
            woken@ == propagated(old(self).state(), cause, generics@, RECURSION_LIMIT as nat).1,
            old(self).kept_by_equating(final(self)),
    {
        let mut woken: Vec<DeferredOp> = Vec::new();
        self.propagate(cause, generics, RECURSION_LIMIT, &mut woken);
        proof {
            let ops = propagated(old(self).state(), cause, generics@, RECURSION_LIMIT as nat).1;
            assert(Seq::<DeferredOp>::empty() + ops =~= ops);
        }
        woken
    }
}

} // verus!
