//! Type checking with inference: types whose bases may still be unknown,
//! the store that unifies them, and the operations that wait for them.

use vstd::prelude::*;
use crate::entity::{EntityTable, Span};
use crate::intern::Interner;
use crate::ty::{BaseDataView, InferVarOr};
use crate::type_check::database::GenericsTable;
use crate::type_check::full_inference::{
    Base, FullInference, FullInferenceTables, Perm, PermData,
};
use crate::type_check::scheduler::{HirLocation, Scheduler};
use crate::unify::{InferVar, UnificationTable};

pub mod database;
pub mod equate;
pub mod full_inference;
pub mod generics;
pub mod ops;
pub mod scheduler;

verus! {

/// What introduced a universe.
#[derive(Clone, Copy, Debug, PartialEq, Eq, Hash, Structural)]
pub enum UniverseBinder {
    /// Nothing did: the universe is the root.
    Root,
    /// The generic parameters of an item, which are held rigid while the
    /// item is checked.
    FromItem(crate::entity::Entity),
}

/// An error found in the program that is being checked.
pub struct Diagnostic {
    pub label: String,
    pub span: Span,
}

/// A `Diagnostic` as a mathematical value.
pub struct DiagnosticView {
    pub label: Seq<char>,
    pub span: Span,
}

impl View for Diagnostic {
    type V = DiagnosticView;

    open spec fn view(&self) -> DiagnosticView {
        DiagnosticView { label: self.label@, span: self.span }
    }
}

/// A relation between permissions. Whether it holds is for the analysis of
/// permissions to find out.
#[derive(Clone, Copy, Debug, PartialEq, Eq, Hash, Structural)]
pub enum Constraint {
    /// The two permissions are to be the same.
    PermEquate { a: Perm, b: Perm },
}

/// A constraint, with where in the body it arises and on behalf of what.
#[derive(Clone, Copy, Debug, PartialEq, Eq, Hash, Structural)]
pub struct ConstraintAt {
    pub cause: Span,
    pub location: HirLocation,
    pub constraint: Constraint,
}

/// The state of one type-checking pass.
pub struct TypeChecker {
    /// The entities of the program.
    pub entities: EntityTable,
    /// The generic declarations of the entities.
    pub generics: GenericsTable,
    /// The tables behind the types of this pass.
    pub tables: FullInferenceTables,
    /// The inference variables for bases.
    pub unify: UnificationTable<Base>,
    /// The operations that wait for a base to be inferred.
    pub ops: Scheduler,
    /// What introduced each universe. The first universe is the root.
    pub universe_binders: Vec<UniverseBinder>,
    /// The errors found so far.
    pub errors: Vec<Diagnostic>,
    /// The relations between permissions that types were found to need.
    pub constraints: Vec<ConstraintAt>,
}

impl TypeChecker {
    /// Whether `base` is a key of this pass.
    pub open spec fn has_base(&self, base: Base) -> bool {
        base.index < self.tables.base_table@.len()
    }

    /// What `base` stands for.
    pub open spec fn base_entry(&self, base: Base) -> InferVarOr<BaseDataView<FullInference>> {
        self.tables.base_table@[base.index as int]
    }

    /// Whether every variable among the bases is a variable of the store,
    /// and every type among the generic arguments of a base is made of keys
    /// of this pass.
    pub open spec fn bases_closed(&self) -> bool {
        forall|base: Base| #[trigger]
            self.has_base(base) ==> match self.base_entry(base) {
                InferVarOr::InferVar(var) => self.unify.contains(var),
                InferVarOr::Known(data) => forall|i: int|
                    0 <= i < data.generics.len() ==> self.has_base(
                        (#[trigger] data.generics[i])->Ty_0.base,
                    ) && data.generics[i]->Ty_0.perm.index < self.tables.perm_table@.len(),
            }
    }

    /// Whether every variable among the permissions is a variable of the
    /// store.
    pub open spec fn perms_closed(&self) -> bool {
        forall|perm: int|
            0 <= perm < self.tables.perm_table@.len() ==> match (
            #[trigger] self.tables.perm_table@[perm]) {
                PermData::Inferred(var) => self.unify.contains(var),
                PermData::Known(_) => true,
            }
    }

    /// Whether every variable that is bound is bound to a base that stands
    /// for a known structure.
    pub open spec fn bindings_known(&self) -> bool {
        forall|var: InferVar| #[trigger]
            self.unify.contains(var) ==> match self.unify.value(var) {
                Some(base) => self.has_base(base) && self.base_entry(base) is Known,
                None => true,
            }
    }

    /// Whether operations wait only for variables that are unbound and stand
    /// for their class.
    pub open spec fn waits_unresolved(&self) -> bool {
        &&& self.ops.waiting().len() == self.unify.len()
        &&& forall|var: InferVar| #[trigger]
            self.unify.contains(var) && self.ops.waiting()[var.index as int].len() > 0
                ==> self.unify.value(var) is None && self.unify.root(var) == var
    }

    /// The invariant of a pass.
    pub open spec fn wf(&self) -> bool {
        &&& self.entities.wf()
        &&& self.generics.wf()
        &&& self.tables.wf()
        &&& self.unify.wf()
        &&& self.ops.wf()
        &&& self.bases_closed()
        &&& self.perms_closed()
        &&& self.bindings_known()
        &&& self.waits_unresolved()
        &&& self.universe_binders@.len() > 0
        &&& self.universe_binders@[0] == UniverseBinder::Root
    }

    /// A pass over a program with the entities `entities`, whose generic
    /// declarations are `generics`. There is the root universe, and nothing
    /// else yet.
    pub fn new(entities: EntityTable, generics: GenericsTable) -> (checker: Self)
        requires
            entities.wf(),
            generics.wf(),
        ensures
            checker.wf(),
            checker.entities == entities,
            checker.generics == generics,
            checker.tables.base_table@.len() == 0,
            checker.tables.perm_table@.len() == 0,
            checker.unify.len() == 0,
            checker.ops.pending() =~= Map::empty(),
            checker.ops.waiting() =~= Seq::empty(),
            checker.ops.retired() == 0,
            checker.ops.enqueued() == 0,
            checker.universe_binders@ == seq![UniverseBinder::Root],
            checker.errors@.len() == 0,
            checker.constraints@.len() == 0,
    {
        let mut universe_binders = Vec::new();
        universe_binders.push(UniverseBinder::Root);
        TypeChecker {
            entities,
            generics,
            tables: FullInferenceTables::new(),
            unify: UnificationTable::new(),
            ops: Scheduler::new(),
            universe_binders,
            errors: Vec::new(),
            constraints: Vec::new(),
        }
    }
}

} // verus!
