use lark_infer::entity::Entity;
use lark_infer::intern::InternKey;
use lark_infer::ty::base_inferred::{BaseInferred, BaseInferredTables};
use lark_infer::ty::declaration::{Declaration, DeclarationTables, DeclaredPermKind};
use lark_infer::ty::full_inferred::{FullInferred, FullInferredTables};
use lark_infer::ty::identity::{FamilyMapper, Identity};
use lark_infer::ty::{
    Atom, BaseData, BaseKind, BoundVar, BoundVarOr, Erased, GenericKind, Generics, InferVarOr,
    PermKind, Placeholder, ReprKind, Ty, TypeFamily, Universe,
};
use lark_infer::type_check::full_inference::{FullInference, FullInferenceTables, PermData};
use lark_infer::unify::InferVar;

fn named<F: TypeFamily>(entity: usize, generics: Generics<F>) -> BaseData<F> {
    BaseData { kind: BaseKind::Named(Entity { index: entity }), generics }
}

#[test]
fn declaration_interns_its_permissions_and_keeps_representations() {
    let mut tables = DeclarationTables::new();
    let perm = Declaration::own_perm(&mut tables);
    assert_eq!(perm.index, 0);
    assert_eq!(Declaration::own_perm(&mut tables), perm);
    assert_eq!(perm.lookup(&tables), DeclaredPermKind::Own);
    assert_eq!(tables.lookup_perm(perm), DeclaredPermKind::Own);
    assert_eq!(tables.intern_perm(DeclaredPermKind::Own), perm);
    assert_eq!(Declaration::known_repr(&mut tables, ReprKind::Direct), ReprKind::Direct);
    assert_eq!(Declaration::known_repr(&mut tables, ReprKind::Indirect), ReprKind::Indirect);
    assert_eq!(tables.perms.len(), 1);
    assert_eq!(tables.bases.len(), 0);
}

#[test]
fn declaration_bases_are_bound_variables_or_known() {
    let mut tables = DeclarationTables::new();
    let first = Declaration::intern_bound_var(&mut tables, BoundVar::new(0));
    let second = Declaration::intern_bound_var(&mut tables, BoundVar::new(1));
    let known = Declaration::intern_base_data(&mut tables, named(3, Generics::empty()));
    assert_eq!((first.index, second.index, known.index), (0, 1, 2));
    assert_eq!(Declaration::intern_bound_var(&mut tables, BoundVar::new(0)), first);
    assert_eq!(Declaration::intern_base_data(&mut tables, named(3, Generics::empty())), known);
    assert!(matches!(first.lookup(&tables), BoundVarOr::BoundVar(bv) if bv.index == 0));
    assert!(matches!(tables.lookup_base(second), BoundVarOr::BoundVar(bv) if bv.index == 1));
    match known.lookup(&tables) {
        BoundVarOr::Known(data) => {
            assert!(matches!(data.kind, BaseKind::Named(e) if e.index == 3));
            assert!(data.generics.is_empty());
        }
        BoundVarOr::BoundVar(_) => panic!("the base is known"),
    }
    assert_eq!(tables.bases.len(), 3);
}

#[test]
fn base_inferred_erases_permissions_and_representations() {
    let mut tables = BaseInferredTables::new();
    assert_eq!(BaseInferred::own_perm(&mut tables), Erased);
    assert_eq!(BaseInferred::known_repr(&mut tables, ReprKind::Indirect), Erased);
    let unit = BaseInferred::intern_base_data(&mut tables, named(1, Generics::empty()));
    let mut generics = Generics::empty();
    generics.push(GenericKind::Ty(Ty { repr: Erased, perm: Erased, base: unit }));
    let list = BaseInferred::intern_base_data(&mut tables, named(2, generics));
    assert_eq!((unit.index, list.index), (0, 1));
    let data = list.lookup(&tables);
    assert_eq!(data.generics.len(), 1);
    assert!(data.generics.get(0) == GenericKind::Ty(Ty { repr: Erased, perm: Erased, base: unit }));
    assert!(matches!(tables.lookup_base(unit).kind, BaseKind::Named(e) if e.index == 1));
    assert_eq!(tables.intern_base(named(1, Generics::empty())), unit);
    assert_eq!(tables.bases.len(), 2);
}

#[test]
fn full_inferred_keeps_the_kind_of_a_permission() {
    let mut tables = FullInferredTables::new();
    assert_eq!(FullInferred::own_perm(&mut tables), PermKind::Own);
    assert_eq!(FullInferred::known_repr(&mut tables, ReprKind::Direct), Erased);
    let placeholder = Placeholder { universe: Universe { index: 2 }, bound_var: BoundVar::new(1) };
    let base = FullInferred::intern_base_data(&mut tables, BaseData::from_placeholder(placeholder));
    assert_eq!(base.index, 0);
    assert!(matches!(base.lookup(&tables).kind, BaseKind::Placeholder(p) if p == placeholder));
    let error = FullInferred::intern_base_data(
        &mut tables,
        BaseData { kind: BaseKind::Error, generics: Generics::empty() },
    );
    assert_eq!(error.index, 1);
    assert!(matches!(tables.lookup_base(error).kind, BaseKind::Error));
}

#[test]
fn full_inference_tables_hold_variables_and_known_data() {
    let mut tables = FullInferenceTables::new();
    let var = tables.intern_base(InferVarOr::InferVar(InferVar { index: 5 }));
    let known = FullInference::intern_base_data(&mut tables, named(0, Generics::empty()));
    assert_eq!((var.index, known.index), (0, 1));
    assert!(matches!(tables.lookup_base(var), InferVarOr::InferVar(v) if v.index == 5));
    assert!(matches!(tables.lookup_base(known), InferVarOr::Known(_)));
    let own = FullInference::own_perm(&mut tables);
    let inferred = tables.intern_perm(PermData::Inferred(InferVar { index: 5 }));
    let share = tables.intern_perm(PermData::Known(PermKind::Share));
    assert_eq!((own.index, inferred.index, share.index), (0, 1, 2));
    assert_eq!(tables.lookup_perm(share), PermData::Known(PermKind::Share));
    assert_eq!(tables.lookup_perm(own), PermData::Known(PermKind::Own));
    assert_eq!(FullInference::own_perm(&mut tables), own);
    assert_eq!(tables.intern_repr(Erased), Erased);
    assert_eq!(tables.lookup_repr(Erased), Erased);
    assert_eq!(FullInference::known_repr(&mut tables, ReprKind::Direct), Erased);
}

fn build_int<F: TypeFamily>(tables: &mut F::Tables) -> (Ty<F>, Ty<F>, Ty<F>)
where
    F::Placeholder: From<Placeholder>,
{
    let int = Ty::named(tables, Entity { index: 7 }, Generics::empty());
    let error = Ty::error(tables);
    let placeholder = Ty::placeholder(
        tables,
        Placeholder { universe: Universe { index: 1 }, bound_var: BoundVar::new(0) }.into(),
    );
    (int, error, placeholder)
}

#[test]
fn types_are_built_in_one_way_for_every_family() {
    let mut base_inferred = BaseInferredTables::new();
    let (int, error, placeholder) = build_int::<BaseInferred>(&mut base_inferred);
    assert!(matches!(int.base.lookup(&base_inferred).kind, BaseKind::Named(e) if e.index == 7));
    assert!(matches!(error.base.lookup(&base_inferred).kind, BaseKind::Error));
    assert!(matches!(placeholder.base.lookup(&base_inferred).kind, BaseKind::Placeholder(_)));
    assert_eq!(int.perm, Erased);

    let mut full_inferred = FullInferredTables::new();
    let (int, _, _) = build_int::<FullInferred>(&mut full_inferred);
    assert_eq!(int.perm, PermKind::Own);
    assert!(matches!(int.base.lookup(&full_inferred).kind, BaseKind::Named(e) if e.index == 7));

    let mut inference = FullInferenceTables::new();
    let (int, _, _) = build_int::<FullInference>(&mut inference);
    assert_eq!(inference.lookup_perm(int.perm), PermData::Known(PermKind::Own));

    let mut declaration = DeclarationTables::new();
    let int: Ty<Declaration> = Ty::named(&mut declaration, Entity { index: 7 }, Generics::empty());
    assert_eq!(int.repr, ReprKind::Direct);
    assert_eq!(declaration.lookup_perm(int.perm), DeclaredPermKind::Own);
    let again: Ty<Declaration> = Ty::owned(
        &mut declaration,
        BaseData { kind: BaseKind::Named(Entity { index: 7 }), generics: Generics::empty() },
    );
    assert!(again == int);
}

#[test]
fn the_identity_mapping_changes_nothing() {
    let tables = FullInferredTables::new();
    let mut identity: Identity<FullInferredTables, FullInferred> = Identity::new(&tables);
    let ty = Ty {
        repr: Erased,
        perm: PermKind::Borrow,
        base: <lark_infer::ty::full_inferred::Base as InternKey>::from_usize(3),
    };
    assert!(identity.map_ty(ty) == ty);
    assert_eq!(identity.map_perm(PermKind::Share), PermKind::Share);
    let placeholder = Placeholder { universe: Universe { index: 4 }, bound_var: BoundVar::new(2) };
    assert_eq!(identity.map_placeholder(placeholder), placeholder);
    assert!(std::ptr::eq(identity.as_ref(), &tables));
}

#[test]
fn generics_are_a_sequence_of_arguments() {
    let ty = |base: usize| {
        GenericKind::Ty(Ty::<BaseInferred> {
            repr: Erased,
            perm: Erased,
            base: lark_infer::ty::base_inferred::Base { index: base },
        })
    };
    let mut generics: Generics<BaseInferred> = Generics::empty();
    assert!(generics.is_empty());
    assert!(!generics.is_not_empty());
    generics.push(ty(1));
    let mut more = Generics::empty();
    more.push(ty(2));
    more.push(ty(3));
    generics.extend(&more);
    assert_eq!(generics.len(), 3);
    assert!(generics.is_not_empty());
    assert!(generics.get(0) == ty(1));
    assert!(generics.get(2) == ty(3));
    assert_eq!(generics.elements, vec![ty(1), ty(2), ty(3)]);
}

#[test]
fn atoms_compare_by_what_they_are() {
    assert!(PermKind::Own.same(&PermKind::Own));
    assert!(!PermKind::Own.same(&PermKind::Share));
    assert!(ReprKind::Direct.same(&ReprKind::Direct));
    assert!(!ReprKind::Direct.same(&ReprKind::Indirect));
    assert!(Erased.same(&Erased));
    let a = Placeholder { universe: Universe { index: 1 }, bound_var: BoundVar::new(0) };
    let b = Placeholder { universe: Universe { index: 1 }, bound_var: BoundVar::new(1) };
    assert!(a.same(&a));
    assert!(!a.same(&b));
    let named: BaseKind<FullInferred> = BaseKind::Named(Entity { index: 1 });
    assert!(named.same(&BaseKind::Named(Entity { index: 1 })));
    assert!(!named.same(&BaseKind::Named(Entity { index: 2 })));
    assert!(!named.same(&BaseKind::Error));
    assert!(!named.same(&BaseKind::Placeholder(a)));
    assert!(BaseKind::<FullInferred>::Placeholder(a).same(&BaseKind::Placeholder(a)));
}
