use lark_infer::entity::{Entity, EntityData, EntityTable, FileName, GlobalIdentifier, LangItem, Span};
use lark_infer::intern::Interner;
use lark_infer::ty::{
    BaseData, BaseKind, BoundVar, Erased, GenericDeclarations, GenericKind, GenericTyDeclaration,
    Generics, InferVarOr, PermKind, Placeholder, Ty, TypeFamily, Universe,
};
use lark_infer::type_check::database::GenericsTable;
use lark_infer::type_check::equate::RECURSION_LIMIT;
use lark_infer::type_check::full_inference::{FullInference, PermData};
use lark_infer::type_check::ops::{BaseDataStep, WithBaseData};
use lark_infer::type_check::scheduler::{DeferredOp, EquateWith, HirLocation};
use lark_infer::type_check::{Constraint, ConstraintAt, TypeChecker, UniverseBinder};
use lark_infer::unify::InferVar;

type Type = Ty<FullInference>;

fn span(start: usize) -> Span {
    Span { file: FileName { id: GlobalIdentifier { index: 0 } }, start, end: start + 1 }
}

fn checker() -> TypeChecker {
    TypeChecker::new(EntityTable::new(), GenericsTable::new())
}

fn declares(count: usize, parent: Option<Entity>) -> GenericDeclarations {
    let mut declarations = GenericDeclarations::empty(parent);
    for i in 0..count {
        declarations.declarations.push(GenericKind::Ty(GenericTyDeclaration {
            def_id: Entity { index: 100 + i },
            name: GlobalIdentifier { index: i },
        }));
    }
    declarations
}

fn types_of(generics: &Generics<FullInference>) -> Vec<Type> {
    (0..generics.len())
        .map(|i| match generics.get(i) {
            GenericKind::Ty(ty) => ty,
        })
        .collect()
}

fn known(checker: &TypeChecker, ty: Type) -> BaseData<FullInference> {
    match checker.tables.lookup_base(ty.base) {
        InferVarOr::Known(data) => data,
        InferVarOr::InferVar(var) => panic!("the base is the variable {:?}", var),
    }
}

fn variable_of(checker: &TypeChecker, ty: Type) -> InferVar {
    match checker.tables.lookup_base(ty.base) {
        InferVarOr::InferVar(var) => var,
        InferVarOr::Known(_) => panic!("the base is known"),
    }
}

fn named(checker: &mut TypeChecker, entity: Entity, arguments: &[Type]) -> Type {
    let mut generics = Generics::empty();
    for argument in arguments {
        generics.push(GenericKind::Ty(*argument));
    }
    checker.named_type(entity, generics)
}

fn resolved_kind(checker: &TypeChecker, ty: Type) -> Option<BaseKind<FullInference>> {
    checker.shallow_resolve_data(ty.base).ok().map(|data| data.kind)
}

fn is_named(checker: &TypeChecker, ty: Type, entity: Entity) -> bool {
    matches!(resolved_kind(checker, ty), Some(BaseKind::Named(e)) if e == entity)
}

fn is_error(checker: &TypeChecker, ty: Type) -> bool {
    matches!(resolved_kind(checker, ty), Some(BaseKind::Error))
}

fn unresolved(checker: &TypeChecker) -> Vec<InferVar> {
    let mut output = Vec::new();
    checker.untriggered_ops(&mut output);
    output
}

fn labels(checker: &TypeChecker) -> Vec<String> {
    checker.errors.iter().map(|error| error.label.clone()).collect()
}

fn ids(ops: &[DeferredOp]) -> Vec<usize> {
    ops.iter().map(|op| op.op).collect()
}

const LIST: Entity = Entity { index: 50 };
const MAP: Entity = Entity { index: 51 };

#[test]
fn a_new_pass_has_the_root_universe_only() {
    let checker = checker();
    assert_eq!(checker.universe_binders, vec![UniverseBinder::Root]);
    assert_eq!(checker.unify.count(), 0);
    assert!(checker.errors.is_empty());
    assert!(checker.constraints.is_empty());
    assert_eq!(checker.tables.base_table.len(), 0);
    assert_eq!(Universe::root().index, 0);
}

#[test]
fn primitive_types_are_owned_and_named_by_their_lang_item() {
    let mut checker = checker();
    let int = checker.int_type();
    let boolean = checker.boolean_type();
    let uint = checker.uint_type();
    let string = checker.string_type();
    let unit = checker.unit_type();
    let expected = [
        (int, LangItem::Int),
        (boolean, LangItem::Boolean),
        (uint, LangItem::Uint),
        (string, LangItem::String),
        (unit, LangItem::Tuple(0)),
    ];
    for (position, (ty, item)) in expected.iter().enumerate() {
        let data = known(&checker, *ty);
        let entity = Entity { index: position };
        assert!(matches!(data.kind, BaseKind::Named(e) if e == entity));
        assert!(data.generics.is_empty());
        assert_eq!(checker.entities.lookup(entity), EntityData::LangItem(*item));
        assert_eq!(checker.tables.lookup_perm(ty.perm), PermData::Known(PermKind::Own));
        assert_eq!(checker.shallow_resolve_perm(ty.perm), Ok(PermKind::Own));
    }
    // Asking again gives the same types.
    assert!(checker.int_type() == int);
    assert!(checker.unit_type() == unit);
    assert_eq!(checker.entities.len(), 5);
    assert_eq!(checker.tables.base_table.len(), 5);
    assert_eq!(checker.tables.perm_table.len(), 1);
}

#[test]
fn a_named_type_is_owned_and_applied_to_its_arguments() {
    let mut checker = checker();
    let int = checker.int_type();
    let x = checker.new_variable();
    let map = named(&mut checker, MAP, &[int, x]);
    let data = known(&checker, map);
    assert!(matches!(data.kind, BaseKind::Named(e) if e == MAP));
    assert_eq!(types_of(&data.generics), vec![int, x]);
    assert_eq!(checker.tables.lookup_perm(map.perm), PermData::Known(PermKind::Own));
    assert_eq!(map.repr, Erased);
    assert!(named(&mut checker, MAP, &[int, x]) == map);
    assert!(named(&mut checker, MAP, &[x, int]) != map);
    assert!(named(&mut checker, LIST, &[int, x]) != map);
    // Naming a type interns no entity.
    assert_eq!(checker.entities.len(), 1);
}

#[test]
fn the_error_type_is_its_own_kind() {
    let mut checker = checker();
    let error = checker.error_type();
    let data = known(&checker, error);
    assert!(matches!(data.kind, BaseKind::Error));
    assert!(data.generics.is_empty());
    assert!(checker.error_type() == error);
    assert!(checker.entities.len() == 0);
}

#[test]
fn own_perm_and_direct_repr() {
    let mut checker = checker();
    let perm = checker.own_perm();
    assert_eq!(perm.index, 0);
    assert_eq!(checker.own_perm(), perm);
    assert_eq!(checker.tables.lookup_perm(perm), PermData::Known(PermKind::Own));
    assert_eq!(checker.direct_repr(), Erased);
}

#[test]
fn record_error_keeps_errors_in_order() {
    let mut checker = checker();
    checker.record_error("first".to_string(), span(3));
    checker.record_error("second".to_string(), span(9));
    assert_eq!(labels(&checker), vec!["first", "second"]);
    assert_eq!(checker.errors[0].span, span(3));
    assert_eq!(checker.errors[1].span, span(9));
}

#[test]
fn fresh_universes_are_strictly_increasing() {
    let mut checker = checker();
    let mut last = Universe::root();
    for i in 0..10 {
        let universe = checker.fresh_universe(UniverseBinder::FromItem(Entity { index: i }));
        assert!(universe.index > last.index);
        assert_eq!(universe.index, i + 1);
        last = universe;
    }
    assert_eq!(checker.universe_binders.len(), 11);
    assert_eq!(checker.universe_binders[4], UniverseBinder::FromItem(Entity { index: 3 }));
}

#[test]
fn placeholders_that_differ_in_universe_alone_are_not_equal() {
    let a = Placeholder { universe: Universe { index: 1 }, bound_var: BoundVar::new(0) };
    let b = Placeholder { universe: Universe { index: 2 }, bound_var: BoundVar::new(0) };
    assert_ne!(a, b);
    assert_eq!(a, Placeholder { universe: Universe { index: 1 }, bound_var: BoundVar::new(0) });
    let mut checker = checker();
    let perm = checker.own_perm();
    let base_a =
        FullInference::intern_base_data(&mut checker.tables, BaseData::from_placeholder(a));
    let base_b =
        FullInference::intern_base_data(&mut checker.tables, BaseData::from_placeholder(b));
    assert_ne!(base_a, base_b);
    let _ = perm;
}

#[test]
fn placeholders_for_follows_the_chain_of_parents() {
    let item = Entity { index: 0 };
    let member = Entity { index: 1 };
    let plain = Entity { index: 2 };
    let inner = Entity { index: 3 };
    let mut generics = GenericsTable::new();
    assert!(generics.record(item, declares(2, None)));
    assert!(generics.record(member, declares(1, Some(item))));
    assert!(generics.record(plain, declares(0, Some(member))));
    assert!(generics.record(inner, declares(2, Some(plain))));
    let mut checker = TypeChecker::new(EntityTable::new(), generics);

    let placeholders = checker.placeholders_for(inner);
    assert_eq!(placeholders.len(), 5);
    assert_eq!(
        checker.universe_binders,
        vec![
            UniverseBinder::Root,
            UniverseBinder::FromItem(item),
            UniverseBinder::FromItem(member),
            UniverseBinder::FromItem(inner),
        ]
    );
    let expected = [(1, 0), (1, 1), (2, 0), (3, 0), (3, 1)];
    for (ty, (universe, bound_var)) in types_of(&placeholders).iter().zip(expected.iter()) {
        let data = known(&checker, *ty);
        let placeholder = Placeholder {
            universe: Universe { index: *universe },
            bound_var: BoundVar::new(*bound_var),
        };
        assert!(matches!(data.kind, BaseKind::Placeholder(p) if p == placeholder));
        assert!(data.generics.is_empty());
        assert_eq!(checker.tables.lookup_perm(ty.perm), PermData::Known(PermKind::Own));
    }

    // A second instantiation gets universes of its own.
    let again = checker.placeholders_for(member);
    assert_eq!(again.len(), 3);
    assert_eq!(checker.universe_binders.len(), 6);
    let data = known(&checker, types_of(&again)[2]);
    let placeholder =
        Placeholder { universe: Universe { index: 5 }, bound_var: BoundVar::new(0) };
    assert!(matches!(data.kind, BaseKind::Placeholder(p) if p == placeholder));
}

#[test]
fn placeholders_for_an_entity_without_generics_is_empty() {
    let mut generics = GenericsTable::new();
    assert!(generics.record(Entity { index: 4 }, declares(0, None)));
    let mut checker = TypeChecker::new(EntityTable::new(), generics);
    assert!(checker.placeholders_for(Entity { index: 4 }).is_empty());
    // Nothing is recorded of entity 2, and entity 9 is beyond the table.
    assert!(checker.placeholders_for(Entity { index: 2 }).is_empty());
    assert!(checker.placeholders_for(Entity { index: 9 }).is_empty());
    assert_eq!(checker.universe_binders, vec![UniverseBinder::Root]);
    assert_eq!(checker.tables.base_table.len(), 0);
}

#[test]
fn inference_variables_for_gives_one_fresh_variable_per_parameter() {
    let item = Entity { index: 0 };
    let member = Entity { index: 1 };
    let mut generics = GenericsTable::new();
    assert!(generics.record(item, declares(2, None)));
    assert!(generics.record(member, declares(1, Some(item))));
    let mut checker = TypeChecker::new(EntityTable::new(), generics);
    let earlier = checker.new_variable();

    let variables = checker.inference_variables_for(member);
    assert_eq!(variables.len(), 3);
    assert_eq!(checker.unify.count(), 4);
    for (position, ty) in types_of(&variables).iter().enumerate() {
        let var = variable_of(&checker, *ty);
        assert_eq!(var, InferVar { index: position + 1 });
        assert!(!checker.unify.var_is_known(var));
        assert_eq!(checker.shallow_resolve(ty.base), Err(var));
        assert_eq!(checker.shallow_resolve_perm(ty.perm), Err(var));
    }
    assert_eq!(variable_of(&checker, earlier), InferVar { index: 0 });
    // No universe is made for variables.
    assert_eq!(checker.universe_binders, vec![UniverseBinder::Root]);
    assert!(checker.inference_variables_for(Entity { index: 7 }).is_empty());
}

#[test]
fn the_generics_table_refuses_a_parent_that_is_not_earlier() {
    let mut generics = GenericsTable::new();
    assert!(!generics.record(Entity { index: 1 }, declares(1, Some(Entity { index: 1 }))));
    assert!(!generics.record(Entity { index: 1 }, declares(1, Some(Entity { index: 2 }))));
    assert!(generics.generic_declarations(Entity { index: 1 }).is_none());
    assert!(generics.record(Entity { index: 3 }, declares(1, Some(Entity { index: 2 }))));
    let row = generics.generic_declarations(Entity { index: 3 }).unwrap();
    assert_eq!(row.parent_item, Some(Entity { index: 2 }));
    assert_eq!(row.declarations.len(), 1);
    assert!(!row.is_empty());
    assert!(generics.generic_declarations(Entity { index: 2 }).is_none());
    assert!(generics.generic_declarations(Entity { index: 30 }).is_none());
}

#[test]
fn equating_a_variable_with_a_known_type_binds_it() {
    let mut checker = checker();
    let int = checker.int_type();
    let x = checker.new_variable();
    let y = checker.new_variable();
    assert!(checker.equate(span(0), HirLocation::Start, x, int).is_empty());
    assert_eq!(checker.shallow_resolve(x.base), Ok(int.base));
    assert!(checker.equate(span(0), HirLocation::Start, int, y).is_empty());
    assert_eq!(checker.shallow_resolve(y.base), Ok(int.base));
    assert!(checker.errors.is_empty());
    // Equating again with the same type is accepted.
    assert!(checker.equate(span(0), HirLocation::Start, x, int).is_empty());
    assert!(checker.equate(span(0), HirLocation::Start, x, y).is_empty());
    assert!(checker.errors.is_empty());
}

#[test]
fn equating_a_bound_variable_with_another_type_is_a_type_error() {
    let mut checker = checker();
    let int = checker.int_type();
    let string = checker.string_type();
    let x = checker.new_variable();
    checker.equate(span(0), HirLocation::Start, x, int);
    checker.equate(span(5), HirLocation::Start, x, string);
    assert_eq!(labels(&checker), vec!["mismatched types"]);
    assert_eq!(checker.errors[0].span, span(5));
    assert_eq!(checker.shallow_resolve(x.base), Ok(int.base));
}

#[test]
fn equating_two_variables_links_them() {
    let mut checker = checker();
    let x = checker.new_variable();
    let y = checker.new_variable();
    let int = checker.int_type();
    checker.equate(span(0), HirLocation::Start, y, x);
    assert_eq!(checker.shallow_resolve(x.base), Err(InferVar { index: 0 }));
    assert_eq!(checker.shallow_resolve(y.base), Err(InferVar { index: 0 }));
    checker.equate(span(0), HirLocation::Start, y, int);
    assert_eq!(checker.shallow_resolve(x.base), Ok(int.base));
    assert_eq!(checker.shallow_resolve(y.base), Ok(int.base));
    assert!(is_named(&checker, x, Entity { index: 0 }));
}

#[test]
fn equating_two_different_known_types_is_reported_once() {
    let mut checker = checker();
    let int = checker.int_type();
    let string = checker.string_type();
    assert!(checker.equate(span(7), HirLocation::Start, int, string).is_empty());
    assert_eq!(labels(&checker), vec!["mismatched types"]);
    assert_eq!(checker.errors[0].span, span(7));
    assert!(checker.equate(span(8), HirLocation::Start, int, int).is_empty());
    assert_eq!(checker.errors.len(), 1);
}

#[test]
fn known_structures_are_equated_argument_by_argument() {
    let mut checker = checker();
    let int = checker.int_type();
    let string = checker.string_type();
    let x = checker.new_variable();
    let y = checker.new_variable();
    let left = named(&mut checker, MAP, &[x, string]);
    let right = named(&mut checker, MAP, &[int, y]);
    checker.equate(span(0), HirLocation::Start, left, right);
    assert!(checker.errors.is_empty());
    assert_eq!(checker.shallow_resolve(x.base), Ok(int.base));
    assert_eq!(checker.shallow_resolve(y.base), Ok(string.base));
}

#[test]
fn structures_of_different_entities_or_arities_do_not_match() {
    let mut checker = checker();
    let int = checker.int_type();
    let x = checker.new_variable();
    let list = named(&mut checker, LIST, &[int]);
    let map = named(&mut checker, MAP, &[x]);
    checker.equate(span(1), HirLocation::Start, list, map);
    assert_eq!(labels(&checker), vec!["mismatched types"]);
    // The arguments were not looked at.
    assert!(checker.shallow_resolve(x.base).is_err());
    let short = named(&mut checker, LIST, &[]);
    checker.equate(span(2), HirLocation::Start, list, short);
    assert_eq!(labels(&checker), vec!["mismatched types", "mismatched types"]);
}

#[test]
fn a_mismatch_in_one_argument_does_not_stop_the_others() {
    let mut checker = checker();
    let int = checker.int_type();
    let string = checker.string_type();
    let x = checker.new_variable();
    let left = named(&mut checker, MAP, &[int, x]);
    let right = named(&mut checker, MAP, &[string, string]);
    checker.equate(span(3), HirLocation::Start, left, right);
    assert_eq!(labels(&checker), vec!["mismatched types"]);
    assert_eq!(checker.shallow_resolve(x.base), Ok(string.base));
}

#[test]
fn the_error_type_matches_anything_and_spreads_to_the_arguments() {
    let mut checker = checker();
    let int = checker.int_type();
    let x = checker.new_variable();
    let y = checker.new_variable();
    let inner = named(&mut checker, LIST, &[y]);
    let list = named(&mut checker, MAP, &[x, inner]);
    let error = checker.error_type();
    checker.equate(span(0), HirLocation::Start, error, list);
    assert!(checker.errors.is_empty());
    assert!(is_error(&checker, x));
    assert!(is_error(&checker, y));
    checker.equate(span(0), HirLocation::Start, int, error);
    let z = checker.new_variable();
    checker.equate(span(0), HirLocation::Start, z, error);
    assert!(is_error(&checker, z));
    assert!(checker.errors.is_empty());
}

#[test]
fn propagate_error_binds_every_argument_to_the_error_type() {
    let mut checker = checker();
    let int = checker.int_type();
    let x = checker.new_variable();
    let y = checker.new_variable();
    checker.enqueue_op(vec![y.base], 5);
    let mut generics = Generics::empty();
    generics.push(GenericKind::Ty(x));
    generics.push(GenericKind::Ty(int));
    generics.push(GenericKind::Ty(y));
    let woken = checker.propagate_error(span(0), &generics);
    assert_eq!(ids(&woken), vec![5]);
    assert!(is_error(&checker, x));
    assert!(is_error(&checker, y));
    assert!(is_named(&checker, int, Entity { index: 0 }));
    assert!(checker.errors.is_empty());
    assert!(checker.propagate_error(span(0), &Generics::empty()).is_empty());
}

fn nest(checker: &mut TypeChecker, leaf: Type, levels: usize) -> Type {
    let mut ty = leaf;
    for _ in 0..levels {
        ty = named(checker, LIST, &[ty]);
    }
    ty
}

#[test]
fn types_are_compared_down_to_the_recursion_limit() {
    assert_eq!(RECURSION_LIMIT, 64);
    let mut checker = checker();
    let int = checker.int_type();
    let string = checker.string_type();
    let left = nest(&mut checker, int, RECURSION_LIMIT);
    let right = nest(&mut checker, string, RECURSION_LIMIT);
    checker.equate(span(0), HirLocation::Start, left, right);
    assert_eq!(labels(&checker), vec!["mismatched types"]);
}

#[test]
fn types_nested_more_deeply_than_the_limit_are_reported() {
    let mut checker = checker();
    let int = checker.int_type();
    let string = checker.string_type();
    let left = nest(&mut checker, int, RECURSION_LIMIT + 1);
    let right = nest(&mut checker, string, RECURSION_LIMIT + 1);
    checker.equate(span(4), HirLocation::Start, left, right);
    assert_eq!(labels(&checker), vec!["types are nested too deeply to be compared"]);
    assert_eq!(checker.errors[0].span, span(4));
}

#[test]
fn a_variable_bound_to_a_type_that_holds_it_does_not_hang_the_pass() {
    let mut checker = checker();
    let x = checker.new_variable();
    let y = checker.new_variable();
    let list_of_y = named(&mut checker, LIST, &[y]);
    let list_of_x = named(&mut checker, LIST, &[x]);
    checker.equate(span(0), HirLocation::Start, x, list_of_y);
    checker.equate(span(0), HirLocation::Start, y, list_of_x);
    // X is List<Y> and Y is List<X>: comparing them never comes to an end by
    // itself.
    checker.equate(span(9), HirLocation::Start, x, y);
    assert_eq!(labels(&checker), vec!["types are nested too deeply to be compared"]);
}

#[test]
fn permissions_that_differ_are_noted_as_constraints() {
    let mut checker = checker();
    let int = checker.int_type();
    let x = checker.new_variable();
    checker.equate(span(2), HirLocation::AfterNode(4), x, int);
    assert_eq!(
        checker.constraints,
        vec![ConstraintAt {
            cause: span(2),
            location: HirLocation::AfterNode(4),
            constraint: Constraint::PermEquate { a: x.perm, b: int.perm },
        }]
    );
    let string = checker.string_type();
    checker.equate(span(3), HirLocation::Start, int, string);
    assert_eq!(checker.constraints.len(), 1);
}

#[test]
fn an_op_runs_after_the_last_of_its_variables_is_bound() {
    // The continuation needs both X and Y: when it is woken and one of them
    // is still unknown, it enqueues itself again.
    fn run(checker: &mut TypeChecker, woken: Vec<DeferredOp>, counter: &mut usize) {
        for op in woken {
            let waiting = op.values.iter().any(|value| checker.shallow_resolve(*value).is_err());
            if waiting {
                checker.enqueue_op(op.values, op.op);
            } else {
                *counter += 1;
            }
        }
    }
    let mut checker = checker();
    let int = checker.int_type();
    let x = checker.new_variable();
    let y = checker.new_variable();
    let z = checker.new_variable();
    let mut counter = 0;
    checker.enqueue_op(vec![x.base, y.base], 1);

    let woken = checker.equate(span(0), HirLocation::Start, x, int);
    assert_eq!(ids(&woken), vec![1]);
    run(&mut checker, woken, &mut counter);
    assert_eq!(counter, 0);

    let woken = checker.equate(span(0), HirLocation::Start, y, int);
    assert_eq!(ids(&woken), vec![1]);
    run(&mut checker, woken, &mut counter);
    assert_eq!(counter, 1);

    let woken = checker.equate(span(0), HirLocation::Start, z, int);
    run(&mut checker, woken, &mut counter);
    let woken = checker.equate(span(0), HirLocation::Start, x, y);
    run(&mut checker, woken, &mut counter);
    assert_eq!(counter, 1);
    assert!(unresolved(&checker).is_empty());
}

#[test]
fn two_ops_that_wait_for_one_variable_both_run_once() {
    let mut checker = checker();
    let int = checker.int_type();
    let x = checker.new_variable();
    let y = checker.new_variable();
    checker.enqueue_op(vec![x.base], 1);
    checker.enqueue_op(vec![x.base], 2);
    // Neither waits for Y: binding Y wakes nothing.
    assert!(checker.equate(span(0), HirLocation::Start, y, int).is_empty());
    assert_eq!(unresolved(&checker), vec![variable_of(&checker, x)]);
    let mut woken = ids(&checker.equate(span(0), HirLocation::Start, x, int));
    woken.sort();
    assert_eq!(woken, vec![1, 2]);
    assert!(checker.equate(span(0), HirLocation::Start, x, int).is_empty());
    assert!(checker.trigger_ops(variable_of(&checker, x)).is_empty());
    assert!(unresolved(&checker).is_empty());
}

#[test]
fn an_op_on_a_linked_variable_is_woken_to_wait_for_the_root() {
    let mut checker = checker();
    let int = checker.int_type();
    let x = checker.new_variable();
    let y = checker.new_variable();
    checker.enqueue_op(vec![y.base], 3);
    // Y is linked to X, which is earlier: what waited for Y is woken, finds
    // its value still unknown and waits for X.
    let woken = checker.equate(span(0), HirLocation::Start, x, y);
    assert_eq!(ids(&woken), vec![3]);
    assert!(unresolved(&checker).is_empty());
    for op in woken {
        assert_eq!(checker.shallow_resolve(op.values[0]), Err(variable_of(&checker, x)));
        checker.enqueue_op(op.values, op.op);
    }
    assert_eq!(unresolved(&checker), vec![variable_of(&checker, x)]);
    let woken = checker.equate(span(0), HirLocation::Start, y, int);
    assert_eq!(ids(&woken), vec![3]);
}

#[test]
fn values_that_are_known_already_are_not_waited_for() {
    let mut checker = checker();
    let int = checker.int_type();
    let x = checker.new_variable();
    let y = checker.new_variable();
    checker.equate(span(0), HirLocation::Start, y, int);
    checker.enqueue_op(vec![int.base, y.base, x.base], 8);
    assert_eq!(unresolved(&checker), vec![variable_of(&checker, x)]);
    assert!(checker.trigger_ops(variable_of(&checker, y)).is_empty());
    assert_eq!(ids(&checker.trigger_ops(variable_of(&checker, x))), vec![8]);
}

#[test]
fn with_base_data_of_a_known_base_gives_the_data_at_once() {
    let mut checker = checker();
    let int = checker.int_type();
    let x = checker.new_variable();
    checker.equate(span(0), HirLocation::Start, x, int);
    for base in [int.base, x.base] {
        match checker.with_base_data(span(1), HirLocation::Start, base, 4) {
            WithBaseData::Known(data) => {
                assert!(matches!(data.kind, BaseKind::Named(e) if e == Entity { index: 0 }))
            }
            WithBaseData::Deferred { .. } => panic!("the base is known"),
        }
    }
    assert_eq!(checker.unify.count(), 1);
    assert!(unresolved(&checker).is_empty());
}

#[test]
fn with_base_data_of_an_unknown_base_defers_the_continuation() {
    let mut checker = checker();
    let int = checker.int_type();
    let string = checker.string_type();
    let x = checker.new_variable();
    let (var, index) = match checker.with_base_data(span(1), HirLocation::Return, x.base, 4) {
        WithBaseData::Deferred { var, index } => (var, index),
        WithBaseData::Known(_) => panic!("the base is not known"),
    };
    assert_eq!(variable_of(&checker, var), InferVar { index: 1 });
    assert_eq!(unresolved(&checker), vec![InferVar { index: 0 }]);
    let _ = index;

    // Once X is known the continuation is woken; tried again, it finds the
    // data, and its result is equated with the variable that stood for it.
    let mut woken = checker.equate(span(2), HirLocation::Start, x, int);
    assert_eq!(woken.len(), 1);
    let op = woken.pop().unwrap();
    assert_eq!(op.op, 4);
    assert_eq!(op.values, vec![x.base]);
    let equate = op.equate.unwrap();
    assert!(equate.var == var);
    assert_eq!(equate.cause, span(1));
    assert_eq!(equate.location, HirLocation::Return);
    match checker.with_base_data_equate(op.values[0], op.op, equate) {
        BaseDataStep::Known(data) => {
            assert!(matches!(data.kind, BaseKind::Named(e) if e == Entity { index: 0 }))
        }
        BaseDataStep::Enqueued(_) => panic!("the base is known by now"),
    }
    checker.equate(equate.cause, equate.location, equate.var, string);
    assert_eq!(checker.shallow_resolve(var.base), Ok(string.base));
    assert!(unresolved(&checker).is_empty());
}

#[test]
fn with_base_data_equate_waits_again_while_the_base_is_unknown() {
    let mut checker = checker();
    let x = checker.new_variable();
    let var = checker.new_variable();
    let equate = EquateWith { cause: span(0), location: HirLocation::Start, var };
    let first = match checker.with_base_data_equate(x.base, 2, equate) {
        BaseDataStep::Enqueued(index) => index,
        BaseDataStep::Known(_) => panic!("the base is not known"),
    };
    let mut woken = checker.trigger_ops(variable_of(&checker, x));
    assert_eq!(woken.len(), 1);
    let op = woken.pop().unwrap();
    let second = match checker.with_base_data_equate(op.values[0], op.op, op.equate.unwrap()) {
        BaseDataStep::Enqueued(index) => index,
        BaseDataStep::Known(_) => panic!("the base is still not known"),
    };
    assert_ne!(first, second);
    assert_eq!(unresolved(&checker), vec![variable_of(&checker, x)]);
}

#[test]
fn a_variable_that_is_never_constrained_is_reported_as_unresolved() {
    let function = Entity { index: 0 };
    let mut generics = GenericsTable::new();
    assert!(generics.record(function, declares(1, None)));
    let mut checker = TypeChecker::new(EntityTable::new(), generics);
    let int = checker.int_type();
    // A use of the function: its parameter is left to inference, and what
    // is done with the result needs to know what the parameter is.
    let arguments = checker.inference_variables_for(function);
    let parameter = types_of(&arguments)[0];
    let other = checker.new_variable();
    checker.equate(span(0), HirLocation::Start, other, int);
    match checker.with_base_data(span(1), HirLocation::Start, parameter.base, 1) {
        WithBaseData::Deferred { .. } => {}
        WithBaseData::Known(_) => panic!("nothing is known of the parameter"),
    }
    let unresolved = unresolved(&checker);
    assert_eq!(unresolved, vec![variable_of(&checker, parameter)]);
    assert!(!checker.unify.var_is_known(unresolved[0]));
}

#[test]
fn room_is_left_for_more_operations() {
    let mut checker = checker();
    let x = checker.new_variable();
    assert!(checker.ops.room_left());
    checker.enqueue_op(vec![x.base], 0);
    assert!(checker.ops.room_left());
}

#[test]
fn shallow_resolve_data_follows_bindings() {
    let mut checker = checker();
    let x = checker.new_variable();
    let y = checker.new_variable();
    let inner = named(&mut checker, LIST, &[y]);
    assert_eq!(checker.shallow_resolve_data(x.base).err(), Some(InferVar { index: 0 }));
    checker.equate(span(0), HirLocation::Start, x, inner);
    let data = checker.shallow_resolve_data(x.base).ok().unwrap();
    assert!(matches!(data.kind, BaseKind::Named(e) if e == LIST));
    // The argument is still the variable: resolution is shallow.
    assert_eq!(types_of(&data.generics), vec![y]);
}
