use lark_infer::entity::{
    Entity, EntityData, EntityTable, ErrorReported, FileName, GlobalIdentifier, ItemKind,
    LangItem, MemberKind, Span,
};
use lark_infer::intern::Interner;
use lark_infer::ty::declaration::{Declaration, DeclarationTables, DeclaredPermKind};
use lark_infer::ty::{BaseKind, BoundVarOr, GenericKind, Generics, ReprKind, Ty};
use lark_infer::type_conversion::{
    declaration_ty_named, generic_declarations, signature, ty, unit_ty, Converted,
};

fn report() -> ErrorReported {
    ErrorReported {
        span: Span { file: FileName { id: GlobalIdentifier { index: 0 } }, start: 1, end: 2 },
    }
}

fn entities() -> (EntityTable, Vec<Entity>) {
    let mut table = EntityTable::new();
    let data = vec![
        EntityData::LangItem(LangItem::Int),
        EntityData::LangItem(LangItem::True),
        EntityData::LangItem(LangItem::Tuple(0)),
        EntityData::LangItem(LangItem::Tuple(3)),
        EntityData::Error(report()),
        EntityData::ItemName {
            base: Entity { index: 0 },
            kind: ItemKind::Struct,
            id: GlobalIdentifier { index: 1 },
        },
        EntityData::MemberName {
            base: Entity { index: 5 },
            kind: MemberKind::Method,
            id: GlobalIdentifier { index: 2 },
        },
        EntityData::LangItem(LangItem::Debug),
    ];
    let keys = data.into_iter().map(|d| table.intern(d)).collect();
    (table, keys)
}

fn known<T>(converted: Converted<T>) -> T {
    match converted {
        Converted::Known(value) => value,
        Converted::Parse => panic!("the declaration has to be parsed"),
    }
}

fn named_entity(tables: &DeclarationTables, ty: Ty<Declaration>) -> (Entity, Generics<Declaration>) {
    match tables.lookup_base(ty.base) {
        BoundVarOr::Known(data) => match data.kind {
            BaseKind::Named(entity) => (entity, data.generics),
            _ => panic!("the type is not named"),
        },
        BoundVarOr::BoundVar(_) => panic!("the type is a parameter"),
    }
}

#[test]
fn lang_items_declare_no_generics() {
    let (table, keys) = entities();
    for key in [keys[0], keys[1], keys[2], keys[7]] {
        let declarations = known(generic_declarations(&table, key)).ok().unwrap();
        assert!(declarations.is_empty());
        assert_eq!(declarations.parent_item, None);
    }
}

#[test]
fn an_error_entity_has_the_error_for_its_generics_and_signature() {
    let (table, keys) = entities();
    assert_eq!(known(generic_declarations(&table, keys[4])).err(), Some(report()));
    assert_eq!(known(signature(&table, keys[4])).err(), Some(report()));
}

#[test]
fn what_is_declared_in_source_has_to_be_parsed() {
    let (mut table, keys) = entities();
    let mut tables = DeclarationTables::new();
    for key in [keys[5], keys[6]] {
        assert!(matches!(generic_declarations(&table, key), Converted::Parse));
        assert!(matches!(signature(&table, key), Converted::Parse));
        assert!(matches!(ty(&mut tables, &mut table, key), Converted::Parse));
    }
    assert_eq!(tables.bases.len(), 0);
    assert_eq!(tables.perms.len(), 0);
}

#[test]
fn the_type_of_a_lang_item_is_named_by_it() {
    let (mut table, keys) = entities();
    let mut tables = DeclarationTables::new();
    for key in [keys[0], keys[7]] {
        let declared = known(ty(&mut tables, &mut table, key));
        assert_eq!(declared.repr, ReprKind::Direct);
        assert_eq!(tables.lookup_perm(declared.perm), DeclaredPermKind::Own);
        let (entity, generics) = named_entity(&tables, declared);
        assert_eq!(entity, key);
        assert!(generics.is_empty());
    }
}

#[test]
fn the_type_of_a_truth_value_is_the_type_of_truth_values() {
    let (mut table, keys) = entities();
    let mut tables = DeclarationTables::new();
    let declared = known(ty(&mut tables, &mut table, keys[1]));
    let (entity, generics) = named_entity(&tables, declared);
    assert_eq!(table.lookup(entity), EntityData::LangItem(LangItem::Boolean));
    assert_eq!(entity, Entity { index: 8 });
    assert!(generics.is_empty());
}

#[test]
fn the_type_of_a_tuple_takes_one_parameter_per_element() {
    let (mut table, keys) = entities();
    let mut tables = DeclarationTables::new();
    let declared = known(ty(&mut tables, &mut table, keys[3]));
    let (entity, generics) = named_entity(&tables, declared);
    assert_eq!(entity, keys[3]);
    assert_eq!(generics.len(), 3);
    for i in 0..3 {
        let GenericKind::Ty(argument) = generics.get(i);
        assert_eq!(argument.repr, ReprKind::Direct);
        assert_eq!(tables.lookup_perm(argument.perm), DeclaredPermKind::Own);
        assert!(
            matches!(tables.lookup_base(argument.base), BoundVarOr::BoundVar(bv) if bv.index == i)
        );
    }
    let unit = known(ty(&mut tables, &mut table, keys[2]));
    assert!(named_entity(&tables, unit).1.is_empty());
}

#[test]
fn the_type_of_an_error_entity_is_the_error_type() {
    let (mut table, keys) = entities();
    let mut tables = DeclarationTables::new();
    let declared = known(ty(&mut tables, &mut table, keys[4]));
    assert_eq!(declared.repr, ReprKind::Direct);
    match tables.lookup_base(declared.base) {
        BoundVarOr::Known(data) => assert!(matches!(data.kind, BaseKind::Error)),
        BoundVarOr::BoundVar(_) => panic!("the type is a parameter"),
    }
}

#[test]
fn the_unit_type_is_the_tuple_of_nothing() {
    let mut table = EntityTable::new();
    let mut tables = DeclarationTables::new();
    let unit = unit_ty(&mut tables, &mut table);
    let (entity, generics) = named_entity(&tables, unit);
    assert_eq!(table.lookup(entity), EntityData::LangItem(LangItem::Tuple(0)));
    assert!(generics.is_empty());
    assert!(unit_ty(&mut tables, &mut table) == unit);
    assert_eq!(table.len(), 1);
}

#[test]
fn a_named_declaration_type_is_interned_once() {
    let mut tables = DeclarationTables::new();
    let make = |tables: &mut DeclarationTables, entity: usize, repr: ReprKind| {
        declaration_ty_named(
            tables,
            Entity { index: entity },
            DeclaredPermKind::Own,
            repr,
            Generics::empty(),
        )
    };
    let first = make(&mut tables, 4, ReprKind::Direct);
    let second = make(&mut tables, 9, ReprKind::Indirect);
    let again = make(&mut tables, 4, ReprKind::Direct);
    assert!(first == again);
    assert!(first != second);
    assert_eq!(second.repr, ReprKind::Indirect);
    assert_eq!((first.base.index, second.base.index), (0, 1));
    assert_eq!(first.perm, second.perm);
}
