use lark_infer::entity::{
    Entity, EntityData, ErrorReported, FileName, GlobalIdentifier, ItemKind, LangItem,
    MemberKind, Span,
};
use lark_infer::intern::Interner;
use lark_infer::pretty_print::{
    show_entity, show_signature, Piece, PrettyPrint, PrettyPrintDatabase, NESTING_LIMIT,
};
use lark_infer::ty::declaration::Declaration;
use lark_infer::ty::full_inferred::FullInferred;
use lark_infer::ty::{
    BaseData, BaseKind, BoundVar, Erased, Generics, PermKind, Placeholder, ReprKind, Signature,
    Ty, TypeFamily, Universe,
};

fn text(pieces: Vec<Piece>) -> String {
    pieces
        .iter()
        .map(|piece| match piece {
            Piece::Text(text) => text.clone(),
            Piece::Plain(data) => format!("{:?}", data),
            Piece::Parameter(var) => format!("{:?}", var),
        })
        .collect()
}

fn words(pieces: &[&str]) -> Vec<Piece> {
    pieces.iter().map(|piece| Piece::Text(piece.to_string())).collect()
}

fn lang_item(db: &mut PrettyPrintDatabase, item: LangItem) -> Entity {
    db.entities.intern(EntityData::LangItem(item))
}

fn item(db: &mut PrettyPrintDatabase, kind: ItemKind, name: &str) -> Entity {
    let id = db.identifiers.intern(name.to_string());
    let base = lang_item(db, LangItem::Debug);
    db.entities.intern(EntityData::ItemName { base, kind, id })
}

fn member(db: &mut PrettyPrintDatabase, base: Entity, kind: MemberKind, name: &str) -> Entity {
    let id = db.identifiers.intern(name.to_string());
    db.entities.intern(EntityData::MemberName { base, kind, id })
}

fn declared(db: &mut PrettyPrintDatabase, entity: Entity) -> Ty<Declaration> {
    Ty::named(&mut db.declarations, entity, Generics::empty())
}

fn inferred(
    db: &mut PrettyPrintDatabase,
    perm: PermKind,
    kind: BaseKind<FullInferred>,
) -> Ty<FullInferred> {
    let base = FullInferred::intern_base_data(
        &mut db.inferred,
        BaseData { kind, generics: Generics::empty() },
    );
    Ty { repr: Erased, perm, base }
}

fn set_signature(
    db: &mut PrettyPrintDatabase,
    entity: Entity,
    inputs: Vec<Ty<Declaration>>,
    output: Ty<Declaration>,
) {
    while db.signatures.len() <= entity.index {
        db.signatures.push(None);
    }
    db.signatures[entity.index] = Some(Signature { inputs, output });
}

fn set_field_type(db: &mut PrettyPrintDatabase, entity: Entity, ty: Ty<Declaration>) {
    while db.field_types.len() <= entity.index {
        db.field_types.push(None);
    }
    db.field_types[entity.index] = Some(ty);
}

#[test]
fn lang_items_have_their_names() {
    let mut db = PrettyPrintDatabase::new();
    let expected = [
        (LangItem::Boolean, "bool"),
        (LangItem::Uint, "uint"),
        (LangItem::Int, "int"),
        (LangItem::String, "String"),
        (LangItem::Tuple(0), "void"),
        (LangItem::Debug, "<debug>"),
    ];
    for (item, name) in expected {
        let entity = lang_item(&mut db, item);
        assert_eq!(entity.pretty_print(&db), words(&[name]));
    }
}

#[test]
fn an_entity_without_a_form_of_its_own_is_handed_out() {
    let mut db = PrettyPrintDatabase::new();
    let file = EntityData::InputFile { file: FileName { id: GlobalIdentifier { index: 3 } } };
    let error = EntityData::Error(ErrorReported {
        span: Span { file: FileName { id: GlobalIdentifier { index: 0 } }, start: 0, end: 1 },
    });
    let plain = [
        EntityData::LangItem(LangItem::True),
        EntityData::LangItem(LangItem::False),
        EntityData::LangItem(LangItem::Tuple(2)),
        file,
        error,
    ];
    for data in plain {
        let entity = db.entities.intern(data);
        assert_eq!(entity.pretty_print(&db), vec![Piece::Plain(data)]);
    }
}

#[test]
fn a_struct_is_shown_by_its_name() {
    let mut db = PrettyPrintDatabase::new();
    let point = item(&mut db, ItemKind::Struct, "Point");
    assert_eq!(point.pretty_print(&db), words(&["Point"]));
}

#[test]
fn a_function_is_shown_with_its_signature() {
    let mut db = PrettyPrintDatabase::new();
    let int = lang_item(&mut db, LangItem::Int);
    let string = lang_item(&mut db, LangItem::String);
    let unit = lang_item(&mut db, LangItem::Tuple(0));
    let point = item(&mut db, ItemKind::Struct, "Point");
    let int = declared(&mut db, int);
    let string = declared(&mut db, string);
    let unit = declared(&mut db, unit);
    let point_ty = declared(&mut db, point);

    let none = item(&mut db, ItemKind::Function, "main");
    set_signature(&mut db, none, vec![], unit);
    assert_eq!(none.pretty_print(&db), words(&["main", "(", ") -> ", "void"]));
    assert_eq!(text(none.pretty_print(&db)), "main() -> void");

    let one = item(&mut db, ItemKind::Function, "len");
    set_signature(&mut db, one, vec![string], int);
    assert_eq!(text(one.pretty_print(&db)), "len(String) -> int");

    let three = member(&mut db, point, MemberKind::Method, "scale");
    set_signature(&mut db, three, vec![point_ty, int, int], point_ty);
    assert_eq!(text(three.pretty_print(&db)), "scale(Point, int, int) -> Point");
    let mut pieces = words(&["fn "]);
    show_signature(&db, three, NESTING_LIMIT, &mut pieces);
    assert_eq!(
        pieces,
        words(&["fn ", "(", "Point", ", ", "int", ", ", "int", ") -> ", "Point"])
    );
    let mut pieces = Vec::new();
    show_signature(&db, three, 0, &mut pieces);
    assert_eq!(pieces, words(&["..."]));
}

#[test]
fn a_field_is_shown_by_its_type() {
    let mut db = PrettyPrintDatabase::new();
    let point = item(&mut db, ItemKind::Struct, "Point");
    let uint = lang_item(&mut db, LangItem::Uint);
    let x = member(&mut db, point, MemberKind::Field, "x");
    let uint = declared(&mut db, uint);
    set_field_type(&mut db, x, uint);
    assert_eq!(x.pretty_print(&db), words(&["uint"]));
    let mut pieces = Vec::new();
    show_entity(&db, x, 1, &mut pieces);
    assert_eq!(pieces, words(&["uint"]));
    let mut pieces = Vec::new();
    show_entity(&db, x, 0, &mut pieces);
    assert_eq!(pieces, words(&["..."]));
}

#[test]
fn a_field_of_its_own_type_is_shown_down_to_the_limit() {
    let mut db = PrettyPrintDatabase::new();
    let point = item(&mut db, ItemKind::Struct, "Point");
    let x = member(&mut db, point, MemberKind::Field, "x");
    let own = declared(&mut db, x);
    set_field_type(&mut db, x, own);
    assert_eq!(x.pretty_print(&db), words(&["..."]));
    assert_eq!(NESTING_LIMIT, 16);
}

#[test]
fn declared_types_show_their_base() {
    let mut db = PrettyPrintDatabase::new();
    let int = lang_item(&mut db, LangItem::Int);
    let int = declared(&mut db, int);
    assert_eq!(int.pretty_print(&db), words(&["int"]));
    let base = Declaration::intern_bound_var(&mut db.declarations, BoundVar::new(2));
    let parameter: Ty<Declaration> = Ty { repr: ReprKind::Direct, perm: int.perm, base };
    assert_eq!(parameter.pretty_print(&db), vec![Piece::Parameter(BoundVar::new(2))]);
    let error: Ty<Declaration> = Ty::error(&mut db.declarations);
    assert_eq!(error.pretty_print(&db), words(&["<error>"]));
}

#[test]
fn inferred_types_show_their_permission() {
    let mut db = PrettyPrintDatabase::new();
    let int = lang_item(&mut db, LangItem::Int);
    let owned = inferred(&mut db, PermKind::Own, BaseKind::Named(int));
    let shared = inferred(&mut db, PermKind::Share, BaseKind::Named(int));
    let borrowed = inferred(&mut db, PermKind::Borrow, BaseKind::Error);
    let placeholder = Placeholder { universe: Universe { index: 1 }, bound_var: BoundVar::new(0) };
    let rigid = inferred(&mut db, PermKind::Own, BaseKind::Placeholder(placeholder));
    assert_eq!(owned.pretty_print(&db), words(&["int"]));
    assert_eq!(shared.pretty_print(&db), words(&["shared ", "int"]));
    assert_eq!(text(borrowed.pretty_print(&db)), "borrowed <error>");
    assert_eq!(rigid.pretty_print(&db), words(&["<placeholder>"]));
}

#[test]
fn base_data_and_kinds_show_what_they_are() {
    let mut db = PrettyPrintDatabase::new();
    let string = lang_item(&mut db, LangItem::String);
    let named: BaseKind<FullInferred> = BaseKind::Named(string);
    assert_eq!(named.pretty_print(&db), words(&["String"]));
    assert_eq!(BaseKind::<Declaration>::Error.pretty_print(&db), words(&["<error>"]));
    let data: BaseData<FullInferred> = BaseData { kind: named, generics: Generics::empty() };
    assert_eq!(data.pretty_print(&db), words(&["String"]));
}

#[test]
fn a_database_is_closed_when_it_holds_what_it_names() {
    let mut db = PrettyPrintDatabase::new();
    assert!(db.is_closed());
    let int = lang_item(&mut db, LangItem::Int);
    let point = item(&mut db, ItemKind::Struct, "Point");
    let int = declared(&mut db, int);
    let x = member(&mut db, point, MemberKind::Field, "x");
    // The field has no type yet.
    assert!(!db.is_closed());
    set_field_type(&mut db, x, int);
    assert!(db.is_closed());
    let function = item(&mut db, ItemKind::Function, "f");
    assert!(!db.is_closed());
    set_signature(&mut db, function, vec![int], int);
    assert!(db.is_closed());
}

#[test]
fn a_database_is_not_closed_when_a_key_leads_nowhere() {
    let mut db = PrettyPrintDatabase::new();
    let missing = Entity { index: 40 };
    let dangling = declared(&mut db, missing);
    assert!(!db.is_closed());
    let _ = dangling;

    let mut db = PrettyPrintDatabase::new();
    let _ = inferred(&mut db, PermKind::Own, BaseKind::Named(missing));
    assert!(!db.is_closed());

    let mut db = PrettyPrintDatabase::new();
    let base = lang_item(&mut db, LangItem::Debug);
    db.entities.intern(EntityData::ItemName {
        base,
        kind: ItemKind::Struct,
        id: GlobalIdentifier { index: 7 },
    });
    assert!(!db.is_closed());

    let mut db = PrettyPrintDatabase::new();
    let int = lang_item(&mut db, LangItem::Int);
    let int = declared(&mut db, int);
    let function = item(&mut db, ItemKind::Function, "f");
    let foreign = Ty { repr: ReprKind::Direct, perm: int.perm, base: Declaration::intern_bound_var(&mut PrettyPrintDatabase::new().declarations, BoundVar::new(0)) };
    let far: Ty<Declaration> = Ty { base: lark_infer::ty::declaration::Base { index: 9 }, ..foreign };
    set_signature(&mut db, function, vec![int, far], int);
    assert!(!db.is_closed());
    set_signature(&mut db, function, vec![int, int], far);
    assert!(!db.is_closed());
    set_signature(&mut db, function, vec![int, int], int);
    assert!(db.is_closed());
}
