//! Types and entities as text for the user.
//!
//! What is shown is a list of pieces. Most are text. An entity that has no
//! form of its own, and a generic parameter, are handed out as they are: how
//! to show them is left to the caller.

use vstd::prelude::*;
use crate::entity::{
    Entity, EntityData, EntityTable, GlobalIdentifier, ItemKind, LangItem, MemberKind,
};
use crate::intern::{InternTable, Interner};
use crate::ty::declaration::{Declaration, DeclarationTables, DeclaredPermKind};
use crate::ty::full_inferred::{FullInferred, FullInferredTables};
use crate::ty::{
    BaseData, BaseKind, BoundVar, BoundVarOr, FamilyTypes, PermKind, Signature, Ty,
};

verus! {

/// How deeply an entity is shown through the types that it has: the type of
/// a field or the signature of a function names entities, which may have
/// types in turn. What lies deeper is left out.
pub const NESTING_LIMIT: usize = 16;

/// A piece of what is shown.
#[derive(Debug, PartialEq, Eq)]
pub enum Piece {
    /// Text.
    Text(String),
    /// An entity that has no form of its own.
    Plain(EntityData),
    /// A generic parameter.
    Parameter(BoundVar),
}

/// A `Piece` as a mathematical value.
pub enum PieceView {
    Text(Seq<char>),
    Plain(EntityData),
    Parameter(BoundVar),
}

impl View for Piece {
    type V = PieceView;

    open spec fn view(&self) -> PieceView {
        match self {
            Piece::Text(text) => PieceView::Text(text@),
            Piece::Plain(data) => PieceView::Plain(*data),
            Piece::Parameter(var) => PieceView::Parameter(*var),
        }
    }
}

/// The pieces `pieces` as mathematical values.
pub open spec fn piece_views(pieces: Seq<Piece>) -> Seq<PieceView> {
    Seq::new(pieces.len(), |i: int| pieces[i]@)
}

/// The one piece of text `text`.
pub open spec fn text_piece(text: Seq<char>) -> Seq<PieceView> {
    seq![PieceView::Text(text)]
}

/// What has to be known of a program to show its types and entities.
pub struct PrettyPrintDatabase {
    /// The entities of the program.
    pub entities: EntityTable,
    /// The names of the program.
    pub identifiers: InternTable<GlobalIdentifier, String>,
    /// The tables behind the declared types.
    pub declarations: DeclarationTables,
    /// The tables behind the fully inferred types.
    pub inferred: FullInferredTables,
    /// The declared type of each entity that is a field.
    pub field_types: Vec<Option<Ty<Declaration>>>,
    /// The signature of each entity that is a function or a method.
    pub signatures: Vec<Option<Signature<Declaration>>>,
}

impl PrettyPrintDatabase {
    /// Whether `entity` is an entity of the program.
    pub open spec fn has_entity(&self, entity: Entity) -> bool {
        entity.index < self.entities@.len()
    }

    /// Whether `ty` is made of keys of the declared types.
    pub open spec fn has_declared(&self, ty: Ty<Declaration>) -> bool {
        &&& ty.perm.index < self.declarations.perms@.len()
        &&& ty.base.index < self.declarations.bases@.len()
    }

    /// Whether `ty` is made of keys of the fully inferred types.
    pub open spec fn has_inferred(&self, ty: Ty<FullInferred>) -> bool {
        ty.base.index < self.inferred.bases@.len()
    }

    /// Whether the kind `kind` names an entity of the program, if it names
    /// one.
    pub open spec fn has_kind<F: FamilyTypes>(&self, kind: BaseKind<F>) -> bool {
        match kind {
            BaseKind::Named(entity) => self.has_entity(entity),
            _ => true,
        }
    }

    /// Whether everything that an entity of the program needs to be shown
    /// is there: the name of an item or member, the type of a field and the
    /// signature of a function or method, each made of keys of the declared
    /// types.
    pub open spec fn entities_closed(&self) -> bool {
        forall|entity: Entity| #[trigger] self.has_entity(entity) ==> self.entity_closed(entity)
    }

    /// Whether every type names an entity of the program, if it names one.
    pub open spec fn types_closed(&self) -> bool {
        &&& forall|base: int|
            0 <= base < self.declarations.bases@.len() ==> match (
            #[trigger] self.declarations.bases@[base]) {
                BoundVarOr::Known(data) => self.has_kind(data.kind),
                BoundVarOr::BoundVar(_) => true,
            }
        &&& forall|base: int|
            0 <= base < self.inferred.bases@.len() ==> self.has_kind(
                (#[trigger] self.inferred.bases@[base]).kind,
            )
    }

    /// The invariant of the database.
    pub open spec fn wf(&self) -> bool {
        &&& self.entities.wf()
        &&& self.identifiers.wf()
        &&& self.declarations.wf()
        &&& self.inferred.wf()
        &&& self.entities_closed()
        &&& self.types_closed()
    }

    /// A database of a program without entities.
    pub fn new() -> (db: Self)
        ensures
            db.wf(),
            db.entities@.len() == 0,
            db.identifiers@.len() == 0,
            db.declarations.bases@.len() == 0,
            db.declarations.perms@.len() == 0,
            db.inferred.bases@.len() == 0,
            db.field_types@.len() == 0,
            db.signatures@.len() == 0,
    {
        PrettyPrintDatabase {
            entities: InternTable::new(),
            identifiers: InternTable::new(),
            declarations: DeclarationTables::new(),
            inferred: FullInferredTables::new(),
            field_types: Vec::new(),
            signatures: Vec::new(),
        }
    }

    /// Whether what the entity `entity` needs to be shown is there.
    pub open spec fn entity_closed(&self, entity: Entity) -> bool {
        match self.entities@[entity.index as int] {
            EntityData::MemberName { kind: MemberKind::Field, id, .. } => {
                &&& id.index < self.identifiers@.len()
                &&& entity.index < self.field_types@.len()
                &&& self.field_types@[entity.index as int] matches Some(ty)
                &&& self.has_declared(ty)
            },
            EntityData::MemberName { kind: MemberKind::Method, id, .. }
            | EntityData::ItemName { kind: ItemKind::Function, id, .. } => {
                &&& id.index < self.identifiers@.len()
                &&& entity.index < self.signatures@.len()
                &&& self.signatures@[entity.index as int] matches Some(signature)
                &&& self.has_declared(signature.output)
                &&& forall|i: int|
                    0 <= i < signature.inputs@.len() ==> self.has_declared(
                        #[trigger] signature.inputs@[i],
                    )
            },
            EntityData::ItemName { kind: ItemKind::Struct, id, .. } => id.index
                < self.identifiers@.len(),
            _ => true,
        }
    }

    /// Whether `ty` is made of keys of the declared types.
    fn holds_declared(&self, ty: Ty<Declaration>) -> (held: bool)
        ensures
            held == self.has_declared(ty),
    {
        ty.perm.index < self.declarations.perms.len() && ty.base.index
            < self.declarations.bases.len()
    }

    /// Whether the kind `kind` names an entity of the program, if it names
    /// one.
    fn holds_kind<F: FamilyTypes>(&self, kind: BaseKind<F>) -> (held: bool)
        ensures
            held == self.has_kind(kind),
    {
        match kind {
            BaseKind::Named(entity) => entity.index < self.entities.len(),
            _ => true,
        }
    }

    /// Whether what the entity `entity` needs to be shown is there.
    fn entity_is_closed(&self, entity: Entity) -> (closed: bool)
        requires
            self.entities.wf(),
            self.has_entity(entity),
        ensures
            closed == self.entity_closed(entity),
    {
        match self.entities.lookup(entity) {
            EntityData::MemberName { base: _, kind, id } => {
                if id.index >= self.identifiers.len() {
                    return false;
                }
                match kind {
                    MemberKind::Field => {
                        if entity.index >= self.field_types.len() {
                            return false;
                        }
                        match self.field_types[entity.index] {
                            Some(ty) => self.holds_declared(ty),
                            None => false,
                        }
                    },
                    MemberKind::Method => self.signature_is_closed(entity),
                }
            },
            EntityData::ItemName { base: _, kind, id } => {
                if id.index >= self.identifiers.len() {
                    return false;
                }
                match kind {
                    ItemKind::Struct => true,
                    ItemKind::Function => self.signature_is_closed(entity),
                }
            },
            _ => true,
        }
    }

    /// Whether the signature of `entity` is there and is made of keys of
    /// the declared types.
    fn signature_is_closed(&self, entity: Entity) -> (closed: bool)
        ensures
            closed == {
                &&& entity.index < self.signatures@.len()
                &&& self.signatures@[entity.index as int] matches Some(signature)
                &&& self.has_declared(signature.output)
                &&& forall|i: int|
                    0 <= i < signature.inputs@.len() ==> self.has_declared(
                        #[trigger] signature.inputs@[i],
                    )
            },
    {
        if entity.index >= self.signatures.len() {
            return false;
        }
        match &self.signatures[entity.index] {
            None => false,
            Some(signature) => {
                if !self.holds_declared(signature.output) {
                    return false;
                }
                let mut i: usize = 0;
                while i < signature.inputs.len()
                    invariant
                        i <= signature.inputs@.len(),
                        entity.index < self.signatures@.len(),
                        self.signatures@[entity.index as int] == Some(*signature),
                        self.has_declared(signature.output),
                        forall|k: int|
                            0 <= k < i ==> self.has_declared(#[trigger] signature.inputs@[k]),
                    decreases signature.inputs@.len() - i,
                {
                    if !self.holds_declared(signature.inputs[i]) {
                        assert(!self.has_declared(signature.inputs@[i as int]));
                        return false;
                    }
                    i += 1;
                }
                true
            },
        }
    }

    /// Whether the database is closed: whether everything that its entities
    /// and types need to be shown is there.
    pub fn is_closed(&self) -> (closed: bool)
        requires
            self.entities.wf(),
            self.declarations.wf(),
            self.inferred.wf(),
        ensures
            closed == (self.entities_closed() && self.types_closed()),
    {
        let mut entity: usize = 0;
        while entity < self.entities.len()
            invariant
                self.entities.wf(),
                entity <= self.entities@.len(),
                forall|earlier: Entity|
                    earlier.index < entity ==> #[trigger] self.entity_closed(earlier),
            decreases self.entities@.len() - entity,
        {
            if !self.entity_is_closed(Entity { index: entity }) {
                assert(self.has_entity(Entity { index: entity }));
                return false;
            }
            entity += 1;
        }
        assert(self.entities_closed()) by {
            assert forall|entity: Entity| #[trigger] self.has_entity(entity) implies self.entity_closed(
                entity,
            ) by {}
        }
        let mut base: usize = 0;
        while base < self.declarations.bases.len()
            invariant
                self.declarations.wf(),
                base <= self.declarations.bases@.len(),
                forall|earlier: int|
                    0 <= earlier < base ==> match (#[trigger] self.declarations.bases@[earlier]) {
                        BoundVarOr::Known(data) => self.has_kind(data.kind),
                        BoundVarOr::BoundVar(_) => true,
                    },
            decreases self.declarations.bases@.len() - base,
        {
            match self.declarations.lookup_base(crate::ty::declaration::Base { index: base }) {
                BoundVarOr::Known(data) => {
                    if !self.holds_kind(data.kind) {
                        return false;
                    }
                },
                BoundVarOr::BoundVar(_) => {},
            }
            base += 1;
        }
        let mut base: usize = 0;
        while base < self.inferred.bases.len()
            invariant
                self.inferred.wf(),
                self.entities_closed(),
                base <= self.inferred.bases@.len(),
                forall|earlier: int|
                    0 <= earlier < self.declarations.bases@.len() ==> match (
                    #[trigger] self.declarations.bases@[earlier]) {
                        BoundVarOr::Known(data) => self.has_kind(data.kind),
                        BoundVarOr::BoundVar(_) => true,
                    },
                forall|earlier: int|
                    0 <= earlier < base ==> self.has_kind(
                        (#[trigger] self.inferred.bases@[earlier]).kind,
                    ),
            decreases self.inferred.bases@.len() - base,
        {
            let data = self.inferred.lookup_base(crate::ty::full_inferred::Base { index: base });
            if !self.holds_kind(data.kind) {
                return false;
            }
            base += 1;
        }
        true
    }

    /// The signature of `entity`, as the types of its parameters and the
    /// type that it returns.
    pub open spec fn signature_of(&self, entity: Entity) -> (Seq<Ty<Declaration>>, Ty<Declaration>) {
        let signature = self.signatures@[entity.index as int]->Some_0;
        (signature.inputs@, signature.output)
    }
}

/// The pieces that show the entity `entity`, seen through at most `depth`
/// types.
pub open spec fn entity_pieces(db: &PrettyPrintDatabase, entity: Entity, depth: nat) -> Seq<
    PieceView,
>
    decreases depth, 2nat,
{
    match db.entities@[entity.index as int] {
        EntityData::LangItem(LangItem::Boolean) => text_piece("bool"@),
        EntityData::LangItem(LangItem::Uint) => text_piece("uint"@),
        EntityData::LangItem(LangItem::Int) => text_piece("int"@),
        EntityData::LangItem(LangItem::String) => text_piece("String"@),
        EntityData::LangItem(LangItem::Tuple(0)) => text_piece("void"@),
        EntityData::LangItem(LangItem::Debug) => text_piece("<debug>"@),
        EntityData::MemberName { kind: MemberKind::Field, .. } => if depth == 0 {
            text_piece("..."@)
        } else {
            declared_ty_pieces(
                db,
                db.field_types@[entity.index as int]->Some_0,
                (depth - 1) as nat,
            )
        },
        EntityData::MemberName { kind: MemberKind::Method, id, .. } => text_piece(
            db.identifiers@[id.index as int],
        ) + signature_pieces(db, entity, depth),
        EntityData::ItemName { kind: ItemKind::Struct, id, .. } => text_piece(
            db.identifiers@[id.index as int],
        ),
        EntityData::ItemName { kind: ItemKind::Function, id, .. } => text_piece(
            db.identifiers@[id.index as int],
        ) + signature_pieces(db, entity, depth),
        data => seq![PieceView::Plain(data)],
    }
}

/// The pieces that show the signature of `entity`: the types of its
/// parameters in brackets, with commas between them, and then the type that
/// it returns.
pub open spec fn signature_pieces(db: &PrettyPrintDatabase, entity: Entity, depth: nat) -> Seq<
    PieceView,
>
    decreases depth, 1nat,
{
    if depth == 0 {
        text_piece("..."@)
    } else {
        let (inputs, output) = db.signature_of(entity);
        text_piece("("@) + inputs_pieces(db, inputs, (depth - 1) as nat) + text_piece(") -> "@)
            + declared_ty_pieces(db, output, (depth - 1) as nat)
    }
}

/// The pieces that show the types `inputs`, with commas between them.
pub open spec fn inputs_pieces(db: &PrettyPrintDatabase, inputs: Seq<Ty<Declaration>>, depth: nat) -> Seq<
    PieceView,
>
    decreases depth, inputs.len() + 5,
{
    if inputs.len() == 0 {
        Seq::empty()
    } else if inputs.len() == 1 {
        declared_ty_pieces(db, inputs[0], depth)
    } else {
        inputs_pieces(db, inputs.drop_last(), depth) + text_piece(", "@) + declared_ty_pieces(
            db,
            inputs.last(),
            depth,
        )
    }
}

/// The pieces that show the declared type `ty`.
pub open spec fn declared_ty_pieces(db: &PrettyPrintDatabase, ty: Ty<Declaration>, depth: nat) -> Seq<
    PieceView,
>
    decreases depth, 4nat,
{
    match db.declarations.bases@[ty.base.index as int] {
        BoundVarOr::BoundVar(var) => seq![PieceView::Parameter(var)],
        BoundVarOr::Known(data) => base_kind_pieces(db, data.kind, depth),
    }
}

/// The pieces that show the fully inferred type `ty`: what may be done
/// with the value, unless it is owned, and then what it is.
pub open spec fn inferred_ty_pieces(db: &PrettyPrintDatabase, ty: Ty<FullInferred>, depth: nat) -> Seq<
    PieceView,
> {
    perm_pieces(ty.perm) + base_kind_pieces(
        db,
        db.inferred.bases@[ty.base.index as int].kind,
        depth,
    )
}

/// The pieces that stand before a type for the permission `perm`.
pub open spec fn perm_pieces(perm: PermKind) -> Seq<PieceView> {
    match perm {
        PermKind::Own => Seq::empty(),
        PermKind::Share => text_piece("shared "@),
        PermKind::Borrow => text_piece("borrowed "@),
    }
}

/// The pieces that show a base of the kind `kind`.
pub open spec fn base_kind_pieces<F: FamilyTypes>(
    db: &PrettyPrintDatabase,
    kind: BaseKind<F>,
    depth: nat,
) -> Seq<PieceView>
    decreases depth, 3nat,
{
    match kind {
        BaseKind::Named(entity) => entity_pieces(db, entity, depth),
        BaseKind::Placeholder(_) => text_piece("<placeholder>"@),
        BaseKind::Error => text_piece("<error>"@),
    }
}

/// Adds the text `text` behind `pieces`.
fn push_text(pieces: &mut Vec<Piece>, text: &str)
    ensures
        piece_views(final(pieces)@) == piece_views(old(pieces)@) + text_piece(text@),
{
    pieces.push(Piece::Text(String::from_str(text)));
    assert(piece_views(pieces@) =~= piece_views(old(pieces)@) + text_piece(text@));
}

/// Adds to `pieces` those that show the entity `entity`, seen through at
/// most `depth` types.
pub fn show_entity(db: &PrettyPrintDatabase, entity: Entity, depth: usize, pieces: &mut Vec<Piece>)
    requires
        db.wf(),
        db.has_entity(entity),
    ensures
        piece_views(final(pieces)@) == piece_views(old(pieces)@) + entity_pieces(
            db,
            entity,
            depth as nat,
        ),
    decreases depth, 2nat,
{
    let data = db.entities.lookup(entity);
    match data {
        EntityData::LangItem(item) => match item {
            LangItem::Boolean => push_text(pieces, "bool"),
            LangItem::Uint => push_text(pieces, "uint"),
            LangItem::Int => push_text(pieces, "int"),
            LangItem::String => push_text(pieces, "String"),
            LangItem::Debug => push_text(pieces, "<debug>"),
            LangItem::Tuple(arity) => if arity == 0 {
                push_text(pieces, "void")
            } else {
                push_plain(pieces, data)
            },
            _ => push_plain(pieces, data),
        },
        EntityData::MemberName { base: _, kind, id } => match kind {
            MemberKind::Field => {
                if depth == 0 {
                    push_text(pieces, "...")
                } else {
                    match db.field_types[entity.index] {
                        Some(field_ty) => show_declared_ty(db, field_ty, depth - 1, pieces),
                        None => {},
                    }
                }
            },
            MemberKind::Method => {
                push_name(db, id, pieces);
                show_signature(db, entity, depth, pieces);
                proof {
                    assert(piece_views(pieces@) =~= piece_views(old(pieces)@) + (text_piece(
                        db.identifiers@[id.index as int],
                    ) + signature_pieces(db, entity, depth as nat)));
                }
            },
        },
        EntityData::ItemName { base: _, kind, id } => match kind {
            ItemKind::Struct => push_name(db, id, pieces),
            ItemKind::Function => {
                push_name(db, id, pieces);
                show_signature(db, entity, depth, pieces);
                proof {
                    assert(piece_views(pieces@) =~= piece_views(old(pieces)@) + (text_piece(
                        db.identifiers@[id.index as int],
                    ) + signature_pieces(db, entity, depth as nat)));
                }
            },
        },
        _ => push_plain(pieces, data),
    }
}

/// Adds the name `id` behind `pieces`.
fn push_name(db: &PrettyPrintDatabase, id: GlobalIdentifier, pieces: &mut Vec<Piece>)
    requires
        db.identifiers.wf(),
        id.index < db.identifiers@.len(),
    ensures
        piece_views(final(pieces)@) == piece_views(old(pieces)@) + text_piece(
            db.identifiers@[id.index as int],
        ),
{
    pieces.push(Piece::Text(db.identifiers.lookup(id)));
    assert(piece_views(pieces@) =~= piece_views(old(pieces)@) + text_piece(
        db.identifiers@[id.index as int],
    ));
}

/// Adds the entity `data`, which has no form of its own, behind `pieces`.
fn push_plain(pieces: &mut Vec<Piece>, data: EntityData)
    ensures
        piece_views(final(pieces)@) == piece_views(old(pieces)@) + seq![PieceView::Plain(data)],
{
    pieces.push(Piece::Plain(data));
    assert(piece_views(pieces@) =~= piece_views(old(pieces)@) + seq![PieceView::Plain(data)]);
}

/// Adds to `pieces` those that show the signature of `entity`, which is a
/// function or a method.
pub fn show_signature(db: &PrettyPrintDatabase, entity: Entity, depth: usize, pieces: &mut Vec<Piece>)
    requires
        db.wf(),
        db.has_entity(entity),
        db.entities@[entity.index as int] matches EntityData::MemberName {
            kind: MemberKind::Method,
            ..
        } || db.entities@[entity.index as int] matches EntityData::ItemName {
            kind: ItemKind::Function,
            ..
        },
    ensures
        piece_views(final(pieces)@) == piece_views(old(pieces)@) + signature_pieces(
            db,
            entity,
            depth as nat,
        ),
    decreases depth, 1nat,
{
    if depth == 0 {
        push_text(pieces, "...");
        return ;
    }
    match &db.signatures[entity.index] {
        None => {},
        Some(sig) => {
            let ghost start = piece_views(pieces@);
            push_text(pieces, "(");
            let mut i: usize = 0;
            while i < sig.inputs.len()
                invariant
                    depth > 0,
                    db.wf(),
                    i <= sig.inputs@.len(),
                    forall|k: int|
                        0 <= k < sig.inputs@.len() ==> db.has_declared(#[trigger] sig.inputs@[k]),
                    piece_views(pieces@) == start + text_piece("("@) + inputs_pieces(
                        db,
                        sig.inputs@.subrange(0, i as int),
                        (depth - 1) as nat,
                    ),
                decreases sig.inputs@.len() - i,
            {
                let ghost before = piece_views(pieces@);
                let ghost done = sig.inputs@.subrange(0, i as int);
                let ghost next = sig.inputs@.subrange(0, i + 1);
                if i > 0 {
                    push_text(pieces, ", ");
                }
                show_declared_ty(db, sig.inputs[i], depth - 1, pieces);
                proof {
                    assert(next.drop_last() =~= done);
                    assert(next.last() == sig.inputs@[i as int]);
                    let shown = declared_ty_pieces(db, sig.inputs@[i as int], (depth - 1) as nat);
                    if i == 0 {
                        assert(next[0] == sig.inputs@[0]);
                        assert(inputs_pieces(db, done, (depth - 1) as nat) =~= Seq::empty());
                        assert(piece_views(pieces@) =~= start + text_piece("("@) + shown);
                    } else {
                        assert(piece_views(pieces@) =~= start + text_piece("("@) + (inputs_pieces(
                            db,
                            done,
                            (depth - 1) as nat,
                        ) + text_piece(", "@) + shown));
                    }
                }
                i += 1;
            }
            proof {
                assert(sig.inputs@.subrange(0, i as int) =~= sig.inputs@);
            }
            push_text(pieces, ") -> ");
            show_declared_ty(db, sig.output, depth - 1, pieces);
            proof {
                assert(piece_views(pieces@) =~= start + (text_piece("("@) + inputs_pieces(
                    db,
                    sig.inputs@,
                    (depth - 1) as nat,
                ) + text_piece(") -> "@) + declared_ty_pieces(db, sig.output, (depth - 1) as nat)));
            }
        },
    }
}

/// Adds to `pieces` those that show the declared type `ty`.
pub fn show_declared_ty(db: &PrettyPrintDatabase, ty: Ty<Declaration>, depth: usize, pieces: &mut Vec<
    Piece,
>)
    requires
        db.wf(),
        db.has_declared(ty),
    ensures
        piece_views(final(pieces)@) == piece_views(old(pieces)@) + declared_ty_pieces(
            db,
            ty,
            depth as nat,
        ),
    decreases depth, 4nat,
{
    match db.declarations.lookup_perm(ty.perm) {
        DeclaredPermKind::Own => {},
    }
    match db.declarations.lookup_base(ty.base) {
        BoundVarOr::BoundVar(var) => {
            pieces.push(Piece::Parameter(var));
            assert(piece_views(pieces@) =~= piece_views(old(pieces)@) + seq![
                PieceView::Parameter(var),
            ]);
        },
        BoundVarOr::Known(base_data) => {
            assert(db.has_kind(db.declarations.bases@[ty.base.index as int]->Known_0.kind));
            show_base_kind(db, base_data.kind, depth, pieces)
        },
    }
}

/// Adds to `pieces` those that show the fully inferred type `ty`.
pub fn show_inferred_ty(db: &PrettyPrintDatabase, ty: Ty<FullInferred>, depth: usize, pieces: &mut Vec<
    Piece,
>)
    requires
        db.wf(),
        db.has_inferred(ty),
    ensures
        piece_views(final(pieces)@) == piece_views(old(pieces)@) + inferred_ty_pieces(
            db,
            ty,
            depth as nat,
        ),
{
    let ghost start = piece_views(pieces@);
    match ty.perm {
        PermKind::Own => {
            assert(start + Seq::<PieceView>::empty() =~= start);
        },
        PermKind::Share => push_text(pieces, "shared "),
        PermKind::Borrow => push_text(pieces, "borrowed "),
    }
    let data = db.inferred.lookup_base(ty.base);
    assert(db.has_kind(db.inferred.bases@[ty.base.index as int].kind));
    show_base_kind(db, data.kind, depth, pieces);
    assert(piece_views(pieces@) =~= start + (perm_pieces(ty.perm) + base_kind_pieces(
        db,
        data.kind,
        depth as nat,
    )));
}

/// Adds to `pieces` those that show a base of the kind `kind`.
pub fn show_base_kind<F: FamilyTypes>(
    db: &PrettyPrintDatabase,
    kind: BaseKind<F>,
    depth: usize,
    pieces: &mut Vec<Piece>,
)
    requires
        db.wf(),
        db.has_kind(kind),
    ensures
        piece_views(final(pieces)@) == piece_views(old(pieces)@) + base_kind_pieces(
            db,
            kind,
            depth as nat,
        ),
    decreases depth, 3nat,
{
    match kind {
        BaseKind::Named(entity) => show_entity(db, entity, depth, pieces),
        BaseKind::Placeholder(_) => push_text(pieces, "<placeholder>"),
        BaseKind::Error => push_text(pieces, "<error>"),
    }
}

/// What can be shown to the user.
pub trait PrettyPrint {
    /// Whether `self` is made of keys of `db`.
    spec fn showable(&self, db: &PrettyPrintDatabase) -> bool;

    /// The pieces that show `self`.
    spec fn shown(&self, db: &PrettyPrintDatabase) -> Seq<PieceView>;

    /// The pieces that show `self`.
    fn pretty_print(&self, db: &PrettyPrintDatabase) -> (pieces: Vec<Piece>)
        requires
            db.wf(),
            self.showable(db),
        ensures
            piece_views(pieces@) == self.shown(db),
    ;
}

impl PrettyPrint for Ty<Declaration> {
    open spec fn showable(&self, db: &PrettyPrintDatabase) -> bool {
        db.has_declared(*self)
    }

    open spec fn shown(&self, db: &PrettyPrintDatabase) -> Seq<PieceView> {
        declared_ty_pieces(db, *self, NESTING_LIMIT as nat)
    }

    fn pretty_print(&self, db: &PrettyPrintDatabase) -> (pieces: Vec<Piece>) {
        let mut pieces: Vec<Piece> = Vec::new();
        show_declared_ty(db, *self, NESTING_LIMIT, &mut pieces);
        assert(Seq::<PieceView>::empty() + self.shown(db) =~= self.shown(db));
        pieces
    }
}

impl PrettyPrint for Ty<FullInferred> {
    open spec fn showable(&self, db: &PrettyPrintDatabase) -> bool {
        db.has_inferred(*self)
    }

    open spec fn shown(&self, db: &PrettyPrintDatabase) -> Seq<PieceView> {
        inferred_ty_pieces(db, *self, NESTING_LIMIT as nat)
    }

    fn pretty_print(&self, db: &PrettyPrintDatabase) -> (pieces: Vec<Piece>) {
        let mut pieces: Vec<Piece> = Vec::new();
        show_inferred_ty(db, *self, NESTING_LIMIT, &mut pieces);
        assert(Seq::<PieceView>::empty() + self.shown(db) =~= self.shown(db));
        pieces
    }
}

impl<F: FamilyTypes> PrettyPrint for BaseData<F> {
    open spec fn showable(&self, db: &PrettyPrintDatabase) -> bool {
        db.has_kind(self.kind)
    }

    open spec fn shown(&self, db: &PrettyPrintDatabase) -> Seq<PieceView> {
        base_kind_pieces(db, self.kind, NESTING_LIMIT as nat)
    }

    fn pretty_print(&self, db: &PrettyPrintDatabase) -> (pieces: Vec<Piece>) {
        let mut pieces: Vec<Piece> = Vec::new();
        show_base_kind(db, self.kind, NESTING_LIMIT, &mut pieces);
        assert(Seq::<PieceView>::empty() + self.shown(db) =~= self.shown(db));
        pieces
    }
}

impl PrettyPrint for Entity {
    open spec fn showable(&self, db: &PrettyPrintDatabase) -> bool {
        db.has_entity(*self)
    }

    open spec fn shown(&self, db: &PrettyPrintDatabase) -> Seq<PieceView> {
        entity_pieces(db, *self, NESTING_LIMIT as nat)
    }

    fn pretty_print(&self, db: &PrettyPrintDatabase) -> (pieces: Vec<Piece>) {
        let mut pieces: Vec<Piece> = Vec::new();
        show_entity(db, *self, NESTING_LIMIT, &mut pieces);
        assert(Seq::<PieceView>::empty() + self.shown(db) =~= self.shown(db));
        pieces
    }
}

impl<F: FamilyTypes> PrettyPrint for BaseKind<F> {
    open spec fn showable(&self, db: &PrettyPrintDatabase) -> bool {
        db.has_kind(*self)
    }

    open spec fn shown(&self, db: &PrettyPrintDatabase) -> Seq<PieceView> {
        base_kind_pieces(db, *self, NESTING_LIMIT as nat)
    }

    fn pretty_print(&self, db: &PrettyPrintDatabase) -> (pieces: Vec<Piece>) {
        let mut pieces: Vec<Piece> = Vec::new();
        show_base_kind(db, *self, NESTING_LIMIT, &mut pieces);
        assert(Seq::<PieceView>::empty() + self.shown(db) =~= self.shown(db));
        pieces
    }
}

} // verus!
