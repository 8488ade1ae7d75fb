//! The declared types of entities, as far as they are known without looking
//! at the source: those of the things that the language defines, and those
//! of entities that stand for an error.

use vstd::prelude::*;
use crate::entity::{Entity, EntityData, EntityTable, ErrorReported, LangItem};
use crate::intern::{
    lemma_all_interned_push, lemma_interned, position_of, with_all_interned, with_interned,
    InternKey, Interner,
};
use crate::ty::declaration::{Declaration, DeclarationTables, DeclaredPermKind};
use crate::ty::{
    BaseData, BaseDataView, BaseKind, BoundVar, BoundVarOr, Generic, GenericDeclarations,
    GenericKind, Generics, ReprKind, Signature, Ty, TypeFamily,
};

verus! {

/// What is known of an entity without its source.
pub enum Converted<T> {
    /// This much is known.
    Known(T),
    /// The entity is declared in the source: its declaration has to be
    /// parsed.
    Parse,
}

/// Whether `entity` is an entity of `entities` of which something can be
/// asked: any but a source file.
pub open spec fn has_declaration(entities: &EntityTable, entity: Entity) -> bool {
    &&& entity.index < entities@.len()
    &&& !(entities@[entity.index as int] is InputFile)
}

/// The generic declarations of `entity`. What the language defines has no
/// generic parameters. Tuples of elements are not provided for.
pub fn generic_declarations(entities: &EntityTable, entity: Entity) -> (result: Converted<
    Result<GenericDeclarations, ErrorReported>,
>)
    requires
        entities.wf(),
        has_declaration(entities, entity),
        match entities@[entity.index as int] {
            EntityData::LangItem(LangItem::Tuple(arity)) => arity == 0,
            _ => true,
        },
    ensures
        match entities@[entity.index as int] {
            EntityData::Error(report) => result == Converted::Known(
                Err::<GenericDeclarations, ErrorReported>(report),
            ),
            EntityData::LangItem(_) => {
                &&& result matches Converted::Known(Ok(declarations))
                &&& declarations.parent_item is None
                &&& declarations.declarations@.len() == 0
            },
            _ => result is Parse,
        },
{
    match entities.lookup(entity) {
        EntityData::Error(report) => Converted::Known(Err(report)),
        EntityData::LangItem(_) => Converted::Known(Ok(GenericDeclarations::empty(None))),
        _ => Converted::Parse,
    }
}

/// The signature of `entity`, which is a function or a method, or stands
/// for an error.
pub fn signature(entities: &EntityTable, entity: Entity) -> (result: Converted<
    Result<Signature<Declaration>, ErrorReported>,
>)
    requires
        entities.wf(),
        has_declaration(entities, entity),
        !(entities@[entity.index as int] is LangItem),
    ensures
        match entities@[entity.index as int] {
            EntityData::Error(report) => result == Converted::Known(
                Err::<Signature<Declaration>, ErrorReported>(report),
            ),
            _ => result is Parse,
        },
{
    match entities.lookup(entity) {
        EntityData::Error(report) => Converted::Known(Err(report)),
        _ => Converted::Parse,
    }
}

/// What the base table holds for the type that `entity` names, applied to
/// `generics`.
pub open spec fn named_entry(entity: Entity, generics: Seq<Generic<Declaration>>) -> BoundVarOr<
    BaseDataView<Declaration>,
> {
    BoundVarOr::Known(BaseDataView { kind: BaseKind::Named(entity), generics })
}

/// The declared type that `entity` names, applied to `generics`, with the
/// permission `perm` and the representation `repr`.
pub fn declaration_ty_named(
    tables: &mut DeclarationTables,
    entity: Entity,
    perm: DeclaredPermKind,
    repr: ReprKind,
    generics: Generics<Declaration>,
) -> (ty: Ty<Declaration>)
    requires
        old(tables).wf(),
    ensures
        final(tables).wf(),
        final(tables).perms@ == with_interned(old(tables).perms@, perm),
        final(tables).bases@ == with_interned(old(tables).bases@, named_entry(entity, generics@)),
        ty.repr == repr,
        ty.perm.index() == position_of(old(tables).perms@, perm),
        ty.base.index() == position_of(old(tables).bases@, named_entry(entity, generics@)),
{
    let kind = BaseKind::Named(entity);
    let base = Declaration::intern_base_data(tables, BaseData { kind, generics });
    Ty { perm: tables.intern_perm(perm), repr, base }
}

/// The declared type of the tuple of no elements.
pub fn unit_ty(tables: &mut DeclarationTables, entities: &mut EntityTable) -> (ty: Ty<Declaration>)
    requires
        old(tables).wf(),
        old(entities).wf(),
    ensures
        final(tables).wf(),
        final(entities).wf(),
        final(entities)@ == with_interned(old(entities)@, EntityData::LangItem(LangItem::Tuple(0))),
        final(tables).perms@ == with_interned(old(tables).perms@, DeclaredPermKind::Own),
        final(tables).bases@ == with_interned(
            old(tables).bases@,
            named_entry(unit_entity(old(entities)@), Seq::empty()),
        ),
        ty.repr == ReprKind::Direct,
        ty.perm.index() == position_of(old(tables).perms@, DeclaredPermKind::Own),
        ty.base.index() == position_of(
            old(tables).bases@,
            named_entry(unit_entity(old(entities)@), Seq::empty()),
        ),
{
    let entity: Entity = entities.intern(EntityData::LangItem(LangItem::Tuple(0)));
    proof {
        Entity::index_injective(entity, unit_entity(old(entities)@));
    }
    declaration_ty_named(
        tables,
        entity,
        DeclaredPermKind::Own,
        ReprKind::Direct,
        Generics::empty(),
    )
}

/// The entity of the tuple of no elements, once it has been interned into
/// `entities`.
pub open spec fn unit_entity(entities: Seq<EntityData>) -> Entity {
    Entity { index: position_of(entities, EntityData::LangItem(LangItem::Tuple(0))) as usize }
}

/// Whether `generic` is, in `tables`, the owned type of the generic
/// parameter at position `index`.
pub open spec fn is_bound_var(tables: &DeclarationTables, generic: Generic<Declaration>, index: int) -> bool {
    let ty = generic->Ty_0;
    &&& ty.repr == ReprKind::Direct
    &&& ty.perm.index < tables.perms@.len()
    &&& tables.perms@[ty.perm.index as int] == DeclaredPermKind::Own
    &&& ty.base.index < tables.bases@.len()
    &&& tables.bases@[ty.base.index as int] == BoundVarOr::<BaseDataView<Declaration>>::BoundVar(
        BoundVar { index: index as usize },
    )
}

/// Whether `ty` is, in `tables`, the owned type that `entity` names,
/// applied to one generic parameter for each of its `arity` arguments.
pub open spec fn is_named_type(
    tables: &DeclarationTables,
    ty: Ty<Declaration>,
    entity: Entity,
    arity: nat,
) -> bool {
    &&& ty.repr == ReprKind::Direct
    &&& ty.perm.index < tables.perms@.len()
    &&& tables.perms@[ty.perm.index as int] == DeclaredPermKind::Own
    &&& ty.base.index < tables.bases@.len()
    &&& tables.bases@[ty.base.index as int] matches BoundVarOr::Known(data)
    &&& data.kind == BaseKind::<Declaration>::Named(entity)
    &&& data.generics.len() == arity
    &&& forall|i: int| 0 <= i < arity ==> is_bound_var(tables, #[trigger] data.generics[i], i)
}

/// Whether `later` holds what `tables` holds, each entry under its key.
pub open spec fn tables_kept(tables: &DeclarationTables, later: &DeclarationTables) -> bool {
    &&& tables.perms@.len() <= later.perms@.len()
    &&& tables.bases@.len() <= later.bases@.len()
    &&& forall|i: int| 0 <= i < tables.perms@.len() ==> #[trigger] later.perms@[i] == tables.perms@[i]
    &&& forall|i: int| 0 <= i < tables.bases@.len() ==> #[trigger] later.bases@[i] == tables.bases@[i]
}

/// What the base table holds for each of the first `count` generic
/// parameters.
pub open spec fn bound_var_entries(count: nat) -> Seq<BoundVarOr<BaseDataView<Declaration>>> {
    Seq::new(count, |i: int| BoundVarOr::BoundVar(BoundVar { index: i as usize }))
}

/// Whether `later` holds what `tables` holds and the owned types of the
/// first `count` generic parameters besides.
pub open spec fn with_bound_vars(tables: &DeclarationTables, later: &DeclarationTables, count: nat) -> bool {
    &&& later.bases@ == with_all_interned(tables.bases@, bound_var_entries(count))
    &&& later.perms@ == if count > 0 {
        with_interned(tables.perms@, DeclaredPermKind::Own)
    } else {
        tables.perms@
    }
}

/// One owned generic parameter for each of the `arity` arguments of a
/// tuple.
fn bound_vars(tables: &mut DeclarationTables, arity: usize) -> (generics: Generics<Declaration>)
    requires
        old(tables).wf(),
    ensures
        final(tables).wf(),
        tables_kept(old(tables), final(tables)),
        with_bound_vars(old(tables), final(tables), arity as nat),
        generics@.len() == arity,
        forall|i: int| 0 <= i < arity ==> is_bound_var(final(tables), #[trigger] generics@[i], i),
{
    let mut generics: Generics<Declaration> = Generics::empty();
    let mut i: usize = 0;
    assert(bound_var_entries(0) =~= Seq::empty());
    while i < arity
        invariant
            i <= arity,
            tables.wf(),
            old(tables).wf(),
            tables_kept(old(tables), tables),
            with_bound_vars(old(tables), tables, i as nat),
            generics@.len() == i,
            forall|k: int| 0 <= k < i ==> is_bound_var(tables, #[trigger] generics@[k], k),
        decreases arity - i,
    {
        let ghost before = *tables;
        let ghost done = generics@;
        proof {
            before.perms.entries_distinct();
            before.bases.entries_distinct();
            lemma_interned(before.perms@, DeclaredPermKind::Own);
            lemma_interned(
                before.bases@,
                BoundVarOr::<BaseDataView<Declaration>>::BoundVar(BoundVar { index: i }),
            );
        }
        let bv = BoundVar::new(i);
        let base = Declaration::intern_bound_var(tables, bv);
        let perm = Declaration::own_perm(tables);
        generics.push(GenericKind::Ty(Ty { base, repr: ReprKind::Direct, perm }));
        proof {
            assert forall|k: int| 0 <= k < i + 1 implies is_bound_var(
                tables,
                #[trigger] generics@[k],
                k,
            ) by {
                if k < i {
                    assert(is_bound_var(&before, done[k], k));
                }
            }
            assert(bound_var_entries((i + 1) as nat) =~= bound_var_entries(i as nat).push(
                BoundVarOr::BoundVar(BoundVar { index: i }),
            ));
            lemma_all_interned_push(
                old(tables).bases@,
                bound_var_entries(i as nat),
                BoundVarOr::BoundVar(BoundVar { index: i }),
            );
            old(tables).perms.entries_distinct();
            lemma_interned(old(tables).perms@, DeclaredPermKind::Own);
        }
        i += 1;
    }
    generics
}

/// The declared type of `entity`. That of a truth value is the type of
/// truth values; that of a tuple takes one generic parameter for each
/// element; that of an entity which stands for an error is the type that
/// stands for an error.
pub fn ty(tables: &mut DeclarationTables, entities: &mut EntityTable, entity: Entity) -> (result:
    Converted<Ty<Declaration>>)
    requires
        old(tables).wf(),
        old(entities).wf(),
        has_declaration(old(entities), entity),
    ensures
        final(tables).wf(),
        final(entities).wf(),
        tables_kept(old(tables), final(tables)),
        match old(entities)@[entity.index as int] {
            EntityData::Error(_) => {
                &&& final(entities)@ == old(entities)@
                &&& final(tables).perms@ == with_interned(old(tables).perms@, DeclaredPermKind::Own)
                &&& final(tables).bases@ == with_interned(
                    old(tables).bases@,
                    BoundVarOr::Known(
                        BaseDataView::<Declaration> {
                            kind: BaseKind::Error,
                            generics: Seq::empty(),
                        },
                    ),
                )
                &&& result matches Converted::Known(ty)
                &&& ty.repr == ReprKind::Direct
                &&& ty.perm.index < final(tables).perms@.len()
                &&& final(tables).perms@[ty.perm.index as int] == DeclaredPermKind::Own
                &&& ty.base.index < final(tables).bases@.len()
                &&& final(tables).bases@[ty.base.index as int] == BoundVarOr::Known(
                    BaseDataView::<Declaration> { kind: BaseKind::Error, generics: Seq::empty() },
                )
            },
            EntityData::LangItem(LangItem::True) | EntityData::LangItem(LangItem::False) => {
                &&& final(entities)@ == with_interned(
                    old(entities)@,
                    EntityData::LangItem(LangItem::Boolean),
                )
                &&& final(tables).perms@ == with_interned(old(tables).perms@, DeclaredPermKind::Own)
                &&& final(tables).bases@ == with_interned(
                    old(tables).bases@,
                    named_entry(
                        Entity {
                            index: position_of(
                                old(entities)@,
                                EntityData::LangItem(LangItem::Boolean),
                            ) as usize,
                        },
                        Seq::empty(),
                    ),
                )
                &&& result matches Converted::Known(ty)
                &&& is_named_type(
                    final(tables),
                    ty,
                    Entity {
                        index: position_of(
                            old(entities)@,
                            EntityData::LangItem(LangItem::Boolean),
                        ) as usize,
                    },
                    0,
                )
            },
            EntityData::LangItem(LangItem::Tuple(arity)) => {
                &&& final(entities)@ == old(entities)@
                &&& final(tables).perms@ == with_interned(old(tables).perms@, DeclaredPermKind::Own)
                &&& result matches Converted::Known(ty)
                &&& is_named_type(final(tables), ty, entity, arity as nat)
                &&& final(tables).bases@ == with_interned(
                    with_all_interned(old(tables).bases@, bound_var_entries(arity as nat)),
                    final(tables).bases@[ty.base.index as int],
                )
            },
            EntityData::LangItem(_) => {
                &&& final(entities)@ == old(entities)@
                &&& final(tables).perms@ == with_interned(old(tables).perms@, DeclaredPermKind::Own)
                &&& final(tables).bases@ == with_interned(
                    old(tables).bases@,
                    named_entry(entity, Seq::empty()),
                )
                &&& result matches Converted::Known(ty)
                &&& is_named_type(final(tables), ty, entity, 0)
            },
            _ => {
                &&& final(entities)@ == old(entities)@
                &&& *final(tables) == *old(tables)
                &&& result is Parse
            },
        },
{
    proof {
        tables.perms.entries_distinct();
        tables.bases.entries_distinct();
        entities.entries_distinct();
    }
    match entities.lookup(entity) {
        EntityData::Error(_) => {
            proof {
                lemma_interned(tables.perms@, DeclaredPermKind::Own);
                lemma_interned(
                    tables.bases@,
                    BoundVarOr::Known(
                        BaseDataView::<Declaration> {
                            kind: BaseKind::Error,
                            generics: Seq::empty(),
                        },
                    ),
                );
            }
            let base = Declaration::intern_base_data(
                tables,
                BaseData { kind: BaseKind::Error, generics: Generics::empty() },
            );
            let perm = Declaration::own_perm(tables);
            Converted::Known(Ty { repr: ReprKind::Direct, perm, base })
        },
        EntityData::LangItem(LangItem::False) | EntityData::LangItem(LangItem::True) => {
            let boolean_entity: Entity = entities.intern(EntityData::LangItem(LangItem::Boolean));
            proof {
                lemma_interned(tables.perms@, DeclaredPermKind::Own);
                lemma_interned(tables.bases@, named_entry(boolean_entity, Seq::empty()));
                Entity::index_injective(
                    boolean_entity,
                    Entity {
                        index: position_of(
                            old(entities)@,
                            EntityData::LangItem(LangItem::Boolean),
                        ) as usize,
                    },
                );
            }
            Converted::Known(
                declaration_ty_named(
                    tables,
                    boolean_entity,
                    DeclaredPermKind::Own,
                    ReprKind::Direct,
                    Generics::empty(),
                ),
            )
        },
        EntityData::LangItem(LangItem::Tuple(arity)) => {
            let generics = bound_vars(tables, arity);
            let ghost mid = *tables;
            let ghost arguments = generics@;
            proof {
                mid.perms.entries_distinct();
                mid.bases.entries_distinct();
                lemma_interned(mid.perms@, DeclaredPermKind::Own);
                lemma_interned(mid.bases@, named_entry(entity, arguments));
            }
            let ty = declaration_ty_named(
                tables,
                entity,
                DeclaredPermKind::Own,
                ReprKind::Direct,
                generics,
            );
            proof {
                old(tables).perms.entries_distinct();
                lemma_interned(old(tables).perms@, DeclaredPermKind::Own);
                assert(tables.perms@ == with_interned(old(tables).perms@, DeclaredPermKind::Own));
                assert(tables.bases@[ty.base.index as int] == named_entry(entity, arguments));
                let data = tables.bases@[ty.base.index as int]->Known_0;
                assert forall|i: int| 0 <= i < arity implies is_bound_var(
                    tables,
                    #[trigger] data.generics[i],
                    i,
                ) by {
                    assert(is_bound_var(&mid, data.generics[i], i));
                }
            }
            Converted::Known(ty)
        },
        EntityData::LangItem(_) => {
            proof {
                lemma_interned(tables.perms@, DeclaredPermKind::Own);
                lemma_interned(tables.bases@, named_entry(entity, Seq::empty()));
            }
            Converted::Known(
                declaration_ty_named(
                    tables,
                    entity,
                    DeclaredPermKind::Own,
                    ReprKind::Direct,
                    Generics::empty(),
                ),
            )
        },
        _ => Converted::Parse,
    }
}

} // verus!
