//! Entities: the files, items, members and built-in things of a program.

use vstd::prelude::*;
use crate::intern::{InternData, InternKey, InternTable};
use crate::intern::{mix, mixed};
use crate::ty::Atom;

verus! {

/// The key of an entity.
#[derive(Clone, Copy, Debug, PartialEq, Eq, Hash, Structural)]
pub struct Entity {
    pub index: usize,
}

/// The key of a name.
#[derive(Clone, Copy, Debug, PartialEq, Eq, Hash, Structural)]
pub struct GlobalIdentifier {
    pub index: usize,
}

/// The name of a source file.
#[derive(Clone, Copy, Debug, PartialEq, Eq, Hash, Structural)]
pub struct FileName {
    pub id: GlobalIdentifier,
}

/// A stretch of a source file, from the byte at `start` up to the byte at
/// `end`.
#[derive(Clone, Copy, Debug, PartialEq, Eq, Hash, Structural)]
pub struct Span {
    pub file: FileName,
    pub start: usize,
    pub end: usize,
}

/// Says that an error was found and has been reported, at `span`.
#[derive(Clone, Copy, Debug, PartialEq, Eq, Hash, Structural)]
pub struct ErrorReported {
    pub span: Span,
}

/// The things that the language itself defines.
#[derive(Clone, Copy, Debug, PartialEq, Eq, Hash, Structural)]
pub enum LangItem {
    Boolean,
    Int,
    Uint,
    String,
    Tuple(usize),
    Debug,
    True,
    False,
}

/// The kinds of item.
#[derive(Clone, Copy, Debug, PartialEq, Eq, Hash, Structural)]
pub enum ItemKind {
    Struct,
    Function,
}

/// The kinds of member of an item.
#[derive(Clone, Copy, Debug, PartialEq, Eq, Hash, Structural)]
pub enum MemberKind {
    Field,
    Method,
}

/// What an entity is.
#[allow(inconsistent_fields)]
#[derive(Clone, Copy, Debug, PartialEq, Eq, Hash, Structural)]
pub enum EntityData {
    /// A source file.
    InputFile { file: FileName },
    /// An item named `id`, declared in `base`.
    ItemName { base: Entity, kind: ItemKind, id: GlobalIdentifier },
    /// A member named `id` of the item `base`.
    MemberName { base: Entity, kind: MemberKind, id: GlobalIdentifier },
    /// Something that the language defines.
    LangItem(LangItem),
    /// Stands for an entity that could not be determined.
    Error(ErrorReported),
}

impl Atom for Entity {
    fn same(&self, other: &Self) -> (same: bool) {
        self.index == other.index
    }

    open spec fn hashed(self) -> u64 {
        self.index as u64
    }

    fn hash_atom(&self) -> (code: u64) {
        self.index as u64
    }
}

impl InternKey for Entity {
    open spec fn index(self) -> nat {
        self.index as nat
    }

    fn from_usize(index: usize) -> (key: Self) {
        Entity { index }
    }

    fn as_usize(self) -> (index: usize) {
        self.index
    }

    proof fn index_injective(a: Self, b: Self) {
    }
}

impl Atom for GlobalIdentifier {
    fn same(&self, other: &Self) -> (same: bool) {
        self.index == other.index
    }

    open spec fn hashed(self) -> u64 {
        self.index as u64
    }

    fn hash_atom(&self) -> (code: u64) {
        self.index as u64
    }
}

impl InternKey for GlobalIdentifier {
    open spec fn index(self) -> nat {
        self.index as nat
    }

    fn from_usize(index: usize) -> (key: Self) {
        GlobalIdentifier { index }
    }

    fn as_usize(self) -> (index: usize) {
        self.index
    }

    proof fn index_injective(a: Self, b: Self) {
    }
}

impl Atom for Span {
    fn same(&self, other: &Self) -> (same: bool) {
        *self == *other
    }

    open spec fn hashed(self) -> u64 {
        mix(mix(self.file.id.index as u64, self.start as u64), self.end as u64)
    }

    fn hash_atom(&self) -> (code: u64) {
        mixed(mixed(self.file.id.index as u64, self.start as u64), self.end as u64)
    }
}

impl Atom for LangItem {
    fn same(&self, other: &Self) -> (same: bool) {
        *self == *other
    }

    open spec fn hashed(self) -> u64 {
        match self {
            LangItem::Boolean => 0,
            LangItem::Int => 1,
            LangItem::Uint => 2,
            LangItem::String => 3,
            LangItem::Tuple(arity) => mix(4, arity as u64),
            LangItem::Debug => 5,
            LangItem::True => 6,
            LangItem::False => 7,
        }
    }

    fn hash_atom(&self) -> (code: u64) {
        match self {
            LangItem::Boolean => 0,
            LangItem::Int => 1,
            LangItem::Uint => 2,
            LangItem::String => 3,
            LangItem::Tuple(arity) => mixed(4, *arity as u64),
            LangItem::Debug => 5,
            LangItem::True => 6,
            LangItem::False => 7,
        }
    }
}

impl View for EntityData {
    type V = EntityData;

    open spec fn view(&self) -> EntityData {
        *self
    }
}

impl Atom for EntityData {
    fn same(&self, other: &Self) -> (same: bool) {
        *self == *other
    }

    open spec fn hashed(self) -> u64 {
        match self {
            EntityData::InputFile { file } => mix(1, file.id.index as u64),
            EntityData::ItemName { base, kind, id } => mix(
                mix(2, base.index as u64),
                id.index as u64,
            ),
            EntityData::MemberName { base, kind, id } => mix(
                mix(3, base.index as u64),
                id.index as u64,
            ),
            EntityData::LangItem(item) => mix(4, item.hashed()),
            EntityData::Error(report) => mix(5, report.span.hashed()),
        }
    }

    fn hash_atom(&self) -> (code: u64) {
        match self {
            EntityData::InputFile { file } => mixed(1, file.id.index as u64),
            EntityData::ItemName { base, kind: _, id } => mixed(
                mixed(2, base.index as u64),
                id.index as u64,
            ),
            EntityData::MemberName { base, kind: _, id } => mixed(
                mixed(3, base.index as u64),
                id.index as u64,
            ),
            EntityData::LangItem(item) => mixed(4, item.hash_atom()),
            EntityData::Error(report) => mixed(5, report.span.hash_atom()),
        }
    }
}

impl InternData for EntityData {
    fn same(&self, other: &Self) -> (same: bool) {
        *self == *other
    }

    fn duplicate(&self) -> (copy: Self) {
        *self
    }

    open spec fn hash_of(view: EntityData) -> u64 {
        view.hashed()
    }

    fn hash_data(&self) -> (code: u64) {
        self.hash_atom()
    }
}

/// The table that gives each entity its key.
pub type EntityTable = InternTable<Entity, EntityData>;

} // verus!
