//! The inference core of a compiler front end.
//!
//! - `intern`: tables that give each distinct value one small key.
//! - `entity`: the files, items and built-in things of a program.
//! - `ty`: types, and the families that say what a type is made of at each
//!   stage, from the declaration to the fully inferred type.
//! - `unify`: inference variables, unbound or bound for good, and linked
//!   into classes.
//! - `type_check`: one pass of inference: the universes of generic
//!   parameters that are held rigid, the equating of types, and the
//!   operations that wait until a variable is resolved.
//! - `type_conversion`: the declared types of what the language defines.
//! - `pretty_print`, `query_system`, `reference`: what the front end needs
//!   around the core to show types, to take requests in order, and to
//!   compare output with what is expected.

pub mod entity;
pub mod intern;
pub mod pretty_print;
pub mod query_system;
pub mod reference;
pub mod ty;
pub mod type_check;
pub mod type_conversion;
pub mod unify;
