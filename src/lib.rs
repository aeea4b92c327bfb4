//! Hygiene-aware import/export collection and macro call-site location for
//! a scope-resolved ECMAScript module tree.
pub mod syntax;
pub mod pattern;
pub mod table;
pub mod collect;
pub mod transform;
pub mod theorems;
pub mod dialect;
