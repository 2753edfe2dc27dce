//! Readers for the game's own cooked assets: package headers, localized text
//! tables, texture mips, and the breeding rules and reference index built
//! from them.

pub mod uasset;
pub mod text_table;
pub mod texture;
pub mod extract;
pub mod breeding;
pub mod reference;
pub mod usmap;
pub mod unversioned;
pub mod datatable;
pub mod messages;
