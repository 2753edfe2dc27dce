//! Paldex: readers for Palworld save files and the game's own pak assets.
//!
//! - [`gvas`] decodes Unreal's `GVAS` save-game property trees.
//! - [`data`] reads cooked `.uasset` packages, text tables, textures and the
//!   breeding rules.
//! - [`locate`] models save roots, worlds and the Steam library manifest.
//! - [`encoding`] renders digests as hex and icons as base64 `data:` URLs.
//! - [`views`] holds the shapes the desktop front end renders, and the
//!   reference-data joins that fill them.

pub mod bytes;
pub mod text;
pub mod assoc;
pub mod order;
pub mod encoding;
pub mod gvas;
pub mod data;

pub mod locate;
pub mod views;
