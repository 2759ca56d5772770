//! A small library for keeping named favorite folder locations.
//!
//! Favorites are `(name, location)` pairs with non-empty, trimmed text on both
//! sides, collected in an ordered, name-unique [`AllFavorites`] collection.
//! The collection round-trips losslessly through a JSON document, and the
//! surrounding command logic (lookup, fuzzy filtering, table rendering,
//! number prompts) is specified and verified here; all file, terminal and
//! clipboard handling lives with the callers.

pub use all_favorites::AllFavorites;

pub mod all_favorites;
pub mod cli_args;
pub mod command_handling;
pub mod console_interaction;
pub mod data_access;
pub mod document;
pub mod favorite_folder_record;
pub mod favorite_table;
pub mod paths;
pub mod text;
pub mod trimmed_not_empty_text;
