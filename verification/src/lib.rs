//! A registry of RFID tag readings, verified with Verus.
//!
//! Readings are stored under an identifier (the TID when the reading has
//! one, `_` followed by the EPC otherwise) and indexed by EPC.
pub mod clock;
pub mod laws;
pub mod models;
pub mod rules;
pub mod sorting;
pub mod store;
pub mod tag_list;
pub mod text;
pub mod validation;

pub use models::{TagInput, TagRecord};
pub use tag_list::TagList;
pub use validation::TagListError;
