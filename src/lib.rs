//! The engine of a directory lister: configuration, entry selection,
//! ordering, column widths and rendering of listings.
use vstd::prelude::*;

pub mod bytes;
pub mod date;
pub mod entry;
pub mod layout;
pub mod listing;
pub mod numfmt;
pub mod options;
pub mod render;
pub mod settings;
pub mod sorting;

pub use options::Dereference;

verus! {

} // verus!
