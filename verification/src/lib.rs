//! The verified core of a note-taking assistant: the in-memory record store
//! with the schema's cascade rules, the merge-or-insert pipeline that
//! applies a model's analysis of an input, envelope encryption for stored
//! credentials, exact integer accounting of call costs, the cancellable
//! directory-scan state machine with its analysis, and the text, search and
//! import decisions the surrounding shell leans on.

use vstd::prelude::*;

pub mod agent;
pub mod analysis;
pub mod cost;
pub mod excel;
pub mod extract;
pub mod google;
pub mod mask;
pub mod records;
pub mod research;
pub mod scan;
pub mod shell_types;
pub mod store;
pub mod table;
pub mod text;
pub mod vault;

verus! {

} // verus!
