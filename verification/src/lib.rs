//! A terminal browser for the models.dev catalogue of AI providers and models:
//! the catalogue's data model, fuzzy search over it, list navigation and the
//! text that the screen shows.
use vstd::prelude::*;

pub mod sorting;
pub mod text;
pub mod data;
pub mod input;
pub mod app;
pub mod search;
pub mod ui;

verus! {

} // verus!
