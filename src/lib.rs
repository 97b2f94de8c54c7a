use vstd::prelude::*;

pub mod edit;
pub mod model;
pub mod engine;

pub use edit::Edit;
pub use engine::diff;

verus! {

} // verus!
