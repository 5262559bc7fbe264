//! Idiomatic types for building a robust JSON API.
pub mod builder;
pub mod doc;
pub mod error;
mod trusted;
pub mod query;
mod resource;
pub mod view;
pub mod value;

pub use doc::Document;
pub use error::Error;
pub use resource::has_many;
pub use resource::has_one;
pub use resource::Resource;
pub use value::Value;
pub use view::render::to_doc;
pub use view::render::lemma_flatten_absent_render;

use vstd::prelude::*;

verus! {

/// Marker trait used to prevent marker traits from being implemented
/// downstream.
pub trait Sealed {}

} // verus!
