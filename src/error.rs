//! Errors of rendering.
use vstd::prelude::*;
use crate::value::Json;

verus! {

/// What can go wrong when a JSON template is rendered.
#[derive(Debug)]
pub enum Error {
    /// The data handed to a render is not a JSON object; it is carried here.
    InvalidContext(Json),
    /// The template engine failed to compile or evaluate a source; its message.
    LiquidError(String),
    /// The data holds an integer above `i64::MAX`, which the engine cannot hold.
    U64,
}

} // verus!
