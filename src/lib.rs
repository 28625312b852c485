//! JSON documents as Liquid templates.
//!
//! Every string of a JSON document, key or value, is template source. The
//! library holds the document model, the bridge between JSON values and the
//! engine's values, the recognition of bare single references, the tree walk
//! that assembles the rendered document, and the logic of the filters that
//! the template language gains (`each`, `json`, `base64_encode`,
//! `base64_decode`). The template engine itself is driven by the caller:
//! [`LiquidJson::requests`] lists the sources that need an evaluation, and
//! [`LiquidJson::render`] builds the output from their outcomes.

pub mod bridge;
pub mod error;
pub mod filters;
pub mod laws;
pub mod render;
pub mod single;
pub mod value;

pub use error::Error;
pub use filters::Each;
pub use render::{LiquidJson, LiquidJsonValue, Rendered};
pub use value::{Context, Json, JsonM, LiquidM, LiquidValue, Number};
