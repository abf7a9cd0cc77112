//! Resolution of block and item model files into render-ready models, and
//! baking of the face textures they reference.

pub mod direction;
pub mod error;
pub mod geometry;
pub mod json;
pub mod model;
pub mod resource_id;
pub mod resource_manager;
pub mod text;
pub mod texture;
pub mod unresolved_model;
