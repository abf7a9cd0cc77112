use vstd::prelude::*;

verus! {

/// The ways in which resolving a model or baking a texture can fail.
#[derive(Debug, Clone, Copy, PartialEq, Eq, Structural)]
pub enum RenderError {
    InvalidResourceId,
    InvalidDirection,
    InvalidAxis,
    InvalidAngle,
    InvalidTexture,
    ModelNotFound,
    MalformedModel,
    TextureNotFound,
    MalformedTexture,
    CyclicModelParent,
}

} // verus!
