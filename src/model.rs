use vstd::prelude::*;

use crate::direction::Direction;
use crate::geometry::{model_transform, transform_of, ElementRotation, ModelTransform, Vec3};
use crate::texture::Image;

verus! {

/// A resolved cuboid: its extent, rotation and baked face images.
#[derive(Debug)]
pub struct Element {
    pub from: Vec3,
    pub to: Vec3,
    pub rotation: Option<ElementRotation>,
    pub faces: Vec<(Direction, Image)>,
}

impl Element {
    /// The element's placement, `translate(center) * rotate * scale`, as its
    /// three factors.
    pub fn to_model_matrix(&self) -> (r: ModelTransform)
        ensures
            r == model_transform(self.from, self.to, self.rotation),
    {
        transform_of(self.from, self.to, self.rotation)
    }
}

/// A model ready to draw.
#[derive(Debug)]
pub enum Model {
    Geometric(GeometricModel),
    Layered(LayeredModel),
}

/// A model made of cuboids, with its GUI display transform.
#[derive(Debug)]
pub struct GeometricModel {
    pub elements: Vec<Element>,
    pub ambient_occlusion: bool,
    pub rotation: Vec3,
    pub translation: Vec3,
    pub scale: Vec3,
}

/// An item icon made of flat texture layers.
#[derive(Debug)]
pub struct LayeredModel {
    pub layers: Vec<GeometricModel>,
}

} // verus!
