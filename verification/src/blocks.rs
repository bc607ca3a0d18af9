use vstd::prelude::*;
use std::ops::Range;

use crate::axis::AxisArray;
use crate::coverage::Coverages;

verus! {

/// A kind of block.
pub struct Block {
    /// Range of BlockState indices.
    pub states: Range<usize>,
}

/// One state of a block.
pub struct BlockState {
    pub coverages: Coverages,
    pub transparency: Transparency,
    pub model: ModelData,
    /// Identifies the variant.
    pub bits: u32,
}

/// How a block state is drawn.
pub enum ModelData {
    Empty,
    /// The block fully occupies a 1x1x1 space, and does not have any special connectivity.
    Full {
        /// Texture used on each side.
        textures: AxisArray<u16>,
    },
}

/// How the alpha values of a block's textures are spread.
#[derive(Copy, Clone, Eq, PartialEq, Debug, Hash)]
pub enum Transparency {
    /// Every alpha value is one.
    Opaque,
    /// Some alpha values lie strictly between zero and one.
    Blend,
    /// Every alpha value is either one or zero.
    Mask,
}

pub struct Element {}

} // verus!
