use vstd::prelude::*;

pub mod allocation;
pub mod registry;
pub mod space;
pub mod tags;
pub mod session;
pub mod exit;
pub mod coverage;
pub mod voxel;
pub mod words;
pub mod palette;
pub mod voxels;
pub mod mask;
pub mod region;
pub mod format;
pub mod lights;
pub mod column;
pub mod subchunk;
pub mod chunk;
pub mod rng;
pub mod zip;
pub mod shared;
pub mod packet;
pub mod codec;
pub mod fileext;
pub mod world;
pub mod resolver;
pub mod attribute;
pub mod axis;
pub mod text;
pub mod encoding;
pub mod persistence;
pub mod table;
pub mod queue;
pub mod knn;
pub mod blocks;
pub mod quad;
pub mod sequence;
pub mod packs;
pub mod locale;

verus! {
}
