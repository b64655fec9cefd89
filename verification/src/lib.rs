//! Voxel terrain toolkit: textures and tiled texture atlases, chunked voxel
//! grids, the face tables of the voxel baker and the loader of Goxel scenes.
use vstd::prelude::*;

pub mod chunk;
pub mod chunker;
pub mod gox;
pub mod gox_file;
pub mod sparse_chunk;
pub mod texture;
pub mod voxel;
pub mod voxel_tables;

verus! {

} // verus!
