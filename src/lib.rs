//! A voxel-world streaming core: toroidal ring buffers that hold a scrolling
//! window of chunks, a block catalog, per-block face visibility, face-culling
//! meshing and the loader that re-centres the window as the viewer moves.

pub mod ring_buffer;
pub mod block;
pub mod chunk;
pub mod cube;
pub mod mesh;
pub mod chunk_loader;
