//! FurniGen core: the integer and text rules of the wardrobe library, verified.
//!
//! Lengths in the wardrobe model are millimetres held as floating point; the parts of the
//! library that only decide on counts, indices, identifiers, bytes and text stand here.

pub mod bom;
pub mod export_2d;
pub mod export_mesh;
pub mod mesh_index;
pub mod panels;
pub mod prng;
pub mod shelf_layout;
pub mod spec;
pub mod text;
