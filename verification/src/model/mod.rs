//! Mesh topology: which files are models, which triangles can be drawn, and
//! the index bookkeeping of the OBJ, STL and glTF loaders.
pub mod accessor;
pub mod format;
pub mod glb;
pub mod topology;

pub use format::{model_format, ModelFormat};
pub use topology::{drawable_triangles, validate_structure, MeshError};
