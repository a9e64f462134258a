//! Reading Wavefront OBJ text into a mesh: whitespace and slash splitting, the face
//! reference grammar, line classification, and the mesh that lines are added to.

pub mod face;
pub mod line;
pub mod mesh;
pub mod text;
