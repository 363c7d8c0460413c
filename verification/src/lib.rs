//! Mesh codes of the Japanese grid square system.
//!
//! A mesh code names one cell of a nested grid over longitude and latitude:
//! 80 km cells split into 10 km cells, those into 1 km cells, and those
//! into halves, quarters and eighths. This library turns a point into the
//! code of its cell at a level, a code into the rectangle of its cell, a
//! rectangle into the cells that cover it, and a cell into its parent or its
//! children.
//!
//! Angles are whole micro-arc-seconds, so every cell edge is exact.

pub mod calcs;
pub mod code11;
pub mod code2;
pub mod code_num;
pub mod digits;
pub mod error;
pub mod geom;
pub mod geom_code;
pub mod laws;
pub mod mesh_code;
pub mod mesh_seed;
pub mod mesh_type;

pub use crate::error::CodeError;
pub use crate::geom::{Coordinates, Rect};
pub use crate::mesh_code::{JPMesh, JPMeshCode};
pub use crate::mesh_type::JPMeshType;
