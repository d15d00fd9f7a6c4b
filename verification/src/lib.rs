//! Hierarchical approximate convex decomposition of triangle meshes.
pub mod aabb;
pub mod agreement;
pub mod algebra;
pub mod ancestor;
pub mod bvt;
pub mod casting;
pub mod components;
pub mod connected;
pub mod counting;
pub mod decimation;
pub mod decompose;
pub mod dual_graph;
pub mod edge;
pub mod enclosing;
pub mod evaluation;
pub mod exact;
pub mod fixed;
pub mod geometry;
pub mod kernel;
pub mod laws;
pub mod linalg;
pub mod maximal;
pub mod measures;
pub mod mesh;
pub mod normalizing;
pub mod probing;
pub mod queue;
pub mod rays;
pub mod scalar;
pub mod set;
pub mod shape;
pub mod steps;
pub mod survey;
pub mod vertex;
pub mod waiting;

pub use ancestor::VertexWithConcavity;
pub use decompose::hacd;
pub use edge::DualGraphEdge;
pub use fixed::Fixed;
pub use kernel::ConvexPair;
pub use linalg::{center, dist, Pnt3, Vec2, Vec3};
pub use mesh::{IndexBuffer, TriMesh};
pub use rays::Ray;
pub use scalar::Scalar;
pub use vertex::DualGraphVertex;
