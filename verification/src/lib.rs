pub mod arena;
pub mod builder;
pub mod geometry;
pub mod sector;
pub mod world;

pub use geometry::{Line, LineID, SectorID, Vertex, VertexID};
pub use sector::Sector;
pub use world::World;
pub use builder::SectorBuilder;
