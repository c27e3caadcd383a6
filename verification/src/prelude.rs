//! The coordinate and direction model, the grid-graph maze structure, the
//! generator contract, and the grid machinery shared by the algorithms.
pub mod coordinates;
pub mod direction;
pub mod field;
pub mod generator;
pub mod graph;
pub mod grid;
pub mod maze;

pub use coordinates::Coordinates;
pub use direction::Direction;
pub use field::Field;
pub use field::FieldType;
pub use generator::GenerationError;
pub use generator::Generator;
pub use graph::MazeGraph;
pub use maze::Maze;
