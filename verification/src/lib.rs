//! Recognition of hand-drawn diagrams (boxes, circles, diamonds) in a grayscale
//! camera frame, and rendering of the recognized structure as D2 source text.

pub mod model;
pub mod geometry;
pub mod imaging;
pub mod pipeline;
pub mod d2gen;

pub use model::{BoundingBox, Diagram, Edge, Node, Point, ShapeKind};
pub use imaging::GrayFrame;
pub use pipeline::{ShapeCandidate, build_diagram, detect_shapes};
pub use d2gen::generate;
