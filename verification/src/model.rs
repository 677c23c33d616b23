use vstd::prelude::*;

verus! {

/// The kinds of hand-drawn shapes that are recognized.
#[derive(Debug, Clone, Copy, PartialEq, Eq, Structural)]
pub enum ShapeKind {
    Rectangle,
    Circle,
    Diamond,
}

/// Axis-aligned bounding box in source-image pixel coordinates.
#[derive(Debug, Clone, Copy, PartialEq, Eq, Structural)]
pub struct BoundingBox {
    pub x: u32,
    pub y: u32,
    pub width: u32,
    pub height: u32,
}

/// A point of a traced contour, in pixel coordinates.
#[derive(Debug, Clone, Copy, PartialEq, Eq, Structural)]
pub struct Point {
    pub x: i32,
    pub y: i32,
}

/// A recognized shape in the diagram.
#[derive(Debug, Clone, PartialEq, Eq)]
pub struct Node {
    pub id: usize,
    pub shape: ShapeKind,
    pub label: Option<String>,
    pub bbox: BoundingBox,
}

/// A connector between two nodes, given by their ids.
#[derive(Debug, Clone, PartialEq, Eq)]
pub struct Edge {
    pub from: usize,
    pub to: usize,
    pub label: Option<String>,
    pub directed: bool,
}

/// The recognized diagram structure, independent of D2 or any rendering concern.
#[derive(Debug, Clone, PartialEq, Eq)]
pub struct Diagram {
    pub nodes: Vec<Node>,
    pub edges: Vec<Edge>,
}

impl Default for Diagram {
    /// The empty diagram: no nodes and no edges.
    fn default() -> (d: Self)
        ensures
            d.nodes@.len() == 0,
            d.edges@.len() == 0,
    {
        Diagram { nodes: Vec::new(), edges: Vec::new() }
    }
}

} // verus!
