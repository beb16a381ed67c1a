use vstd::prelude::*;

verus! {

/// Where a vertical stack places each child across its width.
#[derive(Clone, Copy, Debug, PartialEq, Eq)]
pub enum HorizontalAlignment {
    Left,
    Center,
    Right,
}

/// Where a horizontal stack places each child across its height.
#[derive(Clone, Copy, Debug, PartialEq, Eq)]
pub enum VerticalAlignment {
    Top,
    Center,
    Bottom,
}

/// One side of a rectangle.
#[derive(Clone, Copy, Debug, PartialEq, Eq, Hash)]
pub enum Edge {
    Top,
    Right,
    Bottom,
    Left,
}

/// A set of edges, one flag per side.
#[derive(Clone, Copy, Debug, PartialEq, Eq, Hash)]
pub struct EdgeSet {
    pub top: bool,
    pub right: bool,
    pub bottom: bool,
    pub left: bool,
}

impl EdgeSet {
    pub open spec fn spec_contains(self, edge: Edge) -> bool {
        match edge {
            Edge::Top => self.top,
            Edge::Right => self.right,
            Edge::Bottom => self.bottom,
            Edge::Left => self.left,
        }
    }

    /// The set without any edge.
    pub fn empty() -> (r: EdgeSet)
        ensures
            forall|e: Edge| !r.spec_contains(e),
    {
        EdgeSet { top: false, right: false, bottom: false, left: false }
    }

    /// The set with `edge` added.
    pub fn with(self, edge: Edge) -> (r: EdgeSet)
        ensures
            forall|e: Edge| r.spec_contains(e) == (self.spec_contains(e) || e == edge),
    {
        match edge {
            Edge::Top => EdgeSet { top: true, ..self },
            Edge::Right => EdgeSet { right: true, ..self },
            Edge::Bottom => EdgeSet { bottom: true, ..self },
            Edge::Left => EdgeSet { left: true, ..self },
        }
    }

    pub fn contains(&self, edge: Edge) -> (r: bool)
        ensures
            r == self.spec_contains(edge),
    {
        match edge {
            Edge::Top => self.top,
            Edge::Right => self.right,
            Edge::Bottom => self.bottom,
            Edge::Left => self.left,
        }
    }
}

impl Edge {
    /// All four edges.
    pub fn all() -> (r: EdgeSet)
        ensures
            forall|e: Edge| r.spec_contains(e),
    {
        EdgeSet { top: true, right: true, bottom: true, left: true }
    }

    /// The left and right edges.
    pub fn horizontal() -> (r: EdgeSet)
        ensures
            forall|e: Edge| r.spec_contains(e) == (e == Edge::Right || e == Edge::Left),
    {
        EdgeSet { top: false, right: true, bottom: false, left: true }
    }

    /// The top and bottom edges.
    pub fn vertical() -> (r: EdgeSet)
        ensures
            forall|e: Edge| r.spec_contains(e) == (e == Edge::Top || e == Edge::Bottom),
    {
        EdgeSet { top: true, right: false, bottom: true, left: false }
    }
}

} // verus!
