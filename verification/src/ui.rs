use vstd::prelude::*;

verus! {

/// A width/height or x/y pair used throughout the view tree.
#[derive(Clone, Copy, Debug)]
pub struct Dimensions<T> {
    pub x: T,
    pub y: T,
}

impl<T> Dimensions<T> {
    pub fn new(x: T, y: T) -> (d: Dimensions<T>)
        ensures
            d.x == x,
            d.y == y,
    {
        Dimensions { x, y }
    }
}

impl Dimensions<i32> {
    /// The origin / an empty extent.
    pub fn zerod() -> (d: Dimensions<i32>)
        ensures
            d.x == 0,
            d.y == 0,
    {
        Dimensions { x: 0, y: 0 }
    }
}

/// Extent of a view in pixels.
pub type ViewDimens = Dimensions<i32>;

/// Position of a view in pixels.
pub type ViewPosition = Dimensions<i32>;

/// Failures in the view tree.
#[derive(Clone, Copy, Debug, PartialEq, Eq, Structural)]
pub enum UIError {
    UnableToInitializeFramebuffer,
    ViewNotFound,
}

/// How a container stacks its children.
#[derive(Clone, Copy, Debug, PartialEq, Eq, Structural)]
pub enum Orientation {
    Vertical,
    Horizontal,
}

} // verus!
