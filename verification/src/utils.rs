use vstd::prelude::*;

verus! {

/// Width and height of the viewport, in pixels.
#[derive(Clone, Copy, Debug, PartialEq, Eq, Structural)]
pub struct ViewPortDimensions {
    pub width: i32,
    pub height: i32,
}

/// A pair of screen coordinates.
#[derive(Clone, Copy, Debug)]
pub struct Cords<T> {
    pub x: T,
    pub y: T,
}

/// Failures of the font loading path at startup; per the error taxonomy these
/// abort startup, so the windowing layer maps them to a fatal exit.
#[derive(Clone, Copy, Debug, PartialEq, Eq, Structural)]
pub enum FontError {
    FailedToLoadFontLib,
    UnableToLoadFont,
    FailedToLoadGlyph,
}

/// Element of a list at a position, or `None` past the end.
pub fn get_at_index<T>(list: &Vec<T>, index: usize) -> (r: Option<&T>)
    ensures
        index < list@.len() ==> (r matches Some(e) && *e == list@[index as int]),
        index >= list@.len() ==> r is None,
{
    if index < list.len() {
        Some(&list[index])
    } else {
        None
    }
}

} // verus!
