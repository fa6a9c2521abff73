//! The render-region list's element types: a labeled pane region, a
//! separator rectangle, and the color and position values they carry.

use vstd::prelude::*;

verus! {

/// An RGBA color with 8-bit channels, carried through to the renderer.
#[derive(Clone, Copy, Debug, Default, PartialEq, Eq, Structural)]
pub struct Rgba {
    pub r: u8,
    pub g: u8,
    pub b: u8,
    pub a: u8,
}

impl Rgba {
    pub fn new(r: u8, g: u8, b: u8, a: u8) -> (c: Rgba)
        ensures
            c == (Rgba { r, g, b, a }),
    {
        Rgba { r, g, b, a }
    }
}

/// A point in unscaled pixel coordinates: a horizontal offset and a vertical
/// offset from the window's top-left corner.
#[derive(Clone, Copy, Debug, Default, PartialEq, Eq, Structural)]
pub struct Position {
    pub x: i64,
    pub y: i64,
}

/// A width and height in pixels.
#[derive(Clone, Copy, Debug, PartialEq, Eq, Structural)]
pub struct Size {
    pub width: i64,
    pub height: i64,
}

/// One pane's labeled render region: the identity of its rich-text content
/// and the unscaled offset at which the renderer should place it.
#[derive(Clone, Copy, Debug, PartialEq, Eq, Structural)]
pub struct RichText {
    pub id: usize,
    pub position: Position,
}

/// A plain colored rectangle, used for the separator between two panes.
#[derive(Clone, Copy, Debug, PartialEq, Eq, Structural)]
pub struct Rect {
    pub position: Position,
    pub color: Rgba,
    pub size: Size,
}

/// One entry of the render-region list.
#[derive(Clone, Copy, Debug, PartialEq, Eq, Structural)]
pub enum Object {
    RichText(RichText),
    Rect(Rect),
}

} // verus!
