//! Value types shared by every node kind: sizing policies, alignment,
//! placement, identities, colours, input snapshots and drawing commands.

use vstd::prelude::*;
use crate::strings::str_eq;

verus! {

/// How one axis of a node is sized.
#[allow(non_camel_case_types)]
#[derive(Debug, Clone, Copy, PartialEq, Eq, Structural)]
pub enum Length {
    /// Exactly the extent the parent offers.
    FILL,
    /// As large as the node's own flow children require.
    FIT,
    /// A fixed number of pixels.
    FIXED(i32),
    /// A percentage of the extent the parent offers.
    PERCENT(i32),
}

/// The axis along which a container lays out its flow children.
#[derive(Debug, Clone, Copy, PartialEq, Eq, Structural)]
pub enum Direction {
    Row,
    Column,
}

/// Where flow children sit in the space they leave free.
#[derive(Debug, Clone, Copy, PartialEq, Eq, Structural)]
pub enum Alignment {
    Start,
    Center,
    End,
}

/// How a child is placed inside its container.
#[derive(Debug, Clone, Copy, PartialEq, Eq, Structural)]
pub enum Position {
    /// Part of the container's flow.
    Auto,
    /// At an offset from the container's origin, outside the flow.
    Abs(i32, i32),
    /// Like `Abs`, but pinned to the nearest scrolling ancestor's viewport.
    Sticky(i32, i32),
}

impl Position {
    /// The offset of a child placed outside the flow; `(0, 0)` for a flow child.
    pub open spec fn offset(self) -> (i32, i32) {
        match self {
            Position::Auto => (0, 0),
            Position::Abs(x, y) => (x, y),
            Position::Sticky(x, y) => (x, y),
        }
    }
}

/// The identity of a node: assigned by the engine while measuring, or
/// supplied by the caller and stable across layout cycles.
#[derive(Debug)]
pub enum ID {
    Auto(String),
    Manual(String),
}

/// The mathematical value of an [`ID`].
pub enum IdView {
    Auto(Seq<char>),
    Manual(Seq<char>),
}

impl IdView {
    /// The text under which the node is looked up.
    pub open spec fn text(self) -> Seq<char> {
        match self {
            IdView::Auto(t) => t,
            IdView::Manual(t) => t,
        }
    }
}

impl View for ID {
    type V = IdView;

    open spec fn view(&self) -> IdView {
        match self {
            ID::Auto(t) => IdView::Auto(t@),
            ID::Manual(t) => IdView::Manual(t@),
        }
    }
}

impl Clone for ID {
    fn clone(&self) -> (r: Self)
        ensures
            r == *self,
    {
        match self {
            ID::Auto(t) => ID::Auto(t.clone()),
            ID::Manual(t) => ID::Manual(t.clone()),
        }
    }
}

impl ID {
    /// The identity as text.
    pub fn text(&self) -> (r: String)
        ensures
            r@ == self@.text(),
    {
        match self {
            ID::Auto(t) => t.clone(),
            ID::Manual(t) => t.clone(),
        }
    }

    /// Whether the identity has the text `id`.
    pub fn is(&self, id: &str) -> (r: bool)
        ensures
            r == (self@.text() == id@),
    {
        match self {
            ID::Auto(t) => str_eq(t.as_str(), id),
            ID::Manual(t) => str_eq(t.as_str(), id),
        }
    }
}

/// The identity a node carries before the first measure pass names it.
pub fn generate_id() -> (r: String)
    ensures
        r@.len() == 0,
{
    String::new()
}

/// An RGBA colour.
#[derive(Debug, Clone, Copy, PartialEq, Eq, Structural)]
pub struct Color {
    pub r: u8,
    pub g: u8,
    pub b: u8,
    pub a: u8,
}

impl Color {
    /// Opaque black.
    pub fn black() -> (c: Color)
        ensures
            c == (Color { r: 0, g: 0, b: 0, a: 255 }),
    {
        Color { r: 0, g: 0, b: 0, a: 255 }
    }

    /// Opaque white.
    pub fn white() -> (c: Color)
        ensures
            c == (Color { r: 255, g: 255, b: 255, a: 255 }),
    {
        Color { r: 255, g: 255, b: 255, a: 255 }
    }

    /// Fully transparent black.
    pub fn transparent() -> (c: Color)
        ensures
            c == (Color { r: 0, g: 0, b: 0, a: 0 }),
    {
        Color { r: 0, g: 0, b: 0, a: 0 }
    }
}

/// The pointer state of one frame.
#[derive(Clone, Copy, Debug)]
pub struct MouseEvent {
    pub pos: (i32, i32),
    pub left_button_down: bool,
}

/// The wheel movement of one frame.
#[derive(Clone, Copy, Debug)]
pub struct ScrollEvent {
    pub pos: (i32, i32),
    pub delta: i32,
}

/// A deferred drawing request for a node placed outside the flow: such a
/// node is drawn after the flow content, so that it lies above it.
#[derive(Debug, Clone)]
pub struct AbsoluteDraw {
    pub component_id: String,
}

impl AbsoluteDraw {
    pub fn new(component_id: &str) -> (r: AbsoluteDraw)
        ensures
            r.component_id@ == component_id@,
    {
        AbsoluteDraw { component_id: component_id.to_owned() }
    }
}

/// One primitive handed to the canvas.
#[derive(Debug, Clone)]
pub enum DrawCommand {
    /// Fill the whole canvas.
    Clear { color: Color },
    /// Fill a rectangle.
    Rect { x: i32, y: i32, width: i32, height: i32, color: Color },
    /// Draw a run of text with its top-left corner at `(x, y)`.
    Text { content: String, x: i32, y: i32, font_size: i32, color: Color },
}

/// The mathematical value of a [`DrawCommand`].
pub enum DrawCommandView {
    Clear { color: Color },
    Rect { x: i32, y: i32, width: i32, height: i32, color: Color },
    Text { content: Seq<char>, x: i32, y: i32, font_size: i32, color: Color },
}

impl View for DrawCommand {
    type V = DrawCommandView;

    open spec fn view(&self) -> DrawCommandView {
        match self {
            DrawCommand::Clear { color } => DrawCommandView::Clear { color: *color },
            DrawCommand::Rect { x, y, width, height, color } => DrawCommandView::Rect {
                x: *x,
                y: *y,
                width: *width,
                height: *height,
                color: *color,
            },
            DrawCommand::Text { content, x, y, font_size, color } => DrawCommandView::Text {
                content: content@,
                x: *x,
                y: *y,
                font_size: *font_size,
                color: *color,
            },
        }
    }
}

/// Whether the point `p` lies in the rectangle at `pos` with extent `dim`,
/// edges included.
pub open spec fn point_in_rect(p: (i32, i32), pos: (i32, i32), dim: (i32, i32)) -> bool {
    &&& pos.0 <= p.0 <= pos.0 + dim.0
    &&& pos.1 <= p.1 <= pos.1 + dim.1
}

/// Tests a point against a rectangle, edges included.
pub fn rect_contains(p: (i32, i32), pos: (i32, i32), dim: (i32, i32)) -> (r: bool)
    ensures
        r == point_in_rect(p, pos, dim),
{
    let max_x: i64 = pos.0 as i64 + dim.0 as i64;
    let max_y: i64 = pos.1 as i64 + dim.1 as i64;
    p.0 >= pos.0 && p.0 as i64 <= max_x && p.1 >= pos.1 && p.1 as i64 <= max_y
}

} // verus!
