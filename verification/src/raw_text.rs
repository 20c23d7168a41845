//! The text run: one unbreakable string of known pixel size, the atomic
//! drawable of a tree.

use vstd::prelude::*;
use crate::arith::{sat32, saturate};
use crate::common::{generate_id, Alignment, Color, Direction, IdView, Length, Position, ID};
use crate::view::{NodeKind, NodeView};

verus! {

/// A run of text.
#[derive(Debug)]
pub struct RawText {
    pub content: String,
    /// The pixel width of `content` at `font_size`, as the text metrics
    /// provider gave it.
    pub text_width: i32,
    pub font_size: i32,
    pub pos: (i32, i32),
    /// The full size after a measure pass; after an overflow pass its height
    /// is what is visible of the run.
    pub draw_dim: (i32, i32),
    pub dbg_name: ID,
    /// Left, top, right, bottom.
    pub padding: (i32, i32, i32, i32),
    pub color: Color,
}

/// The size of a text run: its text, one line high, inside its padding.
pub open spec fn run_size(text_width: i32, font_size: i32, padding: (i32, i32, i32, i32)) -> (i32, i32) {
    (sat32(text_width + padding.0 + padding.2), sat32(font_size + padding.1 + padding.3))
}

/// The model of a run that has just been made: unnamed, at the origin, of
/// its full size.
pub open spec fn run_view(
    content: Seq<char>,
    text_width: i32,
    font_size: i32,
    padding: (i32, i32, i32, i32),
    color: Color,
) -> NodeView {
    NodeView {
        kind: NodeKind::TextRun,
        children: Seq::empty(),
        dim: (Length::FIT, Length::FIT),
        draw_dim: run_size(text_width, font_size, padding),
        pos: (0, 0),
        bg_color: Color { r: 0, g: 0, b: 0, a: 0 },
        direction: Direction::Row,
        padding,
        main_align: Alignment::Start,
        cross_align: Alignment::Start,
        gap: 0,
        id: IdView::Auto(Seq::empty()),
        flex: 1,
        on_click: None,
        on_key: None,
        def_on_key: None,
        overflow: (false, false),
        position: Position::Auto,
        content,
        font_size,
        wrap: false,
        text_color: color,
        text_width,
    }
}

impl View for RawText {
    type V = NodeView;

    open spec fn view(&self) -> NodeView {
        NodeView {
            kind: NodeKind::TextRun,
            children: Seq::empty(),
            dim: (Length::FIT, Length::FIT),
            draw_dim: self.draw_dim,
            pos: self.pos,
            bg_color: Color { r: 0, g: 0, b: 0, a: 0 },
            direction: Direction::Row,
            padding: self.padding,
            main_align: Alignment::Start,
            cross_align: Alignment::Start,
            gap: 0,
            id: self.dbg_name@,
            flex: 1,
            on_click: None,
            on_key: None,
            def_on_key: None,
            overflow: (false, false),
            position: Position::Auto,
            content: self.content@,
            font_size: self.font_size,
            wrap: false,
            text_color: self.color,
            text_width: self.text_width,
        }
    }
}

impl Clone for RawText {
    fn clone(&self) -> (r: Self)
        ensures
            r == *self,
    {
        RawText {
            content: self.content.clone(),
            text_width: self.text_width,
            font_size: self.font_size,
            pos: self.pos,
            draw_dim: self.draw_dim,
            dbg_name: self.dbg_name.clone(),
            padding: self.padding,
            color: self.color,
        }
    }
}

impl RawText {
    /// A run for `content`, whose measured width is `text_width`.
    pub fn new(content: &str, text_width: i32, font_size: i32, padding: (i32, i32, i32, i32), color: Color) -> (r:
        RawText)
        ensures
            r@ == run_view(content@, text_width, font_size, padding, color),
    {
        let id = generate_id();
        assert(id@ =~= Seq::<char>::empty());
        RawText {
            content: content.to_owned(),
            text_width,
            font_size,
            pos: (0, 0),
            draw_dim: RawText::size_of(text_width, font_size, padding),
            dbg_name: ID::Auto(id),
            padding,
            color,
        }
    }

    /// The size of a run with the given measures.
    pub fn size_of(text_width: i32, font_size: i32, padding: (i32, i32, i32, i32)) -> (r: (i32, i32))
        ensures
            r == run_size(text_width, font_size, padding),
    {
        (
            saturate(text_width as i128 + padding.0 as i128 + padding.2 as i128),
            saturate(font_size as i128 + padding.1 as i128 + padding.3 as i128),
        )
    }

    /// The resolved size.
    pub fn get_draw_dim(&self) -> (r: (i32, i32))
        ensures
            r == self.draw_dim,
    {
        self.draw_dim
    }

    /// The resolved position.
    pub fn get_draw_pos(&self) -> (r: (i32, i32))
        ensures
            r == self.pos,
    {
        self.pos
    }

    /// Moves the run.
    pub fn set_pos(&mut self, pos: (i32, i32))
        ensures
            *final(self) == (RawText { pos, ..*old(self) }),
    {
        self.pos = pos;
    }

    /// The identity as text.
    pub fn get_id(&self) -> (r: String)
        ensures
            r@ == self@.id.text(),
    {
        self.dbg_name.text()
    }
}

} // verus!
