//! The label: a container that wraps its text into rows of text runs, anew
//! at every measure pass.

use vstd::prelude::*;
use crate::common::{Alignment, Color, Direction, IdView, Length};
use crate::layout::{is_default_layout, Component, Layout, LayoutProps};
use crate::view::{NodeKind, NodeView};

verus! {

/// A label.
#[derive(Debug)]
pub struct TextLayout {
    pub layout: Layout,
    pub font_size: i32,
    pub wrap: bool,
    pub content: String,
    pub text_color: Color,
}

impl View for TextLayout {
    type V = NodeView;

    open spec fn view(&self) -> NodeView
        decreases self,
    {
        self.layout.view().as_text(
            NodeKind::TextWrap,
            self.content@,
            self.font_size,
            self.wrap,
            self.text_color,
            None,
        )
    }
}

/// The builder of a label.
#[derive(Debug)]
pub struct TextLayoutProps {
    pub layout: LayoutProps,
    pub font_size: i32,
    pub wrap: bool,
    pub content: String,
    pub text_color: Color,
}

impl Clone for TextLayout {
    fn clone(&self) -> (r: Self)
        ensures
            r@ == self@,
        decreases self, 1int,
    {
        TextLayout {
            layout: self.layout.clone(),
            font_size: self.font_size,
            wrap: self.wrap,
            content: self.content.clone(),
            text_color: self.text_color,
        }
    }
}

impl Clone for TextLayoutProps {
    fn clone(&self) -> (r: Self)
        ensures
            r.layout.layout@ == self.layout.layout@,
            r.font_size == self.font_size,
            r.wrap == self.wrap,
            r.content@ == self.content@,
            r.text_color == self.text_color,
    {
        TextLayoutProps {
            layout: self.layout.clone(),
            font_size: self.font_size,
            wrap: self.wrap,
            content: self.content.clone(),
            text_color: self.text_color,
        }
    }
}

/// The defaults of a label: a column that fits its text, transparent, not
/// scrolling, with black text of size 24 that wraps.
pub open spec fn is_default_label(props: TextLayoutProps) -> bool {
    &&& is_default_layout(
        Layout {
            dim: (Length::FILL, Length::FILL),
            overflow: (false, true),
            ..props.layout.layout
        },
        Direction::Column,
    )
    &&& props.layout.layout.dim == (Length::FIT, Length::FIT)
    &&& props.layout.layout.overflow == (false, false)
    &&& props.font_size == 24
    &&& props.wrap
    &&& props.content@.len() == 0
    &&& props.text_color == (Color { r: 0, g: 0, b: 0, a: 255 })
}

impl TextLayoutProps {
    /// A builder with the defaults of a label: a column that fits its text,
    /// transparent, not scrolling, with black text of size 24 that wraps.
    pub fn new() -> (r: Self)
        ensures
            is_default_label(r),
    {
        let layout = Layout::get_col_builder().dim((Length::FIT, Length::FIT)).overflow_y(false);
        TextLayoutProps {
            layout,
            font_size: 24,
            wrap: true,
            content: String::new(),
            text_color: Color::black(),
        }
    }

    pub fn content(self, content: &str) -> (r: Self)
        ensures
            r.content@ == content@,
            r == (TextLayoutProps { content: r.content, ..self }),
    {
        let mut props = self;
        props.content = content.to_owned();
        props
    }

    pub fn font_size(self, size: i32) -> (r: Self)
        ensures
            r == (TextLayoutProps { font_size: size, ..self }),
    {
        let mut props = self;
        props.font_size = size;
        props
    }

    pub fn wrap(self, wrap: bool) -> (r: Self)
        ensures
            r == (TextLayoutProps { wrap, ..self }),
    {
        let mut props = self;
        props.wrap = wrap;
        props
    }

    pub fn text_color(self, color: Color) -> (r: Self)
        ensures
            r == (TextLayoutProps { text_color: color, ..self }),
    {
        let mut props = self;
        props.text_color = color;
        props
    }

    pub fn dim(self, dim: (Length, Length)) -> (r: Self)
        ensures
            r == (TextLayoutProps { layout: LayoutProps { layout: Layout { dim, ..self.layout.layout } }, ..self }),
    {
        let TextLayoutProps { layout, font_size, wrap, content, text_color } = self;
        TextLayoutProps { layout: layout.dim(dim), font_size, wrap, content, text_color }
    }

    pub fn bg_color(self, color: Color) -> (r: Self)
        ensures
            r == (TextLayoutProps {
                layout: LayoutProps { layout: Layout { bg_color: color, ..self.layout.layout } },
                ..self
            }),
    {
        let TextLayoutProps { layout, font_size, wrap, content, text_color } = self;
        TextLayoutProps { layout: layout.bg_color(color), font_size, wrap, content, text_color }
    }

    pub fn main_align(self, align: Alignment) -> (r: Self)
        ensures
            r == (TextLayoutProps {
                layout: LayoutProps { layout: Layout { main_align: align, ..self.layout.layout } },
                ..self
            }),
    {
        let TextLayoutProps { layout, font_size, wrap, content, text_color } = self;
        TextLayoutProps { layout: layout.main_align(align), font_size, wrap, content, text_color }
    }

    pub fn cross_align(self, align: Alignment) -> (r: Self)
        ensures
            r == (TextLayoutProps {
                layout: LayoutProps { layout: Layout { cross_align: align, ..self.layout.layout } },
                ..self
            }),
    {
        let TextLayoutProps { layout, font_size, wrap, content, text_color } = self;
        TextLayoutProps { layout: layout.cross_align(align), font_size, wrap, content, text_color }
    }

    /// Sets the padding: left, top, right, bottom.
    pub fn padding(self, padding: (i32, i32, i32, i32)) -> (r: Self)
        ensures
            r == (TextLayoutProps {
                layout: LayoutProps { layout: Layout { padding, ..self.layout.layout } },
                ..self
            }),
    {
        let TextLayoutProps { layout, font_size, wrap, content, text_color } = self;
        TextLayoutProps { layout: layout.padding(padding), font_size, wrap, content, text_color }
    }

    pub fn gap(self, gap: i32) -> (r: Self)
        ensures
            r == (TextLayoutProps { layout: LayoutProps { layout: Layout { gap, ..self.layout.layout } }, ..self }),
    {
        let TextLayoutProps { layout, font_size, wrap, content, text_color } = self;
        TextLayoutProps { layout: layout.gap(gap), font_size, wrap, content, text_color }
    }

    /// Gives the node an identity that is stable across layout cycles.
    pub fn dbg_name(self, name: &str) -> (r: Self)
        ensures
            r.layout.layout.dbg_name@ == IdView::Manual(name@),
            r == (TextLayoutProps {
                layout: LayoutProps {
                    layout: Layout { dbg_name: r.layout.layout.dbg_name, ..self.layout.layout },
                },
                ..self
            }),
    {
        let TextLayoutProps { layout, font_size, wrap, content, text_color } = self;
        TextLayoutProps { layout: layout.dbg_name(name), font_size, wrap, content, text_color }
    }

    pub fn flex(self, flex: u32) -> (r: Self)
        ensures
            r == (TextLayoutProps { layout: LayoutProps { layout: Layout { flex, ..self.layout.layout } }, ..self }),
    {
        let TextLayoutProps { layout, font_size, wrap, content, text_color } = self;
        TextLayoutProps { layout: layout.flex(flex), font_size, wrap, content, text_color }
    }

    /// Names the click handler that the application keeps for this node.
    pub fn on_click(self, handler: usize) -> (r: Self)
        ensures
            r == (TextLayoutProps {
                layout: LayoutProps { layout: Layout { on_click: Some(handler), ..self.layout.layout } },
                ..self
            }),
    {
        let TextLayoutProps { layout, font_size, wrap, content, text_color } = self;
        TextLayoutProps { layout: layout.on_click(handler), font_size, wrap, content, text_color }
    }

    pub fn overflow_x(self, overflow: bool) -> (r: Self)
        ensures
            r == (TextLayoutProps {
                layout: LayoutProps {
                    layout: Layout {
                        overflow: (overflow, self.layout.layout.overflow.1),
                        ..self.layout.layout
                    },
                },
                ..self
            }),
    {
        let TextLayoutProps { layout, font_size, wrap, content, text_color } = self;
        TextLayoutProps { layout: layout.overflow_x(overflow), font_size, wrap, content, text_color }
    }

    pub fn overflow_y(self, overflow: bool) -> (r: Self)
        ensures
            r == (TextLayoutProps {
                layout: LayoutProps {
                    layout: Layout {
                        overflow: (self.layout.layout.overflow.0, overflow),
                        ..self.layout.layout
                    },
                },
                ..self
            }),
    {
        let TextLayoutProps { layout, font_size, wrap, content, text_color } = self;
        TextLayoutProps { layout: layout.overflow_y(overflow), font_size, wrap, content, text_color }
    }

    /// The label as a node of a tree.
    pub fn build(self) -> (r: Component)
        ensures
            r == Component::TextLayout(
                TextLayout {
                    layout: self.layout.layout,
                    font_size: self.font_size,
                    wrap: self.wrap,
                    content: self.content,
                    text_color: self.text_color,
                },
            ),
    {
        Component::TextLayout(
            TextLayout {
                layout: self.layout.get_layout(),
                font_size: self.font_size,
                wrap: self.wrap,
                content: self.content,
                text_color: self.text_color,
            },
        )
    }
}

impl TextLayout {
    /// A builder for a label.
    pub fn get_builder() -> (r: TextLayoutProps)
        ensures
            is_default_label(r),
    {
        TextLayoutProps::new()
    }
}

} // verus!
