//! The text input: a focusable label whose text is edited by key events.

use vstd::prelude::*;
use crate::common::{Alignment, Color, Direction, IdView, Length};
use crate::layout::{is_default_layout, Component, Layout, LayoutProps};
use crate::view::{NodeKind, NodeView};

verus! {

/// A text input.
#[derive(Debug)]
pub struct TextInput {
    pub layout: Layout,
    pub font_size: i32,
    pub wrap: bool,
    pub content: String,
    pub text_color: Color,
    /// The key handler that the application keeps for this input; without
    /// one, the default key reducer edits the text.
    pub def_on_key: Option<usize>,
}

impl View for TextInput {
    type V = NodeView;

    open spec fn view(&self) -> NodeView
        decreases self,
    {
        self.layout.view().as_text(
            NodeKind::TextInput,
            self.content@,
            self.font_size,
            self.wrap,
            self.text_color,
            self.def_on_key,
        )
    }
}

/// The builder of a text input.
#[derive(Debug)]
pub struct TextInputProps {
    pub layout: LayoutProps,
    pub font_size: i32,
    pub wrap: bool,
    pub content: String,
    pub text_color: Color,
    /// The key handler that the application keeps for this input; without
    /// one, the default key reducer edits the text.
    pub def_on_key: Option<usize>,
}

impl Clone for TextInput {
    fn clone(&self) -> (r: Self)
        ensures
            r@ == self@,
        decreases self, 1int,
    {
        TextInput {
            layout: self.layout.clone(),
            font_size: self.font_size,
            wrap: self.wrap,
            content: self.content.clone(),
            text_color: self.text_color,
            def_on_key: self.def_on_key,
        }
    }
}

impl Clone for TextInputProps {
    fn clone(&self) -> (r: Self)
        ensures
            r.layout.layout@ == self.layout.layout@,
            r.font_size == self.font_size,
            r.wrap == self.wrap,
            r.content@ == self.content@,
            r.text_color == self.text_color,
            r.def_on_key == self.def_on_key,
    {
        TextInputProps {
            layout: self.layout.clone(),
            font_size: self.font_size,
            wrap: self.wrap,
            content: self.content.clone(),
            text_color: self.text_color,
            def_on_key: self.def_on_key,
        }
    }
}

/// The defaults of a text input: a white column that fits its text and
/// scrolls along y, with black text of size 24 that wraps, edited by the
/// default key reducer.
pub open spec fn is_default_input(props: TextInputProps) -> bool {
    &&& is_default_layout(
        Layout {
            dim: (Length::FILL, Length::FILL),
            bg_color: Color { r: 0, g: 0, b: 0, a: 0 },
            ..props.layout.layout
        },
        Direction::Column,
    )
    &&& props.layout.layout.dim == (Length::FIT, Length::FIT)
    &&& props.layout.layout.bg_color == (Color { r: 255, g: 255, b: 255, a: 255 })
    &&& props.font_size == 24
    &&& props.wrap
    &&& props.content@.len() == 0
    &&& props.text_color == (Color { r: 0, g: 0, b: 0, a: 255 })
    &&& props.def_on_key is None
}

impl TextInputProps {
    /// A builder with the defaults of a text input: a white column that fits
    /// its text and scrolls along y, with black text of size 24 that wraps,
    /// edited by the default key reducer.
    pub fn new() -> (r: Self)
        ensures
            is_default_input(r),
    {
        let layout = Layout::get_col_builder().dim((Length::FIT, Length::FIT)).bg_color(Color::white());
        TextInputProps {
            layout,
            font_size: 24,
            wrap: true,
            content: String::new(),
            text_color: Color::black(),
            def_on_key: None,
        }
    }

    pub fn content(self, content: &str) -> (r: Self)
        ensures
            r.content@ == content@,
            r == (TextInputProps { content: r.content, ..self }),
    {
        let mut props = self;
        props.content = content.to_owned();
        props
    }

    pub fn font_size(self, size: i32) -> (r: Self)
        ensures
            r == (TextInputProps { font_size: size, ..self }),
    {
        let mut props = self;
        props.font_size = size;
        props
    }

    pub fn wrap(self, wrap: bool) -> (r: Self)
        ensures
            r == (TextInputProps { wrap, ..self }),
    {
        let mut props = self;
        props.wrap = wrap;
        props
    }

    pub fn text_color(self, color: Color) -> (r: Self)
        ensures
            r == (TextInputProps { text_color: color, ..self }),
    {
        let mut props = self;
        props.text_color = color;
        props
    }

    pub fn dim(self, dim: (Length, Length)) -> (r: Self)
        ensures
            r == (TextInputProps { layout: LayoutProps { layout: Layout { dim, ..self.layout.layout } }, ..self }),
    {
        let TextInputProps { layout, font_size, wrap, content, text_color, def_on_key } = self;
        TextInputProps { layout: layout.dim(dim), font_size, wrap, content, text_color, def_on_key }
    }

    pub fn bg_color(self, color: Color) -> (r: Self)
        ensures
            r == (TextInputProps {
                layout: LayoutProps { layout: Layout { bg_color: color, ..self.layout.layout } },
                ..self
            }),
    {
        let TextInputProps { layout, font_size, wrap, content, text_color, def_on_key } = self;
        TextInputProps { layout: layout.bg_color(color), font_size, wrap, content, text_color, def_on_key }
    }

    pub fn main_align(self, align: Alignment) -> (r: Self)
        ensures
            r == (TextInputProps {
                layout: LayoutProps { layout: Layout { main_align: align, ..self.layout.layout } },
                ..self
            }),
    {
        let TextInputProps { layout, font_size, wrap, content, text_color, def_on_key } = self;
        TextInputProps { layout: layout.main_align(align), font_size, wrap, content, text_color, def_on_key }
    }

    pub fn cross_align(self, align: Alignment) -> (r: Self)
        ensures
            r == (TextInputProps {
                layout: LayoutProps { layout: Layout { cross_align: align, ..self.layout.layout } },
                ..self
            }),
    {
        let TextInputProps { layout, font_size, wrap, content, text_color, def_on_key } = self;
        TextInputProps { layout: layout.cross_align(align), font_size, wrap, content, text_color, def_on_key }
    }

    /// Sets the padding: left, top, right, bottom.
    pub fn padding(self, padding: (i32, i32, i32, i32)) -> (r: Self)
        ensures
            r == (TextInputProps {
                layout: LayoutProps { layout: Layout { padding, ..self.layout.layout } },
                ..self
            }),
    {
        let TextInputProps { layout, font_size, wrap, content, text_color, def_on_key } = self;
        TextInputProps { layout: layout.padding(padding), font_size, wrap, content, text_color, def_on_key }
    }

    pub fn gap(self, gap: i32) -> (r: Self)
        ensures
            r == (TextInputProps { layout: LayoutProps { layout: Layout { gap, ..self.layout.layout } }, ..self }),
    {
        let TextInputProps { layout, font_size, wrap, content, text_color, def_on_key } = self;
        TextInputProps { layout: layout.gap(gap), font_size, wrap, content, text_color, def_on_key }
    }

    /// Gives the node an identity that is stable across layout cycles.
    pub fn dbg_name(self, name: &str) -> (r: Self)
        ensures
            r.layout.layout.dbg_name@ == IdView::Manual(name@),
            r == (TextInputProps {
                layout: LayoutProps {
                    layout: Layout { dbg_name: r.layout.layout.dbg_name, ..self.layout.layout },
                },
                ..self
            }),
    {
        let TextInputProps { layout, font_size, wrap, content, text_color, def_on_key } = self;
        TextInputProps { layout: layout.dbg_name(name), font_size, wrap, content, text_color, def_on_key }
    }

    pub fn flex(self, flex: u32) -> (r: Self)
        ensures
            r == (TextInputProps { layout: LayoutProps { layout: Layout { flex, ..self.layout.layout } }, ..self }),
    {
        let TextInputProps { layout, font_size, wrap, content, text_color, def_on_key } = self;
        TextInputProps { layout: layout.flex(flex), font_size, wrap, content, text_color, def_on_key }
    }

    /// Names the click handler that the application keeps for this node.
    pub fn on_click(self, handler: usize) -> (r: Self)
        ensures
            r == (TextInputProps {
                layout: LayoutProps { layout: Layout { on_click: Some(handler), ..self.layout.layout } },
                ..self
            }),
    {
        let TextInputProps { layout, font_size, wrap, content, text_color, def_on_key } = self;
        TextInputProps { layout: layout.on_click(handler), font_size, wrap, content, text_color, def_on_key }
    }

    /// Names the key handler that the application keeps for this input, in
    /// place of the default key reducer.
    pub fn on_key(self, handler: usize) -> (r: Self)
        ensures
            r == (TextInputProps { def_on_key: Some(handler), ..self }),
    {
        let mut props = self;
        props.def_on_key = Some(handler);
        props
    }

    pub fn overflow_x(self, overflow: bool) -> (r: Self)
        ensures
            r == (TextInputProps {
                layout: LayoutProps {
                    layout: Layout {
                        overflow: (overflow, self.layout.layout.overflow.1),
                        ..self.layout.layout
                    },
                },
                ..self
            }),
    {
        let TextInputProps { layout, font_size, wrap, content, text_color, def_on_key } = self;
        TextInputProps { layout: layout.overflow_x(overflow), font_size, wrap, content, text_color, def_on_key }
    }

    pub fn overflow_y(self, overflow: bool) -> (r: Self)
        ensures
            r == (TextInputProps {
                layout: LayoutProps {
                    layout: Layout {
                        overflow: (self.layout.layout.overflow.0, overflow),
                        ..self.layout.layout
                    },
                },
                ..self
            }),
    {
        let TextInputProps { layout, font_size, wrap, content, text_color, def_on_key } = self;
        TextInputProps { layout: layout.overflow_y(overflow), font_size, wrap, content, text_color, def_on_key }
    }

    /// The text input as a node of a tree.
    pub fn build(self) -> (r: Component)
        ensures
            r == Component::TextInput(
                TextInput {
                    layout: self.layout.layout,
                    font_size: self.font_size,
                    wrap: self.wrap,
                    content: self.content,
                    text_color: self.text_color,
                    def_on_key: self.def_on_key,
                },
            ),
    {
        Component::TextInput(
            TextInput {
                layout: self.layout.get_layout(),
                font_size: self.font_size,
                wrap: self.wrap,
                content: self.content,
                text_color: self.text_color,
                def_on_key: self.def_on_key,
            },
        )
    }
}

impl TextInput {
    /// A builder for a text input.
    pub fn get_builder() -> (r: TextInputProps)
        ensures
            is_default_input(r),
    {
        TextInputProps::new()
    }

    /// The text as it stands.
    pub fn get_content(&self) -> (r: String)
        ensures
            r@ == self.content@,
    {
        self.content.clone()
    }
}

} // verus!
