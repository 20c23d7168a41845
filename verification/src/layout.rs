//! The container: a box that lays out its children in a row or a column.
//! This module holds the node types and the builder of a container; the
//! passes over a tree are in the modules named after them.

use vstd::prelude::*;
use crate::common::{generate_id, Alignment, Color, Direction, IdView, Length, Position, ID};
use crate::raw_text::RawText;
use crate::text_input::TextInput;
use crate::text_layout::TextLayout;
use crate::view::{flow_count, flow_flex, flow_max, flow_sum, lemma_flow_bounds, NodeKind, NodeView};

verus! {

/// A layout box.
#[derive(Debug)]
pub struct Layout {
    pub children: Vec<Component>,
    pub dim: (Length, Length),
    pub draw_dim: (i32, i32),
    pub pos: (i32, i32),
    pub bg_color: Color,
    pub direction: Direction,
    /// Left, top, right, bottom.
    pub padding: (i32, i32, i32, i32),
    pub main_align: Alignment,
    pub cross_align: Alignment,
    pub gap: i32,
    pub dbg_name: ID,
    /// The weight by which the box takes part in the space of its container.
    pub flex: u32,
    /// The click handler of the box, as the application numbers it.
    pub on_click: Option<usize>,
    /// The key handler of the box, as the application numbers it.
    pub on_key: Option<usize>,
    /// Whether the content scrolls along x and along y.
    pub overflow: (bool, bool),
    pub position: Position,
}

/// A node of a tree.
#[derive(Debug)]
pub enum Component {
    Layout(Layout),
    RawText(RawText),
    TextLayout(TextLayout),
    TextInput(TextInput),
}

/// The models of the nodes of a list.
pub open spec fn views_of(children: Seq<Component>) -> Seq<NodeView>
    decreases children,
{
    Seq::new(
        children.len(),
        |i: int|
            if 0 <= i < children.len() {
                children[i].view()
            } else {
                arbitrary()
            },
    )
}

impl View for Layout {
    type V = NodeView;

    open spec fn view(&self) -> NodeView
        decreases self,
    {
        NodeView {
            kind: NodeKind::Container,
            children: views_of(self.children@),
            dim: self.dim,
            draw_dim: self.draw_dim,
            pos: self.pos,
            bg_color: self.bg_color,
            direction: self.direction,
            padding: self.padding,
            main_align: self.main_align,
            cross_align: self.cross_align,
            gap: self.gap,
            id: self.dbg_name@,
            flex: self.flex,
            on_click: self.on_click,
            on_key: self.on_key,
            def_on_key: None,
            overflow: self.overflow,
            position: self.position,
            content: Seq::empty(),
            font_size: 0,
            wrap: false,
            text_color: Color { r: 0, g: 0, b: 0, a: 0 },
            text_width: 0,
        }
    }
}

impl View for Component {
    type V = NodeView;

    open spec fn view(&self) -> NodeView
        decreases self,
    {
        match self {
            Component::Layout(layout) => layout.view(),
            Component::RawText(text) => text.view(),
            Component::TextLayout(label) => label.view(),
            Component::TextInput(input) => input.view(),
        }
    }
}

/// The model of a node is the model of what the node holds, and the models
/// of the children of a container are the models of its child nodes.
pub proof fn lemma_view(c: Component)
    ensures
        match c {
            Component::Layout(layout) => c@ == layout@ && layout@.children == views_of(layout.children@),
            Component::RawText(text) => c@ == text@,
            Component::TextLayout(label) => c@ == label@ && label@.children == views_of(
                label.layout.children@,
            ),
            Component::TextInput(input) => c@ == input@ && input@.children == views_of(
                input.layout.children@,
            ),
        },
{
    match c {
        Component::Layout(layout) => {
            lemma_layout_view(layout);
        },
        Component::RawText(text) => {},
        Component::TextLayout(label) => {
            lemma_layout_view(label.layout);
            assert(label@.children == label.layout@.children);
        },
        Component::TextInput(input) => {
            lemma_layout_view(input.layout);
            assert(input@.children == input.layout@.children);
        },
    }
}

/// The models of the children of a container are the models of its child
/// nodes, one for one.
pub proof fn lemma_layout_view(layout: Layout)
    ensures
        layout@.children == views_of(layout.children@),
        layout@.kind == NodeKind::Container,
        layout@.draw_dim == layout.draw_dim,
        layout@.pos == layout.pos,
        layout@.position == layout.position,
        layout@.flex == layout.flex,
        layout@.id == layout.dbg_name@,
{
}

/// The model of a list of nodes has the model of each node at its index.
pub proof fn lemma_views_of(children: Seq<Component>)
    ensures
        views_of(children).len() == children.len(),
        forall|i: int| 0 <= i < children.len() ==> (#[trigger] views_of(children)[i]) == children[i]@,
{
    reveal_with_fuel(views_of, 2);
}

/// The defaults of a container: it fills what it is offered, is aligned at
/// the start, has no child, padding or gap, has weight one, is transparent,
/// lies in the flow and scrolls along y.
pub open spec fn is_default_layout(layout: Layout, direction: Direction) -> bool {
    &&& layout.children@.len() == 0
    &&& layout.dim == (Length::FILL, Length::FILL)
    &&& layout.draw_dim == (0i32, 0i32)
    &&& layout.pos == (0i32, 0i32)
    &&& layout.bg_color == (Color { r: 0, g: 0, b: 0, a: 0 })
    &&& layout.direction == direction
    &&& layout.padding == (0i32, 0i32, 0i32, 0i32)
    &&& layout.main_align == Alignment::Start
    &&& layout.cross_align == Alignment::Start
    &&& layout.gap == 0
    &&& layout.dbg_name@ == IdView::Auto(Seq::<char>::empty())
    &&& layout.flex == 1
    &&& layout.on_click is None
    &&& layout.on_key is None
    &&& layout.overflow == (false, true)
    &&& layout.position == Position::Auto
}

/// The builder of a container.
#[derive(Debug)]
pub struct LayoutProps {
    pub layout: Layout,
}

impl LayoutProps {
    /// A builder for a row with the defaults of a container.
    pub fn new() -> (r: Self)
        ensures
            is_default_layout(r.layout, Direction::Row),
    {
        let id = generate_id();
        assert(id@ =~= Seq::<char>::empty());
        LayoutProps {
            layout: Layout {
                children: Vec::new(),
                dim: (Length::FILL, Length::FILL),
                draw_dim: (0, 0),
                pos: (0, 0),
                bg_color: Color::transparent(),
                direction: Direction::Row,
                padding: (0, 0, 0, 0),
                main_align: Alignment::Start,
                cross_align: Alignment::Start,
                gap: 0,
                dbg_name: ID::Auto(id),
                flex: 1,
                on_click: None,
                on_key: None,
                overflow: (false, true),
                position: Position::Auto,
            },
        }
    }

    pub fn children(self, children: Vec<Component>) -> (r: Self)
        ensures
            r.layout == (Layout { children, ..self.layout }),
    {
        let mut props = self;
        props.layout.children = children;
        props
    }

    pub fn dim(self, dim: (Length, Length)) -> (r: Self)
        ensures
            r.layout == (Layout { dim, ..self.layout }),
    {
        let mut props = self;
        props.layout.dim = dim;
        props
    }

    pub fn bg_color(self, color: Color) -> (r: Self)
        ensures
            r.layout == (Layout { bg_color: color, ..self.layout }),
    {
        let mut props = self;
        props.layout.bg_color = color;
        props
    }

    pub fn direction(self, direction: Direction) -> (r: Self)
        ensures
            r.layout == (Layout { direction, ..self.layout }),
    {
        let mut props = self;
        props.layout.direction = direction;
        props
    }

    pub fn main_align(self, align: Alignment) -> (r: Self)
        ensures
            r.layout == (Layout { main_align: align, ..self.layout }),
    {
        let mut props = self;
        props.layout.main_align = align;
        props
    }

    pub fn cross_align(self, align: Alignment) -> (r: Self)
        ensures
            r.layout == (Layout { cross_align: align, ..self.layout }),
    {
        let mut props = self;
        props.layout.cross_align = align;
        props
    }

    /// Sets the padding: left, top, right, bottom.
    pub fn padding(self, padding: (i32, i32, i32, i32)) -> (r: Self)
        ensures
            r.layout == (Layout { padding, ..self.layout }),
    {
        let mut props = self;
        props.layout.padding = padding;
        props
    }

    pub fn gap(self, gap: i32) -> (r: Self)
        ensures
            r.layout == (Layout { gap, ..self.layout }),
    {
        let mut props = self;
        props.layout.gap = gap;
        props
    }

    /// Gives the node an identity that is stable across layout cycles.
    pub fn dbg_name(self, name: &str) -> (r: Self)
        ensures
            r.layout.dbg_name@ == IdView::Manual(name@),
            r.layout == (Layout { dbg_name: r.layout.dbg_name, ..self.layout }),
    {
        let mut props = self;
        props.layout.dbg_name = ID::Manual(name.to_owned());
        props
    }

    pub fn flex(self, flex: u32) -> (r: Self)
        ensures
            r.layout == (Layout { flex, ..self.layout }),
    {
        let mut props = self;
        props.layout.flex = flex;
        props
    }

    /// Names the click handler that the application keeps for this node.
    pub fn on_click(self, handler: usize) -> (r: Self)
        ensures
            r.layout == (Layout { on_click: Some(handler), ..self.layout }),
    {
        let mut props = self;
        props.layout.on_click = Some(handler);
        props
    }

    /// Names the key handler that the application keeps for this node.
    pub fn on_key(self, handler: usize) -> (r: Self)
        ensures
            r.layout == (Layout { on_key: Some(handler), ..self.layout }),
    {
        let mut props = self;
        props.layout.on_key = Some(handler);
        props
    }

    pub fn overflow_x(self, overflow: bool) -> (r: Self)
        ensures
            r.layout == (Layout { overflow: (overflow, self.layout.overflow.1), ..self.layout }),
    {
        let mut props = self;
        props.layout.overflow = (overflow, props.layout.overflow.1);
        props
    }

    pub fn overflow_y(self, overflow: bool) -> (r: Self)
        ensures
            r.layout == (Layout { overflow: (self.layout.overflow.0, overflow), ..self.layout }),
    {
        let mut props = self;
        props.layout.overflow = (props.layout.overflow.0, overflow);
        props
    }

    pub fn set_position(self, position: Position) -> (r: Self)
        ensures
            r.layout == (Layout { position, ..self.layout }),
    {
        let mut props = self;
        props.layout.position = position;
        props
    }

    /// The container as a node of a tree.
    pub fn build(self) -> (r: Component)
        ensures
            r == Component::Layout(self.layout),
    {
        Component::Layout(self.layout)
    }

    /// The container itself.
    pub fn get_layout(self) -> (r: Layout)
        ensures
            r == self.layout,
    {
        self.layout
    }
}

impl Layout {
    /// A builder for a container that lays out its children in a row.
    pub fn get_row_builder() -> (r: LayoutProps)
        ensures
            is_default_layout(r.layout, Direction::Row),
    {
        LayoutProps::new()
    }

    /// A builder for a container that lays out its children in a column.
    pub fn get_col_builder() -> (r: LayoutProps)
        ensures
            is_default_layout(r.layout, Direction::Column),
    {
        LayoutProps::new().direction(Direction::Column)
    }
}

/// What the flow children of a container add up to.
#[derive(Debug, Clone, Copy)]
pub struct FlowTotals {
    /// The number of flow children.
    pub count: usize,
    /// The sums of their widths and of their heights.
    pub sum: (i128, i128),
    /// Their largest width and their largest height.
    pub max: (Option<i32>, Option<i32>),
    /// The sum of their flex weights.
    pub flex: u128,
}

impl FlowTotals {
    /// Whether the totals are those of the first `n` nodes of `children`.
    pub open spec fn of(self, children: Seq<NodeView>, n: int) -> bool {
        &&& self.count == flow_count(children, n)
        &&& self.sum.0 == flow_sum(children, true, n)
        &&& self.sum.1 == flow_sum(children, false, n)
        &&& match self.max.0 {
            Some(m) => flow_max(children, true, n) == Some(m as int),
            None => flow_max(children, true, n) is None,
        }
        &&& match self.max.1 {
            Some(m) => flow_max(children, false, n) == Some(m as int),
            None => flow_max(children, false, n) is None,
        }
        &&& self.flex == flow_flex(children, n)
    }
}

impl Component {
    /// The container inside the node; a text run has none.
    pub fn layout(&self) -> (r: Option<&Layout>)
        ensures
            match r {
                Some(layout) => match self {
                    Component::Layout(l) => layout == l,
                    Component::TextLayout(label) => layout == &label.layout,
                    Component::TextInput(input) => layout == &input.layout,
                    Component::RawText(_) => false,
                },
                None => self is RawText,
            },
    {
        match self {
            Component::Layout(layout) => Some(layout),
            Component::RawText(_) => None,
            Component::TextLayout(label) => Some(&label.layout),
            Component::TextInput(input) => Some(&input.layout),
        }
    }

    /// How the node is placed in its container.
    pub fn get_position(&self) -> (r: Position)
        ensures
            r == self@.position,
    {
        proof {
            lemma_view(*self);
        }
        match self.layout() {
            Some(layout) => layout.position,
            None => Position::Auto,
        }
    }

    /// The resolved size.
    pub fn get_draw_dim(&self) -> (r: (i32, i32))
        ensures
            r == self@.draw_dim,
    {
        proof {
            lemma_view(*self);
        }
        match self {
            Component::Layout(layout) => layout.draw_dim,
            Component::RawText(text) => text.draw_dim,
            Component::TextLayout(label) => label.layout.draw_dim,
            Component::TextInput(input) => input.layout.draw_dim,
        }
    }

    /// The resolved position.
    pub fn get_draw_pos(&self) -> (r: (i32, i32))
        ensures
            r == self@.pos,
    {
        proof {
            lemma_view(*self);
        }
        match self {
            Component::Layout(layout) => layout.pos,
            Component::RawText(text) => text.pos,
            Component::TextLayout(label) => label.layout.pos,
            Component::TextInput(input) => input.layout.pos,
        }
    }

    /// The weight by which the node takes part in the space of its container.
    pub fn get_flex(&self) -> (r: u32)
        ensures
            r == self@.flex,
    {
        proof {
            lemma_view(*self);
        }
        match self.layout() {
            Some(layout) => layout.flex,
            None => 1,
        }
    }

    /// Whether the content scrolls along x and along y.
    pub fn get_overflow(&self) -> (r: (bool, bool))
        ensures
            r == self@.overflow,
    {
        proof {
            lemma_view(*self);
        }
        match self.layout() {
            Some(layout) => layout.overflow,
            None => (false, false),
        }
    }

    /// The padding: left, top, right, bottom.
    pub fn get_paddings(&self) -> (r: (i32, i32, i32, i32))
        ensures
            r == self@.padding,
    {
        proof {
            lemma_view(*self);
        }
        match self {
            Component::Layout(layout) => layout.padding,
            Component::RawText(text) => text.padding,
            Component::TextLayout(label) => label.layout.padding,
            Component::TextInput(input) => input.layout.padding,
        }
    }

    /// The identity as text.
    pub fn get_id(&self) -> (r: String)
        ensures
            r@ == self@.id.text(),
    {
        proof {
            lemma_view(*self);
        }
        match self {
            Component::Layout(layout) => layout.dbg_name.text(),
            Component::RawText(text) => text.dbg_name.text(),
            Component::TextLayout(label) => label.layout.dbg_name.text(),
            Component::TextInput(input) => input.layout.dbg_name.text(),
        }
    }

    /// Whether the node has the identity `id`.
    pub fn has_id(&self, id: &str) -> (r: bool)
        ensures
            r == (self@.id.text() == id@),
    {
        proof {
            lemma_view(*self);
        }
        match self {
            Component::Layout(layout) => layout.dbg_name.is(id),
            Component::RawText(text) => text.dbg_name.is(id),
            Component::TextLayout(label) => label.layout.dbg_name.is(id),
            Component::TextInput(input) => input.layout.dbg_name.is(id),
        }
    }

    /// Whether a click can give the node the keyboard focus: only a text
    /// input takes it.
    pub fn is_focusable(&self) -> (r: bool)
        ensures
            r == (self@.kind == NodeKind::TextInput),
    {
        proof {
            lemma_view(*self);
        }
        match self {
            Component::TextInput(_) => true,
            _ => false,
        }
    }

    /// The click handler of the node, as the application numbers it.
    pub fn get_on_click(&self) -> (r: Option<usize>)
        ensures
            r == self@.on_click,
    {
        proof {
            lemma_view(*self);
        }
        match self.layout() {
            Some(layout) => layout.on_click,
            None => None,
        }
    }
}

/// The totals over the flow children among `children`.
pub fn flow_totals(children: &Vec<Component>) -> (r: FlowTotals)
    ensures
        r.of(views_of(children@), children.len() as int),
        r.count <= children.len(),
{
    let ghost kids = views_of(children@);
    let mut totals = FlowTotals { count: 0, sum: (0, 0), max: (None, None), flex: 0 };
    let mut i: usize = 0;
    proof {
        lemma_views_of(children@);
    }
    while i < children.len()
        invariant
            i <= children.len(),
            kids == views_of(children@),
            kids.len() == children.len(),
            totals.of(kids, i as int),
            totals.count <= i,
        decreases children.len() - i,
    {
        proof {
            lemma_views_of(children@);
            lemma_flow_bounds(kids, true, i as int);
            lemma_flow_bounds(kids, false, i as int);
            assert(kids[i as int] == children[i as int]@);
        }
        let child = &children[i];
        if let Position::Auto = child.get_position() {
            let (w, h) = child.get_draw_dim();
            let max_w = match totals.max.0 {
                Some(m) => if m >= w {
                    m
                } else {
                    w
                },
                None => w,
            };
            let max_h = match totals.max.1 {
                Some(m) => if m >= h {
                    m
                } else {
                    h
                },
                None => h,
            };
            totals =
            FlowTotals {
                count: totals.count + 1,
                sum: (totals.sum.0 + w as i128, totals.sum.1 + h as i128),
                max: (Some(max_w), Some(max_h)),
                flex: totals.flex + child.get_flex() as u128,
            };
        }
        i += 1;
    }
    totals
}

impl Clone for Layout {
    fn clone(&self) -> (r: Self)
        ensures
            r@ == self@,
        decreases self, 0int,
    {
        let mut children: Vec<Component> = Vec::new();
        let mut i: usize = 0;
        proof {
            lemma_views_of(self.children@);
        }
        while i < self.children.len()
            invariant
                i <= self.children.len(),
                children@.len() == i,
                forall|j: int| 0 <= j < i ==> (#[trigger] children@[j])@ == self.children@[j]@,
            decreases self.children.len() - i,
        {
            proof {
                assert(decreases_to!(self.children => self.children[i as int]));
            }
            let child = self.children[i].clone();
            children.push(child);
            i += 1;
        }
        let copy = Layout {
            children,
            dim: self.dim,
            draw_dim: self.draw_dim,
            pos: self.pos,
            bg_color: self.bg_color,
            direction: self.direction,
            padding: self.padding,
            main_align: self.main_align,
            cross_align: self.cross_align,
            gap: self.gap,
            dbg_name: self.dbg_name.clone(),
            flex: self.flex,
            on_click: self.on_click,
            on_key: self.on_key,
            overflow: self.overflow,
            position: self.position,
        };
        proof {
            lemma_layout_view(*self);
            lemma_layout_view(copy);
            lemma_views_of(self.children@);
            lemma_views_of(copy.children@);
            assert(copy@.children =~= self@.children);
        }
        copy
    }
}

impl Clone for Component {
    fn clone(&self) -> (r: Self)
        ensures
            r@ == self@,
        decreases self, 2int,
    {
        proof {
            lemma_view(*self);
        }
        let copy = match self {
            Component::Layout(layout) => Component::Layout(layout.clone()),
            Component::RawText(text) => Component::RawText(text.clone()),
            Component::TextLayout(label) => Component::TextLayout(label.clone()),
            Component::TextInput(input) => Component::TextInput(input.clone()),
        };
        proof {
            lemma_view(copy);
        }
        copy
    }
}

impl Clone for LayoutProps {
    fn clone(&self) -> (r: Self)
        ensures
            r.layout@ == self.layout@,
    {
        LayoutProps { layout: self.layout.clone() }
    }
}

/// The placements a child can have.
#[derive(Debug, Clone, Copy, PartialEq, Eq, Structural)]
pub enum Placement {
    Auto,
    Abs,
    Sticky,
}

/// Whether a position is of the given placement.
pub open spec fn placed_as(position: Position, placement: Placement) -> bool {
    match placement {
        Placement::Auto => position is Auto,
        Placement::Abs => position is Abs,
        Placement::Sticky => position is Sticky,
    }
}

/// The indices, in order, of the nodes of the given placement among the
/// first `n` nodes of a list.
pub open spec fn indices_placed(children: Seq<NodeView>, placement: Placement, n: int) -> Seq<usize>
    decreases n,
{
    if n <= 0 || n > children.len() {
        Seq::empty()
    } else if placed_as(children[n - 1].position, placement) {
        indices_placed(children, placement, n - 1).push((n - 1) as usize)
    } else {
        indices_placed(children, placement, n - 1)
    }
}

impl Layout {
    /// The indices of the children of one placement, in order.
    pub fn children_placed(&self, placement: Placement) -> (r: Vec<usize>)
        ensures
            r@ == indices_placed(self@.children, placement, self@.children.len() as int),
    {
        let ghost kids = self@.children;
        proof {
            lemma_layout_view(*self);
            lemma_views_of(self.children@);
        }
        let mut found: Vec<usize> = Vec::new();
        let mut i: usize = 0;
        while i < self.children.len()
            invariant
                i <= self.children.len(),
                kids == views_of(self.children@),
                kids.len() == self.children.len(),
                found@ == indices_placed(kids, placement, i as int),
            decreases self.children.len() - i,
        {
            proof {
                lemma_views_of(self.children@);
                assert(kids[i as int] == self.children@[i as int]@);
            }
            let wanted = match (self.children[i].get_position(), placement) {
                (Position::Auto, Placement::Auto) => true,
                (Position::Abs(_, _), Placement::Abs) => true,
                (Position::Sticky(_, _), Placement::Sticky) => true,
                _ => false,
            };
            if wanted {
                found.push(i);
            }
            i += 1;
        }
        found
    }

    /// The children by placement, as indices into the list of children: the
    /// flow children, the absolute ones and the pinned ones.
    pub fn get_children_by_pos(&self) -> (r: (Vec<usize>, Vec<usize>, Vec<usize>))
        ensures
            r.0@ == indices_placed(self@.children, Placement::Auto, self@.children.len() as int),
            r.1@ == indices_placed(self@.children, Placement::Abs, self@.children.len() as int),
            r.2@ == indices_placed(self@.children, Placement::Sticky, self@.children.len() as int),
    {
        (
            self.children_placed(Placement::Auto),
            self.children_placed(Placement::Abs),
            self.children_placed(Placement::Sticky),
        )
    }

    /// The identity as text.
    pub fn get_id(&self) -> (r: String)
        ensures
            r@ == self@.id.text(),
    {
        proof {
            lemma_layout_view(*self);
        }
        self.dbg_name.text()
    }

    /// Moves the container, and nothing below it.
    pub fn set_pos(&mut self, pos: (i32, i32))
        ensures
            *final(self) == (Layout { pos, ..*old(self) }),
    {
        self.pos = pos;
    }

    /// Puts a node behind the children of the container.
    pub fn add_child(&mut self, child: Component)
        ensures
            *final(self) == (Layout { children: final(self).children, ..*old(self) }),
            final(self).children@ == old(self).children@.push(child),
    {
        self.children.push(child);
    }

    /// Gives the container other children.
    pub fn set_children(&mut self, children: Vec<Component>)
        ensures
            *final(self) == (Layout { children, ..*old(self) }),
    {
        self.children = children;
    }
}

impl Component {
    /// The children of the node.  A text run has none.
    pub fn get_children(&self) -> (r: &[Component])
        ensures
            views_of(r@) == self@.children,
    {
        proof {
            lemma_view(*self);
        }
        match self {
            Component::Layout(layout) => layout.children.as_slice(),
            Component::RawText(_) => {
                let none: &[Component] = &[];
                proof {
                    assert(views_of(none@) =~= self@.children);
                }
                none
            },
            Component::TextLayout(label) => label.layout.children.as_slice(),
            Component::TextInput(input) => input.layout.children.as_slice(),
        }
    }

    /// Puts a node behind the children of this one.  A text run takes no
    /// children.
    pub fn add_child(&mut self, child: Component)
        requires
            !(*old(self) is RawText),
        ensures
            final(self)@ == (NodeView { children: old(self)@.children.push(child@), ..old(self)@ }),
    {
        proof {
            lemma_view(*self);
            lemma_views_of(old(self).layout_of().children@);
        }
        match self {
            Component::Layout(layout) => {
                layout.add_child(child);
            },
            Component::RawText(_) => {},
            Component::TextLayout(label) => {
                label.layout.add_child(child);
            },
            Component::TextInput(input) => {
                input.layout.add_child(child);
            },
        }
        proof {
            lemma_view(*self);
            lemma_views_of(self.layout_of().children@);
            assert(self@.children =~= old(self)@.children.push(child@));
        }
    }

    /// The container inside a node that is not a text run.
    pub open spec fn layout_of(self) -> Layout {
        match self {
            Component::Layout(layout) => layout,
            Component::TextLayout(label) => label.layout,
            Component::TextInput(input) => input.layout,
            Component::RawText(_) => arbitrary(),
        }
    }

    /// Moves the node, and nothing below it.
    pub fn set_pos(&mut self, pos: (i32, i32))
        ensures
            final(self)@ == (NodeView { pos, ..old(self)@ }),
    {
        proof {
            lemma_view(*self);
        }
        match self {
            Component::Layout(layout) => {
                layout.pos = pos;
            },
            Component::RawText(text) => {
                text.pos = pos;
            },
            Component::TextLayout(label) => {
                label.layout.pos = pos;
            },
            Component::TextInput(input) => {
                input.layout.pos = pos;
            },
        }
        proof {
            lemma_view(*self);
        }
    }
}

} // verus!
