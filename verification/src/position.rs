//! The position pass: top-down, a node takes the origin its parent hands it
//! and places its children.
//!
//! Flow children follow one another along the direction of the container,
//! separated by its gap.  Alignment shifts the flow as a whole: by nothing at
//! the start, by half of the space left over at the centre, by all of it at
//! the end.  The one exception is a column that centres across its
//! direction: there, each child is centred on its own.  Children outside the
//! flow sit at their offset from the origin of the container.

use vstd::prelude::*;
use crate::arith::{div_toward_zero, max_int, sat32, saturate, trunc_div};
use crate::common::{Alignment, Direction, Position};
use crate::layout::{flow_totals, lemma_layout_view, lemma_view, lemma_views_of, views_of, Component, FlowTotals, Layout};
use crate::raw_text::RawText;
use crate::text_input::TextInput;
use crate::text_layout::TextLayout;
use crate::view::{flow_count, flow_max, flow_sum, lemma_flow_bounds, NodeKind, NodeView};

verus! {

impl NodeView {
    /// The alignment that governs the given axis.
    pub open spec fn axis_align(self, horizontal: bool) -> Alignment {
        if self.is_main(horizontal) {
            self.main_align
        } else {
            self.cross_align
        }
    }

    /// What the flow children take up along the given axis, gaps aside: the
    /// sum of their extents along the flow, the largest of them across it.
    pub open spec fn flow_extent(self, horizontal: bool) -> int {
        let n = self.children.len() as int;
        if self.is_main(horizontal) {
            flow_sum(self.children, horizontal, n)
        } else {
            match flow_max(self.children, horizontal, n) {
                Some(m) => m,
                None => 0,
            }
        }
    }

    /// The space the flow leaves free along the given axis.  The gaps count
    /// on either axis; vertically, space that is missing counts as none.
    pub open spec fn leftover(self, horizontal: bool) -> int {
        let n = self.children.len() as int;
        let raw = self.content_extent(horizontal) - self.flow_extent(horizontal) - self.gap * (
        flow_count(self.children, n) - 1);
        if horizontal {
            raw
        } else {
            max_int(0, raw)
        }
    }

    /// The offset of the flow from the origin of the node along the given
    /// axis.
    pub open spec fn lead(self, horizontal: bool) -> int {
        let pad = if horizontal {
            self.padding.0 as int
        } else {
            self.padding.1 as int
        };
        match self.axis_align(horizontal) {
            Alignment::Start => pad,
            Alignment::Center => pad + trunc_div(self.leftover(horizontal), 2),
            Alignment::End => pad + self.leftover(horizontal),
        }
    }

    /// Whether each flow child is centred on its own: in a column that
    /// centres across its direction.
    pub open spec fn centers_each_child(self) -> bool {
        self.direction == Direction::Column && self.cross_align == Alignment::Center
    }

    /// How far the flow has come, along the given axis, before child `i`:
    /// along the direction of the container, the extents of the flow
    /// children before it and a gap after each; nothing across it.
    pub open spec fn flow_ahead(self, horizontal: bool, i: int) -> int {
        if self.is_main(horizontal) {
            flow_sum(self.children, horizontal, i) + self.gap * flow_count(self.children, i)
        } else {
            0
        }
    }

    /// The origin that child `i` of a node at `self.pos` is handed.
    pub open spec fn child_origin(self, i: int) -> (i32, i32) {
        let child = self.children[i];
        if child.in_flow() {
            let x = if self.centers_each_child() {
                self.padding.0 + trunc_div(self.content_extent(true) - child.draw_dim.0, 2)
            } else {
                self.lead(true) + self.flow_ahead(true, i)
            };
            let y = self.lead(false) + self.flow_ahead(false, i);
            (sat32(self.pos.0 + x), sat32(self.pos.1 + y))
        } else {
            (
                sat32(self.pos.0 + child.position.offset().0),
                sat32(self.pos.1 + child.position.offset().1),
            )
        }
    }

    /// The node after the position pass has handed it `origin`.
    pub open spec fn positioned(self, origin: (i32, i32)) -> NodeView
        decreases self,
    {
        let placed = NodeView { pos: origin, ..self };
        if self.kind == NodeKind::TextRun {
            placed
        } else {
            NodeView {
                children: Seq::new(
                    self.children.len(),
                    |i: int|
                        if 0 <= i < self.children.len() {
                            self.children[i].positioned(placed.child_origin(i))
                        } else {
                            arbitrary()
                        },
                ),
                ..placed
            }
        }
    }
}

/// What the position pass leaves of a node: its children are positioned at
/// the origins the node hands them, and only positions change.
pub proof fn lemma_positioned(v: NodeView, origin: (i32, i32))
    ensures
        v.positioned(origin).pos == origin,
        v.positioned(origin).children.len() == v.children.len() || v.kind == NodeKind::TextRun,
        v.kind != NodeKind::TextRun ==> forall|i: int|
            0 <= i < v.children.len() ==> #[trigger] v.positioned(origin).children[i]
                == v.children[i].positioned((NodeView { pos: origin, ..v }).child_origin(i)),
        v.positioned(origin) == (NodeView {
            pos: origin,
            children: v.positioned(origin).children,
            ..v
        }),
        v.kind == NodeKind::TextRun ==> v.positioned(origin) == (NodeView { pos: origin, ..v }),
{
    reveal_with_fuel(NodeView::positioned, 2);
}

/// The offsets of the flow of a container from its origin.
struct Lead {
    x: i128,
    y: i128,
}

impl Layout {
    /// The offsets of the flow from the origin, along x and along y.
    fn lead(&self, totals: &FlowTotals) -> (r: Lead)
        requires
            totals.of(self@.children, self@.children.len() as int),
            totals.count <= self.children.len(),
        ensures
            r.x == self@.lead(true),
            r.y == self@.lead(false),
            -0x1_0000_0000_0000_0000_0000_0000_0000 < r.x < 0x1_0000_0000_0000_0000_0000_0000_0000,
            -0x1_0000_0000_0000_0000_0000_0000_0000 < r.y < 0x1_0000_0000_0000_0000_0000_0000_0000,
    {
        proof {
            lemma_layout_view(*self);
            lemma_views_of(self.children@);
            lemma_flow_bounds(self@.children, true, self@.children.len() as int);
            lemma_flow_bounds(self@.children, false, self@.children.len() as int);
        }
        let row = match self.direction {
            Direction::Row => true,
            Direction::Column => false,
        };
        let gaps: i128 = if totals.count == 0 {
            -(self.gap as i128)
        } else {
            assert(-0x8000_0000 * 0x1_0000_0000_0000_0000 <= (self.gap as int) * (totals.count - 1)
                <= 0x8000_0000 * 0x1_0000_0000_0000_0000) by (nonlinear_arith)
                requires
                    -0x8000_0000 <= self.gap <= 0x7fff_ffff,
                    0 <= totals.count - 1 < 0x1_0000_0000_0000_0000,
            ;
            (self.gap as i128) * ((totals.count - 1) as i128)
        };
        let taken_x: i128 = if row {
            totals.sum.0
        } else {
            match totals.max.0 {
                Some(m) => m as i128,
                None => 0,
            }
        };
        let taken_y: i128 = if row {
            match totals.max.1 {
                Some(m) => m as i128,
                None => 0,
            }
        } else {
            totals.sum.1
        };
        let free_x: i128 = self.draw_dim.0 as i128 - self.padding.0 as i128 - self.padding.2 as i128
            - taken_x - gaps;
        let raw_y: i128 = self.draw_dim.1 as i128 - self.padding.1 as i128 - self.padding.3 as i128
            - taken_y - gaps;
        let free_y: i128 = if raw_y > 0 {
            raw_y
        } else {
            0
        };
        let align_x = if row {
            self.main_align
        } else {
            self.cross_align
        };
        let align_y = if row {
            self.cross_align
        } else {
            self.main_align
        };
        let x = match align_x {
            Alignment::Start => self.padding.0 as i128,
            Alignment::Center => self.padding.0 as i128 + div_toward_zero(free_x, 2),
            Alignment::End => self.padding.0 as i128 + free_x,
        };
        let y = match align_y {
            Alignment::Start => self.padding.1 as i128,
            Alignment::Center => self.padding.1 as i128 + div_toward_zero(free_y, 2),
            Alignment::End => self.padding.1 as i128 + free_y,
        };
        Lead { x, y }
    }

    /// Places the container at `passed_pos` and its children inside it.
    pub fn measure_positions(&mut self, passed_pos: (i32, i32))
        ensures
            final(self)@ == old(self)@.positioned(passed_pos),
        decreases *old(self),
    {
        self.pos = passed_pos;
        let ghost start = *self;
        let ghost placed = self@;
        let totals = flow_totals(&self.children);
        proof {
            lemma_layout_view(*old(self));
            lemma_layout_view(start);
            lemma_views_of(start.children@);
            assert(placed == (NodeView { pos: passed_pos, ..old(self)@ }));
        }
        let lead = self.lead(&totals);
        let row = match self.direction {
            Direction::Row => true,
            Direction::Column => false,
        };
        let each_centered = !row && match self.cross_align {
            Alignment::Center => true,
            _ => false,
        };
        let n = self.children.len();
        let mut ahead: i128 = 0;
        let mut i: usize = 0;
        while i < n
            invariant
                i <= n,
                n == start.children@.len(),
                *self == (Layout { children: self.children, ..start }),
                self.children@.len() == n,
                start == (Layout { pos: passed_pos, ..*old(self) }),
                placed == start@,
                placed.children == views_of(start.children@),
                placed.children.len() == n,
                row == (start.direction == Direction::Row),
                each_centered == placed.centers_each_child(),
                lead.x == placed.lead(true),
                lead.y == placed.lead(false),
                -0x1_0000_0000_0000_0000_0000_0000_0000 < lead.x < 0x1_0000_0000_0000_0000_0000_0000_0000,
                -0x1_0000_0000_0000_0000_0000_0000_0000 < lead.y < 0x1_0000_0000_0000_0000_0000_0000_0000,
                ahead == flow_sum(placed.children, row, i as int) + start.gap * flow_count(
                    placed.children,
                    i as int,
                ),
                -(i as int) * 0x1_0000_0000 <= ahead <= (i as int) * 0x1_0000_0000,
                forall|j: int| i <= j < n ==> self.children@[j] == start.children@[j],
                forall|j: int|
                    0 <= j < i ==> (#[trigger] self.children@[j])@ == placed.children[j].positioned(
                        placed.child_origin(j),
                    ),
            decreases n - i,
        {
            proof {
                lemma_views_of(start.children@);
                lemma_layout_view(start);
                assert(self.children@[i as int] == start.children@[i as int]);
                assert(placed.children[i as int] == self.children@[i as int]@);
                assert(decreases_to!(old(self).children => old(self).children[i as int]));
                lemma_flow_bounds(placed.children, row, i as int);
                let count = flow_count(placed.children, i as int);
                assert(start.gap * (count + 1) == start.gap * count + start.gap) by (nonlinear_arith);
            }
            let child_dim = self.children[i].get_draw_dim();
            let origin = match self.children[i].get_position() {
                Position::Auto => {
                    let x: i128 = if each_centered {
                        let inner: i128 = self.draw_dim.0 as i128 - self.padding.0 as i128
                            - self.padding.2 as i128;
                        self.padding.0 as i128 + div_toward_zero(inner - child_dim.0 as i128, 2)
                    } else if row {
                        lead.x + ahead
                    } else {
                        lead.x
                    };
                    let y: i128 = if row {
                        lead.y
                    } else {
                        lead.y + ahead
                    };
                    (saturate(self.pos.0 as i128 + x), saturate(self.pos.1 as i128 + y))
                },
                Position::Abs(x, y) => (
                    saturate(self.pos.0 as i128 + x as i128),
                    saturate(self.pos.1 as i128 + y as i128),
                ),
                Position::Sticky(x, y) => (
                    saturate(self.pos.0 as i128 + x as i128),
                    saturate(self.pos.1 as i128 + y as i128),
                ),
            };
            assert(origin == placed.child_origin(i as int));
            if let Position::Auto = self.children[i].get_position() {
                let extent = if row {
                    child_dim.0
                } else {
                    child_dim.1
                };
                ahead = ahead + extent as i128 + self.gap as i128;
            }
            self.children[i].measure_positions(origin);
            i += 1;
        }
        proof {
            lemma_positioned(old(self)@, passed_pos);
            lemma_layout_view(*self);
            lemma_views_of(self.children@);
            assert(self@.children =~= old(self)@.positioned(passed_pos).children);
        }
    }
}

impl RawText {
    /// Places the run at `passed_pos`.
    pub fn measure_positions(&mut self, passed_pos: (i32, i32))
        ensures
            final(self)@ == old(self)@.positioned(passed_pos),
    {
        proof {
            lemma_positioned(self@, passed_pos);
        }
        self.pos = passed_pos;
    }
}

impl TextLayout {
    /// Places the label at `passed_pos` and its rows inside it.
    pub fn measure_positions(&mut self, passed_pos: (i32, i32))
        ensures
            final(self)@ == old(self)@.positioned(passed_pos),
        decreases *old(self), 0int,
    {
        proof {
            lemma_positioned(self@, passed_pos);
            lemma_positioned(self.layout@, passed_pos);
            lemma_same_origins(self@, self.layout@, passed_pos);
        }
        self.layout.measure_positions(passed_pos);
    }
}

impl TextInput {
    /// Places the input at `passed_pos` and its rows inside it.
    pub fn measure_positions(&mut self, passed_pos: (i32, i32))
        ensures
            final(self)@ == old(self)@.positioned(passed_pos),
        decreases *old(self), 0int,
    {
        proof {
            lemma_positioned(self@, passed_pos);
            lemma_positioned(self.layout@, passed_pos);
            lemma_same_origins(self@, self.layout@, passed_pos);
        }
        self.layout.measure_positions(passed_pos);
    }
}

/// Two boxes that differ in their kind and their text only place their
/// children alike.
proof fn lemma_same_origins(a: NodeView, b: NodeView, origin: (i32, i32))
    requires
        a.kind != NodeKind::TextRun,
        b.kind != NodeKind::TextRun,
        a == (NodeView {
            kind: a.kind,
            content: a.content,
            font_size: a.font_size,
            wrap: a.wrap,
            text_color: a.text_color,
            text_width: a.text_width,
            def_on_key: a.def_on_key,
            ..b
        }),
    ensures
        a.positioned(origin).children == b.positioned(origin).children,
{
    lemma_positioned(a, origin);
    lemma_positioned(b, origin);
    let pa = NodeView { pos: origin, ..a };
    let pb = NodeView { pos: origin, ..b };
    assert forall|i: int| 0 <= i < a.children.len() implies pa.child_origin(i) == pb.child_origin(i) by {
    }
    assert(a.positioned(origin).children =~= b.positioned(origin).children);
}

impl Component {
    /// Places the node at `passed_pos` and what is below it accordingly.
    pub fn measure_positions(&mut self, passed_pos: (i32, i32))
        ensures
            final(self)@ == old(self)@.positioned(passed_pos),
        decreases *old(self), 1int,
    {
        proof {
            lemma_view(*self);
        }
        match self {
            Component::Layout(layout) => {
                layout.measure_positions(passed_pos);
            },
            Component::RawText(text) => {
                text.measure_positions(passed_pos);
            },
            Component::TextLayout(label) => {
                label.measure_positions(passed_pos);
            },
            Component::TextInput(input) => {
                input.measure_positions(passed_pos);
            },
        }
        proof {
            lemma_view(*self);
        }
    }
}

} // verus!
