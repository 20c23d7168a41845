//! The overflow pass: top-down, every node is moved by the scroll offsets of
//! the boxes around it and cut to the part of it that its container shows.
//! A box that scrolls keeps its own offset in the scroll map, clamped to
//! what its content allows.

use vstd::prelude::*;
use crate::arith::{max_int, min_int, sat32, saturate};
use crate::common::Position;
use crate::layout::{lemma_layout_view, lemma_view, lemma_views_of, views_of, Component, Layout};
use crate::raw_text::RawText;
use crate::scroll::{clamp_scroll, clamped_offset, offset_of, ScrollMap};
use crate::text_input::TextInput;
use crate::text_layout::TextLayout;
use crate::view::{NodeKind, NodeView};

verus! {

/// The part of a content span that a container span shows, as the top of
/// the part and its height.
///
/// Content that lies inside the container is shown whole.  Content that
/// reaches over one edge, or over both, is shown as far as the container
/// goes.  Content that lies outside shows nothing, at the top `0`.
pub open spec fn visible_span(container_y: int, container_height: int, content_y: int, content_height: int) -> (
    int,
    int,
) {
    let container_bottom = container_y + container_height;
    let content_bottom = content_y + content_height;
    let top_in = container_y <= content_y <= container_bottom;
    let bottom_in = container_y <= content_bottom <= container_bottom;
    if top_in && bottom_in {
        (content_y, content_height)
    } else if bottom_in {
        (container_y, content_bottom - container_y)
    } else if top_in {
        (content_y, container_bottom - content_y)
    } else if content_y < container_y && content_bottom > container_bottom {
        (container_y, container_height)
    } else {
        (0, 0)
    }
}

/// The length that two spans share.
pub open spec fn shared_length(a_y: int, a_height: int, b_y: int, b_height: int) -> int {
    max_int(0, min_int(a_y + a_height, b_y + b_height) - max_int(a_y, b_y))
}

/// Clip correctness, for spans of heights that are not negative: content
/// that lies inside the container is visible as it is; content above or
/// below the container has no visible height; content that overlaps the
/// container in part is visible with the height the two share, from the
/// lower of the two tops on.
pub proof fn lemma_clip_correct(container_y: int, container_height: int, content_y: int, content_height: int)
    requires
        container_height >= 0,
        content_height >= 0,
    ensures
        ({
            let span = visible_span(container_y, container_height, content_y, content_height);
            &&& (container_y <= content_y && content_y + content_height <= container_y
                + container_height) ==> span == (content_y, content_height)
            &&& (content_y + content_height < container_y || content_y > container_y
                + container_height) ==> span.1 == 0
            &&& span.1 == shared_length(container_y, container_height, content_y, content_height)
            &&& span.1 > 0 ==> span.0 == max_int(content_y, container_y)
        }),
{
}

/// Clips a content span to a container span.
///
/// For spans of heights that are not negative: content inside the container
/// comes back as it is; content above or below it has no visible height;
/// content that overlaps it in part has the height the two share, from the
/// lower of the two tops on.
pub fn get_drawable_y_and_h(container_y: i32, container_height: i32, content_y: i32, content_height: i32) -> (r: (
    i32,
    i32,
))
    ensures
        (r.0 as int, r.1 as int) == visible_span(
            container_y as int,
            container_height as int,
            content_y as int,
            content_height as int,
        ),
        container_height >= 0 && content_height >= 0 ==> {
            &&& r.1 == shared_length(
                container_y as int,
                container_height as int,
                content_y as int,
                content_height as int,
            )
            &&& 0 <= r.1 <= content_height
            &&& r.1 <= container_height
            &&& (container_y <= content_y && content_y + content_height <= container_y
                + container_height) ==> r == (content_y, content_height)
            &&& (content_y + content_height < container_y || content_y > container_y
                + container_height) ==> r.1 == 0
            &&& r.1 > 0 ==> r.0 == max_int(content_y as int, container_y as int)
        },
{
    let y_min: i64 = container_y as i64;
    let y_max: i64 = container_y as i64 + container_height as i64;
    let top: i64 = content_y as i64;
    let bottom: i64 = content_y as i64 + content_height as i64;
    let top_in = top >= y_min && top <= y_max;
    let bottom_in = bottom >= y_min && bottom <= y_max;
    if top_in && bottom_in {
        (content_y, content_height)
    } else if bottom_in {
        (container_y, (bottom - y_min) as i32)
    } else if top_in {
        (content_y, (y_max - top) as i32)
    } else if top < y_min && bottom > y_max {
        (container_y, container_height)
    } else {
        (0, 0)
    }
}

/// The lowest bottom edge among the first `n` nodes that scroll with their
/// container: its flow children and its absolute ones.  `None` where there is
/// no such node.
pub open spec fn lowest_bottom(children: Seq<NodeView>, n: int) -> Option<int>
    decreases n,
{
    if n <= 0 || n > children.len() {
        None
    } else {
        let rest = lowest_bottom(children, n - 1);
        let child = children[n - 1];
        if child.position is Sticky {
            rest
        } else {
            let bottom = child.pos.1 + child.draw_dim.1;
            match rest {
                Some(m) => Some(max_int(m, bottom)),
                None => Some(bottom),
            }
        }
    }
}

/// The scroll map after the first `n` nodes of a list have been through the
/// overflow pass.
pub open spec fn scrolled_through(children: Seq<NodeView>, scroll: Map<Seq<char>, i32>, n: int) -> Map<
    Seq<char>,
    i32,
>
    decreases children, n,
{
    if n <= 0 || n > children.len() {
        scroll
    } else {
        children[n - 1].scrolled(scrolled_through(children, scroll, n - 1))
    }
}

impl NodeView {
    /// How far down the content of the node reaches: to the lowest bottom
    /// edge among its flow and absolute children, `0` without any.
    pub open spec fn scroll_height(self) -> int {
        match lowest_bottom(self.children, self.children.len() as int) {
            Some(bottom) => bottom,
            None => 0,
        }
    }

    /// The furthest the node can be scrolled: by what its content reaches
    /// below its own bottom edge.
    pub open spec fn max_scroll(self) -> i32 {
        sat32(max_int(0, self.scroll_height() - self.draw_dim.1 - self.pos.1))
    }

    /// The scroll offset of the node under a scroll map: the stored offset,
    /// clamped, for a node that scrolls along y; none for any other.
    pub open spec fn scroll_top(self, scroll: Map<Seq<char>, i32>) -> i32 {
        if self.overflow.1 {
            clamped_offset(offset_of(scroll, self.id.text()) as int, self.max_scroll() as int) as i32
        } else {
            0
        }
    }

    /// The scroll map once the node has stored its clamped offset in it.
    pub open spec fn scroll_stored(self, scroll: Map<Seq<char>, i32>) -> Map<Seq<char>, i32> {
        if self.overflow.1 {
            scroll.insert(self.id.text(), self.scroll_top(scroll))
        } else {
            scroll
        }
    }

    /// The scroll map after the overflow pass has been through the node and
    /// what is below it.
    pub open spec fn scrolled(self, scroll: Map<Seq<char>, i32>) -> Map<Seq<char>, i32>
        decreases self,
    {
        if self.kind == NodeKind::TextRun {
            scroll
        } else {
            scrolled_through(self.children, self.scroll_stored(scroll), self.children.len() as int)
        }
    }

    /// The node moved up by `y_offset` and cut to what the container shows
    /// of it.  A box takes the top of its visible part for its position; a
    /// text run keeps the position it is moved to.
    pub open spec fn clipped(self, container_dim: (i32, i32), container_pos: (i32, i32), y_offset: i32) -> NodeView {
        let moved = sat32(self.pos.1 - y_offset);
        let span = visible_span(
            container_pos.1 as int,
            container_dim.1 as int,
            moved as int,
            self.draw_dim.1 as int,
        );
        NodeView {
            pos: (
                self.pos.0,
                if self.kind == NodeKind::TextRun {
                    moved
                } else {
                    span.0 as i32
                },
            ),
            draw_dim: (self.draw_dim.0, span.1 as i32),
            ..self
        }
    }

    /// The offset that the node hands a child: a pinned child moves by the
    /// scroll offset of the node alone, any other by that and by what the
    /// node itself is moved by.
    pub open spec fn child_y_offset(self, i: int, scroll_top: i32, y_offset: i32) -> i32 {
        if self.children[i].position is Sticky {
            scroll_top
        } else {
            sat32(y_offset + scroll_top)
        }
    }

    /// The node after the overflow pass.
    pub open spec fn overflowed(
        self,
        container_dim: (i32, i32),
        container_pos: (i32, i32),
        scroll: Map<Seq<char>, i32>,
        y_offset: i32,
    ) -> NodeView
        decreases self,
    {
        let own = self.clipped(container_dim, container_pos, y_offset);
        if self.kind == NodeKind::TextRun {
            own
        } else {
            let top = self.scroll_top(scroll);
            let stored = self.scroll_stored(scroll);
            NodeView {
                children: Seq::new(
                    self.children.len(),
                    |i: int|
                        if 0 <= i < self.children.len() {
                            self.children[i].overflowed(
                                own.draw_dim,
                                own.pos,
                                scrolled_through(self.children, stored, i),
                                self.child_y_offset(i, top, y_offset),
                            )
                        } else {
                            arbitrary()
                        },
                ),
                ..own
            }
        }
    }
}

/// What the overflow pass leaves of a box.
pub proof fn lemma_overflowed(
    v: NodeView,
    container_dim: (i32, i32),
    container_pos: (i32, i32),
    scroll: Map<Seq<char>, i32>,
    y_offset: i32,
)
    ensures
        v.kind == NodeKind::TextRun ==> v.overflowed(container_dim, container_pos, scroll, y_offset)
            == v.clipped(container_dim, container_pos, y_offset) && v.scrolled(scroll) == scroll,
        v.kind != NodeKind::TextRun ==> {
            let after = v.overflowed(container_dim, container_pos, scroll, y_offset);
            let own = v.clipped(container_dim, container_pos, y_offset);
            &&& after == (NodeView { children: after.children, ..own })
            &&& after.children.len() == v.children.len()
            &&& forall|i: int|
                0 <= i < v.children.len() ==> #[trigger] after.children[i] == v.children[i].overflowed(
                    own.draw_dim,
                    own.pos,
                    scrolled_through(v.children, v.scroll_stored(scroll), i),
                    v.child_y_offset(i, v.scroll_top(scroll), y_offset),
                )
            &&& v.scrolled(scroll) == scrolled_through(
                v.children,
                v.scroll_stored(scroll),
                v.children.len() as int,
            )
        },
{
    reveal_with_fuel(NodeView::overflowed, 2);
    reveal_with_fuel(NodeView::scrolled, 2);
}

/// Scroll clamp in the overflow pass: the offset that a scrolling box has
/// stored after the pass lies between zero and what its content reaches
/// below its bottom edge, whatever was stored before.
pub proof fn lemma_stored_offset_in_range(v: NodeView, scroll: Map<Seq<char>, i32>)
    requires
        v.overflow.1,
    ensures
        0 <= v.scroll_top(scroll) <= v.max_scroll(),
        v.max_scroll() == sat32(
            crate::scroll::scroll_limit(v.scroll_height() - v.pos.1, v.draw_dim.1 as int),
        ),
        v.scroll_stored(scroll)[v.id.text()] == v.scroll_top(scroll),
{
}

/// The scroll map after one more node of a list.
pub proof fn lemma_scrolled_through(children: Seq<NodeView>, scroll: Map<Seq<char>, i32>, n: int)
    requires
        0 <= n <= children.len(),
    ensures
        scrolled_through(children, scroll, 0) == scroll,
        n > 0 ==> scrolled_through(children, scroll, n) == children[n - 1].scrolled(
            scrolled_through(children, scroll, n - 1),
        ),
{
    reveal_with_fuel(scrolled_through, 2);
}

/// A bottom edge is the sum of two pixel values.
proof fn lemma_lowest_bottom_bounds(children: Seq<NodeView>, n: int)
    requires
        0 <= n <= children.len(),
    ensures
        lowest_bottom(children, n) matches Some(m) ==> -0x1_0000_0000 <= m <= 0x1_0000_0000,
    decreases n,
{
    if n > 0 {
        lemma_lowest_bottom_bounds(children, n - 1);
    }
}

impl Layout {
    /// How far down the content reaches, exactly.
    fn content_bottom(&self) -> (r: i64)
        ensures
            r == self@.scroll_height(),
    {
        let ghost kids = views_of(self.children@);
        proof {
            lemma_layout_view(*self);
            lemma_views_of(self.children@);
        }
        let mut lowest: Option<i64> = None;
        let mut i: usize = 0;
        while i < self.children.len()
            invariant
                i <= self.children.len(),
                kids == views_of(self.children@),
                kids.len() == self.children.len(),
                match lowest {
                    Some(m) => lowest_bottom(kids, i as int) == Some(m as int),
                    None => lowest_bottom(kids, i as int) is None,
                },
            decreases self.children.len() - i,
        {
            proof {
                lemma_views_of(self.children@);
                lemma_lowest_bottom_bounds(kids, i as int);
                assert(kids[i as int] == self.children@[i as int]@);
            }
            let child = &self.children[i];
            let sticky = match child.get_position() {
                Position::Sticky(_, _) => true,
                _ => false,
            };
            if !sticky {
                let bottom: i64 = child.get_draw_pos().1 as i64 + child.get_draw_dim().1 as i64;
                lowest =
                match lowest {
                    Some(m) => Some(
                        if m >= bottom {
                            m
                        } else {
                            bottom
                        },
                    ),
                    None => Some(bottom),
                };
            }
            i += 1;
        }
        match lowest {
            Some(m) => m,
            None => 0,
        }
    }

    /// How far down the content of the container reaches: to the lowest
    /// bottom edge among its flow and absolute children.
    pub fn get_scroll_height(&self) -> (r: i32)
        ensures
            r == sat32(self@.scroll_height()),
    {
        saturate(self.content_bottom() as i128)
    }

    /// The furthest the container can be scrolled.
    pub fn get_max_scroll(&self) -> (r: i32)
        ensures
            r == self@.max_scroll(),
            r >= 0,
    {
        proof {
            lemma_layout_view(*self);
        }
        let over: i128 = self.content_bottom() as i128 - self.draw_dim.1 as i128 - self.pos.1 as i128;
        if over > 0 {
            saturate(over)
        } else {
            0
        }
    }

    /// Moves and clips the container and what is below it, and clamps the
    /// scroll offsets of the boxes that scroll.
    pub fn measure_overflows(
        &mut self,
        parent_draw_dim: (i32, i32),
        parent_pos: (i32, i32),
        scroll_map: &mut ScrollMap,
        y_offset: i32,
    )
        ensures
            final(self)@ == old(self)@.overflowed(
                parent_draw_dim,
                parent_pos,
                old(scroll_map)@,
                y_offset,
            ),
            final(scroll_map)@ == old(self)@.scrolled(old(scroll_map)@),
        decreases *old(self), 0int,
    {
        let ghost before = self@;
        let ghost scroll = scroll_map@;
        proof {
            lemma_layout_view(*self);
            lemma_views_of(self.children@);
        }
        let scroll_top = if self.overflow.1 {
            let limit = self.get_max_scroll();
            let id = self.dbg_name.text();
            let top = clamp_scroll(scroll_map.offset(id.as_str()), limit);
            scroll_map.insert(id.as_str(), top);
            top
        } else {
            0
        };
        assert(scroll_top == before.scroll_top(scroll));
        assert(scroll_map@ == before.scroll_stored(scroll));
        let ghost stored = scroll_map@;
        let start_y = saturate(self.pos.1 as i128 - y_offset as i128);
        let (draw_y, visible_height) = get_drawable_y_and_h(
            parent_pos.1,
            parent_draw_dim.1,
            start_y,
            self.draw_dim.1,
        );
        self.draw_dim = (self.draw_dim.0, visible_height);
        self.pos = (self.pos.0, draw_y);
        let ghost start = *self;
        let ghost own = before.clipped(parent_draw_dim, parent_pos, y_offset);
        proof {
            lemma_layout_view(start);
            assert(start@ == own);
        }
        let n = self.children.len();
        let mut i: usize = 0;
        proof {
            lemma_scrolled_through(before.children, stored, 0);
        }
        while i < n
            invariant
                i <= n,
                n == start.children@.len(),
                *self == (Layout { children: self.children, ..start }),
                self.children@.len() == n,
                start == (Layout { pos: start.pos, draw_dim: start.draw_dim, ..*old(self) }),
                before == old(self)@,
                before.children == views_of(start.children@),
                before.children.len() == n,
                own == before.clipped(parent_draw_dim, parent_pos, y_offset),
                start.pos == own.pos,
                start.draw_dim == own.draw_dim,
                scroll_top == before.scroll_top(scroll),
                stored == before.scroll_stored(scroll),
                scroll_map@ == scrolled_through(before.children, stored, i as int),
                forall|j: int| i <= j < n ==> self.children@[j] == start.children@[j],
                forall|j: int|
                    0 <= j < i ==> (#[trigger] self.children@[j])@ == before.children[j].overflowed(
                        own.draw_dim,
                        own.pos,
                        scrolled_through(before.children, stored, j),
                        before.child_y_offset(j, scroll_top, y_offset),
                    ),
            decreases n - i,
        {
            proof {
                lemma_views_of(start.children@);
                assert(self.children@[i as int] == start.children@[i as int]);
                assert(before.children[i as int] == self.children@[i as int]@);
                assert(decreases_to!(old(self).children => old(self).children[i as int]));
                lemma_scrolled_through(before.children, stored, i as int + 1);
            }
            let child_offset = match self.children[i].get_position() {
                Position::Sticky(_, _) => scroll_top,
                _ => saturate(y_offset as i128 + scroll_top as i128),
            };
            let container_dim = self.draw_dim;
            let container_pos = self.pos;
            self.children[i].measure_overflows(container_dim, container_pos, scroll_map, child_offset);
            i += 1;
        }
        proof {
            lemma_overflowed(before, parent_draw_dim, parent_pos, scroll, y_offset);
            lemma_layout_view(*self);
            lemma_views_of(self.children@);
            assert(self@.children =~= before.overflowed(
                parent_draw_dim,
                parent_pos,
                scroll,
                y_offset,
            ).children);
        }
    }
}

impl RawText {
    /// Moves the run by `y_offset` and notes how much of it its container
    /// shows.
    pub fn measure_overflows(&mut self, parent_draw_dim: (i32, i32), parent_pos: (i32, i32), y_offset: i32)
        ensures
            forall|scroll: Map<Seq<char>, i32>|
                final(self)@ == #[trigger] old(self)@.overflowed(
                    parent_draw_dim,
                    parent_pos,
                    scroll,
                    y_offset,
                ) && old(self)@.scrolled(scroll) == scroll,
    {
        let start_y = saturate(self.pos.1 as i128 - y_offset as i128);
        let (_, visible_height) = get_drawable_y_and_h(
            parent_pos.1,
            parent_draw_dim.1,
            start_y,
            self.draw_dim.1,
        );
        self.draw_dim = (self.draw_dim.0, visible_height);
        self.pos = (self.pos.0, start_y);
        proof {
            assert forall|scroll: Map<Seq<char>, i32>|
                self@ == #[trigger] old(self)@.overflowed(parent_draw_dim, parent_pos, scroll, y_offset)
                    && old(self)@.scrolled(scroll) == scroll by {
                lemma_overflowed(old(self)@, parent_draw_dim, parent_pos, scroll, y_offset);
            }
        }
    }
}

/// Two boxes that differ in their kind and their text only go through the
/// overflow pass alike.
proof fn lemma_same_overflow(
    a: NodeView,
    b: NodeView,
    container_dim: (i32, i32),
    container_pos: (i32, i32),
    scroll: Map<Seq<char>, i32>,
    y_offset: i32,
)
    requires
        a.kind != NodeKind::TextRun,
        b.kind != NodeKind::TextRun,
        a == b.as_text(a.kind, a.content, a.font_size, a.wrap, a.text_color, a.def_on_key),
    ensures
        a.overflowed(container_dim, container_pos, scroll, y_offset) == b.overflowed(
            container_dim,
            container_pos,
            scroll,
            y_offset,
        ).as_text(a.kind, a.content, a.font_size, a.wrap, a.text_color, a.def_on_key),
        a.scrolled(scroll) == b.scrolled(scroll),
{
    lemma_overflowed(a, container_dim, container_pos, scroll, y_offset);
    lemma_overflowed(b, container_dim, container_pos, scroll, y_offset);
    assert(a.children == b.children);
    assert(a.scroll_height() == b.scroll_height());
    assert(a.overflowed(container_dim, container_pos, scroll, y_offset).children =~= b.overflowed(
        container_dim,
        container_pos,
        scroll,
        y_offset,
    ).children);
}

impl TextLayout {
    /// Moves and clips the label and its rows.
    pub fn measure_overflows(
        &mut self,
        parent_draw_dim: (i32, i32),
        parent_pos: (i32, i32),
        scroll_map: &mut ScrollMap,
        y_offset: i32,
    )
        ensures
            final(self)@ == old(self)@.overflowed(
                parent_draw_dim,
                parent_pos,
                old(scroll_map)@,
                y_offset,
            ),
            final(scroll_map)@ == old(self)@.scrolled(old(scroll_map)@),
        decreases *old(self), 1int,
    {
        proof {
            lemma_same_overflow(
                self@,
                self.layout@,
                parent_draw_dim,
                parent_pos,
                scroll_map@,
                y_offset,
            );
        }
        self.layout.measure_overflows(parent_draw_dim, parent_pos, scroll_map, y_offset);
    }
}

impl TextInput {
    /// Moves and clips the input and its rows.
    pub fn measure_overflows(
        &mut self,
        parent_draw_dim: (i32, i32),
        parent_pos: (i32, i32),
        scroll_map: &mut ScrollMap,
        y_offset: i32,
    )
        ensures
            final(self)@ == old(self)@.overflowed(
                parent_draw_dim,
                parent_pos,
                old(scroll_map)@,
                y_offset,
            ),
            final(scroll_map)@ == old(self)@.scrolled(old(scroll_map)@),
        decreases *old(self), 1int,
    {
        proof {
            lemma_same_overflow(
                self@,
                self.layout@,
                parent_draw_dim,
                parent_pos,
                scroll_map@,
                y_offset,
            );
        }
        self.layout.measure_overflows(parent_draw_dim, parent_pos, scroll_map, y_offset);
    }
}

impl Component {
    /// Moves and clips the node and what is below it, and clamps the scroll
    /// offsets of the boxes that scroll.
    pub fn measure_overflows(
        &mut self,
        parent_draw_dim: (i32, i32),
        parent_pos: (i32, i32),
        scroll_map: &mut ScrollMap,
        y_offset: i32,
    )
        ensures
            final(self)@ == old(self)@.overflowed(
                parent_draw_dim,
                parent_pos,
                old(scroll_map)@,
                y_offset,
            ),
            final(scroll_map)@ == old(self)@.scrolled(old(scroll_map)@),
        decreases *old(self), 2int,
    {
        proof {
            lemma_view(*self);
        }
        match self {
            Component::Layout(layout) => {
                layout.measure_overflows(parent_draw_dim, parent_pos, scroll_map, y_offset);
            },
            Component::RawText(text) => {
                text.measure_overflows(parent_draw_dim, parent_pos, y_offset);
            },
            Component::TextLayout(label) => {
                label.measure_overflows(parent_draw_dim, parent_pos, scroll_map, y_offset);
            },
            Component::TextInput(input) => {
                input.measure_overflows(parent_draw_dim, parent_pos, scroll_map, y_offset);
            },
        }
        proof {
            lemma_view(*self);
        }
    }
}

} // verus!
