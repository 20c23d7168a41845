//! The measure pass: a node is offered a size by its parent, offers sizes to
//! its children, and resolves its own size from its sizing policy and from
//! what its children have resolved to.  On the way every node that the
//! caller has not named gets a sequence number for a name.

use vstd::prelude::*;
use crate::arith::{sat32, saturate};
use crate::common::{Color, Direction, IdView, Length, Position, ID};
use crate::layout::{flow_totals, lemma_layout_view, lemma_view, lemma_views_of, views_of, Component, Layout};
use crate::metrics::{is_text_metrics, measure_text, width_fn};
use crate::raw_text::{run_size, run_view, RawText};
use crate::sizing::{
    fit_extent, flex_share, lemma_share_within, lemma_sizing_conservation, resolve_length, resolve_size,
    share_of, share_sum,
};
use crate::strings::{decimal, decimal_string};
use crate::text_input::TextInput;
use crate::text_layout::TextLayout;
use crate::text_rows::{get_text_rows, text_rows};
use crate::view::{flow_count, flow_flex, lemma_flow_bounds, lemma_flow_folds_agree, NodeKind, NodeView};

verus! {

/// The counter `id` moved on by `steps`, as far as the machine can count.
pub open spec fn bump(id: usize, steps: nat) -> usize {
    if id + steps > usize::MAX {
        usize::MAX
    } else {
        (id + steps) as usize
    }
}

/// The identity of a node once the measure pass has given it the number
/// `number`: a name the caller chose stays, any other becomes the number.
pub open spec fn named(id: IdView, number: usize) -> IdView {
    match id {
        IdView::Auto(_) => IdView::Auto(decimal(number as nat)),
        IdView::Manual(name) => IdView::Manual(name),
    }
}

/// The numbers that the first `n` children of a container take up in the
/// measure pass.  `parent` is the container at the size at which it offers
/// its children theirs.
pub open spec fn spans(
    children: Seq<NodeView>,
    parent: NodeView,
    width: spec_fn(Seq<char>, i32) -> i32,
    n: int,
) -> nat
    decreases children, n,
{
    if n <= 0 || n > children.len() {
        0
    } else {
        spans(children, parent, width, n - 1) + children[n - 1].id_span(parent.child_offer(n - 1), width)
    }
}

impl NodeView {
    /// The numbers that the measure pass takes up in the subtree, children
    /// first: one for the node, those of the children of a container, and
    /// one for each row of a label or an input.
    pub open spec fn id_span(self, offered: (i32, i32), width: spec_fn(Seq<char>, i32) -> i32) -> nat
        decreases self,
    {
        match self.kind {
            NodeKind::TextRun => 1,
            NodeKind::Container => 1 + spans(
                self.children,
                self.sized(offered),
                width,
                self.children.len() as int,
            ),
            _ => 1 + self.rows(offered, width).len(),
        }
    }

    /// The node with its own size resolved from the children as they stand.
    pub open spec fn sized(self, offered: (i32, i32)) -> NodeView {
        NodeView {
            draw_dim: resolve_size(self.dim, offered, self.children, self.direction, self.gap),
            ..self
        }
    }

    /// The space that the flow children of the node share along its
    /// direction: what lies inside the padding, less the gaps.
    pub open spec fn shared_extent(self) -> i32 {
        let n = self.children.len() as int;
        sat32(
            self.content_extent(self.direction == Direction::Row) - self.gap * (flow_count(
                self.children,
                n,
            ) - 1),
        )
    }

    /// The size that the node offers child `i`: a flow child gets its share
    /// by weight along the direction of the node and all of the space inside
    /// the padding across it; a child outside the flow gets the size of the
    /// node itself.
    pub open spec fn child_offer(self, i: int) -> (i32, i32) {
        let child = self.children[i];
        if child.in_flow() {
            let row = self.direction == Direction::Row;
            let main = sat32(
                flex_share(
                    child.flex as int,
                    self.shared_extent() as int,
                    flow_flex(self.children, self.children.len() as int),
                ),
            );
            let cross = sat32(self.content_extent(!row));
            if row {
                (main, cross)
            } else {
                (cross, main)
            }
        } else {
            self.draw_dim
        }
    }

    /// The padding that the rows of a text node carry: that of the node for
    /// an input, none for a label, whose padding lies around the rows.
    pub open spec fn row_padding(self) -> (i32, i32, i32, i32) {
        if self.kind == NodeKind::TextInput {
            self.padding
        } else {
            (0, 0, 0, 0)
        }
    }

    /// The run that holds `text` as a row of this text node.
    pub open spec fn row_view(self, text: Seq<char>, width: spec_fn(Seq<char>, i32) -> i32) -> NodeView {
        run_view(text, width(text, self.font_size), self.font_size, self.row_padding(), self.text_color)
    }

    /// The width that the text of the node is wrapped to: the width the node
    /// would resolve to with its text on one row, less its padding on either
    /// side.
    pub open spec fn wrap_width(self, offered: (i32, i32), width: spec_fn(Seq<char>, i32) -> i32) -> i32 {
        sat32(
            resolve_size(
                self.dim,
                offered,
                seq![self.row_view(self.content, width)],
                Direction::Column,
                self.gap,
            ).0 - self.padding.0 - self.padding.2,
        )
    }

    /// Whether the text is cut into rows: if the node wraps and its text on
    /// one row is wider than the width it is wrapped to.
    pub open spec fn wraps(self, offered: (i32, i32), width: spec_fn(Seq<char>, i32) -> i32) -> bool {
        self.wrap && self.row_view(self.content, width).draw_dim.0 > self.wrap_width(offered, width)
    }

    /// The rows of a text node.
    pub open spec fn rows(self, offered: (i32, i32), width: spec_fn(Seq<char>, i32) -> i32) -> Seq<
        NodeView,
    > {
        if self.wraps(offered, width) {
            let texts = text_rows(self.content, self.wrap_width(offered, width), self.font_size, width);
            Seq::new(texts.len(), |k: int| self.row_view(texts[k], width))
        } else {
            seq![self.row_view(self.content, width)]
        }
    }

    /// The rows of a text node, numbered from the number after `id` on.
    pub open spec fn numbered_rows(
        self,
        offered: (i32, i32),
        id: usize,
        width: spec_fn(Seq<char>, i32) -> i32,
    ) -> Seq<NodeView> {
        let rows = self.rows(offered, width);
        Seq::new(
            rows.len(),
            |k: int| NodeView { id: IdView::Auto(decimal(bump(id, (k + 1) as nat) as nat)), ..rows[k] },
        )
    }

    /// A text node with its rows made anew and its size resolved from them:
    /// as wide as the widest row and as high as all of them, where it fits
    /// its content.  A label adds its padding to the size, an input does not.
    pub open spec fn text_sized(self, offered: (i32, i32), width: spec_fn(Seq<char>, i32) -> i32) -> NodeView {
        let rows = self.rows(offered, width);
        let inner = resolve_size(self.dim, offered, rows, Direction::Column, self.gap);
        let outer = if self.kind == NodeKind::TextInput {
            inner
        } else {
            (
                sat32(inner.0 + self.padding.0 + self.padding.2),
                sat32(inner.1 + self.padding.1 + self.padding.3),
            )
        };
        NodeView { children: rows, draw_dim: outer, ..self }
    }

    /// The node after the measure pass has offered it `offered`, with `id`
    /// the last number given out before it.
    pub open spec fn measured(
        self,
        offered: (i32, i32),
        id: usize,
        width: spec_fn(Seq<char>, i32) -> i32,
    ) -> NodeView
        decreases self,
    {
        let number = bump(id, self.id_span(offered, width));
        match self.kind {
            NodeKind::TextRun => NodeView {
                draw_dim: run_size(self.text_width, self.font_size, self.padding),
                id: named(self.id, number),
                ..self
            },
            NodeKind::Container => {
                let first = self.sized(offered);
                let children = Seq::new(
                    self.children.len(),
                    |i: int|
                        if 0 <= i < self.children.len() {
                            self.children[i].measured(
                                first.child_offer(i),
                                bump(id, spans(self.children, first, width, i)),
                                width,
                            )
                        } else {
                            arbitrary()
                        },
                );
                NodeView {
                    children,
                    draw_dim: resolve_size(self.dim, offered, children, self.direction, self.gap),
                    id: named(self.id, number),
                    ..self
                }
            },
            _ => NodeView {
                children: self.numbered_rows(offered, id, width),
                id: named(self.id, number),
                ..self.text_sized(offered, width)
            },
        }
    }
}

/// What the measure pass leaves of a container.
pub proof fn lemma_measured_container(
    v: NodeView,
    offered: (i32, i32),
    id: usize,
    width: spec_fn(Seq<char>, i32) -> i32,
)
    requires
        v.kind == NodeKind::Container,
    ensures
        v.measured(offered, id, width).children.len() == v.children.len(),
        forall|i: int|
            0 <= i < v.children.len() ==> #[trigger] v.measured(offered, id, width).children[i]
                == v.children[i].measured(
                v.sized(offered).child_offer(i),
                bump(id, spans(v.children, v.sized(offered), width, i)),
                width,
            ),
        v.measured(offered, id, width) == (NodeView {
            children: v.measured(offered, id, width).children,
            draw_dim: resolve_size(
                v.dim,
                offered,
                v.measured(offered, id, width).children,
                v.direction,
                v.gap,
            ),
            id: named(v.id, bump(id, v.id_span(offered, width))),
            ..v
        }),
{
    reveal_with_fuel(NodeView::measured, 2);
}

/// The measure pass changes neither the placement nor the weight nor the
/// sizing policy of a node.
pub proof fn lemma_measured_keeps(
    v: NodeView,
    offered: (i32, i32),
    id: usize,
    width: spec_fn(Seq<char>, i32) -> i32,
)
    ensures
        v.measured(offered, id, width).position == v.position,
        v.measured(offered, id, width).flex == v.flex,
        v.measured(offered, id, width).dim == v.dim,
        v.measured(offered, id, width).direction == v.direction,
        v.measured(offered, id, width).gap == v.gap,
        v.measured(offered, id, width).kind == v.kind,
{
    reveal_with_fuel(NodeView::measured, 2);
}

/// Fit idempotence: measuring a container again, with the same offer, gives
/// it the size it has, provided its children come out with the sizes they
/// have.
pub proof fn lemma_fit_idempotent(
    v: NodeView,
    offered: (i32, i32),
    id: usize,
    again: usize,
    width: spec_fn(Seq<char>, i32) -> i32,
)
    requires
        v.kind == NodeKind::Container,
        forall|i: int|
            0 <= i < v.children.len() ==> (#[trigger] v.measured(offered, id, width).measured(
                offered,
                again,
                width,
            ).children[i]).draw_dim == v.measured(offered, id, width).children[i].draw_dim,
    ensures
        v.measured(offered, id, width).measured(offered, again, width).draw_dim == v.measured(
            offered,
            id,
            width,
        ).draw_dim,
{
    let once = v.measured(offered, id, width);
    let twice = once.measured(offered, again, width);
    lemma_measured_container(v, offered, id, width);
    lemma_measured_keeps(v, offered, id, width);
    lemma_measured_container(once, offered, again, width);
    assert forall|i: int| 0 <= i < once.children.len() implies (#[trigger] twice.children[i]).position
        == once.children[i].position && twice.children[i].draw_dim == once.children[i].draw_dim
        && twice.children[i].flex == once.children[i].flex by {
        lemma_measured_keeps(
            once.children[i],
            once.sized(offered).child_offer(i),
            bump(again, spans(once.children, once.sized(offered), width, i)),
            width,
        );
    }
    lemma_flow_folds_agree(twice.children, once.children, once.children.len() as int);
}

/// The sum of what the flow children among the first `n` children of a
/// container are offered along its direction.
pub open spec fn offered_sum(v: NodeView, n: int) -> int
    decreases n,
{
    if n <= 0 || n > v.children.len() {
        0
    } else {
        offered_sum(v, n - 1) + if v.children[n - 1].in_flow() {
            if v.direction == Direction::Row {
                v.child_offer(n - 1).0 as int
            } else {
                v.child_offer(n - 1).1 as int
            }
        } else {
            0int
        }
    }
}

/// The weight of a flow child is part of the sum of the weights.
proof fn lemma_weight_within_total(s: Seq<NodeView>, i: int, n: int)
    requires
        0 <= i < n <= s.len(),
        s[i].in_flow(),
    ensures
        s[i].flex <= flow_flex(s, n),
    decreases n - i,
{
    lemma_flow_bounds(s, true, n - 1);
    if n > i + 1 {
        lemma_weight_within_total(s, i, n - 1);
    }
}

/// Where the weights sum to something, what the flow children are offered
/// along the direction are their shares, unsaturated.
proof fn lemma_offers_are_shares(v: NodeView, n: int)
    requires
        0 <= n <= v.children.len(),
        flow_flex(v.children, v.children.len() as int) > 0,
    ensures
        offered_sum(v, n) == share_sum(
            v.children,
            v.shared_extent() as int,
            flow_flex(v.children, v.children.len() as int),
            n,
        ),
    decreases n,
{
    if n > 0 {
        lemma_offers_are_shares(v, n - 1);
        if v.children[n - 1].in_flow() {
            let total = flow_flex(v.children, v.children.len() as int);
            lemma_weight_within_total(v.children, n - 1, v.children.len() as int);
            lemma_share_within(v.children[n - 1].flex as int, v.shared_extent() as int, total);
        }
    }
}

/// Sizing conservation in a container: what its flow children are offered
/// along its direction never adds up to more than the space they share, and
/// falls short of it by less than one pixel per flow child.
pub proof fn lemma_offers_conserve(v: NodeView)
    requires
        flow_flex(v.children, v.children.len() as int) > 0,
    ensures
        offered_sum(v, v.children.len() as int) <= v.shared_extent(),
        v.shared_extent() - offered_sum(v, v.children.len() as int) < flow_count(
            v.children,
            v.children.len() as int,
        ),
{
    lemma_offers_are_shares(v, v.children.len() as int);
    lemma_sizing_conservation(v.children, v.shared_extent() as int);
}

/// Resolving the size of a box again, from the same children and the same
/// offer, changes nothing.
pub proof fn lemma_sized_idempotent(v: NodeView, offered: (i32, i32))
    ensures
        v.sized(offered).sized(offered) == v.sized(offered),
{
}

/// Moving a counter on in two steps is moving it on by their sum.
pub proof fn lemma_bump_twice(id: usize, a: nat, b: nat)
    ensures
        bump(bump(id, a), b) == bump(id, a + b),
{
}

/// The number after `id`.
pub fn next_id(id: usize) -> (r: usize)
    ensures
        r == bump(id, 1),
{
    if id < usize::MAX {
        id + 1
    } else {
        id
    }
}

/// Gives a node the number `number` for a name, unless the caller has named
/// it.
pub fn rename(name: &mut ID, number: usize)
    ensures
        final(name)@ == named(old(name)@, number),
{
    if let ID::Auto(_) = name {
        *name = ID::Auto(decimal_string(number));
    }
}

/// Resolves the size of a box from its sizing policy, the size it is
/// offered and the children it has.
pub fn get_draw_dim(
    dim: (Length, Length),
    parent_dim: (i32, i32),
    children: &Vec<Component>,
    direction: &Direction,
    gap: i32,
) -> (r: (i32, i32))
    ensures
        r == resolve_size(dim, parent_dim, views_of(children@), *direction, gap),
{
    let totals = flow_totals(children);
    let ghost kids = views_of(children@);
    proof {
        lemma_views_of(children@);
        lemma_flow_bounds(kids, true, kids.len() as int);
        lemma_flow_bounds(kids, false, kids.len() as int);
    }
    let row = match direction {
        Direction::Row => true,
        Direction::Column => false,
    };
    let gaps: i128 = if totals.count == 0 {
        0
    } else {
        assert(-0x8000_0000 * 0x1_0000_0000_0000_0000 <= (gap as int) * (totals.count - 1) <= 0x8000_0000
            * 0x1_0000_0000_0000_0000) by (nonlinear_arith)
            requires
                -0x8000_0000 <= gap <= 0x7fff_ffff,
                0 <= totals.count - 1 < 0x1_0000_0000_0000_0000,
        ;
        (gap as i128) * ((totals.count - 1) as i128)
    };
    let fit_w: i128 = if totals.count == 0 {
        0
    } else if row {
        totals.sum.0 + gaps
    } else {
        match totals.max.0 {
            Some(m) => m as i128,
            None => 0,
        }
    };
    let fit_h: i128 = if totals.count == 0 {
        0
    } else if row {
        match totals.max.1 {
            Some(m) => m as i128,
            None => 0,
        }
    } else {
        totals.sum.1 + gaps
    };
    assert(fit_w == fit_extent(kids, true, *direction == Direction::Row, gap));
    assert(fit_h == fit_extent(kids, false, *direction == Direction::Column, gap));
    (resolve_length(dim.0, parent_dim.0, fit_w), resolve_length(dim.1, parent_dim.1, fit_h))
}

/// The sizes that a container offers its children.
struct Offers {
    /// The space the flow children share along the direction.
    shared: i32,
    /// The space a flow child is offered across the direction.
    cross: i32,
    /// The sum of the weights of the flow children.
    total: u128,
}

impl Layout {
    /// Resolves the size of the container from its children as they stand.
    pub fn set_raw_dim(&mut self, parent_dim: (i32, i32))
        ensures
            final(self)@ == old(self)@.sized(parent_dim),
            *final(self) == (Layout { draw_dim: final(self).draw_dim, ..*old(self) }),
    {
        proof {
            lemma_layout_view(*self);
        }
        let draw_dim = get_draw_dim(self.dim, parent_dim, &self.children, &self.direction, self.gap);
        self.draw_dim = draw_dim;
        proof {
            lemma_layout_view(*self);
        }
    }

    /// What the container, at the size it has, offers its children.
    fn offers(&self) -> (r: Offers)
        ensures
            r.shared == self@.shared_extent(),
            r.cross == sat32(self@.content_extent(self@.direction != Direction::Row)),
            r.total == flow_flex(self@.children, self@.children.len() as int),
    {
        let totals = flow_totals(&self.children);
        proof {
            lemma_layout_view(*self);
            lemma_views_of(self.children@);
            lemma_flow_bounds(self@.children, true, self@.children.len() as int);
        }
        let row = match self.direction {
            Direction::Row => true,
            Direction::Column => false,
        };
        let inner_w: i128 = self.draw_dim.0 as i128 - self.padding.0 as i128 - self.padding.2 as i128;
        let inner_h: i128 = self.draw_dim.1 as i128 - self.padding.1 as i128 - self.padding.3 as i128;
        let gaps: i128 = if totals.count == 0 {
            -(self.gap as i128)
        } else {
            assert(-0x8000_0000 * 0x1_0000_0000_0000_0000 <= (self.gap as int) * (totals.count - 1)
                <= 0x8000_0000 * 0x1_0000_0000_0000_0000) by (nonlinear_arith)
                requires
                    -0x8000_0000 <= self.gap <= 0x7fff_ffff,
                    0 <= totals.count - 1 < 0x1_0000_0000_0000_0000,
            ;
            (self.gap as i128) * ((totals.count - 1) as i128)
        };
        if row {
            Offers { shared: saturate(inner_w - gaps), cross: saturate(inner_h), total: totals.flex }
        } else {
            Offers { shared: saturate(inner_h - gaps), cross: saturate(inner_w), total: totals.flex }
        }
    }

    /// Measures the container and what is below it.  `id` is the last number
    /// given out so far; the result is the number of the container.
    pub fn measure_dimensions<F: Fn(&str, i32) -> i32>(
        &mut self,
        parent_draw_dim: (i32, i32),
        id: usize,
        measure: &F,
    ) -> (ret: usize)
        requires
            is_text_metrics(*measure),
        ensures
            final(self)@ == old(self)@.measured(parent_draw_dim, id, width_fn(*measure)),
            ret == bump(id, old(self)@.id_span(parent_draw_dim, width_fn(*measure))),
        decreases *old(self), 0int,
    {
        let ghost width = width_fn(*measure);
        let ghost before = self@;
        self.set_raw_dim(parent_draw_dim);
        let ghost start = *self;
        let ghost first = self@;
        let offers = self.offers();
        proof {
            lemma_layout_view(*old(self));
            lemma_layout_view(start);
            lemma_views_of(start.children@);
            assert(first == before.sized(parent_draw_dim));
        }
        let row = match self.direction {
            Direction::Row => true,
            Direction::Column => false,
        };
        let n = self.children.len();
        let mut ret_id = id;
        let mut i: usize = 0;
        while i < n
            invariant
                i <= n,
                n == start.children@.len(),
                is_text_metrics(*measure),
                width == width_fn(*measure),
                *self == (Layout { children: self.children, ..start }),
                self.children@.len() == n,
                start == (Layout { draw_dim: start.draw_dim, ..*old(self) }),
                first == start@,
                first.children == views_of(start.children@),
                first.children.len() == n,
                first.children == before.children,
                row == (start.direction == Direction::Row),
                offers.shared == first.shared_extent(),
                offers.cross == sat32(first.content_extent(first.direction != Direction::Row)),
                offers.total == flow_flex(first.children, first.children.len() as int),
                ret_id == bump(id, spans(first.children, first, width, i as int)),
                forall|j: int| i <= j < n ==> self.children@[j] == start.children@[j],
                forall|j: int|
                    0 <= j < i ==> (#[trigger] self.children@[j])@ == first.children[j].measured(
                        first.child_offer(j),
                        bump(id, spans(first.children, first, width, j)),
                        width,
                    ),
            decreases n - i,
        {
            proof {
                lemma_views_of(start.children@);
                lemma_layout_view(start);
                assert(self.children@[i as int] == start.children@[i as int]);
                assert(first.children[i as int] == self.children@[i as int]@);
                assert(decreases_to!(old(self).children => old(self).children[i as int]));
                lemma_bump_twice(
                    id,
                    spans(first.children, first, width, i as int),
                    first.children[i as int].id_span(first.child_offer(i as int), width),
                );
                reveal_with_fuel(spans, 2);
            }
            let offer = match self.children[i].get_position() {
                Position::Auto => {
                    let main = share_of(self.children[i].get_flex(), offers.shared, offers.total);
                    if row {
                        (main, offers.cross)
                    } else {
                        (offers.cross, main)
                    }
                },
                _ => self.draw_dim,
            };
            assert(offer == first.child_offer(i as int));
            ret_id = self.children[i].measure_dimensions(offer, ret_id, measure);
            i += 1;
        }
        let draw_dim = get_draw_dim(self.dim, parent_draw_dim, &self.children, &self.direction, self.gap);
        self.draw_dim = draw_dim;
        proof {
            lemma_bump_twice(id, spans(first.children, first, width, n as int), 1);
            reveal_with_fuel(NodeView::id_span, 2);
        }
        ret_id = next_id(ret_id);
        rename(&mut self.dbg_name, ret_id);
        proof {
            lemma_measured_container(before, parent_draw_dim, id, width);
            lemma_layout_view(*self);
            lemma_views_of(self.children@);
            assert(self@.children =~= before.measured(parent_draw_dim, id, width).children);
        }
        ret_id
    }
}

impl RawText {
    /// Measures the run: it takes the size of its text and, unless it is
    /// named, the next number for a name.
    pub fn measure_dimensions(&mut self, parent_draw_dim: (i32, i32), id: usize) -> (ret: usize)
        ensures
            forall|width: spec_fn(Seq<char>, i32) -> i32|
                final(self)@ == #[trigger] old(self)@.measured(parent_draw_dim, id, width),
            forall|width: spec_fn(Seq<char>, i32) -> i32|
                #[trigger] old(self)@.id_span(parent_draw_dim, width) == 1,
            ret == bump(id, 1),
    {
        proof {
            reveal_with_fuel(NodeView::id_span, 2);
        }
        self.draw_dim = RawText::size_of(self.text_width, self.font_size, self.padding);
        let ret = next_id(id);
        rename(&mut self.dbg_name, ret);
        ret
    }
}

/// The counter `id` moved on by `steps`.
pub fn advance(id: usize, steps: usize) -> (r: usize)
    ensures
        r == bump(id, steps as nat),
{
    if id > usize::MAX - steps {
        usize::MAX
    } else {
        id + steps
    }
}

/// The rows of a text node as they come out of a measure pass.
pub open spec fn rows_made(
    node: NodeView,
    offered: (i32, i32),
    numbering: Option<usize>,
    width: spec_fn(Seq<char>, i32) -> i32,
) -> Seq<NodeView> {
    match numbering {
        Some(id) => node.numbered_rows(offered, id, width),
        None => node.rows(offered, width),
    }
}

/// Numbering the rows of a text node changes nothing about their sizes.
proof fn lemma_rows_keep_size(
    node: NodeView,
    offered: (i32, i32),
    numbering: Option<usize>,
    width: spec_fn(Seq<char>, i32) -> i32,
)
    ensures
        rows_made(node, offered, numbering, width).len() == node.rows(offered, width).len(),
        resolve_size(node.dim, offered, rows_made(node, offered, numbering, width), Direction::Column, node.gap)
            == resolve_size(node.dim, offered, node.rows(offered, width), Direction::Column, node.gap),
{
    let made = rows_made(node, offered, numbering, width);
    let rows = node.rows(offered, width);
    lemma_flow_folds_agree(made, rows, rows.len() as int);
}

impl Layout {
    /// One row of a text node: a run for `text`, with the number `number`
    /// for a name if there is one.
    fn make_row<F: Fn(&str, i32) -> i32>(
        text: &str,
        font_size: i32,
        padding: (i32, i32, i32, i32),
        color: Color,
        number: Option<usize>,
        measure: &F,
    ) -> (row: Component)
        requires
            is_text_metrics(*measure),
        ensures
            row@ == (NodeView {
                id: match number {
                    Some(n) => IdView::Auto(decimal(n as nat)),
                    None => IdView::Auto(Seq::empty()),
                },
                ..run_view(text@, width_fn(*measure)(text@, font_size), font_size, padding, color)
            }),
    {
        let mut run = RawText::new(text, measure_text(measure, text, font_size), font_size, padding, color);
        if let Some(n) = number {
            run.dbg_name = ID::Auto(decimal_string(n));
        }
        Component::RawText(run)
    }

    /// Makes the rows of a text node anew and resolves its size from them.
    /// The container is the box of the text node; what else is given is its
    /// text.  With a `numbering`, the rows are named by the numbers that
    /// follow it.
    fn set_text_dim<F: Fn(&str, i32) -> i32>(
        &mut self,
        kind: NodeKind,
        content: &str,
        font_size: i32,
        wrap: bool,
        text_color: Color,
        def_on_key: Option<usize>,
        parent_draw_dim: (i32, i32),
        numbering: Option<usize>,
        measure: &F,
    )
        requires
            is_text_metrics(*measure),
            kind == NodeKind::TextWrap || kind == NodeKind::TextInput,
        ensures
            final(self)@.as_text(kind, content@, font_size, wrap, text_color, def_on_key) == (NodeView {
                children: rows_made(
                    old(self)@.as_text(kind, content@, font_size, wrap, text_color, def_on_key),
                    parent_draw_dim,
                    numbering,
                    width_fn(*measure),
                ),
                ..old(self)@.as_text(kind, content@, font_size, wrap, text_color, def_on_key).text_sized(
                    parent_draw_dim,
                    width_fn(*measure),
                )
            }),
            final(self).children@.len() == old(self)@.as_text(
                kind,
                content@,
                font_size,
                wrap,
                text_color,
                def_on_key,
            ).rows(parent_draw_dim, width_fn(*measure)).len(),
            *final(self) == (Layout {
                children: final(self).children,
                draw_dim: final(self).draw_dim,
                ..*old(self)
            }),
    {
        let ghost width = width_fn(*measure);
        let ghost node = self@.as_text(kind, content@, font_size, wrap, text_color, def_on_key);
        proof {
            lemma_layout_view(*self);
            lemma_rows_keep_size(node, parent_draw_dim, numbering, width);
        }
        let pads_rows = match kind {
            NodeKind::TextInput => true,
            _ => false,
        };
        let row_padding = if pads_rows {
            self.padding
        } else {
            (0, 0, 0, 0)
        };
        let first_number = match numbering {
            Some(id) => Some(next_id(id)),
            None => None,
        };
        let single = Layout::make_row(content, font_size, row_padding, text_color, first_number, measure);
        let content_width = single.get_draw_dim().0;
        let mut children: Vec<Component> = Vec::new();
        children.push(single);
        proof {
            lemma_views_of(children@);
            lemma_flow_folds_agree(views_of(children@), seq![node.row_view(content@, width)], 1);
        }
        let first = get_draw_dim(self.dim, parent_draw_dim, &children, &Direction::Column, self.gap);
        let max_width = saturate(first.0 as i128 - self.padding.0 as i128 - self.padding.2 as i128);
        assert(max_width == node.wrap_width(parent_draw_dim, width));
        if wrap && content_width > max_width {
            let texts = get_text_rows(content, max_width, font_size, measure);
            let ghost rows = text_rows(content@, max_width, font_size, width);
            children = Vec::new();
            let mut number = numbering;
            let mut k: usize = 0;
            proof {
                lemma_views_of(children@);
            }
            while k < texts.len()
                invariant
                    k <= texts.len(),
                    is_text_metrics(*measure),
                    width == width_fn(*measure),
                    texts.deep_view() == rows,
                    children@.len() == k,
                    row_padding == node.row_padding(),
                    font_size == node.font_size,
                    text_color == node.text_color,
                    rows.len() == node.rows(parent_draw_dim, width).len(),
                    forall|j: int|
                        0 <= j < rows.len() ==> (#[trigger] node.rows(parent_draw_dim, width)[j])
                            == node.row_view(rows[j], width),
                    match numbering {
                        Some(id) => number == Some(bump(id, k as nat)),
                        None => number is None,
                    },
                    forall|j: int|
                        0 <= j < k ==> (#[trigger] views_of(children@)[j]) == rows_made(
                            node,
                            parent_draw_dim,
                            numbering,
                            width,
                        )[j],
                decreases texts.len() - k,
            {
                let text = texts[k].as_str();
                assert(text@ == texts.deep_view()[k as int]);
                number =
                match number {
                    Some(n) => Some(next_id(n)),
                    None => None,
                };
                proof {
                    if let Some(id) = numbering {
                        lemma_bump_twice(id, k as nat, 1);
                    }
                }
                let row = Layout::make_row(text, font_size, row_padding, text_color, number, measure);
                let ghost held = children@;
                children.push(row);
                proof {
                    lemma_views_of(held);
                    lemma_views_of(children@);
                    assert forall|j: int| 0 <= j < k + 1 implies (#[trigger] views_of(children@)[j])
                        == rows_made(node, parent_draw_dim, numbering, width)[j] by {
                        if j < k {
                            assert(children@[j] == held[j]);
                            assert(views_of(held)[j] == rows_made(node, parent_draw_dim, numbering, width)[j]);
                        }
                    }
                }
                k += 1;
            }
            proof {
                lemma_views_of(children@);
                assert(views_of(children@) =~= rows_made(node, parent_draw_dim, numbering, width));
            }
        } else {
            proof {
                lemma_views_of(children@);
                assert(views_of(children@) =~= rows_made(node, parent_draw_dim, numbering, width));
            }
        }
        assert(views_of(children@) == rows_made(node, parent_draw_dim, numbering, width));
        let inner = get_draw_dim(self.dim, parent_draw_dim, &children, &Direction::Column, self.gap);
        let outer = if pads_rows {
            inner
        } else {
            (
                saturate(inner.0 as i128 + self.padding.0 as i128 + self.padding.2 as i128),
                saturate(inner.1 as i128 + self.padding.1 as i128 + self.padding.3 as i128),
            )
        };
        self.children = children;
        self.draw_dim = outer;
        proof {
            lemma_layout_view(*self);
        }
    }
}

impl TextLayout {
    /// Makes the rows of the label anew and resolves its size from them.
    pub fn set_raw_dim<F: Fn(&str, i32) -> i32>(&mut self, parent_draw_dim: (i32, i32), measure: &F)
        requires
            is_text_metrics(*measure),
        ensures
            final(self)@ == old(self)@.text_sized(parent_draw_dim, width_fn(*measure)),
            *final(self) == (TextLayout { layout: final(self).layout, ..*old(self) }),
            final(self).layout.dbg_name == old(self).layout.dbg_name,
    {
        self.layout.set_text_dim(
            NodeKind::TextWrap,
            self.content.as_str(),
            self.font_size,
            self.wrap,
            self.text_color,
            None,
            parent_draw_dim,
            None,
            measure,
        );
    }

    /// Measures the label.  `id` is the last number given out so far; the
    /// result is the number of the label.
    pub fn measure_dimensions<F: Fn(&str, i32) -> i32>(
        &mut self,
        parent_draw_dim: (i32, i32),
        id: usize,
        measure: &F,
    ) -> (ret: usize)
        requires
            is_text_metrics(*measure),
        ensures
            final(self)@ == old(self)@.measured(parent_draw_dim, id, width_fn(*measure)),
            ret == bump(id, old(self)@.id_span(parent_draw_dim, width_fn(*measure))),
    {
        proof {
            reveal_with_fuel(NodeView::id_span, 2);
            reveal_with_fuel(NodeView::measured, 2);
        }
        self.layout.set_text_dim(
            NodeKind::TextWrap,
            self.content.as_str(),
            self.font_size,
            self.wrap,
            self.text_color,
            None,
            parent_draw_dim,
            Some(id),
            measure,
        );
        proof {
            lemma_bump_twice(id, self.layout.children@.len() as nat, 1);
        }
        let ret = next_id(advance(id, self.layout.children.len()));
        proof {
            lemma_layout_view(self.layout);
        }
        rename(&mut self.layout.dbg_name, ret);
        proof {
            lemma_layout_view(self.layout);
        }
        ret
    }
}

impl TextInput {
    /// Makes the rows of the input anew and resolves its size from them.
    pub fn set_raw_dim<F: Fn(&str, i32) -> i32>(&mut self, parent_draw_dim: (i32, i32), measure: &F)
        requires
            is_text_metrics(*measure),
        ensures
            final(self)@ == old(self)@.text_sized(parent_draw_dim, width_fn(*measure)),
            *final(self) == (TextInput { layout: final(self).layout, ..*old(self) }),
            final(self).layout.dbg_name == old(self).layout.dbg_name,
    {
        self.layout.set_text_dim(
            NodeKind::TextInput,
            self.content.as_str(),
            self.font_size,
            self.wrap,
            self.text_color,
            self.def_on_key,
            parent_draw_dim,
            None,
            measure,
        );
    }

    /// Measures the input.  `id` is the last number given out so far; the
    /// result is the number of the input.
    pub fn measure_dimensions<F: Fn(&str, i32) -> i32>(
        &mut self,
        parent_draw_dim: (i32, i32),
        id: usize,
        measure: &F,
    ) -> (ret: usize)
        requires
            is_text_metrics(*measure),
        ensures
            final(self)@ == old(self)@.measured(parent_draw_dim, id, width_fn(*measure)),
            ret == bump(id, old(self)@.id_span(parent_draw_dim, width_fn(*measure))),
    {
        proof {
            reveal_with_fuel(NodeView::id_span, 2);
            reveal_with_fuel(NodeView::measured, 2);
        }
        self.layout.set_text_dim(
            NodeKind::TextInput,
            self.content.as_str(),
            self.font_size,
            self.wrap,
            self.text_color,
            self.def_on_key,
            parent_draw_dim,
            Some(id),
            measure,
        );
        proof {
            lemma_bump_twice(id, self.layout.children@.len() as nat, 1);
        }
        let ret = next_id(advance(id, self.layout.children.len()));
        proof {
            lemma_layout_view(self.layout);
        }
        rename(&mut self.layout.dbg_name, ret);
        proof {
            lemma_layout_view(self.layout);
        }
        ret
    }
}

impl Component {
    /// Measures the node and what is below it.  `id` is the last number
    /// given out so far; the result is the number of the node.
    pub fn measure_dimensions<F: Fn(&str, i32) -> i32>(
        &mut self,
        parent_draw_dim: (i32, i32),
        id: usize,
        measure: &F,
    ) -> (ret: usize)
        requires
            is_text_metrics(*measure),
        ensures
            final(self)@ == old(self)@.measured(parent_draw_dim, id, width_fn(*measure)),
            ret == bump(id, old(self)@.id_span(parent_draw_dim, width_fn(*measure))),
        decreases *old(self), 1int,
    {
        proof {
            lemma_view(*self);
        }
        let ret = match self {
            Component::Layout(layout) => layout.measure_dimensions(parent_draw_dim, id, measure),
            Component::RawText(text) => text.measure_dimensions(parent_draw_dim, id),
            Component::TextLayout(label) => label.measure_dimensions(parent_draw_dim, id, measure),
            Component::TextInput(input) => input.measure_dimensions(parent_draw_dim, id, measure),
        };
        proof {
            lemma_view(*self);
        }
        ret
    }
}

} // verus!
