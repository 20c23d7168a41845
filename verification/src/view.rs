//! The mathematical model of a node tree.
//!
//! Every node kind is viewed as a [`NodeView`]: one record that carries the
//! fields of the box model and, for the text kinds, those of the text.  The
//! layout passes are specified as functions on this model.

use vstd::prelude::*;
use crate::common::{Alignment, Color, Direction, IdView, Length, Position};

verus! {

/// The kinds of node a tree is made of.
#[derive(Debug, Clone, Copy, PartialEq, Eq, Structural)]
pub enum NodeKind {
    /// A layout box with children of any kind.
    Container,
    /// One unbreakable run of text of known pixel size.
    TextRun,
    /// A label that wraps its text into rows of text runs.
    TextWrap,
    /// A focusable, editable label.
    TextInput,
}

/// The model of a node and of the subtree below it.
pub struct NodeView {
    pub kind: NodeKind,
    pub children: Seq<NodeView>,
    pub dim: (Length, Length),
    pub draw_dim: (i32, i32),
    pub pos: (i32, i32),
    pub bg_color: Color,
    pub direction: Direction,
    /// Left, top, right, bottom.
    pub padding: (i32, i32, i32, i32),
    pub main_align: Alignment,
    pub cross_align: Alignment,
    pub gap: i32,
    pub id: IdView,
    pub flex: u32,
    pub on_click: Option<usize>,
    pub on_key: Option<usize>,
    pub def_on_key: Option<usize>,
    pub overflow: (bool, bool),
    pub position: Position,
    pub content: Seq<char>,
    pub font_size: i32,
    pub wrap: bool,
    pub text_color: Color,
    pub text_width: i32,
}

impl NodeView {
    /// The node's resolved extent along one axis.
    pub open spec fn extent(self, horizontal: bool) -> int {
        if horizontal {
            self.draw_dim.0 as int
        } else {
            self.draw_dim.1 as int
        }
    }

    /// Whether the node takes part in its container's flow.
    pub open spec fn in_flow(self) -> bool {
        self.position is Auto
    }

    /// The space inside the padding along one axis.
    pub open spec fn content_extent(self, horizontal: bool) -> int {
        if horizontal {
            self.draw_dim.0 - self.padding.0 - self.padding.2
        } else {
            self.draw_dim.1 - self.padding.1 - self.padding.3
        }
    }

    /// The node as a text node of the given kind: the box stays as it is,
    /// the text is what is given.
    pub open spec fn as_text(
        self,
        kind: NodeKind,
        content: Seq<char>,
        font_size: i32,
        wrap: bool,
        text_color: Color,
        def_on_key: Option<usize>,
    ) -> NodeView {
        NodeView { kind, content, font_size, wrap, text_color, def_on_key, ..self }
    }

    /// Whether the flow runs along the given axis.
    pub open spec fn is_main(self, horizontal: bool) -> bool {
        horizontal == (self.direction == Direction::Row)
    }
}

/// The number of flow children among the first `n` nodes of `s`.
pub open spec fn flow_count(s: Seq<NodeView>, n: int) -> int
    decreases n,
{
    if n <= 0 || n > s.len() {
        0
    } else {
        flow_count(s, n - 1) + if s[n - 1].in_flow() {
            1int
        } else {
            0int
        }
    }
}

/// The sum of the extents of the flow children among the first `n` nodes.
pub open spec fn flow_sum(s: Seq<NodeView>, horizontal: bool, n: int) -> int
    decreases n,
{
    if n <= 0 || n > s.len() {
        0
    } else {
        flow_sum(s, horizontal, n - 1) + if s[n - 1].in_flow() {
            s[n - 1].extent(horizontal)
        } else {
            0int
        }
    }
}

/// The largest extent of a flow child among the first `n` nodes; `None`
/// where there is no flow child.
pub open spec fn flow_max(s: Seq<NodeView>, horizontal: bool, n: int) -> Option<int>
    decreases n,
{
    if n <= 0 || n > s.len() {
        None
    } else {
        let rest = flow_max(s, horizontal, n - 1);
        if s[n - 1].in_flow() {
            match rest {
                Some(m) => Some(
                    if m >= s[n - 1].extent(horizontal) {
                        m
                    } else {
                        s[n - 1].extent(horizontal)
                    },
                ),
                None => Some(s[n - 1].extent(horizontal)),
            }
        } else {
            rest
        }
    }
}

/// The sum of the flex weights of the flow children among the first `n` nodes.
pub open spec fn flow_flex(s: Seq<NodeView>, n: int) -> int
    decreases n,
{
    if n <= 0 || n > s.len() {
        0
    } else {
        flow_flex(s, n - 1) + if s[n - 1].in_flow() {
            s[n - 1].flex as int
        } else {
            0int
        }
    }
}

/// The flow folds of two sequences agree where placement, extents and
/// weights of the nodes agree.
pub proof fn lemma_flow_folds_agree(a: Seq<NodeView>, b: Seq<NodeView>, n: int)
    requires
        a.len() == b.len(),
        forall|j: int|
            0 <= j < n && j < a.len() ==> (#[trigger] a[j]).position == b[j].position && a[j].draw_dim
                == b[j].draw_dim && a[j].flex == b[j].flex,
    ensures
        flow_count(a, n) == flow_count(b, n),
        flow_sum(a, true, n) == flow_sum(b, true, n),
        flow_sum(a, false, n) == flow_sum(b, false, n),
        flow_max(a, true, n) == flow_max(b, true, n),
        flow_max(a, false, n) == flow_max(b, false, n),
        flow_flex(a, n) == flow_flex(b, n),
    decreases n,
{
    if n <= 0 || n > a.len() {
    } else {
        lemma_flow_folds_agree(a, b, n - 1);
    }
}

/// Bounds on the flow folds: each of the first `n` nodes adds at most one to
/// the count, an `i32` to the sum and a `u32` to the weights.
pub proof fn lemma_flow_bounds(s: Seq<NodeView>, horizontal: bool, n: int)
    requires
        0 <= n <= s.len(),
    ensures
        0 <= flow_count(s, n) <= n,
        -n * 0x8000_0000 <= flow_sum(s, horizontal, n) <= n * 0x8000_0000,
        0 <= flow_flex(s, n) <= n * 0x1_0000_0000,
        flow_max(s, horizontal, n) is Some <==> flow_count(s, n) > 0,
        flow_max(s, horizontal, n) matches Some(m) ==> i32::MIN <= m <= i32::MAX,
    decreases n,
{
    if n > 0 {
        lemma_flow_bounds(s, horizontal, n - 1);
    }
}

} // verus!
