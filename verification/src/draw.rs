//! The draw pass: a tree becomes a list of drawing commands.
//!
//! A box draws its background if any of it is visible, then its flow
//! children in order.  Children placed outside the flow are not drawn in
//! line: each is reported as a deferred request, so that it can be drawn
//! later, above the flow content.

use vstd::prelude::*;
use crate::common::{AbsoluteDraw, DrawCommand, DrawCommandView, Position};
use crate::layout::{lemma_layout_view, lemma_view, lemma_views_of, views_of, Component, Layout};
use crate::raw_text::RawText;
use crate::text_input::TextInput;
use crate::text_layout::TextLayout;
use crate::view::{NodeKind, NodeView};

verus! {

/// The mathematical values of a list of commands.
pub open spec fn commands_of(list: Seq<DrawCommand>) -> Seq<DrawCommandView> {
    Seq::new(list.len(), |i: int| list[i]@)
}

/// The identities that a list of deferred requests names.
pub open spec fn ids_of(list: Seq<AbsoluteDraw>) -> Seq<Seq<char>> {
    Seq::new(list.len(), |i: int| list[i].component_id@)
}

/// The commands of the flow children among the first `n` nodes of a list.
pub open spec fn flow_commands(children: Seq<NodeView>, n: int) -> Seq<DrawCommandView>
    decreases children, n,
{
    if n <= 0 || n > children.len() {
        Seq::empty()
    } else if children[n - 1].in_flow() {
        flow_commands(children, n - 1) + children[n - 1].commands()
    } else {
        flow_commands(children, n - 1)
    }
}

/// The deferred requests of the flow children among the first `n` nodes.
pub open spec fn flow_pending(children: Seq<NodeView>, n: int) -> Seq<Seq<char>>
    decreases children, n,
{
    if n <= 0 || n > children.len() {
        Seq::empty()
    } else if children[n - 1].in_flow() {
        flow_pending(children, n - 1) + children[n - 1].pending()
    } else {
        flow_pending(children, n - 1)
    }
}

/// The identities of the pinned (`sticky`) or of the absolute children among
/// the first `n` nodes of a list.
pub open spec fn outside_ids(children: Seq<NodeView>, sticky: bool, n: int) -> Seq<Seq<char>>
    decreases n,
{
    if n <= 0 || n > children.len() {
        Seq::empty()
    } else if !children[n - 1].in_flow() && (children[n - 1].position is Sticky) == sticky {
        outside_ids(children, sticky, n - 1).push(children[n - 1].id.text())
    } else {
        outside_ids(children, sticky, n - 1)
    }
}

impl NodeView {
    /// What the node draws of itself: a box its background, a text run its
    /// text, and either only if some of its height is visible.
    pub open spec fn own_commands(self) -> Seq<DrawCommandView> {
        if self.draw_dim.1 <= 0 {
            Seq::empty()
        } else if self.kind == NodeKind::TextRun {
            seq![
                DrawCommandView::Text {
                    content: self.content,
                    x: self.pos.0,
                    y: self.pos.1,
                    font_size: self.font_size,
                    color: self.text_color,
                },
            ]
        } else {
            seq![
                DrawCommandView::Rect {
                    x: self.pos.0,
                    y: self.pos.1,
                    width: self.draw_dim.0,
                    height: self.draw_dim.1,
                    color: self.bg_color,
                },
            ]
        }
    }

    /// The commands that draw the node and the flow content below it.
    pub open spec fn commands(self) -> Seq<DrawCommandView>
        decreases self,
    {
        if self.kind == NodeKind::TextRun {
            self.own_commands()
        } else {
            self.own_commands() + flow_commands(self.children, self.children.len() as int)
        }
    }

    /// The deferred requests that drawing the node leaves: for its absolute
    /// children, then for its pinned ones, then those of its flow children.
    pub open spec fn pending(self) -> Seq<Seq<char>>
        decreases self,
    {
        if self.kind == NodeKind::TextRun {
            Seq::empty()
        } else {
            let n = self.children.len() as int;
            outside_ids(self.children, false, n) + outside_ids(self.children, true, n) + flow_pending(
                self.children,
                n,
            )
        }
    }
}

/// What a box draws and defers.
pub proof fn lemma_draw(v: NodeView)
    ensures
        v.kind == NodeKind::TextRun ==> v.commands() == v.own_commands() && v.pending()
            == Seq::<Seq<char>>::empty(),
        v.kind != NodeKind::TextRun ==> v.commands() == v.own_commands() + flow_commands(
            v.children,
            v.children.len() as int,
        ) && v.pending() == outside_ids(v.children, false, v.children.len() as int) + outside_ids(
            v.children,
            true,
            v.children.len() as int,
        ) + flow_pending(v.children, v.children.len() as int),
{
    reveal_with_fuel(NodeView::commands, 2);
    reveal_with_fuel(NodeView::pending, 2);
}

/// The commands and requests of one more node of a list.
pub proof fn lemma_flow_drawn(children: Seq<NodeView>, n: int)
    requires
        0 < n <= children.len(),
    ensures
        flow_commands(children, 0) == Seq::<DrawCommandView>::empty(),
        flow_pending(children, 0) == Seq::<Seq<char>>::empty(),
        flow_commands(children, n) == if children[n - 1].in_flow() {
            flow_commands(children, n - 1) + children[n - 1].commands()
        } else {
            flow_commands(children, n - 1)
        },
        flow_pending(children, n) == if children[n - 1].in_flow() {
            flow_pending(children, n - 1) + children[n - 1].pending()
        } else {
            flow_pending(children, n - 1)
        },
{
    reveal_with_fuel(flow_commands, 2);
    reveal_with_fuel(flow_pending, 2);
}

impl Layout {
    /// Pushes the requests for the absolute children, or for the pinned ones.
    fn defer(&self, sticky: bool, pending: &mut Vec<AbsoluteDraw>)
        ensures
            ids_of(final(pending)@) == ids_of(old(pending)@) + outside_ids(
                self@.children,
                sticky,
                self@.children.len() as int,
            ),
    {
        let ghost kids = self@.children;
        let ghost held = ids_of(pending@);
        proof {
            lemma_layout_view(*self);
            lemma_views_of(self.children@);
            assert(held + outside_ids(kids, sticky, 0) =~= held);
        }
        let mut i: usize = 0;
        while i < self.children.len()
            invariant
                i <= self.children.len(),
                kids == views_of(self.children@),
                kids.len() == self.children.len(),
                ids_of(pending@) == held + outside_ids(kids, sticky, i as int),
            decreases self.children.len() - i,
        {
            proof {
                lemma_views_of(self.children@);
                assert(kids[i as int] == self.children@[i as int]@);
            }
            let child = &self.children[i];
            let wanted = match child.get_position() {
                Position::Auto => false,
                Position::Abs(_, _) => !sticky,
                Position::Sticky(_, _) => sticky,
            };
            if wanted {
                let id = child.get_id();
                let ghost before = pending@;
                pending.push(AbsoluteDraw::new(id.as_str()));
                assert(ids_of(pending@) =~= ids_of(before).push(id@));
                assert(held + outside_ids(kids, sticky, i as int + 1) =~= (held + outside_ids(
                    kids,
                    sticky,
                    i as int,
                )).push(id@));
            }
            i += 1;
        }
    }

    /// Draws the container and its flow content onto `canvas`, and adds the
    /// requests for what is to be drawn later to `pending`.
    pub fn draw_into(&self, canvas: &mut Vec<DrawCommand>, pending: &mut Vec<AbsoluteDraw>)
        ensures
            commands_of(final(canvas)@) == commands_of(old(canvas)@) + self@.commands(),
            ids_of(final(pending)@) == ids_of(old(pending)@) + self@.pending(),
        decreases self, 0int,
    {
        let ghost kids = self@.children;
        let ghost drawn = commands_of(canvas@);
        let ghost asked = ids_of(pending@);
        proof {
            lemma_layout_view(*self);
            lemma_views_of(self.children@);
            lemma_draw(self@);
        }
        if self.draw_dim.1 > 0 {
            let ghost before = canvas@;
            let command = DrawCommand::Rect {
                x: self.pos.0,
                y: self.pos.1,
                width: self.draw_dim.0,
                height: self.draw_dim.1,
                color: self.bg_color,
            };
            canvas.push(command);
            assert(commands_of(canvas@) =~= commands_of(before).push(command@));
            assert(commands_of(canvas@) =~= drawn + self@.own_commands());
        } else {
            assert(commands_of(canvas@) =~= drawn + self@.own_commands());
        }
        self.defer(false, pending);
        self.defer(true, pending);
        let ghost own = drawn + self@.own_commands();
        let ghost outside = asked + outside_ids(kids, false, kids.len() as int) + outside_ids(
            kids,
            true,
            kids.len() as int,
        );
        proof {
            assert(ids_of(pending@) =~= outside);
            reveal_with_fuel(flow_commands, 2);
            reveal_with_fuel(flow_pending, 2);
            assert(own + flow_commands(kids, 0) =~= own);
            assert(outside + flow_pending(kids, 0) =~= outside);
        }
        let mut i: usize = 0;
        while i < self.children.len()
            invariant
                i <= self.children.len(),
                kids == views_of(self.children@),
                kids.len() == self.children.len(),
                commands_of(canvas@) == own + flow_commands(kids, i as int),
                ids_of(pending@) == outside + flow_pending(kids, i as int),
            decreases self.children.len() - i,
        {
            proof {
                lemma_views_of(self.children@);
                assert(kids[i as int] == self.children@[i as int]@);
                lemma_flow_drawn(kids, i as int + 1);
                assert(decreases_to!(self.children => self.children[i as int]));
            }
            let child = &self.children[i];
            if let Position::Auto = child.get_position() {
                child.draw_into(canvas, pending);
                assert(commands_of(canvas@) =~= own + flow_commands(kids, i as int + 1));
                assert(ids_of(pending@) =~= outside + flow_pending(kids, i as int + 1));
            }
            i += 1;
        }
        proof {
            assert(commands_of(canvas@) =~= drawn + self@.commands());
            assert(ids_of(pending@) =~= asked + self@.pending());
        }
    }

    /// Draws the container and its flow content onto `canvas`.  What comes
    /// back are the requests for what is to be drawn later.
    pub fn draw(&self, canvas: &mut Vec<DrawCommand>) -> (pending: Vec<AbsoluteDraw>)
        ensures
            commands_of(final(canvas)@) == commands_of(old(canvas)@) + self@.commands(),
            ids_of(pending@) == self@.pending(),
    {
        let mut pending: Vec<AbsoluteDraw> = Vec::new();
        self.draw_into(canvas, &mut pending);
        assert(ids_of(pending@) =~= self@.pending());
        pending
    }
}

impl RawText {
    /// Draws the run onto `canvas`, if any of it is visible.
    pub fn draw(&self, canvas: &mut Vec<DrawCommand>)
        ensures
            commands_of(final(canvas)@) == commands_of(old(canvas)@) + self@.commands(),
            self@.pending() == Seq::<Seq<char>>::empty(),
    {
        proof {
            lemma_draw(self@);
        }
        let ghost before = canvas@;
        if self.draw_dim.1 > 0 {
            let command = DrawCommand::Text {
                content: self.content.clone(),
                x: self.pos.0,
                y: self.pos.1,
                font_size: self.font_size,
                color: self.color,
            };
            canvas.push(command);
            assert(commands_of(canvas@) =~= commands_of(before).push(command@));
            assert(commands_of(canvas@) =~= commands_of(before) + self@.own_commands());
        } else {
            assert(commands_of(canvas@) =~= commands_of(before) + self@.own_commands());
        }
    }
}

/// Two boxes that differ in their kind and their text only draw alike.
proof fn lemma_same_drawing(a: NodeView, b: NodeView)
    requires
        a.kind != NodeKind::TextRun,
        b.kind != NodeKind::TextRun,
        a == b.as_text(a.kind, a.content, a.font_size, a.wrap, a.text_color, a.def_on_key),
    ensures
        a.commands() == b.commands(),
        a.pending() == b.pending(),
{
    lemma_draw(a);
    lemma_draw(b);
}

impl Component {
    /// Draws the node and its flow content onto `canvas`, and adds the
    /// requests for what is to be drawn later to `pending`.
    pub fn draw_into(&self, canvas: &mut Vec<DrawCommand>, pending: &mut Vec<AbsoluteDraw>)
        ensures
            commands_of(final(canvas)@) == commands_of(old(canvas)@) + self@.commands(),
            ids_of(final(pending)@) == ids_of(old(pending)@) + self@.pending(),
        decreases self, 1int,
    {
        proof {
            lemma_view(*self);
        }
        match self {
            Component::Layout(layout) => {
                layout.draw_into(canvas, pending);
            },
            Component::RawText(text) => {
                text.draw(canvas);
                assert(ids_of(pending@) =~= ids_of(pending@) + self@.pending());
            },
            Component::TextLayout(label) => {
                proof {
                    lemma_same_drawing(label@, label.layout@);
                }
                label.layout.draw_into(canvas, pending);
            },
            Component::TextInput(input) => {
                proof {
                    lemma_same_drawing(input@, input.layout@);
                }
                input.layout.draw_into(canvas, pending);
            },
        }
    }

    /// Draws the node and its flow content onto `canvas`.  What comes back
    /// are the requests for what is to be drawn later.
    pub fn draw(&self, canvas: &mut Vec<DrawCommand>) -> (pending: Vec<AbsoluteDraw>)
        ensures
            commands_of(final(canvas)@) == commands_of(old(canvas)@) + self@.commands(),
            ids_of(pending@) == self@.pending(),
    {
        let mut pending: Vec<AbsoluteDraw> = Vec::new();
        self.draw_into(canvas, &mut pending);
        assert(ids_of(pending@) =~= self@.pending());
        pending
    }
}

} // verus!
