//! The controller: it runs the passes over a tree in order, turns the tree
//! into one frame of drawing commands, and routes the events of a frame.
//! Across frames it keeps the scroll offsets and the identity of the one
//! node that has the keyboard focus.

use vstd::prelude::*;
use crate::common::{AbsoluteDraw, Color, DrawCommand, DrawCommandView, MouseEvent, ScrollEvent};
use crate::draw::{commands_of, ids_of};
use crate::keyboard::KeyEvent;
use crate::layout::{lemma_layout_view, lemma_view, lemma_views_of, views_of, Component, Layout};
use crate::measure::bump;
use crate::metrics::{is_text_metrics, width_fn};
use crate::scroll::{offset_of, scroll_by, wheel_offset, ScrollMap};
use crate::view::{NodeKind, NodeView};

verus! {

/// The deepest level among the first `n` nodes of a list.
pub open spec fn deepest(children: Seq<NodeView>, n: int) -> nat
    decreases children, n,
{
    if n <= 0 || n > children.len() {
        0
    } else {
        let rest = deepest(children, n - 1);
        let last = children[n - 1].levels();
        if rest >= last {
            rest
        } else {
            last
        }
    }
}

impl NodeView {
    /// The number of levels of the tree: one for a node without children.
    pub open spec fn levels(self) -> nat
        decreases self,
    {
        1 + deepest(self.children, self.children.len() as int)
    }
}

/// What one round of deferred drawing gives for the first `n` requests: the
/// commands of the nodes they name, and the requests those leave in turn.
/// A request that names no node, or a node of the flow, gives nothing.
pub open spec fn deferred_round(root: NodeView, requests: Seq<Seq<char>>, n: int) -> (
    Seq<DrawCommandView>,
    Seq<Seq<char>>,
)
    decreases n,
{
    if n <= 0 || n > requests.len() {
        (Seq::empty(), Seq::empty())
    } else {
        let before = deferred_round(root, requests, n - 1);
        match root.located(requests[n - 1]) {
            Some(node) => if node.in_flow() {
                before
            } else {
                (before.0 + node.commands(), before.1 + node.pending())
            },
            None => before,
        }
    }
}

/// The commands of deferred drawing: round after round, each drawing what
/// the one before has left, until nothing is left or `rounds` are done.
pub open spec fn deferred(root: NodeView, requests: Seq<Seq<char>>, rounds: nat) -> Seq<DrawCommandView>
    decreases rounds,
{
    if rounds == 0 || requests.len() == 0 {
        Seq::empty()
    } else {
        let round = deferred_round(root, requests, requests.len() as int);
        round.0 + deferred(root, round.1, (rounds - 1) as nat)
    }
}

/// The commands of one frame: the canvas is cleared to black, the flow
/// content is drawn, and then, level by level, what lies outside the flow.
/// There are at most as many rounds as the tree has levels.
pub open spec fn frame(root: NodeView) -> Seq<DrawCommandView> {
    seq![DrawCommandView::Clear { color: Color { r: 0, g: 0, b: 0, a: 255 } }] + root.commands()
        + deferred(root, root.pending(), bump(0, root.levels()) as nat)
}

/// The tree after a layout cycle in a window of size `dim`: measured, then
/// positioned at the origin, then resolved against the scroll offsets.
pub open spec fn laid_out(
    root: NodeView,
    dim: (i32, i32),
    scroll: Map<Seq<char>, i32>,
    width: spec_fn(Seq<char>, i32) -> i32,
) -> NodeView {
    root.measured(dim, 0, width).positioned((0, 0)).overflowed(dim, (0, 0), scroll, 0)
}

/// The scroll offsets after a layout cycle.
pub open spec fn scrolled_out(
    root: NodeView,
    dim: (i32, i32),
    scroll: Map<Seq<char>, i32>,
    width: spec_fn(Seq<char>, i32) -> i32,
) -> Map<Seq<char>, i32> {
    root.measured(dim, 0, width).positioned((0, 0)).scrolled(scroll)
}

/// A node that a click has hit, as the application needs it to call the
/// click handler of the node.
#[derive(Debug, Clone)]
pub struct ClickTarget {
    pub id: String,
    /// The click handler of the node, as the application numbers it.
    pub handler: Option<usize>,
    /// Whether the node takes the keyboard focus.
    pub focusable: bool,
}

/// The mathematical value of a [`ClickTarget`].
pub struct ClickTargetView {
    pub id: Seq<char>,
    pub handler: Option<usize>,
    pub focusable: bool,
}

impl View for ClickTarget {
    type V = ClickTargetView;

    open spec fn view(&self) -> ClickTargetView {
        ClickTargetView { id: self.id@, handler: self.handler, focusable: self.focusable }
    }
}

/// The mathematical values of a list of click targets.
pub open spec fn targets_of(list: Seq<ClickTarget>) -> Seq<ClickTargetView> {
    Seq::new(list.len(), |i: int| list[i]@)
}

/// The click targets for the first `n` hits: one for each hit that names a
/// node of the tree, in the order of the hits.
pub open spec fn click_targets(root: NodeView, hits: Seq<Seq<char>>, n: int) -> Seq<ClickTargetView>
    decreases n,
{
    if n <= 0 || n > hits.len() {
        Seq::empty()
    } else {
        let before = click_targets(root, hits, n - 1);
        match root.located(hits[n - 1]) {
            Some(node) => before.push(
                ClickTargetView {
                    id: hits[n - 1],
                    handler: node.on_click,
                    focusable: node.kind == NodeKind::TextInput,
                },
            ),
            None => before,
        }
    }
}

/// The first of the first `n` targets that takes the focus.
pub open spec fn first_focusable(targets: Seq<ClickTargetView>, n: int) -> Option<Seq<char>>
    decreases n,
{
    if n <= 0 || n > targets.len() {
        None
    } else {
        match first_focusable(targets, n - 1) {
            Some(id) => Some(id),
            None => if targets[n - 1].focusable {
                Some(targets[n - 1].id)
            } else {
                None
            },
        }
    }
}

/// The identity that an optional string stands for.
pub open spec fn focus_of(focused: Option<String>) -> Option<Seq<char>> {
    match focused {
        Some(id) => Some(id@),
        None => None,
    }
}

/// What has become of a key event.
#[derive(Debug, Clone, Copy, PartialEq, Eq, Structural)]
pub enum KeyOutcome {
    /// No node of the tree has the focus: nothing has happened.
    Unfocused,
    /// The focused node takes no keys: nothing has happened.
    Handled,
    /// The focused input has been edited by the default reducer.
    Edited,
    /// The focused input has a key handler of its own, which the
    /// application has to call.
    Forward(usize),
}

/// What becomes of a key event in a tree in which `focus` has the focus.
pub open spec fn key_outcome(root: NodeView, focus: Option<Seq<char>>) -> KeyOutcome {
    match focus {
        None => KeyOutcome::Unfocused,
        Some(id) => match root.located(id) {
            None => KeyOutcome::Unfocused,
            Some(node) => if node.kind != NodeKind::TextInput {
                KeyOutcome::Handled
            } else {
                match node.def_on_key {
                    Some(handler) => KeyOutcome::Forward(handler),
                    None => KeyOutcome::Edited,
                }
            },
        },
    }
}

/// The controller of a tree.
#[derive(Debug)]
pub struct UIRoot {
    /// The size of the window.
    pub dim: (i32, i32),
    /// The scroll offsets, by node identity.
    pub scroll_map: ScrollMap,
    /// The node that has the keyboard focus.
    pub focused_id: Option<String>,
}

impl Component {
    /// The number of levels of the subtree, as far as the machine can count.
    pub fn depth(&self) -> (r: usize)
        ensures
            r == bump(0, self@.levels()),
        decreases self,
    {
        proof {
            lemma_view(*self);
            reveal_with_fuel(NodeView::levels, 2);
            reveal_with_fuel(deepest, 2);
        }
        match self.layout() {
            None => 1,
            Some(layout) => {
                let ghost kids = self@.children;
                proof {
                    lemma_layout_view(*layout);
                    lemma_views_of(layout.children@);
                }
                let mut deepest_child: usize = 0;
                let mut i: usize = 0;
                while i < layout.children.len()
                    invariant
                        i <= layout.children.len(),
                        kids == views_of(layout.children@),
                        kids.len() == layout.children.len(),
                        deepest_child == bump(0, deepest(kids, i as int)),
                        match self {
                            Component::Layout(l) => layout == l,
                            Component::TextLayout(label) => layout == &label.layout,
                            Component::TextInput(input) => layout == &input.layout,
                            Component::RawText(_) => false,
                        },
                    decreases layout.children.len() - i,
                {
                    proof {
                        lemma_views_of(layout.children@);
                        assert(kids[i as int] == layout.children@[i as int]@);
                        reveal_with_fuel(deepest, 2);
                        assert(decreases_to!(layout.children => layout.children[i as int]));
                    }
                    let d = layout.children[i].depth();
                    if d > deepest_child {
                        deepest_child = d;
                    }
                    i += 1;
                }
                if deepest_child < usize::MAX {
                    deepest_child + 1
                } else {
                    deepest_child
                }
            },
        }
    }
}

impl UIRoot {
    /// A controller for a window of size `dim`, without scroll offsets and
    /// without a focused node.
    pub fn new(dim: (i32, i32)) -> (r: UIRoot)
        ensures
            r.dim == dim,
            r.scroll_map@ == Map::<Seq<char>, i32>::empty(),
            r.focused_id is None,
    {
        UIRoot { dim, scroll_map: ScrollMap::new(), focused_id: None }
    }

    /// Measures the tree for the window.  The numbering of the nodes starts
    /// at one.
    pub fn measure_dimensions<F: Fn(&str, i32) -> i32>(&self, root: &mut Component, measure: &F)
        requires
            is_text_metrics(*measure),
        ensures
            final(root)@ == old(root)@.measured(self.dim, 0, width_fn(*measure)),
    {
        let _ = root.measure_dimensions(self.dim, 0, measure);
    }

    /// Positions the tree at the origin of the window.
    pub fn measure_positions(&self, root: &mut Component)
        ensures
            final(root)@ == old(root)@.positioned((0, 0)),
    {
        root.measure_positions((0, 0));
    }

    /// Resolves the tree against the window and the scroll offsets, and
    /// clamps the offsets.
    pub fn measure_overflows(&mut self, root: &mut Component)
        ensures
            final(root)@ == old(root)@.overflowed(old(self).dim, (0, 0), old(self).scroll_map@, 0),
            final(self).scroll_map@ == old(root)@.scrolled(old(self).scroll_map@),
            final(self).dim == old(self).dim,
            final(self).focused_id == old(self).focused_id,
    {
        root.measure_overflows(self.dim, (0, 0), &mut self.scroll_map, 0);
    }

    /// Lays the tree out: measures it, positions it and resolves its
    /// overflow, in this order, each pass over the whole tree.
    pub fn layout<F: Fn(&str, i32) -> i32>(&mut self, root: &mut Component, measure: &F)
        requires
            is_text_metrics(*measure),
        ensures
            final(root)@ == laid_out(old(root)@, old(self).dim, old(self).scroll_map@, width_fn(*measure)),
            final(self).scroll_map@ == scrolled_out(
                old(root)@,
                old(self).dim,
                old(self).scroll_map@,
                width_fn(*measure),
            ),
            final(self).dim == old(self).dim,
            final(self).focused_id == old(self).focused_id,
    {
        self.measure_dimensions(root, measure);
        self.measure_positions(root);
        self.measure_overflows(root);
    }

    /// Lays the tree out and draws it.  Nothing is drawn before every pass
    /// has been over the whole tree.
    pub fn render<F: Fn(&str, i32) -> i32>(&mut self, root: &mut Component, measure: &F) -> (canvas: Vec<
        DrawCommand,
    >)
        requires
            is_text_metrics(*measure),
        ensures
            final(root)@ == laid_out(old(root)@, old(self).dim, old(self).scroll_map@, width_fn(*measure)),
            final(self).scroll_map@ == scrolled_out(
                old(root)@,
                old(self).dim,
                old(self).scroll_map@,
                width_fn(*measure),
            ),
            final(self).dim == old(self).dim,
            final(self).focused_id == old(self).focused_id,
            commands_of(canvas@) == frame(final(root)@),
    {
        self.layout(root, measure);
        UIRoot::draw(root)
    }

    /// The node of the tree with the identity `id`: the root, or the first
    /// below it.
    pub fn get_by_id<'a>(root: &'a Component, id: &str) -> (r: Option<&'a Component>)
        ensures
            match r {
                Some(node) => root@.located(id@) == Some(node@),
                None => root@.located(id@) is None,
            },
    {
        root.locate(id)
    }

    /// Draws what one round of requests names, and collects the requests
    /// that this leaves.
    fn draw_round(root: &Component, requests: &Vec<AbsoluteDraw>, canvas: &mut Vec<DrawCommand>) -> (next: Vec<
        AbsoluteDraw,
    >)
        ensures
            commands_of(final(canvas)@) == commands_of(old(canvas)@) + deferred_round(
                root@,
                ids_of(requests@),
                requests.len() as int,
            ).0,
            ids_of(next@) == deferred_round(root@, ids_of(requests@), requests.len() as int).1,
    {
        let ghost drawn = commands_of(canvas@);
        let ghost asked = ids_of(requests@);
        let mut next: Vec<AbsoluteDraw> = Vec::new();
        let mut i: usize = 0;
        proof {
            assert(commands_of(canvas@) =~= drawn + deferred_round(root@, asked, 0).0);
            assert(ids_of(next@) =~= deferred_round(root@, asked, 0).1);
        }
        while i < requests.len()
            invariant
                i <= requests.len(),
                asked == ids_of(requests@),
                commands_of(canvas@) == drawn + deferred_round(root@, asked, i as int).0,
                ids_of(next@) == deferred_round(root@, asked, i as int).1,
            decreases requests.len() - i,
        {
            assert(asked[i as int] == requests@[i as int].component_id@);
            if let Some(node) = root.locate(requests[i].component_id.as_str()) {
                let in_flow = match node.get_position() {
                    crate::common::Position::Auto => true,
                    _ => false,
                };
                if !in_flow {
                    node.draw_into(canvas, &mut next);
                    assert(commands_of(canvas@) =~= drawn + deferred_round(root@, asked, i as int + 1).0);
                }
            }
            i += 1;
        }
        next
    }

    /// The drawing commands of one frame.
    pub fn draw(root: &Component) -> (canvas: Vec<DrawCommand>)
        ensures
            commands_of(canvas@) == frame(root@),
    {
        let mut canvas: Vec<DrawCommand> = Vec::new();
        let clear = DrawCommand::Clear { color: Color::black() };
        canvas.push(clear);
        assert(commands_of(canvas@) =~= seq![clear@]);
        let mut pending = root.draw(&mut canvas);
        let mut rounds = root.depth();
        let ghost flow = commands_of(canvas@);
        proof {
            assert(flow =~= seq![clear@] + root@.commands());
            assert(flow + deferred(root@, ids_of(pending@), rounds as nat) =~= frame(root@));
        }
        while rounds > 0 && pending.len() > 0
            invariant
                commands_of(canvas@) + deferred(root@, ids_of(pending@), rounds as nat) == frame(root@),
            decreases rounds,
        {
            let ghost drawn = commands_of(canvas@);
            let ghost asked = ids_of(pending@);
            let next = UIRoot::draw_round(root, &pending, &mut canvas);
            proof {
                let round = deferred_round(root@, asked, asked.len() as int);
                assert(deferred(root@, asked, rounds as nat) == round.0 + deferred(
                    root@,
                    round.1,
                    (rounds - 1) as nat,
                ));
                assert(commands_of(canvas@) + deferred(root@, ids_of(next@), (rounds - 1) as nat) =~= drawn
                    + deferred(root@, asked, rounds as nat));
            }
            pending = next;
            rounds = rounds - 1;
        }
        proof {
            assert(deferred(root@, ids_of(pending@), rounds as nat) =~= Seq::<DrawCommandView>::empty());
            assert(commands_of(canvas@) =~= frame(root@));
        }
        canvas
    }

    /// The nodes that a click has hit, innermost first, each with what the
    /// application needs to call its click handler.  The application calls
    /// the handlers in this order, until one asks it to stop.
    pub fn get_mouse_event_handlers(root: &Component, mouse_event: MouseEvent) -> (targets: Vec<ClickTarget>)
        ensures
            targets_of(targets@) == click_targets(
                root@,
                root@.hits(mouse_event),
                root@.hits(mouse_event).len() as int,
            ),
    {
        let hits = root.get_mouse_event_handlers(mouse_event);
        let ghost ids = hits.deep_view();
        let mut targets: Vec<ClickTarget> = Vec::new();
        let mut i: usize = 0;
        assert(targets_of(targets@) =~= click_targets(root@, ids, 0));
        while i < hits.len()
            invariant
                i <= hits.len(),
                ids == hits.deep_view(),
                ids.len() == hits.len(),
                targets_of(targets@) == click_targets(root@, ids, i as int),
            decreases hits.len() - i,
        {
            assert(ids[i as int] == hits@[i as int]@);
            if let Some(node) = root.locate(hits[i].as_str()) {
                let ghost before = targets@;
                let target = ClickTarget {
                    id: hits[i].clone(),
                    handler: node.get_on_click(),
                    focusable: node.is_focusable(),
                };
                targets.push(target);
                assert(targets_of(targets@) =~= targets_of(before).push(target@));
            }
            i += 1;
        }
        targets
    }

    /// Settles a click once the application has called the click handlers
    /// of the first `invoked` targets (of all of them, if there are fewer).
    /// While the button is down, the focus goes to the first of those
    /// targets that takes it, and is lost if none does; the result says
    /// whether the tree has to be laid out again.
    pub fn focus_after_click(&mut self, targets: &Vec<ClickTarget>, invoked: usize, mouse_event: MouseEvent) -> (r:
        bool)
        ensures
            r == mouse_event.left_button_down,
            mouse_event.left_button_down ==> focus_of(final(self).focused_id) == first_focusable(
                targets_of(targets@),
                if invoked <= targets.len() {
                    invoked as int
                } else {
                    targets.len() as int
                },
            ),
            !mouse_event.left_button_down ==> final(self).focused_id == old(self).focused_id,
            final(self).dim == old(self).dim,
            final(self).scroll_map == old(self).scroll_map,
    {
        if !mouse_event.left_button_down {
            return false;
        }
        let ghost views = targets_of(targets@);
        let called = if invoked <= targets.len() {
            invoked
        } else {
            targets.len()
        };
        let mut focused: Option<String> = None;
        let mut i: usize = 0;
        while i < called && focused.is_none()
            invariant
                i <= called <= targets.len(),
                views == targets_of(targets@),
                focus_of(focused) == first_focusable(views, i as int),
                focused is Some ==> first_focusable(views, called as int) == focus_of(focused),
            decreases called - i,
        {
            assert(views[i as int] == targets@[i as int]@);
            if targets[i].focusable {
                focused = Some(targets[i].id.clone());
                proof {
                    lemma_focus_stays(views, i as int + 1, called as int);
                }
            }
            i += 1;
        }
        self.focused_id = focused;
        true
    }

    /// Sends a key event to the node that has the focus.  The result says
    /// what has become of the event; unless it is `Unfocused`, the tree has
    /// to be laid out again.
    pub fn handle_key_event(&self, root: &mut Component, key_event: KeyEvent) -> (r: KeyOutcome)
        ensures
            r == key_outcome(old(root)@, focus_of(self.focused_id)),
            final(root)@ == match focus_of(self.focused_id) {
                Some(id) => old(root)@.keyed(id, key_event),
                None => old(root)@,
            },
    {
        match &self.focused_id {
            None => KeyOutcome::Unfocused,
            Some(id) => {
                let outcome = match root.locate(id.as_str()) {
                    None => KeyOutcome::Unfocused,
                    Some(node) => if !node.is_focusable() {
                        KeyOutcome::Handled
                    } else {
                        match node.get_on_key() {
                            Some(handler) => KeyOutcome::Forward(handler),
                            None => KeyOutcome::Edited,
                        }
                    },
                };
                let _ = root.apply_key(id.as_str(), key_event);
                outcome
            },
        }
    }

    /// Applies a wheel movement: the box under the pointer that scrolls has
    /// its stored offset moved, to be clamped by the next overflow pass.
    /// The result says whether the tree has to be laid out again.
    pub fn get_scroll_event_handler(&mut self, root: &Component, scroll_event: ScrollEvent) -> (r: bool)
        ensures
            r == (scroll_event.delta != 0 && root@.scroll_target(scroll_event.pos) is Some),
            final(self).scroll_map@ == if r {
                let id = root@.scroll_target(scroll_event.pos).unwrap();
                old(self).scroll_map@.insert(
                    id,
                    wheel_offset(offset_of(old(self).scroll_map@, id), scroll_event.delta),
                )
            } else {
                old(self).scroll_map@
            },
            final(self).dim == old(self).dim,
            final(self).focused_id == old(self).focused_id,
    {
        if scroll_event.delta == 0 {
            return false;
        }
        match root.get_scroll_event_handler(scroll_event) {
            Some(id) => {
                let offset = self.scroll_map.offset(id.as_str());
                self.scroll_map.insert(id.as_str(), scroll_by(offset, scroll_event.delta));
                true
            },
            None => false,
        }
    }
}

/// Once a target has taken the focus, later targets do not change that.
proof fn lemma_focus_stays(targets: Seq<ClickTargetView>, i: int, n: int)
    requires
        0 <= i <= n <= targets.len(),
        first_focusable(targets, i) is Some,
    ensures
        first_focusable(targets, n) == first_focusable(targets, i),
    decreases n - i,
{
    if n > i {
        lemma_focus_stays(targets, i, n - 1);
    }
}

} // verus!
