//! Event routing inside a tree: which nodes a click hits, which box takes a
//! wheel movement, which inputs take keys, and which node has a given
//! identity.

use vstd::prelude::*;
use crate::common::{point_in_rect, rect_contains, MouseEvent, ScrollEvent};
use crate::keyboard::{def_key_handler, text_after_key, KeyEvent};
use crate::layout::{lemma_layout_view, lemma_view, lemma_views_of, views_of, Component, Layout};
use crate::view::{NodeKind, NodeView};

verus! {

/// The hits among the first `n` nodes of a list, in order.
pub open spec fn hits_through(children: Seq<NodeView>, mouse_event: MouseEvent, n: int) -> Seq<Seq<char>>
    decreases children, n,
{
    if n <= 0 || n > children.len() {
        Seq::empty()
    } else {
        hits_through(children, mouse_event, n - 1) + children[n - 1].hits(mouse_event)
    }
}

/// The first box, from node `k` of a list on, that takes a wheel movement at
/// `point`.
pub open spec fn first_target(children: Seq<NodeView>, point: (i32, i32), k: int) -> Option<Seq<char>>
    decreases children, children.len() - k,
{
    if k < 0 || k >= children.len() {
        None
    } else {
        match children[k].scroll_target(point) {
            Some(id) => Some(id),
            None => first_target(children, point, k + 1),
        }
    }
}

/// The first node with the identity `id`, from node `k` of a list on, each
/// node searched before what is below it and all of that before the next.
pub open spec fn first_located(children: Seq<NodeView>, id: Seq<char>, k: int) -> Option<NodeView>
    decreases children, children.len() - k,
{
    if k < 0 || k >= children.len() {
        None
    } else {
        match children[k].located(id) {
            Some(node) => Some(node),
            None => first_located(children, id, k + 1),
        }
    }
}

/// The inputs among the first `n` nodes of a list and below them, in order.
pub open spec fn inputs_through(children: Seq<NodeView>, n: int) -> Seq<Seq<char>>
    decreases children, n,
{
    if n <= 0 || n > children.len() {
        Seq::empty()
    } else {
        inputs_through(children, n - 1) + children[n - 1].key_targets()
    }
}

impl NodeView {
    /// Whether a click lands on the node: the button is down and the pointer
    /// is on the rectangle of the node, edges included.
    pub open spec fn is_hit(self, mouse_event: MouseEvent) -> bool {
        mouse_event.left_button_down && point_in_rect(mouse_event.pos, self.pos, self.draw_dim)
    }

    /// The identity of the node if the click lands on it.
    pub open spec fn own_hit(self, mouse_event: MouseEvent) -> Seq<Seq<char>> {
        if self.is_hit(mouse_event) {
            seq![self.id.text()]
        } else {
            Seq::empty()
        }
    }

    /// The identities of the nodes a click hits, innermost first: a
    /// container reports the hits of its children before itself; a label or
    /// an input reports itself; a text run reports nothing.
    pub open spec fn hits(self, mouse_event: MouseEvent) -> Seq<Seq<char>>
        decreases self,
    {
        match self.kind {
            NodeKind::TextRun => Seq::empty(),
            NodeKind::Container => hits_through(self.children, mouse_event, self.children.len() as int)
                + self.own_hit(mouse_event),
            _ => self.own_hit(mouse_event),
        }
    }

    /// The box that takes a wheel movement at `point`: the first that claims
    /// it below the node, or else the node itself if it scrolls along y and
    /// the point is on it.
    pub open spec fn scroll_target(self, point: (i32, i32)) -> Option<Seq<char>>
        decreases self,
    {
        if self.kind == NodeKind::TextRun {
            None
        } else {
            match first_target(self.children, point, 0) {
                Some(id) => Some(id),
                None => if self.overflow.1 && point_in_rect(point, self.pos, self.draw_dim) {
                    Some(self.id.text())
                } else {
                    None
                },
            }
        }
    }

    /// The node with the identity `id`: the node itself, or the first below
    /// it.
    pub open spec fn located(self, id: Seq<char>) -> Option<NodeView>
        decreases self,
    {
        if self.id.text() == id {
            Some(self)
        } else {
            first_located(self.children, id, 0)
        }
    }

    /// The identities of the nodes that take keys: the inputs of the tree,
    /// in order.
    pub open spec fn key_targets(self) -> Seq<Seq<char>>
        decreases self,
    {
        match self.kind {
            NodeKind::Container => inputs_through(self.children, self.children.len() as int),
            NodeKind::TextInput => seq![self.id.text()],
            _ => Seq::empty(),
        }
    }
}

/// The hits of a node, by its kind.
pub proof fn lemma_hits(v: NodeView, mouse_event: MouseEvent)
    ensures
        v.hits(mouse_event) == match v.kind {
            NodeKind::TextRun => Seq::empty(),
            NodeKind::Container => hits_through(v.children, mouse_event, v.children.len() as int)
                + v.own_hit(mouse_event),
            _ => v.own_hit(mouse_event),
        },
{
    reveal_with_fuel(NodeView::hits, 2);
}

/// The box that takes a wheel movement, in a node or below it.
pub proof fn lemma_scroll_target(v: NodeView, point: (i32, i32))
    ensures
        v.scroll_target(point) == if v.kind == NodeKind::TextRun {
            None
        } else {
            match first_target(v.children, point, 0) {
                Some(t) => Some(t),
                None => if v.overflow.1 && point_in_rect(point, v.pos, v.draw_dim) {
                    Some(v.id.text())
                } else {
                    None
                },
            }
        },
{
    reveal_with_fuel(NodeView::scroll_target, 2);
}

/// The node with an identity, a node or one below it.
pub proof fn lemma_located(v: NodeView, id: Seq<char>)
    ensures
        v.located(id) == if v.id.text() == id {
            Some(v)
        } else {
            first_located(v.children, id, 0)
        },
{
    reveal_with_fuel(NodeView::located, 2);
}

/// The inputs of a node, by its kind.
pub proof fn lemma_key_targets(v: NodeView)
    ensures
        v.key_targets() == match v.kind {
            NodeKind::Container => inputs_through(v.children, v.children.len() as int),
            NodeKind::TextInput => seq![v.id.text()],
            _ => Seq::empty(),
        },
{
    reveal_with_fuel(NodeView::key_targets, 2);
}

/// The hits of a list, one node further.
pub proof fn lemma_hits_step(children: Seq<NodeView>, mouse_event: MouseEvent, k: int)
    requires
        0 <= k < children.len(),
    ensures
        hits_through(children, mouse_event, 0) == Seq::<Seq<char>>::empty(),
        hits_through(children, mouse_event, k + 1) == hits_through(children, mouse_event, k)
            + children[k].hits(mouse_event),
{
    reveal_with_fuel(hits_through, 2);
}

/// The inputs of a list, one node further.
pub proof fn lemma_inputs_step(children: Seq<NodeView>, k: int)
    requires
        0 <= k < children.len(),
    ensures
        inputs_through(children, 0) == Seq::<Seq<char>>::empty(),
        inputs_through(children, k + 1) == inputs_through(children, k) + children[k].key_targets(),
{
    reveal_with_fuel(inputs_through, 2);
}

/// The search for a scroll target, one node further.
pub proof fn lemma_target_step(children: Seq<NodeView>, point: (i32, i32), k: int)
    requires
        0 <= k < children.len(),
    ensures
        first_target(children, point, k) == match children[k].scroll_target(point) {
            Some(t) => Some(t),
            None => first_target(children, point, k + 1),
        },
        first_target(children, point, children.len() as int) is None,
{
    reveal_with_fuel(first_target, 2);
}

/// The search for an identity, one node further.
pub proof fn lemma_located_step(children: Seq<NodeView>, id: Seq<char>, k: int)
    requires
        0 <= k < children.len(),
    ensures
        first_located(children, id, k) == match children[k].located(id) {
            Some(node) => Some(node),
            None => first_located(children, id, k + 1),
        },
        first_located(children, id, children.len() as int) is None,
{
    reveal_with_fuel(first_located, 2);
}

/// The hits of a node of a list are part of the hits of the list, in one
/// piece, behind the hits of the nodes before it.
proof fn lemma_hits_hold(children: Seq<NodeView>, mouse_event: MouseEvent, i: int, n: int)
    requires
        0 <= i < n <= children.len(),
    ensures
        hits_through(children, mouse_event, n).len() >= hits_through(children, mouse_event, i).len()
            + children[i].hits(mouse_event).len(),
        forall|k: int|
            0 <= k < children[i].hits(mouse_event).len() ==> hits_through(children, mouse_event, n)[hits_through(
                children,
                mouse_event,
                i,
            ).len() + k] == #[trigger] children[i].hits(mouse_event)[k],
    decreases n - i,
{
    lemma_hits_step(children, mouse_event, n - 1);
    if n > i + 1 {
        lemma_hits_hold(children, mouse_event, i, n - 1);
    }
}

/// Hit-test ordering: where a click lands on a container and on a child of
/// it that reports clicks, the list of hits names the child before the
/// container, which comes last.
pub proof fn lemma_child_hit_first(v: NodeView, i: int, mouse_event: MouseEvent)
    requires
        v.kind == NodeKind::Container,
        0 <= i < v.children.len(),
        v.children[i].kind != NodeKind::TextRun,
        v.is_hit(mouse_event),
        v.children[i].is_hit(mouse_event),
    ensures
        v.hits(mouse_event).len() >= 2,
        v.hits(mouse_event).last() == v.id.text(),
        exists|a: int|
            0 <= a < v.hits(mouse_event).len() - 1 && #[trigger] v.hits(mouse_event)[a]
                == v.children[i].id.text(),
{
    let child = v.children[i];
    let n = v.children.len() as int;
    lemma_hits(v, mouse_event);
    lemma_hits(child, mouse_event);
    let inner = child.hits(mouse_event);
    assert(inner.len() > 0 && inner.last() == child.id.text());
    lemma_hits_hold(v.children, mouse_event, i, n);
    let below = hits_through(v.children, mouse_event, n);
    let a = hits_through(v.children, mouse_event, i).len() + inner.len() - 1;
    assert(below[a] == inner[inner.len() - 1]);
    assert(v.hits(mouse_event)[a] == child.id.text());
}

impl Layout {
    /// Adds the nodes that a click hits, innermost first, to `hits`.
    pub fn hits_into(&self, mouse_event: MouseEvent, hits: &mut Vec<String>)
        ensures
            final(hits).deep_view() == old(hits).deep_view() + self@.hits(mouse_event),
        decreases self, 0int,
    {
        let ghost kids = self@.children;
        let ghost held = hits.deep_view();
        proof {
            lemma_layout_view(*self);
            lemma_views_of(self.children@);
            lemma_hits(self@, mouse_event);
            reveal_with_fuel(hits_through, 2);
            assert(held + hits_through(kids, mouse_event, 0) =~= held);
        }
        let mut i: usize = 0;
        while i < self.children.len()
            invariant
                i <= self.children.len(),
                kids == views_of(self.children@),
                kids.len() == self.children.len(),
                hits.deep_view() == held + hits_through(kids, mouse_event, i as int),
            decreases self.children.len() - i,
        {
            proof {
                lemma_views_of(self.children@);
                assert(kids[i as int] == self.children@[i as int]@);
                lemma_hits_step(kids, mouse_event, i as int);
                assert(decreases_to!(self.children => self.children[i as int]));
            }
            self.children[i].hits_into(mouse_event, hits);
            assert(hits.deep_view() =~= held + hits_through(kids, mouse_event, i as int + 1));
            i += 1;
        }
        if mouse_event.left_button_down && rect_contains(mouse_event.pos, self.pos, self.draw_dim) {
            let ghost before = hits.deep_view();
            let id = self.dbg_name.text();
            hits.push(id);
            assert(hits.deep_view() =~= before.push(id@));
            assert(hits.deep_view() =~= held + self@.hits(mouse_event));
        } else {
            assert(hits.deep_view() =~= held + self@.hits(mouse_event));
        }
    }

    /// The nodes that a click hits, innermost first.
    pub fn get_mouse_event_handlers(&self, mouse_event: MouseEvent) -> (hits: Vec<String>)
        ensures
            hits.deep_view() == self@.hits(mouse_event),
    {
        let mut hits: Vec<String> = Vec::new();
        assert(hits.deep_view() =~= Seq::<Seq<char>>::empty());
        self.hits_into(mouse_event, &mut hits);
        assert(hits.deep_view() =~= self@.hits(mouse_event));
        hits
    }

    /// The first of the children, or below them, that takes a wheel
    /// movement.
    fn child_scroll_target(&self, scroll_event: ScrollEvent) -> (r: Option<String>)
        ensures
            match r {
                Some(id) => first_target(self@.children, scroll_event.pos, 0) == Some(id@),
                None => first_target(self@.children, scroll_event.pos, 0) is None,
            },
        decreases self, 0int,
    {
        let ghost kids = self@.children;
        proof {
            lemma_layout_view(*self);
            lemma_views_of(self.children@);
        }
        let mut i: usize = 0;
        while i < self.children.len()
            invariant
                i <= self.children.len(),
                kids == views_of(self.children@),
                kids.len() == self.children.len(),
                first_target(kids, scroll_event.pos, 0) == first_target(kids, scroll_event.pos, i as int),
            decreases self.children.len() - i,
        {
            proof {
                lemma_views_of(self.children@);
                assert(kids[i as int] == self.children@[i as int]@);
                lemma_target_step(kids, scroll_event.pos, i as int);
                assert(decreases_to!(self.children => self.children[i as int]));
            }
            if let Some(id) = self.children[i].get_scroll_event_handler(scroll_event) {
                return Some(id);
            }
            i += 1;
        }
        proof {
            reveal_with_fuel(first_target, 2);
        }
        None
    }

    /// The box, in the container or below it, that takes a wheel movement.
    pub fn get_scroll_event_handler(&self, scroll_event: ScrollEvent) -> (r: Option<String>)
        ensures
            match r {
                Some(id) => self@.scroll_target(scroll_event.pos) == Some(id@),
                None => self@.scroll_target(scroll_event.pos) is None,
            },
        decreases self, 1int,
    {
        proof {
            lemma_layout_view(*self);
            lemma_scroll_target(self@, scroll_event.pos);
        }
        if let Some(id) = self.child_scroll_target(scroll_event) {
            return Some(id);
        }
        if self.overflow.1 && rect_contains(scroll_event.pos, self.pos, self.draw_dim) {
            Some(self.dbg_name.text())
        } else {
            None
        }
    }

    /// The first node below the container with the identity `id`.
    pub fn get_by_id<'a>(&'a self, id: &str) -> (r: Option<&'a Component>)
        ensures
            match r {
                Some(node) => first_located(self@.children, id@, 0) == Some(node@),
                None => first_located(self@.children, id@, 0) is None,
            },
        decreases self, 0int,
    {
        let ghost kids = self@.children;
        proof {
            lemma_layout_view(*self);
            lemma_views_of(self.children@);
        }
        let mut i: usize = 0;
        while i < self.children.len()
            invariant
                i <= self.children.len(),
                kids == views_of(self.children@),
                kids.len() == self.children.len(),
                first_located(kids, id@, 0) == first_located(kids, id@, i as int),
            decreases self.children.len() - i,
        {
            proof {
                lemma_views_of(self.children@);
                assert(kids[i as int] == self.children@[i as int]@);
                lemma_located_step(kids, id@, i as int);
                assert(decreases_to!(self.children => self.children[i as int]));
            }
            if let Some(node) = self.children[i].locate(id) {
                return Some(node);
            }
            i += 1;
        }
        proof {
            reveal_with_fuel(first_located, 2);
        }
        None
    }

    /// Adds the inputs of the container, in order, to `targets`.
    pub fn key_targets_into(&self, targets: &mut Vec<String>)
        ensures
            final(targets).deep_view() == old(targets).deep_view() + self@.key_targets(),
        decreases self, 0int,
    {
        let ghost kids = self@.children;
        let ghost held = targets.deep_view();
        proof {
            lemma_layout_view(*self);
            lemma_views_of(self.children@);
            lemma_key_targets(self@);
            reveal_with_fuel(inputs_through, 2);
            assert(held + inputs_through(kids, 0) =~= held);
        }
        let mut i: usize = 0;
        while i < self.children.len()
            invariant
                i <= self.children.len(),
                kids == views_of(self.children@),
                kids.len() == self.children.len(),
                targets.deep_view() == held + inputs_through(kids, i as int),
            decreases self.children.len() - i,
        {
            proof {
                lemma_views_of(self.children@);
                assert(kids[i as int] == self.children@[i as int]@);
                lemma_inputs_step(kids, i as int);
                assert(decreases_to!(self.children => self.children[i as int]));
            }
            self.children[i].key_targets_into(targets);
            assert(targets.deep_view() =~= held + inputs_through(kids, i as int + 1));
            i += 1;
        }
    }
}

impl Component {
    /// Adds the nodes that a click hits, innermost first, to `hits`.
    pub fn hits_into(&self, mouse_event: MouseEvent, hits: &mut Vec<String>)
        ensures
            final(hits).deep_view() == old(hits).deep_view() + self@.hits(mouse_event),
        decreases self, 1int,
    {
        proof {
            lemma_view(*self);
            lemma_hits(self@, mouse_event);
        }
        let ghost held = hits.deep_view();
        match self {
            Component::Layout(layout) => {
                layout.hits_into(mouse_event, hits);
            },
            Component::RawText(_) => {
                assert(held =~= held + self@.hits(mouse_event));
            },
            _ => {
                if mouse_event.left_button_down && rect_contains(
                    mouse_event.pos,
                    self.get_draw_pos(),
                    self.get_draw_dim(),
                ) {
                    let id = self.get_id();
                    hits.push(id);
                    assert(hits.deep_view() =~= held.push(id@));
                    assert(hits.deep_view() =~= held + self@.hits(mouse_event));
                } else {
                    assert(held =~= held + self@.hits(mouse_event));
                }
            },
        }
    }

    /// The nodes that a click hits, innermost first.
    pub fn get_mouse_event_handlers(&self, mouse_event: MouseEvent) -> (hits: Vec<String>)
        ensures
            hits.deep_view() == self@.hits(mouse_event),
    {
        let mut hits: Vec<String> = Vec::new();
        assert(hits.deep_view() =~= Seq::<Seq<char>>::empty());
        self.hits_into(mouse_event, &mut hits);
        assert(hits.deep_view() =~= self@.hits(mouse_event));
        hits
    }

    /// The box, the node or below it, that takes a wheel movement.
    pub fn get_scroll_event_handler(&self, scroll_event: ScrollEvent) -> (r: Option<String>)
        ensures
            match r {
                Some(id) => self@.scroll_target(scroll_event.pos) == Some(id@),
                None => self@.scroll_target(scroll_event.pos) is None,
            },
        decreases self, 2int,
    {
        proof {
            lemma_view(*self);
            lemma_scroll_target(self@, scroll_event.pos);
        }
        match self {
            Component::Layout(layout) => layout.get_scroll_event_handler(scroll_event),
            Component::RawText(_) => None,
            Component::TextLayout(label) => {
                proof {
                    lemma_scroll_target(label.layout@, scroll_event.pos);
                }
                label.layout.get_scroll_event_handler(scroll_event)
            },
            Component::TextInput(input) => {
                proof {
                    lemma_scroll_target(input.layout@, scroll_event.pos);
                }
                input.layout.get_scroll_event_handler(scroll_event)
            },
        }
    }

    /// The first node below this one with the identity `id`.
    pub fn get_by_id<'a>(&'a self, id: &str) -> (r: Option<&'a Component>)
        ensures
            match r {
                Some(node) => first_located(self@.children, id@, 0) == Some(node@),
                None => first_located(self@.children, id@, 0) is None,
            },
        decreases self, 1int,
    {
        proof {
            lemma_view(*self);
        }
        match self {
            Component::Layout(layout) => layout.get_by_id(id),
            Component::RawText(_) => {
                proof {
                    reveal_with_fuel(first_located, 2);
                }
                None
            },
            Component::TextLayout(label) => label.layout.get_by_id(id),
            Component::TextInput(input) => input.layout.get_by_id(id),
        }
    }

    /// The node with the identity `id`: this one, or the first below it.
    pub fn locate<'a>(&'a self, id: &str) -> (r: Option<&'a Component>)
        ensures
            match r {
                Some(node) => self@.located(id@) == Some(node@),
                None => self@.located(id@) is None,
            },
        decreases self, 2int,
    {
        proof {
            lemma_located(self@, id@);
        }
        if self.has_id(id) {
            Some(self)
        } else {
            self.get_by_id(id)
        }
    }

    /// Adds the inputs of the subtree, in order, to `targets`.
    pub fn key_targets_into(&self, targets: &mut Vec<String>)
        ensures
            final(targets).deep_view() == old(targets).deep_view() + self@.key_targets(),
        decreases self, 1int,
    {
        proof {
            lemma_view(*self);
            lemma_key_targets(self@);
        }
        let ghost held = targets.deep_view();
        match self {
            Component::Layout(layout) => {
                layout.key_targets_into(targets);
            },
            Component::TextInput(input) => {
                let id = input.layout.dbg_name.text();
                proof {
                    lemma_layout_view(input.layout);
                }
                targets.push(id);
                assert(targets.deep_view() =~= held.push(id@));
                assert(targets.deep_view() =~= held + self@.key_targets());
            },
            _ => {
                assert(held =~= held + self@.key_targets());
            },
        }
    }

    /// The nodes that take keys: the inputs of the subtree, in order.
    pub fn get_key_event_handlers(&self) -> (targets: Vec<String>)
        ensures
            targets.deep_view() == self@.key_targets(),
    {
        let mut targets: Vec<String> = Vec::new();
        assert(targets.deep_view() =~= Seq::<Seq<char>>::empty());
        self.key_targets_into(&mut targets);
        assert(targets.deep_view() =~= self@.key_targets());
        targets
    }
}

/// The index of the first node, from node `k` of a list on, that has the
/// identity `id` or holds a node that has it.
pub open spec fn first_holder(children: Seq<NodeView>, id: Seq<char>, k: int) -> Option<int>
    decreases children.len() - k,
{
    if k < 0 || k >= children.len() {
        None
    } else if children[k].located(id) is Some {
        Some(k)
    } else {
        first_holder(children, id, k + 1)
    }
}

impl NodeView {
    /// The node after a key event has reached it: an input without a key
    /// handler of its own has its text edited by the default reducer; any
    /// other node stays as it is.
    pub open spec fn key_applied(self, key_event: KeyEvent) -> NodeView {
        if self.kind == NodeKind::TextInput && self.def_on_key is None {
            NodeView { content: text_after_key(key_event, self.content), ..self }
        } else {
            self
        }
    }

    /// The tree after a key event has been sent to the node with the
    /// identity `id`: the node itself, or the first below it.
    pub open spec fn keyed(self, id: Seq<char>, key_event: KeyEvent) -> NodeView
        decreases self,
    {
        if self.id.text() == id {
            self.key_applied(key_event)
        } else {
            NodeView {
                children: Seq::new(
                    self.children.len(),
                    |i: int|
                        if 0 <= i < self.children.len() && first_holder(self.children, id, 0) == Some(i) {
                            self.children[i].keyed(id, key_event)
                        } else {
                            self.children[i]
                        },
                ),
                ..self
            }
        }
    }
}

/// How a key event goes down a tree.
pub proof fn lemma_keyed(v: NodeView, id: Seq<char>, key_event: KeyEvent)
    ensures
        v.id.text() == id ==> v.keyed(id, key_event) == v.key_applied(key_event),
        v.id.text() != id ==> {
            let after = v.keyed(id, key_event);
            &&& after == (NodeView { children: after.children, ..v })
            &&& after.children.len() == v.children.len()
            &&& forall|i: int|
                0 <= i < v.children.len() ==> #[trigger] after.children[i] == if first_holder(
                    v.children,
                    id,
                    0,
                ) == Some(i) {
                    v.children[i].keyed(id, key_event)
                } else {
                    v.children[i]
                }
        },
{
    reveal_with_fuel(NodeView::keyed, 2);
}

/// A list holds a node with an identity where one of its nodes does.
proof fn lemma_holder_is_located(children: Seq<NodeView>, id: Seq<char>, k: int)
    requires
        0 <= k <= children.len(),
    ensures
        first_holder(children, id, k) is Some <==> first_located(children, id, k) is Some,
        first_holder(children, id, k) matches Some(i) ==> k <= i < children.len(),
    decreases children.len() - k,
{
    reveal_with_fuel(first_located, 2);
    if k < children.len() {
        lemma_holder_is_located(children, id, k + 1);
    }
}

/// A key event that reaches no node leaves the tree as it is.
pub proof fn lemma_keyed_absent(v: NodeView, id: Seq<char>, key_event: KeyEvent)
    requires
        v.located(id) is None,
    ensures
        v.keyed(id, key_event) == v,
{
    lemma_keyed(v, id, key_event);
    lemma_located(v, id);
    lemma_holder_is_located(v.children, id, 0);
    assert(v.keyed(id, key_event).children =~= v.children);
}

impl Layout {
    /// Sends a key event to the first node below the container that has the
    /// identity `id`.  The result says whether there is such a node.
    pub fn apply_key_below(&mut self, id: &str, key_event: KeyEvent) -> (found: bool)
        ensures
            found == (first_located(old(self)@.children, id@, 0) is Some),
            final(self)@ == (NodeView {
                children: Seq::new(
                    old(self)@.children.len(),
                    |i: int|
                        if 0 <= i < old(self)@.children.len() && first_holder(
                            old(self)@.children,
                            id@,
                            0,
                        ) == Some(i) {
                            old(self)@.children[i].keyed(id@, key_event)
                        } else {
                            old(self)@.children[i]
                        },
                ),
                ..old(self)@
            }),
        decreases *old(self), 0int,
    {
        let ghost start = *self;
        let ghost kids = self@.children;
        proof {
            lemma_layout_view(*self);
            lemma_views_of(self.children@);
            lemma_holder_is_located(kids, id@, 0);
        }
        let n = self.children.len();
        let mut i: usize = 0;
        while i < n
            invariant
                i <= n,
                n == start.children@.len(),
                start == *old(self),
                *self == (Layout { children: self.children, ..start }),
                self.children@.len() == n,
                kids == views_of(start.children@),
                kids.len() == n,
                first_holder(kids, id@, 0) == first_holder(kids, id@, i as int),
                first_located(kids, id@, 0) is Some <==> first_located(kids, id@, i as int) is Some,
                forall|j: int| i <= j < n ==> self.children@[j] == start.children@[j],
                forall|j: int| 0 <= j < i ==> (#[trigger] self.children@[j])@ == kids[j],
            decreases n - i,
        {
            proof {
                lemma_views_of(start.children@);
                assert(self.children@[i as int] == start.children@[i as int]);
                assert(kids[i as int] == self.children@[i as int]@);
                assert(decreases_to!(old(self).children => old(self).children[i as int]));
                lemma_located_step(kids, id@, i as int);
                if kids[i as int].located(id@) is None {
                    lemma_keyed_absent(kids[i as int], id@, key_event);
                }
            }
            if self.children[i].apply_key(id, key_event) {
                proof {
                    lemma_layout_view(*self);
                    lemma_views_of(self.children@);
                    assert(first_holder(kids, id@, 0) == Some(i as int));
                    assert(self@.children =~= Seq::new(
                        kids.len(),
                        |k: int|
                            if 0 <= k < kids.len() && first_holder(kids, id@, 0) == Some(k) {
                                kids[k].keyed(id@, key_event)
                            } else {
                                kids[k]
                            },
                    ));
                }
                return true;
            }
            i += 1;
        }
        proof {
            lemma_layout_view(*self);
            lemma_views_of(self.children@);
            lemma_holder_is_located(kids, id@, n as int);
            reveal_with_fuel(first_located, 2);
            assert(first_holder(kids, id@, 0) is None);
            assert(self@.children =~= Seq::new(
                kids.len(),
                |k: int|
                    if 0 <= k < kids.len() && first_holder(kids, id@, 0) == Some(k) {
                        kids[k].keyed(id@, key_event)
                    } else {
                        kids[k]
                    },
            ));
        }
        false
    }
}

impl Component {
    /// Sends a key event to the node with the identity `id`: this node, or
    /// the first below it.  An input without a key handler of its own has
    /// its text edited.  The result says whether there is such a node.
    pub fn apply_key(&mut self, id: &str, key_event: KeyEvent) -> (found: bool)
        ensures
            found == (old(self)@.located(id@) is Some),
            final(self)@ == old(self)@.keyed(id@, key_event),
        decreases *old(self), 1int,
    {
        proof {
            lemma_view(*self);
            lemma_keyed(self@, id@, key_event);
            lemma_located(self@, id@);
        }
        if self.has_id(id) {
            if let Component::TextInput(input) = self {
                if input.def_on_key.is_none() {
                    let _ = def_key_handler(key_event, &mut input.content);
                }
            }
            proof {
                lemma_view(*self);
            }
            true
        } else {
            let found = match self {
                Component::Layout(layout) => layout.apply_key_below(id, key_event),
                Component::RawText(_) => {
                    proof {
                        reveal_with_fuel(first_located, 2);
                    }
                    false
                },
                Component::TextLayout(label) => label.layout.apply_key_below(id, key_event),
                Component::TextInput(input) => input.layout.apply_key_below(id, key_event),
            };
            proof {
                lemma_view(*self);
                assert(self@.children =~= old(self)@.keyed(id@, key_event).children);
            }
            found
        }
    }

    /// The key handler of an input, as the application numbers it.  Any
    /// other node has none.
    pub fn get_on_key(&self) -> (r: Option<usize>)
        ensures
            r == self@.def_on_key,
    {
        proof {
            lemma_view(*self);
        }
        match self {
            Component::TextInput(input) => input.def_on_key,
            _ => None,
        }
    }
}

} // verus!
