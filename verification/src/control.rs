//! The widget tree: a closed set of widget kinds under one dispatching
//! type, with the preorder indexing scheme that gives every node its
//! per-frame identity.

use vstd::prelude::*;

use crate::control::radio::Radio;
use crate::buffer::grid_of;
use crate::buffer::Buffer;
use crate::cmd::Cmd;
use crate::event::Event;
use crate::event::Msg;
use crate::layout::LayoutTree;
use crate::layout::Rect;
use crate::style::Style;
use crate::style::StyleNode;
use crate::widget::button::Button;
use crate::widget::checkbox::Checkbox;
use crate::widget::flex_box::FlexBox;
use crate::widget::list_box::ListBox;
use crate::widget::slider::Slider;
use crate::widget::text_input::TextInput;

pub mod radio;

verus! {

/// One widget of any kind.  Only a flex container owns children.
#[derive(Debug)]
pub enum Control {
    Button(Button),
    Checkbox(Checkbox),
    Radio(Radio),
    TextInput(TextInput),
    Slider(Slider),
    ListBox(ListBox),
    FlexBox(FlexBox),
}

/// The local content of one node, as mathematical values: everything a
/// node holds except the children of a container, whose own content sits
/// at their own preorder positions.
pub enum NodeView {
    Button { label: Seq<char>, rounded: bool, width: Option<usize>, height: Option<usize> },
    Checkbox { label: Seq<char>, checked: bool, id: Option<Seq<char>> },
    Radio { label: Seq<char>, checked: bool },
    TextInput {
        content: Seq<char>,
        cursor: int,
        rounded: bool,
        focused: bool,
        width: Option<usize>,
        height: Option<usize>,
    },
    Slider { value: u16, width: Option<usize>, id: Option<Seq<char>>, thick: bool },
    ListBox {
        items: Seq<Seq<char>>,
        width: Option<usize>,
        height: Option<usize>,
        divider: bool,
        id: Option<Seq<char>>,
    },
    FlexBox {
        direction: crate::style::FlexDirection,
        width: Option<usize>,
        height: Option<usize>,
        arity: int,
    },
}

/// The view of an optional identifier.
pub open spec fn opt_str_view(o: Option<String>) -> Option<Seq<char>> {
    match o {
        Some(s) => Some(s@),
        None => None,
    }
}

/// The local view of one node.
pub open spec fn view_of(c: Control) -> NodeView {
    match c {
        Control::Button(b) => NodeView::Button {
            label: b.label@,
            rounded: b.is_rounded,
            width: b.width,
            height: b.height,
        },
        Control::Checkbox(b) => NodeView::Checkbox {
            label: b.label@,
            checked: b.is_checked,
            id: opt_str_view(b.id),
        },
        Control::Radio(r) => NodeView::Radio { label: r.label@, checked: r.is_checked },
        Control::TextInput(t) => NodeView::TextInput {
            content: t.input_buffer.content@,
            cursor: t.input_buffer.cursor as int,
            rounded: t.is_rounded,
            focused: t.focused,
            width: t.width,
            height: t.height,
        },
        Control::Slider(s) => NodeView::Slider {
            value: s.value,
            width: s.width,
            id: opt_str_view(s.id),
            thick: s.use_thick_track,
        },
        Control::ListBox(l) => NodeView::ListBox {
            items: l.list@.map_values(|s: String| s@),
            width: l.width,
            height: l.height,
            divider: l.use_divider,
            id: opt_str_view(l.id),
        },
        Control::FlexBox(f) => NodeView::FlexBox {
            direction: f.flex_direction,
            width: f.width,
            height: f.height,
            arity: f.children@.len() as int,
        },
    }
}

/// Whether a node can hold the input focus.
pub open spec fn view_focusable(v: NodeView) -> bool {
    v is TextInput
}

/// Whether a node holds the input focus.
pub open spec fn view_focused(v: NodeView) -> bool {
    match v {
        NodeView::TextInput { focused, .. } => focused,
        _ => false,
    }
}

/// The view after focus is granted or taken: only a focusable node
/// changes.
pub open spec fn set_focus_view(v: NodeView, f: bool) -> NodeView {
    match v {
        NodeView::TextInput { content, cursor, rounded, focused, width, height } => {
            NodeView::TextInput { content, cursor, rounded, focused: f, width, height }
        },
        _ => v,
    }
}

/// How many nodes the tree holds.
pub open spec fn node_count(c: Control) -> nat
    decreases c,
{
    match c {
        Control::FlexBox(f) => 1 + node_count_seq(f.children@),
        _ => 1,
    }
}

/// How many nodes the forest holds.
pub open spec fn node_count_seq(cs: Seq<Control>) -> nat
    decreases cs,
{
    if cs.len() == 0 {
        0
    } else {
        node_count(cs[0]) + node_count_seq(cs.drop_first())
    }
}

/// The node at preorder position `i`: the node itself at 0, then each
/// child subtree in order.
pub open spec fn node_at(c: Control, i: int) -> Control
    decreases c,
{
    if i <= 0 {
        c
    } else {
        match c {
            Control::FlexBox(f) => node_at_seq(f.children@, i - 1),
            _ => arbitrary(),
        }
    }
}

/// The node at position `i` of the forest, counting preorder through
/// each tree in turn.
pub open spec fn node_at_seq(cs: Seq<Control>, i: int) -> Control
    decreases cs,
{
    if cs.len() == 0 {
        arbitrary()
    } else if i < node_count(cs[0]) {
        node_at(cs[0], i)
    } else {
        node_at_seq(cs.drop_first(), i - node_count(cs[0]))
    }
}

/// The whole tree flattened by one parent-before-children, left-to-right
/// traversal.
pub open spec fn flatten_nodes(c: Control) -> Seq<Control>
    decreases c,
{
    match c {
        Control::FlexBox(f) => seq![c] + flatten_seq(f.children@),
        _ => seq![c],
    }
}

/// The forest flattened tree by tree.
pub open spec fn flatten_seq(cs: Seq<Control>) -> Seq<Control>
    decreases cs,
{
    if cs.len() == 0 {
        Seq::empty()
    } else {
        flatten_nodes(cs[0]) + flatten_seq(cs.drop_first())
    }
}

/// Splitting a forest splits its node count.
pub proof fn lemma_count_split(cs: Seq<Control>, i: int)
    requires
        0 <= i <= cs.len(),
    ensures
        node_count_seq(cs.take(i)) + node_count_seq(cs.skip(i)) == node_count_seq(cs),
    decreases i,
{
    if i == 0 {
        assert(cs.take(0) =~= Seq::<Control>::empty());
        assert(cs.skip(0) =~= cs);
    } else {
        lemma_count_split(cs.drop_first(), i - 1);
        assert(cs.take(i).drop_first() =~= cs.drop_first().take(i - 1));
        assert(cs.skip(i) =~= cs.drop_first().skip(i - 1));
        assert(node_count_seq(cs.take(i)) == node_count(cs[0]) + node_count_seq(
            cs.drop_first().take(i - 1),
        ));
    }
}

/// Extending a forest prefix by one tree adds that tree's node count.
pub proof fn lemma_count_take_snoc(cs: Seq<Control>, i: int)
    requires
        0 <= i < cs.len(),
    ensures
        node_count_seq(cs.take(i + 1)) == node_count_seq(cs.take(i)) + node_count(cs[i]),
    decreases i,
{
    if i == 0 {
        assert(cs.take(1).drop_first() =~= Seq::<Control>::empty());
        assert(cs.take(0) =~= Seq::<Control>::empty());
        assert(cs.take(1)[0] == cs[0]);
    } else {
        lemma_count_take_snoc(cs.drop_first(), i - 1);
        assert(cs.take(i + 1).drop_first() =~= cs.drop_first().take(i));
        assert(cs.take(i).drop_first() =~= cs.drop_first().take(i - 1));
        assert(cs.drop_first()[i - 1] == cs[i]);
    }
}

/// A position past the first `i` trees addresses the rest of the forest.
pub proof fn lemma_node_at_seq_split(cs: Seq<Control>, i: int, j: int)
    requires
        0 <= i <= cs.len(),
        node_count_seq(cs.take(i)) <= j,
    ensures
        node_at_seq(cs, j) == node_at_seq(cs.skip(i), j - node_count_seq(cs.take(i))),
    decreases i,
{
    if i == 0 {
        assert(cs.take(0) =~= Seq::<Control>::empty());
        assert(cs.skip(0) =~= cs);
    } else {
        assert(cs.take(i)[0] == cs[0]);
        assert(cs.take(i).drop_first() =~= cs.drop_first().take(i - 1));
        assert(cs.skip(i) =~= cs.drop_first().skip(i - 1));
        lemma_node_at_seq_split(cs.drop_first(), i - 1, j - node_count(cs[0]));
    }
}

/// A position inside the first `i` trees addresses the prefix alone.
pub proof fn lemma_node_at_seq_prefix(cs: Seq<Control>, i: int, j: int)
    requires
        0 <= i <= cs.len(),
        0 <= j < node_count_seq(cs.take(i)),
    ensures
        node_at_seq(cs, j) == node_at_seq(cs.take(i), j),
    decreases i,
{
    if i > 0 {
        assert(cs.take(i)[0] == cs[0]);
        assert(cs.take(i).drop_first() =~= cs.drop_first().take(i - 1));
        if j < node_count(cs[0]) {
        } else {
            lemma_node_at_seq_prefix(cs.drop_first(), i - 1, j - node_count(cs[0]));
        }
    }
}

/// The flattening holds exactly one entry per node.
pub proof fn lemma_flatten_len(c: Control)
    ensures
        flatten_nodes(c).len() == node_count(c),
    decreases c,
{
    match c {
        Control::FlexBox(f) => {
            lemma_flatten_len_seq(f.children@);
        },
        _ => {},
    }
}

/// The forest version of `lemma_flatten_len`.
pub proof fn lemma_flatten_len_seq(cs: Seq<Control>)
    ensures
        flatten_seq(cs).len() == node_count_seq(cs),
    decreases cs,
{
    if cs.len() > 0 {
        lemma_flatten_len(cs[0]);
        lemma_flatten_len_seq(cs.drop_first());
    }
}

/// The preorder index scheme is one fixed traversal: the node that the
/// index function returns at position `i` is exactly the `i`-th entry of
/// an independent flattening of the tree, so positions `0` up to the
/// node count each name exactly one node.
pub proof fn lemma_node_at_is_flatten(c: Control, i: int)
    requires
        0 <= i < node_count(c),
    ensures
        flatten_nodes(c).len() == node_count(c),
        node_at(c, i) == flatten_nodes(c)[i],
    decreases c,
{
    lemma_flatten_len(c);
    if i > 0 {
        match c {
            Control::FlexBox(f) => {
                lemma_flatten_len_seq(f.children@);
                lemma_node_at_is_flatten_seq(f.children@, i - 1);
            },
            _ => {},
        }
    }
}

/// The forest version of `lemma_node_at_is_flatten`.
pub proof fn lemma_node_at_is_flatten_seq(cs: Seq<Control>, j: int)
    requires
        0 <= j < node_count_seq(cs),
    ensures
        flatten_seq(cs).len() == node_count_seq(cs),
        node_at_seq(cs, j) == flatten_seq(cs)[j],
    decreases cs,
{
    lemma_flatten_len_seq(cs);
    if cs.len() > 0 {
        lemma_flatten_len(cs[0]);
        lemma_flatten_len_seq(cs.drop_first());
        if j < node_count(cs[0]) {
            lemma_node_at_is_flatten(cs[0], j);
        } else {
            lemma_node_at_is_flatten_seq(cs.drop_first(), j - node_count(cs[0]));
        }
    }
}

impl Control {
    /// The ordered children: a container exposes its list, a leaf has
    /// none.
    pub fn children(&self) -> (r: Option<&Vec<Control>>)
        ensures
            match self {
                Control::FlexBox(f) => r matches Some(v) && v@ == f.children@,
                _ => r is None,
            },
    {
        match self {
            Control::FlexBox(f) => Some(&f.children),
            _ => None,
        }
    }

    /// Append a child; only a container accepts one.  Returns whether
    /// the child was taken.
    pub fn add_child(&mut self, child: Control) -> (accepted: bool)
        ensures
            accepted == (*old(self) is FlexBox),
            *old(self) matches Control::FlexBox(f) ==> {
                &&& *final(self) matches Control::FlexBox(g) && g.children@ == f.children@.push(
                    child,
                ) && g.flex_direction == f.flex_direction && g.width == f.width && g.height
                    == f.height
            },
            !(*old(self) is FlexBox) ==> *final(self) == *old(self),
    {
        match self {
            Control::FlexBox(f) => {
                f.children.push(child);
                true
            },
            _ => false,
        }
    }

    /// The layout preferences of this node.
    pub fn style(&self) -> (s: Style)
        ensures
            s == self.spec_style(),
    {
        match self {
            Control::Button(b) => b.style(),
            Control::Checkbox(b) => b.style(),
            Control::Radio(r) => r.style(),
            Control::TextInput(t) => t.style(),
            Control::Slider(s) => s.style(),
            Control::ListBox(l) => l.style(),
            Control::FlexBox(f) => f.style(),
        }
    }

    /// The layout preferences, as a spec value.
    pub open spec fn spec_style(self) -> Style {
        match self {
            Control::Button(b) => b.spec_style(),
            Control::Checkbox(b) => b.spec_style(),
            Control::Radio(r) => r.spec_style(),
            Control::TextInput(t) => t.spec_style(),
            Control::Slider(s) => s.spec_style(),
            Control::ListBox(l) => l.spec_style(),
            Control::FlexBox(f) => f.spec_style(),
        }
    }
}

/// Count the nodes of the widget tree.
pub fn count_nodes(c: &Control) -> (n: usize)
    requires
        node_count(*c) <= usize::MAX,
    ensures
        n == node_count(*c),
    decreases node_count(*c),
{
    match c {
        Control::FlexBox(f) => {
            let ghost cs = f.children@;
            let ghost total = node_count(*c);
            let mut n: usize = 1;
            let k = f.children.len();
            let mut i: usize = 0;
            proof {
                assert(cs.take(0) =~= Seq::<Control>::empty());
            }
            while i < k
                invariant
                    i <= k,
                    k == cs.len(),
                    cs == f.children@,
                    *c == Control::FlexBox(*f),
                    total == 1 + node_count_seq(cs),
                    total <= usize::MAX,
                    n == 1 + node_count_seq(cs.take(i as int)),
                decreases k - i,
            {
                proof {
                    lemma_count_split(cs, i as int);
                    assert(cs.skip(i as int)[0] == cs[i as int]);
                    assert(cs.skip(i as int).drop_first() =~= cs.skip(i as int + 1));
                    lemma_count_take_snoc(cs, i as int);
                    lemma_count_split(cs, i as int + 1);
                    assert(node_count(cs[i as int]) < node_count(*c));
                }
                let cnt = count_nodes(&f.children[i]);
                n = n + cnt;
                i = i + 1;
            }
            proof {
                assert(cs.take(k as int) =~= cs);
            }
            n
        },
        _ => 1,
    }
}

/// The node at preorder position `idx`, found by re-walking the current
/// tree, or nothing when the index is past the node count.
pub fn find_widget(c: &Control, idx: usize) -> (r: Option<&Control>)
    requires
        node_count(*c) <= usize::MAX,
    ensures
        match r {
            Some(w) => idx < node_count(*c) && *w == node_at(*c, idx as int),
            None => idx >= node_count(*c),
        },
    decreases node_count(*c),
{
    if idx == 0 {
        return Some(c);
    }
    match c {
        Control::FlexBox(f) => {
            let ghost cs = f.children@;
            let ghost total = node_count(*c);
            let k = f.children.len();
            let mut rem = idx - 1;
            let mut i: usize = 0;
            proof {
                assert(cs.take(0) =~= Seq::<Control>::empty());
            }
            while i < k
                invariant
                    i <= k,
                    k == cs.len(),
                    cs == f.children@,
                    *c == Control::FlexBox(*f),
                    total == 1 + node_count_seq(cs),
                    total <= usize::MAX,
                    total == node_count(*c),
                    idx >= 1,
                    node_count_seq(cs.take(i as int)) <= idx - 1,
                    rem == idx - 1 - node_count_seq(cs.take(i as int)),
                decreases k - i,
            {
                proof {
                    lemma_count_split(cs, i as int);
                    assert(cs.skip(i as int)[0] == cs[i as int]);
                    assert(cs.skip(i as int).drop_first() =~= cs.skip(i as int + 1));
                    lemma_count_take_snoc(cs, i as int);
                    assert(node_count(cs[i as int]) < node_count(*c));
                }
                let cnt = count_nodes(&f.children[i]);
                if rem < cnt {
                    proof {
                        lemma_node_at_seq_split(cs, i as int, idx - 1);
                        lemma_count_split(cs, i as int + 1);
                    }
                    let r = find_widget(&f.children[i], rem);
                    proof {
                        assert(node_at_seq(cs, idx - 1) == node_at(cs[i as int], rem as int));
                        assert(node_at(*c, idx as int) == node_at_seq(cs, idx - 1));
                        assert(idx - 1 < node_count_seq(cs));
                    }
                    return r;
                }
                rem = rem - cnt;
                i = i + 1;
            }
            proof {
                assert(cs.take(k as int) =~= cs);
            }
            None
        },
        _ => None,
    }
}

/// The preference tree mirrors the widget tree: one node per widget,
/// children in widget order, each node carrying that widget's
/// preferences.
pub open spec fn style_tree_matches(sn: StyleNode, c: Control) -> bool
    decreases c,
{
    &&& sn.style == c.spec_style()
    &&& match c {
        Control::FlexBox(f) => style_trees_match(sn.children@, f.children@),
        _ => sn.children@.len() == 0,
    }
}

/// The forest version of `style_tree_matches`.
pub open spec fn style_trees_match(sns: Seq<StyleNode>, cs: Seq<Control>) -> bool
    decreases cs,
{
    if cs.len() == 0 {
        sns.len() == 0
    } else {
        &&& sns.len() == cs.len()
        &&& style_tree_matches(sns[0], cs[0])
        &&& style_trees_match(sns.drop_first(), cs.drop_first())
    }
}

/// Appending one matching pair keeps two forests matching.
proof fn lemma_style_trees_match_snoc(
    sns: Seq<StyleNode>,
    sn: StyleNode,
    cs: Seq<Control>,
    c: Control,
)
    requires
        style_trees_match(sns, cs),
        style_tree_matches(sn, c),
    ensures
        style_trees_match(sns.push(sn), cs.push(c)),
    decreases cs.len(),
{
    if cs.len() == 0 {
        assert(sns.push(sn)[0] == sn);
        assert(cs.push(c)[0] == c);
        assert(sns.push(sn).drop_first() =~= Seq::<StyleNode>::empty());
        assert(cs.push(c).drop_first() =~= Seq::<Control>::empty());
        assert(style_trees_match(Seq::<StyleNode>::empty(), Seq::<Control>::empty()));
    } else {
        lemma_style_trees_match_snoc(sns.drop_first(), sn, cs.drop_first(), c);
        assert(sns.push(sn)[0] == sns[0]);
        assert(cs.push(c)[0] == cs[0]);
        assert(sns.push(sn).drop_first() =~= sns.drop_first().push(sn));
        assert(cs.push(c).drop_first() =~= cs.drop_first().push(c));
    }
}

/// Build the preference tree the layout solver is fed with: one node per
/// widget, children in widget order, each carrying that widget's
/// preferences, so the solver's answer mirrors the widget tree shape for
/// shape and preorder position for preorder position.
pub fn style_tree(c: &Control) -> (r: StyleNode)
    ensures
        style_tree_matches(r, *c),
    decreases node_count(*c),
{
    let style = c.style();
    match c {
        Control::FlexBox(f) => {
            let ghost cs = f.children@;
            let mut children: Vec<StyleNode> = Vec::new();
            let k = f.children.len();
            let mut i: usize = 0;
            proof {
                assert(cs.take(0) =~= Seq::<Control>::empty());
            }
            while i < k
                invariant
                    i <= k,
                    k == cs.len(),
                    cs == f.children@,
                    *c == Control::FlexBox(*f),
                    children@.len() == i,
                    style_trees_match(children@, cs.take(i as int)),
                decreases k - i,
            {
                proof {
                    lemma_count_split(cs, i as int);
                    assert(cs.skip(i as int)[0] == cs[i as int]);
                    assert(cs.skip(i as int).drop_first() =~= cs.skip(i as int + 1));
                    assert(node_count(cs[i as int]) < node_count(*c));
                }
                let ghost children_pre = children@;
                let sub = style_tree(&f.children[i]);
                children.push(sub);
                proof {
                    lemma_style_trees_match_snoc(
                        children_pre,
                        sub,
                        cs.take(i as int),
                        cs[i as int],
                    );
                    assert(cs.take(i as int + 1) =~= cs.take(i as int).push(cs[i as int]));
                }
                i = i + 1;
            }
            proof {
                assert(cs.take(k as int) =~= cs);
            }
            StyleNode { style, children }
        },
        _ => StyleNode { style, children: Vec::new() },
    }
}


/// Appending one tree to a forest keeps every earlier position and puts
/// the new tree's nodes after them.
pub proof fn lemma_node_at_seq_snoc(ts: Seq<Control>, t: Control, j: int)
    ensures
        node_count_seq(ts.push(t)) == node_count_seq(ts) + node_count(t),
        0 <= j < node_count_seq(ts) ==> node_at_seq(ts.push(t), j) == node_at_seq(ts, j),
        node_count_seq(ts) <= j < node_count_seq(ts) + node_count(t) ==> node_at_seq(
            ts.push(t),
            j,
        ) == node_at(t, j - node_count_seq(ts)),
    decreases ts.len(),
{
    if ts.len() == 0 {
        assert(ts.push(t)[0] == t);
        assert(ts.push(t).drop_first() =~= Seq::<Control>::empty());
        assert(node_count_seq(Seq::<Control>::empty()) == 0);
        assert(node_count_seq(ts.push(t)) == node_count(t) + node_count_seq(
            Seq::<Control>::empty(),
        ));
        assert(node_count_seq(ts) == 0);
    } else {
        lemma_node_at_seq_snoc(ts.drop_first(), t, j - node_count(ts[0]));
        assert(ts.push(t).len() > 0);
        assert(ts.push(t)[0] == ts[0]);
        assert(ts.push(t).drop_first() =~= ts.drop_first().push(t));
        assert(node_count_seq(ts.push(t)) == node_count(ts[0]) + node_count_seq(
            ts.drop_first().push(t),
        ));
        assert(node_count_seq(ts) == node_count(ts[0]) + node_count_seq(ts.drop_first()));
    }
}

/// What `set_focused_node` leaves behind: the same tree shape and local
/// content, with focus cleared everywhere and granted only at position
/// `idx` (and only if that node can take it).
pub open spec fn focus_applied(t0: Control, t1: Control, idx: int) -> bool {
    &&& node_count(t1) == node_count(t0)
    &&& forall|j: int|
        0 <= j < node_count(t0) ==> view_of(#[trigger] node_at(t1, j)) == set_focus_view(
            view_of(node_at(t0, j)),
            j == idx,
        )
}

fn focus_walk(c: Control, base: usize, target: usize) -> (r: Control)
    requires
        base + node_count(c) <= usize::MAX,
    ensures
        node_count(r) == node_count(c),
        forall|j: int|
            0 <= j < node_count(c) ==> view_of(#[trigger] node_at(r, j)) == set_focus_view(
                view_of(node_at(c, j)),
                base + j == target,
            ),
    decreases node_count(c),
{
    let ghost c0 = c;
    match c {
        Control::TextInput(t) => {
            let focused = base == target;
            let r = Control::TextInput(TextInput { focused, ..t });
            proof {
                assert(node_at(r, 0) == r);
                assert(node_at(c0, 0) == c0);
            }
            r
        },
        Control::FlexBox(f) => {
            let FlexBox { children, flex_direction, width, height } = f;
            let ghost cs0 = children@;
            proof {
                assert(node_count(c0) == 1 + node_count_seq(cs0));
                assert(cs0.take(0) =~= Seq::<Control>::empty());
            }
            let mut todo = children;
            let mut done: Vec<Control> = Vec::new();
            let mut b: usize = base + 1;
            while todo.len() > 0
                invariant
                    c == c0,
                    node_count(c0) == 1 + node_count_seq(cs0),
                    done@.len() + todo@.len() == cs0.len(),
                    todo@ == cs0.skip(done@.len() as int),
                    b == base + 1 + node_count_seq(cs0.take(done@.len() as int)),
                    base + 1 + node_count_seq(cs0) <= usize::MAX,
                    node_count_seq(done@) == node_count_seq(cs0.take(done@.len() as int)),
                    forall|j: int|
                        0 <= j < node_count_seq(cs0.take(done@.len() as int)) ==> view_of(
                            #[trigger] node_at_seq(done@, j),
                        ) == set_focus_view(view_of(node_at_seq(cs0, j)), base + 1 + j == target),
                decreases todo@.len(),
            {
                let ghost d = done@.len() as int;
                let ghost done_pre = done@;
                let ch = todo.remove(0);
                proof {
                    assert(ch == cs0[d]);
                    assert(todo@ =~= cs0.skip(d + 1));
                    lemma_count_split(cs0, d);
                    assert(cs0.skip(d)[0] == cs0[d]);
                    assert(cs0.skip(d).drop_first() =~= cs0.skip(d + 1));
                    lemma_count_take_snoc(cs0, d);
                    assert(node_count(cs0[d]) < node_count(c0));
                }
                let cnt = count_nodes(&ch);
                let ch2 = focus_walk(ch, b, target);
                done.push(ch2);
                b = b + cnt;
                proof {
                    assert(done@ == done_pre.push(ch2));
                    assert forall|j: int|
                        0 <= j < node_count_seq(cs0.take(d + 1)) implies view_of(
                        #[trigger] node_at_seq(done@, j),
                    ) == set_focus_view(view_of(node_at_seq(cs0, j)), base + 1 + j == target) by {
                        lemma_node_at_seq_snoc(done_pre, ch2, j);
                        if j < node_count_seq(cs0.take(d)) {
                            lemma_node_at_seq_prefix(cs0, d, j);
                            lemma_node_at_seq_prefix(cs0, d + 1, j);
                        } else {
                            lemma_node_at_seq_split(cs0, d, j);
                        }
                    }
                    lemma_node_at_seq_snoc(done_pre, ch2, 0);
                }
            }
            proof {
                assert(cs0.take(cs0.len() as int) =~= cs0);
            }
            let ghost done_final = done@;
            let r = Control::FlexBox(
                FlexBox { children: done, flex_direction, width, height },
            );
            proof {
                assert(node_count(r) == 1 + node_count_seq(done_final));
                assert(view_of(node_at(r, 0)) == set_focus_view(
                    view_of(node_at(c0, 0)),
                    base + 0 == target,
                ));
                assert forall|j: int|
                    0 < j < node_count(c0) implies view_of(#[trigger] node_at(r, j))
                    == set_focus_view(view_of(node_at(c0, j)), base + j == target) by {
                    assert(node_at(r, j) == node_at_seq(done_final, j - 1));
                    assert(node_at(c0, j) == node_at_seq(cs0, j - 1));
                }
            }
            r
        },
        _ => {
            proof {
                assert(node_at(c0, 0) == c0);
            }
            c
        },
    }
}

/// Relies on `core::mem::replace`: it hands back what `dest` held and
/// leaves `src` in its place.
#[verifier::external_body]
fn replace_control(dest: &mut Control, src: Control) -> (r: Control)
    ensures
        r == *old(dest),
        *final(dest) == src,
{
    core::mem::replace(dest, src)
}

/// Walk the tree clearing focus everywhere, then grant it to the node at
/// preorder position `idx` (a position past the tree is a clear alone).
/// The clear-then-set discipline keeps at most one node focused.
pub fn set_focused_node(root: &mut Control, idx: usize)
    requires
        node_count(*old(root)) <= usize::MAX,
    ensures
        focus_applied(*old(root), *final(root), idx as int),
{
    let owned = replace_control(
        root,
        Control::Radio(Radio { label: String::new(), is_checked: false }),
    );
    let updated = focus_walk(owned, 0, idx);
    let _ = replace_control(root, updated);
}

/// One proof step: granting focus is absorbing on the focus flag.
pub proof fn lemma_set_focus_view_idempotent(v: NodeView, f: bool)
    ensures
        set_focus_view(set_focus_view(v, f), f) == set_focus_view(v, f),
{
}

/// Granting focus keeps the node kind, so focusability is preserved.
pub proof fn lemma_set_focus_view_keeps_kind(v: NodeView, f: bool)
    ensures
        view_focusable(set_focus_view(v, f)) == view_focusable(v),
        view_focused(set_focus_view(v, f)) == (view_focusable(v) && f),
{
}

/// Setting the focus to node `i` and then to a different node `j` leaves
/// node `i` unfocused; node `j` is focused whenever it can take focus.
pub proof fn lemma_focus_switch(t0: Control, t1: Control, t2: Control, i: int, j: int)
    requires
        focus_applied(t0, t1, i),
        focus_applied(t1, t2, j),
        0 <= i < node_count(t0),
        0 <= j < node_count(t0),
        i != j,
    ensures
        !view_focused(view_of(node_at(t2, i))),
        view_focusable(view_of(node_at(t0, j))) ==> view_focused(view_of(node_at(t2, j))),
{
    lemma_set_focus_view_keeps_kind(view_of(node_at(t0, i)), true);
    lemma_set_focus_view_keeps_kind(view_of(node_at(t1, i)), false);
    lemma_set_focus_view_keeps_kind(view_of(node_at(t0, j)), false);
    lemma_set_focus_view_keeps_kind(view_of(node_at(t1, j)), true);
}

/// Setting the focus twice to the same node changes nothing the second
/// time.
pub proof fn lemma_focus_idempotent(t0: Control, t1: Control, t2: Control, i: int)
    requires
        focus_applied(t0, t1, i),
        focus_applied(t1, t2, i),
    ensures
        node_count(t2) == node_count(t1),
        forall|j: int|
            0 <= j < node_count(t1) ==> view_of(#[trigger] node_at(t2, j)) == view_of(
                node_at(t1, j),
            ),
{
    assert forall|j: int|
        0 <= j < node_count(t1) implies view_of(#[trigger] node_at(t2, j)) == view_of(
        node_at(t1, j),
    ) by {
        lemma_set_focus_view_idempotent(view_of(node_at(t0, j)), j == i);
    }
}

/// At most one node is focused after `set_focused_node`, whatever the
/// tree held before.
pub proof fn lemma_focus_exclusive(t0: Control, t1: Control, i: int)
    requires
        focus_applied(t0, t1, i),
    ensures
        forall|j: int|
            0 <= j < node_count(t1) && j != i ==> !view_focused(
                view_of(#[trigger] node_at(t1, j)),
            ),
{
    assert forall|j: int|
        0 <= j < node_count(t1) && j != i implies !view_focused(
        view_of(#[trigger] node_at(t1, j)),
    ) by {
        lemma_set_focus_view_keeps_kind(view_of(node_at(t0, j)), false);
    }
}


/// A node's local well-formedness: an edit cursor stays inside its text,
/// a slider value inside its track.
pub open spec fn node_wf(v: NodeView) -> bool {
    match v {
        NodeView::TextInput { content, cursor, .. } => 0 <= cursor <= content.len(),
        NodeView::Slider { value, .. } => value <= 1000,
        _ => true,
    }
}

/// Every node of the tree is well formed.
pub open spec fn tree_wf(c: Control) -> bool {
    forall|j: int| 0 <= j < node_count(c) ==> node_wf(view_of(#[trigger] node_at(c, j)))
}

/// The local view after a node reacts to one event: a pointer press
/// toggles a checkbox, moves a slider's handle or an edit cursor; a key
/// press edits a text input; everything else changes nothing.
pub open spec fn event_view(v: NodeView, e: Event, rect: Rect) -> NodeView {
    match v {
        NodeView::Checkbox { label, checked, id } => match e {
            Event::MouseDown(_b, _x, _y, _m) => NodeView::Checkbox {
                label,
                checked: !checked,
                id,
            },
            _ => v,
        },
        NodeView::Slider { value, width, id, thick } => match e {
            Event::MouseDown(_b, px, _y, _m) => NodeView::Slider {
                value: Slider::spec_value_at(rect, px as int),
                width,
                id,
                thick,
            },
            _ => v,
        },
        NodeView::TextInput { content, cursor, rounded, focused, width, height } => match e {
            Event::Key(ke) => NodeView::TextInput {
                content: crate::input_buffer::content_after(content, cursor, ke.code),
                cursor: crate::input_buffer::cursor_after(content, cursor, ke.code),
                rounded,
                focused,
                width,
                height,
            },
            Event::MouseDown(_b, px, _y, _m) => NodeView::TextInput {
                content,
                cursor: ({
                    let want = if px as int >= rect.x {
                        px - rect.x
                    } else {
                        content.len() as int
                    };
                    if want <= content.len() {
                        want
                    } else {
                        content.len() as int
                    }
                }),
                rounded,
                focused,
                width,
                height,
            },
            _ => v,
        },
        _ => v,
    }
}

/// The messages a node reports after one event.  Only a checkbox press
/// reports one; a slider moves silently.
pub open spec fn event_msgs(v: NodeView, e: Event, rect: Rect) -> Seq<Msg> {
    match v {
        NodeView::Checkbox { checked, .. } => match e {
            Event::MouseDown(_b, _x, _y, _m) => seq![Msg::InputChanged(!checked)],
            _ => Seq::empty(),
        },
        _ => Seq::empty(),
    }
}

/// Reacting to an event keeps a node well formed.
pub proof fn lemma_event_view_wf(v: NodeView, e: Event, rect: Rect)
    requires
        node_wf(v),
    ensures
        node_wf(event_view(v, e, rect)),
{
}

impl Control {
    /// Hand one event to this node alone (a container ignores events).
    /// The node's reaction and the reported messages are exactly those
    /// of `event_view` and `event_msgs` on its local view.
    pub fn process_event(&mut self, event: &Event, rect: Rect) -> (msgs: Vec<Msg>)
        requires
            node_wf(view_of(*old(self))),
        ensures
            view_of(*final(self)) == event_view(view_of(*old(self)), *event, rect),
            msgs@ == event_msgs(view_of(*old(self)), *event, rect),
            node_wf(view_of(*final(self))),
            node_count(*final(self)) == node_count(*old(self)),
            *old(self) is FlexBox ==> *final(self) == *old(self),
    {
        match self {
            Control::Checkbox(c) => {
                let msgs = c.process_event(event);
                msgs
            },
            Control::Slider(sl) => {
                let msgs = sl.process_event(event, rect);
                msgs
            },
            Control::TextInput(t) => {
                let msgs = t.process_event(event, rect);
                msgs
            },
            _ => Vec::new(),
        }
    }
}

fn event_walk(c: Control, idx: usize, event: &Event, rect: Rect) -> (res: (Control, Vec<Msg>))
    requires
        node_count(c) <= usize::MAX,
        tree_wf(c),
    ensures
        node_count(res.0) == node_count(c),
        tree_wf(res.0),
        forall|j: int|
            0 <= j < node_count(c) && j != idx ==> view_of(#[trigger] node_at(res.0, j))
                == view_of(node_at(c, j)),
        idx < node_count(c) ==> view_of(node_at(res.0, idx as int)) == event_view(
            view_of(node_at(c, idx as int)),
            *event,
            rect,
        ) && res.1@ == event_msgs(view_of(node_at(c, idx as int)), *event, rect),
        idx >= node_count(c) ==> res.1@ == Seq::<Msg>::empty(),
    decreases node_count(c),
{
    let ghost c0 = c;
    if idx == 0 {
        let mut node = c;
        proof {
            assert(node_at(c0, 0) == c0);
        }
        let msgs = node.process_event(event, rect);
        proof {
            assert(node_at(node, 0) == node);
            if c0 is FlexBox {
                assert(node == c0);
            }
        }
        (node, msgs)
    } else {
        match c {
            Control::FlexBox(f) => {
                let FlexBox { children, flex_direction, width, height } = f;
                let ghost cs0 = children@;
                proof {
                    assert(node_count(c0) == 1 + node_count_seq(cs0));
                    assert(cs0.take(0) =~= Seq::<Control>::empty());
                }
                let mut todo = children;
                let mut done: Vec<Control> = Vec::new();
                let mut msgs: Vec<Msg> = Vec::new();
                let mut rem: usize = idx - 1;
                let mut hit: bool = false;
                while todo.len() > 0
                    invariant
                        c == c0,
                        c0 matches Control::FlexBox(ff) && ff.children@ == cs0,
                        node_count(c0) == 1 + node_count_seq(cs0),
                        node_count(c0) <= usize::MAX,
                        tree_wf(c0),
                        idx >= 1,
                        done@.len() + todo@.len() == cs0.len(),
                        todo@ == cs0.skip(done@.len() as int),
                        node_count_seq(done@) == node_count_seq(cs0.take(done@.len() as int)),
                        !hit ==> rem == idx - 1 - node_count_seq(cs0.take(done@.len() as int))
                            && idx - 1 >= node_count_seq(cs0.take(done@.len() as int)),
                        forall|j: int|
                            0 <= j < node_count_seq(cs0.take(done@.len() as int)) && j != idx - 1
                                ==> view_of(#[trigger] node_at_seq(done@, j)) == view_of(
                                node_at_seq(cs0, j),
                            ),
                        hit ==> idx - 1 < node_count_seq(cs0.take(done@.len() as int))
                            && view_of(node_at_seq(done@, idx - 1)) == event_view(
                            view_of(node_at_seq(cs0, idx - 1)),
                            *event,
                            rect,
                        ) && msgs@ == event_msgs(view_of(node_at_seq(cs0, idx - 1)), *event, rect),
                        !hit ==> msgs@ == Seq::<Msg>::empty(),
                    decreases todo@.len(),
                {
                    let ghost d = done@.len() as int;
                    let ghost done_pre = done@;
                    let ch = todo.remove(0);
                    proof {
                        assert(ch == cs0[d]);
                        assert(todo@ =~= cs0.skip(d + 1));
                        lemma_count_split(cs0, d);
                        assert(cs0.skip(d)[0] == cs0[d]);
                        assert(cs0.skip(d).drop_first() =~= cs0.skip(d + 1));
                        lemma_count_take_snoc(cs0, d);
                        assert(node_count(cs0[d]) < node_count(c0));
                        assert(tree_wf(cs0[d])) by {
                            assert forall|j: int|
                                0 <= j < node_count(cs0[d]) implies node_wf(view_of(
                                #[trigger] node_at(cs0[d], j),
                            )) by {
                                lemma_count_split(cs0, d + 1);
                                lemma_node_at_seq_split(cs0, d, node_count_seq(cs0.take(d)) + j);
                                assert(cs0.skip(d).len() > 0);
                                assert(cs0.skip(d)[0] == cs0[d]);
                                assert(node_at_seq(cs0.skip(d), j) == node_at(cs0[d], j));
                                assert(node_at_seq(
                                    cs0,
                                    node_count_seq(cs0.take(d)) + j,
                                ) == node_at(cs0[d], j));
                                assert(node_at(c0, 1 + node_count_seq(cs0.take(d)) + j)
                                    == node_at_seq(cs0, node_count_seq(cs0.take(d)) + j));
                                assert(node_wf(view_of(node_at(
                                    c0,
                                    1 + node_count_seq(cs0.take(d)) + j,
                                ))));
                            }
                        }
                    }
                    let cnt = count_nodes(&ch);
                    if !hit && rem < cnt {
                        let pair = event_walk(ch, rem, event, rect);
                        let ch2 = pair.0;
                        msgs = pair.1;
                        hit = true;
                        done.push(ch2);
                        proof {
                            assert(done@ == done_pre.push(ch2));
                            lemma_node_at_seq_snoc(done_pre, ch2, 0);
                            assert forall|j: int|
                                0 <= j < node_count_seq(cs0.take(d + 1)) && j != idx - 1 implies
                                view_of(#[trigger] node_at_seq(done@, j)) == view_of(
                                node_at_seq(cs0, j),
                            ) by {
                                lemma_node_at_seq_snoc(done_pre, ch2, j);
                                if j < node_count_seq(cs0.take(d)) {
                                    lemma_node_at_seq_prefix(cs0, d, j);
                                    lemma_node_at_seq_prefix(cs0, d + 1, j);
                                } else {
                                    lemma_node_at_seq_split(cs0, d, j);
                                }
                            }
                            lemma_node_at_seq_snoc(done_pre, ch2, idx - 1);
                            lemma_node_at_seq_split(cs0, d, idx - 1);
                        }
                    } else {
                        done.push(ch);
                        if !hit {
                            rem = rem - cnt;
                        }
                        proof {
                            assert(done@ == done_pre.push(ch));
                            assert forall|j: int|
                                0 <= j < node_count_seq(cs0.take(d + 1)) && j != idx - 1 implies
                                view_of(#[trigger] node_at_seq(done@, j)) == view_of(
                                node_at_seq(cs0, j),
                            ) by {
                                lemma_node_at_seq_snoc(done_pre, ch, j);
                                if j < node_count_seq(cs0.take(d)) {
                                    lemma_node_at_seq_prefix(cs0, d, j);
                                    lemma_node_at_seq_prefix(cs0, d + 1, j);
                                } else {
                                    lemma_node_at_seq_split(cs0, d, j);
                                }
                            }
                            if hit {
                                lemma_node_at_seq_snoc(done_pre, ch, idx - 1);
                            }
                            lemma_node_at_seq_snoc(done_pre, ch, 0);
                        }
                    }
                }
                proof {
                    assert(cs0.take(cs0.len() as int) =~= cs0);
                }
                let ghost done_final = done@;
                let r = Control::FlexBox(
                    FlexBox { children: done, flex_direction, width, height },
                );
                proof {
                    assert(node_count(r) == 1 + node_count_seq(done_final));
                    assert(node_at(r, 0) == r);
                    assert(view_of(node_at(r, 0)) == view_of(node_at(c0, 0)));
                    assert forall|j: int|
                        0 < j < node_count(c0) && j != idx implies view_of(
                        #[trigger] node_at(r, j),
                    ) == view_of(node_at(c0, j)) by {
                        assert(node_at(r, j) == node_at_seq(done_final, j - 1));
                        assert(node_at(c0, j) == node_at_seq(cs0, j - 1));
                    }
                    if idx < node_count(c0) {
                        assert(node_at(r, idx as int) == node_at_seq(done_final, idx - 1));
                        assert(node_at(c0, idx as int) == node_at_seq(cs0, idx - 1));
                    }
                    assert(tree_wf(r)) by {
                        assert forall|j: int|
                            0 <= j < node_count(r) implies node_wf(view_of(
                            #[trigger] node_at(r, j),
                        )) by {
                            if j == idx {
                                if idx < node_count(c0) {
                                    lemma_event_view_wf(
                                        view_of(node_at(c0, idx as int)),
                                        *event,
                                        rect,
                                    );
                                }
                            }
                        }
                    }
                }
                (r, msgs)
            },
            _ => {
                proof {
                    assert(node_count(c0) == 1);
                }
                (c, Vec::new())
            },
        }
    }
}

/// Route one event to the node at preorder position `idx`: that node
/// reacts and reports its messages; every other node is untouched.  A
/// position past the tree is silently skipped.
pub fn process_event_at(root: &mut Control, idx: usize, event: &Event, rect: Rect) -> (msgs: Vec<
    Msg,
>)
    requires
        node_count(*old(root)) <= usize::MAX,
        tree_wf(*old(root)),
    ensures
        node_count(*final(root)) == node_count(*old(root)),
        tree_wf(*final(root)),
        forall|j: int|
            0 <= j < node_count(*old(root)) && j != idx ==> view_of(
                #[trigger] node_at(*final(root), j),
            ) == view_of(node_at(*old(root), j)),
        idx < node_count(*old(root)) ==> view_of(node_at(*final(root), idx as int))
            == event_view(view_of(node_at(*old(root), idx as int)), *event, rect) && msgs@
            == event_msgs(view_of(node_at(*old(root), idx as int)), *event, rect),
        idx >= node_count(*old(root)) ==> msgs@ == Seq::<Msg>::empty(),
{
    let owned = replace_control(
        root,
        Control::Radio(Radio { label: String::new(), is_checked: false }),
    );
    let pair = event_walk(owned, idx, event, rect);
    let _ = replace_control(root, pair.0);
    pair.1
}


/// Every subtree of a well-formed tree is well formed.
pub proof fn lemma_tree_wf_child(c: Control, k: int)
    requires
        tree_wf(c),
        c matches Control::FlexBox(f) && 0 <= k < f.children@.len(),
    ensures
        c matches Control::FlexBox(f) ==> tree_wf(f.children@[k]),
        c matches Control::FlexBox(f) ==> node_count(f.children@[k]) < node_count(c),
{
    match c {
        Control::FlexBox(f) => {
            let cs = f.children@;
            lemma_count_split(cs, k);
            lemma_count_take_snoc(cs, k);
            assert(cs.skip(k)[0] == cs[k]);
            assert(cs.skip(k).drop_first() =~= cs.skip(k + 1));
            lemma_count_split(cs, k + 1);
            assert forall|j: int|
                0 <= j < node_count(cs[k]) implies node_wf(view_of(
                #[trigger] node_at(cs[k], j),
            )) by {
                lemma_node_at_seq_split(cs, k, node_count_seq(cs.take(k)) + j);
                assert(cs.skip(k).len() > 0);
                assert(node_at_seq(cs.skip(k), j) == node_at(cs[k], j));
                assert(node_at_seq(cs, node_count_seq(cs.take(k)) + j) == node_at(cs[k], j));
                assert(node_at(c, 1 + node_count_seq(cs.take(k)) + j) == node_at_seq(
                    cs,
                    node_count_seq(cs.take(k)) + j,
                ));
                assert(node_wf(view_of(node_at(c, 1 + node_count_seq(cs.take(k)) + j))));
            }
        },
        _ => {},
    }
}

/// The deferred commands one frame collects: each node's own commands,
/// parent before children, left to right, zipped against its layout
/// subtree.  Only a focused text input emits any.
pub open spec fn draw_cmds_of(c: Control, lt: LayoutTree) -> Seq<Cmd>
    decreases c,
{
    match c {
        Control::TextInput(t) => t.spec_draw_cmds(lt.layout),
        Control::FlexBox(f) => draw_cmds_of_seq(f.children@, lt.children_layout@),
        _ => Seq::empty(),
    }
}

/// The forest version of `draw_cmds_of`: pairs past the shorter side
/// contribute nothing.
pub open spec fn draw_cmds_of_seq(cs: Seq<Control>, ls: Seq<LayoutTree>) -> Seq<Cmd>
    decreases cs,
{
    if cs.len() == 0 || ls.len() == 0 {
        Seq::empty()
    } else {
        draw_cmds_of(cs[0], ls[0]) + draw_cmds_of_seq(cs.drop_first(), ls.drop_first())
    }
}

/// Truncating both forests at their common length changes nothing.
proof fn lemma_draw_cmds_seq_take(cs: Seq<Control>, ls: Seq<LayoutTree>, m: int)
    requires
        m == if cs.len() <= ls.len() {
            cs.len() as int
        } else {
            ls.len() as int
        },
    ensures
        draw_cmds_of_seq(cs.take(m), ls.take(m)) == draw_cmds_of_seq(cs, ls),
    decreases m,
{
    if m == 0 {
        assert(cs.take(0) =~= Seq::<Control>::empty());
        assert(ls.take(0) =~= Seq::<LayoutTree>::empty());
    } else {
        lemma_draw_cmds_seq_take(cs.drop_first(), ls.drop_first(), m - 1);
        assert(cs.take(m)[0] == cs[0]);
        assert(ls.take(m)[0] == ls[0]);
        assert(cs.take(m).drop_first() =~= cs.drop_first().take(m - 1));
        assert(ls.take(m).drop_first() =~= ls.drop_first().take(m - 1));
    }
}

/// Extending both prefixes by one pair appends that pair's commands.
proof fn lemma_draw_cmds_seq_snoc(cs: Seq<Control>, ls: Seq<LayoutTree>, i: int)
    requires
        0 <= i < cs.len(),
        i < ls.len(),
    ensures
        draw_cmds_of_seq(cs.take(i + 1), ls.take(i + 1)) == draw_cmds_of_seq(
            cs.take(i),
            ls.take(i),
        ) + draw_cmds_of(cs[i], ls[i]),
    decreases i,
{
    if i == 0 {
        assert(cs.take(0) =~= Seq::<Control>::empty());
        assert(ls.take(0) =~= Seq::<LayoutTree>::empty());
        assert(cs.take(1)[0] == cs[0]);
        assert(ls.take(1)[0] == ls[0]);
        assert(cs.take(1).drop_first() =~= Seq::<Control>::empty());
        assert(ls.take(1).drop_first() =~= Seq::<LayoutTree>::empty());
        assert(draw_cmds_of_seq(Seq::<Control>::empty(), Seq::<LayoutTree>::empty())
            == Seq::<Cmd>::empty());
        assert(draw_cmds_of_seq(cs.take(1), ls.take(1)) =~= draw_cmds_of(cs[0], ls[0]));
    } else {
        lemma_draw_cmds_seq_snoc(cs.drop_first(), ls.drop_first(), i - 1);
        assert(cs.take(i + 1)[0] == cs[0]);
        assert(ls.take(i + 1)[0] == ls[0]);
        assert(cs.take(i + 1).drop_first() =~= cs.drop_first().take(i));
        assert(ls.take(i + 1).drop_first() =~= ls.drop_first().take(i));
        assert(cs.take(i)[0] == cs[0]);
        assert(ls.take(i)[0] == ls[0]);
        assert(cs.take(i).drop_first() =~= cs.drop_first().take(i - 1));
        assert(ls.take(i).drop_first() =~= ls.drop_first().take(i - 1));
        assert(cs.drop_first()[i - 1] == cs[i]);
        assert(ls.drop_first()[i - 1] == ls[i]);
        assert(draw_cmds_of_seq(cs.take(i + 1), ls.take(i + 1)) =~= draw_cmds_of_seq(
            cs.take(i),
            ls.take(i),
        ) + draw_cmds_of(cs[i], ls[i]));
    }
}

impl Control {
    /// Draw this node and, for a container, each child against its own
    /// layout subtree.  The buffer's dimensions never change, and the
    /// returned deferred commands are exactly the subtree's commands in
    /// traversal order.
    pub fn draw(&self, buf: &mut Buffer, lt: &LayoutTree) -> (cmds: Vec<Cmd>)
        requires
            tree_wf(*self),
        ensures
            grid_of(*final(buf)).len() == grid_of(*old(buf)).len(),
            forall|j: int|
                0 <= j < grid_of(*old(buf)).len() ==> (#[trigger] grid_of(*final(buf))[j]).len()
                    == grid_of(*old(buf))[j].len(),
            cmds@ == draw_cmds_of(*self, *lt),
        decreases node_count(*self),
    {
        match self {
            Control::Button(b) => {
                b.draw(buf, lt.layout);
                Vec::new()
            },
            Control::Checkbox(cb) => {
                cb.draw(buf, lt.layout);
                Vec::new()
            },
            Control::Radio(r) => {
                r.draw(buf, lt.layout);
                Vec::new()
            },
            Control::TextInput(t) => t.draw(buf, lt.layout),
            Control::Slider(sl) => {
                proof {
                    assert(node_at(*self, 0) == *self);
                    assert(node_wf(view_of(*self)));
                }
                sl.draw(buf, lt.layout);
                Vec::new()
            },
            Control::ListBox(l) => {
                l.draw(buf, lt.layout);
                Vec::new()
            },
            Control::FlexBox(f) => {
                let ghost cs = f.children@;
                let ghost ls = lt.children_layout@;
                let mut cmds: Vec<Cmd> = Vec::new();
                let k = f.children.len();
                let n_lt = lt.children_layout.len();
                let mut i: usize = 0;
                proof {
                    assert(cs.take(0) =~= Seq::<Control>::empty());
                    assert(ls.take(0) =~= Seq::<LayoutTree>::empty());
                }
                while i < k
                    invariant
                        i <= k,
                        k == cs.len(),
                        cs == f.children@,
                        ls == lt.children_layout@,
                        *self == Control::FlexBox(*f),
                        tree_wf(*self),
                        n_lt == ls.len(),
                        grid_of(*buf).len() == grid_of(*old(buf)).len(),
                        forall|j: int|
                            0 <= j < grid_of(*old(buf)).len() ==> (#[trigger] grid_of(
                                *buf,
                            )[j]).len() == grid_of(*old(buf))[j].len(),
                        i <= n_lt ==> cmds@ == draw_cmds_of_seq(cs.take(i as int), ls.take(i as int)),
                        i > n_lt ==> cmds@ == draw_cmds_of_seq(cs.take(n_lt as int), ls),
                    decreases k - i,
                {
                    proof {
                        lemma_tree_wf_child(*self, i as int);
                    }
                    if i < n_lt {
                        let mut sub = f.children[i].draw(buf, &lt.children_layout[i]);
                        cmds.append(&mut sub);
                        proof {
                            lemma_draw_cmds_seq_snoc(cs, ls, i as int);
                        }
                    } else {
                        proof {
                            if i == n_lt {
                                assert(ls.take(n_lt as int) =~= ls);
                            }
                        }
                    }
                    i = i + 1;
                }
                proof {
                    if k <= n_lt {
                        assert(cs.take(k as int) =~= cs);
                        lemma_draw_cmds_seq_take(cs, ls, k as int);
                        assert(draw_cmds_of_seq(cs.take(k as int), ls.take(k as int))
                            == draw_cmds_of_seq(cs, ls));
                    } else {
                        assert(ls.take(n_lt as int) =~= ls);
                        lemma_draw_cmds_seq_take(cs, ls, n_lt as int);
                        assert(draw_cmds_of_seq(cs.take(n_lt as int), ls) == draw_cmds_of_seq(
                            cs,
                            ls,
                        ));
                    }
                    assert(cmds@ == draw_cmds_of_seq(cs, ls));
                    assert(draw_cmds_of(*self, *lt) == draw_cmds_of_seq(cs, ls));
                }
                cmds
            },
        }
    }
}

} // verus!
