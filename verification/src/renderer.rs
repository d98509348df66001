//! The render/event loop's decision core: it owns the widget tree, the
//! current layout tree and the focus state, classifies one input event at
//! a time, and says what the host loop must do next.  The host performs
//! the terminal work (drawing out, reading events, running the layout
//! solver) and hands the results back.

use vstd::prelude::*;

use crate::buffer::Buffer;
use crate::cmd::Cmd;
use crate::control::event_msgs;
use crate::control::event_view;
use crate::control::focus_applied;
use crate::control::node_at;
use crate::control::node_count;
use crate::control::NodeView;
use crate::control::count_nodes;
use crate::control::process_event_at;
use crate::control::set_focus_view;
use crate::control::set_focused_node;
use crate::control::tree_wf;
use crate::control::view_of;
use crate::control::Control;
use crate::event::Event;
use crate::event::spec_location;
use crate::event::KeyCode;
use crate::event::Msg;
use crate::layout::hit_all;
use crate::layout::lt_count;
use crate::layout::node_index_at;
use crate::layout::rect_at;
use crate::layout::spec_hit_all;
use crate::layout::spec_node_index_at;
use crate::layout::LayoutTree;
use crate::layout::Rect;

verus! {

/// Where the loop stands: resources are acquired in `Initializing`, each
/// event is handled in `Running`, the terminal is restored in
/// `Finalizing`, and `Terminated` is the end.
#[derive(Clone, Copy, Debug, PartialEq, Eq, Structural)]
pub enum RunState {
    Initializing,
    Running,
    Finalizing,
    Terminated,
}

/// Whether one event is the global quit shortcut: a control-modified
/// `c`, `q`, `d` or `z`.
pub open spec fn is_quit_event(e: Event) -> bool {
    &&& e matches Event::Key(k)
    &&& k.modifiers.control
    &&& k.code matches KeyCode::Char(c) && (c == 'c' || c == 'q' || c == 'd' || c == 'z')
}

/// What one `step` asks of the host loop.
pub struct StepOutcome {
    /// The messages the reacting widgets emitted, in delivery order; the
    /// host dispatches each once.
    pub msgs: Vec<Msg>,
    /// The loop must leave `Running` and restore the terminal.
    pub quit: bool,
    /// The tree may have changed shape or content: recompute the layout
    /// once before the next frame.
    pub needs_layout: bool,
}

/// The decision core of the render/event loop.
pub struct Renderer {
    pub root: Control,
    pub layout: LayoutTree,
    pub terminal_width: u16,
    pub terminal_height: u16,
    pub focused_widget_idx: Option<usize>,
    pub state: RunState,
}

impl Renderer {
    /// The renderer only ever works on a well-formed tree whose node
    /// count fits the machine.
    pub open spec fn wf(self) -> bool {
        &&& tree_wf(self.root)
        &&& node_count(self.root) <= usize::MAX
        &&& lt_count(self.layout) <= usize::MAX
    }

    /// Create the core in its `Initializing` state, around a widget tree,
    /// the terminal size, and a first solved layout.
    pub fn new(root: Control, width: u16, height: u16, layout: LayoutTree) -> (r: Renderer)
        requires
            tree_wf(root),
            node_count(root) <= usize::MAX,
            lt_count(layout) <= usize::MAX,
        ensures
            r.wf(),
            r.root == root,
            r.layout == layout,
            r.terminal_width == width,
            r.terminal_height == height,
            r.focused_widget_idx is None,
            r.state is Initializing,
    {
        Renderer {
            root,
            layout,
            terminal_width: width,
            terminal_height: height,
            focused_widget_idx: None,
            state: RunState::Initializing,
        }
    }

    /// The host calls this once its terminal resources are acquired.
    pub fn begin(&mut self)
        requires
            old(self).state is Initializing,
        ensures
            final(self).state is Running,
            final(self).root == old(self).root,
            final(self).layout == old(self).layout,
            final(self).terminal_width == old(self).terminal_width,
            final(self).terminal_height == old(self).terminal_height,
            final(self).focused_widget_idx == old(self).focused_widget_idx,
    {
        self.state = RunState::Running;
    }

    /// The host calls this after restoring the terminal on its way out.
    pub fn end(&mut self)
        requires
            old(self).state is Finalizing,
        ensures
            final(self).state is Terminated,
            final(self).root == old(self).root,
            final(self).layout == old(self).layout,
    {
        self.state = RunState::Terminated;
    }

    /// Install a freshly solved layout tree.
    pub fn set_layout(&mut self, layout: LayoutTree)
        requires
            lt_count(layout) <= usize::MAX,
        ensures
            final(self).layout == layout,
            final(self).root == old(self).root,
            final(self).state == old(self).state,
            final(self).terminal_width == old(self).terminal_width,
            final(self).terminal_height == old(self).terminal_height,
            final(self).focused_widget_idx == old(self).focused_widget_idx,
            old(self).wf() ==> final(self).wf(),
    {
        self.layout = layout;
    }

    /// Draw the whole tree into a fresh full-size buffer and collect the
    /// deferred commands; the host serializes the buffer first and only
    /// then applies the commands, in order.
    pub fn draw_frame(&self) -> (r: (Buffer, Vec<Cmd>))
        requires
            self.wf(),
        ensures
            r.0.spec_is_grid(self.terminal_width as int, self.terminal_height as int),
            r.1@ == crate::control::draw_cmds_of(self.root, self.layout),
    {
        let mut buf = Buffer::new(self.terminal_width as usize, self.terminal_height as usize);
        let cmds = self.root.draw(&mut buf, &self.layout);
        (buf, cmds)
    }

    /// Classify and route one input event while `Running`.
    ///
    /// The control-modified quit characters end the loop whatever holds
    /// the focus; any other key goes to the focused node alone; a
    /// pointer press moves the focus to the deepest node under the
    /// pointer; a resize records the new size; and every located event
    /// is fanned out to the nodes under the point, innermost first.
    #[verifier::rlimit(100)]
    pub fn step(&mut self, event: &Event) -> (outcome: StepOutcome)
        requires
            old(self).state is Running,
            old(self).wf(),
        ensures
            final(self).wf(),
            outcome.quit == is_quit_event(*event),
            final(self).state == if is_quit_event(*event) {
                RunState::Finalizing
            } else {
                RunState::Running
            },
            is_quit_event(*event) ==> *final(self) == (Renderer {
                state: RunState::Finalizing,
                ..*old(self)
            }),
            node_count(final(self).root) == node_count(old(self).root),
            event matches Event::Resize(w, h) ==> (final(self).terminal_width == w && final(self).terminal_height == h && final(self).root == old(self).root
                && outcome.needs_layout),
            !(event is Resize) ==> (final(self).terminal_width == old(self).terminal_width
                && final(self).terminal_height == old(self).terminal_height),
            event matches Event::MouseDown(_b, x, y, _m) ==> (match spec_node_index_at(
                old(self).layout,
                x as int,
                y as int,
            ) {
                Some(i) => final(self).focused_widget_idx matches Some(fi) && fi as int == i,
                None => final(self).focused_widget_idx is None,
            }),
            (!(event is MouseDown) && !is_quit_event(*event)) ==> (final(self).focused_widget_idx == old(self).focused_widget_idx),
            (event matches Event::Key(k) && k.modifiers.control && !is_quit_event(*event)) ==> (
            final(self).root == old(self).root && outcome.msgs@ == Seq::<Msg>::empty()
                && !outcome.needs_layout),
            (event matches Event::Key(k) && !k.modifiers.control) ==> (match old(self).focused_widget_idx {
                Some(i) => {
                    &&& ((i as int) < node_count(old(self).root) ==> outcome.msgs@ == event_msgs(
                        view_of(node_at(old(self).root, i as int)),
                        *event,
                        match rect_at_spec(old(self).layout, i as int) {
                            Some(rc) => rc,
                            None => Rect { x: 0, y: 0, width: 0, height: 0 },
                        },
                    ))
                    &&& ((i as int) < node_count(old(self).root) ==> view_of(
                        node_at(final(self).root, i as int),
                    ) == event_view(
                        view_of(node_at(old(self).root, i as int)),
                        *event,
                        match rect_at_spec(old(self).layout, i as int) {
                            Some(rc) => rc,
                            None => Rect { x: 0, y: 0, width: 0, height: 0 },
                        },
                    ))
                    &&& (forall|j: int|
                        0 <= j < node_count(old(self).root) && j != i as int ==> view_of(
                            #[trigger] node_at(final(self).root, j),
                        ) == view_of(node_at(old(self).root, j)))
                    &&& outcome.needs_layout == ((i as int) < node_count(old(self).root))
                    &&& ((i as int) >= node_count(old(self).root) ==> outcome.msgs@ == Seq::<
                        Msg,
                    >::empty())
                },
                None => final(self).root == old(self).root && !outcome.needs_layout
                    && outcome.msgs@ == Seq::<Msg>::empty(),
            }),
            spec_location(*event) matches Some(loc) ==> ({
                let hits = spec_hit_all(old(self).layout, loc.0 as int, loc.1 as int, 0);
                &&& outcome.msgs@ == fanout_msgs(old(self).root, *event, old(self).layout, hits)
                &&& outcome.needs_layout == (hits.len() > 0)
                &&& (forall|m: int|
                    0 <= m < hits.len() && #[trigger] hits[m] < node_count(old(self).root)
                        ==> view_of(node_at(final(self).root, hits[m])) == event_view(
                        pre_routing_view(old(self).root, *event, old(self).layout, hits[m]),
                        *event,
                        crate::layout::lt_rect_at(old(self).layout, hits[m]),
                    ))
            }),
            spec_location(*event) matches Some(loc) ==> (*event is MouseDown || (forall|
                j: usize,
            |
                (j as int) < node_count(old(self).root) && !spec_hit_all(
                    old(self).layout,
                    loc.0 as int,
                    loc.1 as int,
                    0,
                ).map_values(|v: int| v as usize).contains(j) ==> view_of(
                    #[trigger] node_at(final(self).root, j as int),
                ) == view_of(node_at(old(self).root, j as int)))),
            event matches Event::MouseDown(_b, x, y, _m) ==> (match spec_node_index_at(
                old(self).layout,
                x as int,
                y as int,
            ) {
                Some(i) => forall|j: usize|
                    (j as int) < node_count(old(self).root) && !spec_hit_all(
                        old(self).layout,
                        x as int,
                        y as int,
                        0,
                    ).map_values(|v: int| v as usize).contains(j) ==> view_of(
                        #[trigger] node_at(final(self).root, j as int),
                    ) == set_focus_view(view_of(node_at(old(self).root, j as int)), j as int == i),
                None => forall|j: usize|
                    (j as int) < node_count(old(self).root) && !spec_hit_all(
                        old(self).layout,
                        x as int,
                        y as int,
                        0,
                    ).map_values(|v: int| v as usize).contains(j) ==> view_of(
                        #[trigger] node_at(final(self).root, j as int),
                    ) == view_of(node_at(old(self).root, j as int)),
            }),
    {
        let e = *event;
        match e {
            Event::Key(key_event) => {
                if key_event.modifiers.control && (match key_event.code {
                    KeyCode::Char(c) => c == 'c' || c == 'q' || c == 'd' || c == 'z',
                    _ => false,
                }) {
                    self.state = RunState::Finalizing;
                    return StepOutcome { msgs: Vec::new(), quit: true, needs_layout: false };
                }
                if key_event.modifiers.control {
                    return StepOutcome { msgs: Vec::new(), quit: false, needs_layout: false };
                }
                match self.focused_widget_idx {
                    Some(idx) => {
                        let cnt = count_nodes(&self.root);
                        let rect = match rect_at(&self.layout, idx) {
                            Some(rc) => rc,
                            None => Rect { x: 0, y: 0, width: 0, height: 0 },
                        };
                        let msgs = process_event_at(&mut self.root, idx, event, rect);
                        StepOutcome { msgs, quit: false, needs_layout: idx < cnt }
                    },
                    None => StepOutcome { msgs: Vec::new(), quit: false, needs_layout: false },
                }
            },
            Event::Resize(w, h) => {
                self.terminal_width = w;
                self.terminal_height = h;
                StepOutcome { msgs: Vec::new(), quit: false, needs_layout: true }
            },
            _ => {
                if let Event::MouseDown(_b, x, y, _m) = e {
                    self.focused_widget_idx = node_index_at(
                        &self.layout,
                        x as usize,
                        y as usize,
                    );
                    if let Some(idx) = self.focused_widget_idx {
                        set_focused_node(&mut self.root, idx);
                        proof {
                            lemma_focus_keeps_wf(*old(self), *self, idx as int);
                        }
                    }
                }
                let ghost fsnap = self.focused_widget_idx;
                let ghost mid_root = self.root;
                let mut msgs: Vec<Msg> = Vec::new();
                let mut routed = false;
                if let Some((x, y)) = crate::event::extract_location(event) {
                    let hits = hit_all(&self.layout, x as usize, y as usize);
                    let ghost hs = spec_hit_all(old(self).layout, x as int, y as int, 0);
                    proof {
                        crate::layout::lemma_hit_all_range(
                            old(self).layout,
                            x as int,
                            y as int,
                            0,
                        );
                        assert(hs.skip(hs.len() as int) =~= Seq::<int>::empty());
                    }
                    let n = hits.len();
                    let mut k: usize = 0;
                    while k < n
                        invariant
                            k <= n,
                            n == hits@.len(),
                            self.wf(),
                            node_count(self.root) == node_count(old(self).root),
                            self.layout == old(self).layout,
                            self.terminal_width == old(self).terminal_width,
                            self.terminal_height == old(self).terminal_height,
                            self.state == old(self).state,
                            self.focused_widget_idx == fsnap,
                            hits@ == hs.map_values(|v: int| v as usize),
                            hs == spec_hit_all(old(self).layout, x as int, y as int, 0),
                            forall|m: int| 0 <= m < n ==> 0 <= #[trigger] hs[m] < lt_count(old(self).layout),
                            forall|m1: int, m2: int|
                                0 <= m1 < m2 < n ==> #[trigger] hs[m1] < #[trigger] hs[m2],
                            node_count(mid_root) == node_count(old(self).root),
                            forall|j: usize|
                                (j as int) < node_count(old(self).root) && !hits@.contains(j)
                                    ==> view_of(#[trigger] node_at(self.root, j as int))
                                    == view_of(node_at(mid_root, j as int)),
                            !(*event is MouseDown) ==> mid_root == old(self).root,
                            (*event is MouseDown && spec_node_index_at(
                                old(self).layout,
                                x as int,
                                y as int,
                            ) is Some) ==> (forall|j: int|
                                0 <= j < node_count(old(self).root) ==> view_of(
                                    #[trigger] node_at(mid_root, j),
                                ) == set_focus_view(
                                    view_of(node_at(old(self).root, j)),
                                    j == spec_node_index_at(
                                        old(self).layout,
                                        x as int,
                                        y as int,
                                    )->Some_0,
                                )),
                            (*event is MouseDown && spec_node_index_at(
                                old(self).layout,
                                x as int,
                                y as int,
                            ) is None) ==> mid_root == old(self).root,
                            forall|j: int|
                                0 <= j < node_count(old(self).root) ==> pre_routing_view(
                                    old(self).root,
                                    *event,
                                    old(self).layout,
                                    j,
                                ) == view_of(#[trigger] node_at(mid_root, j)),
                            msgs@ == fanout_msgs(
                                old(self).root,
                                *event,
                                old(self).layout,
                                hs.skip(n - k as int),
                            ),
                            forall|m: int|
                                n - k <= m < n && #[trigger] hs[m] < node_count(old(self).root)
                                    ==> view_of(node_at(self.root, hs[m])) == event_view(
                                    pre_routing_view(
                                        old(self).root,
                                        *event,
                                        old(self).layout,
                                        hs[m],
                                    ),
                                    *event,
                                    crate::layout::lt_rect_at(old(self).layout, hs[m]),
                                ),
                            forall|m: int|
                                0 <= m < n - k && #[trigger] hs[m] < node_count(old(self).root)
                                    ==> view_of(node_at(self.root, hs[m])) == view_of(
                                    node_at(mid_root, hs[m]),
                                ),
                        decreases n - k,
                    {
                        let ghost pos = n - 1 - k as int;
                        let hit = hits[n - 1 - k];
                        proof {
                            assert(hit as int == hs[pos]);
                        }
                        let rect = match rect_at(&self.layout, hit) {
                            Some(rc) => rc,
                            None => Rect { x: 0, y: 0, width: 0, height: 0 },
                        };
                        proof {
                            assert(rect == crate::layout::lt_rect_at(old(self).layout, hs[pos]));
                            if (hit as int) < node_count(old(self).root) {
                                assert(view_of(node_at(self.root, hs[pos])) == pre_routing_view(
                                    old(self).root,
                                    *event,
                                    old(self).layout,
                                    hs[pos],
                                ));
                            }
                        }
                        let mut m = process_event_at(&mut self.root, hit, event, rect);
                        msgs.append(&mut m);
                        proof {
                            lemma_fanout_cons(
                                old(self).root,
                                *event,
                                old(self).layout,
                                hs.skip(pos),
                            );
                            assert(hs.skip(pos)[0] == hs[pos]);
                            assert(hs.skip(pos).drop_first() =~= hs.skip(pos + 1));
                            assert(msgs@ =~= fanout_msgs(
                                old(self).root,
                                *event,
                                old(self).layout,
                                hs.skip(pos),
                            ));
                        }
                        k = k + 1;
                    }
                    proof {
                        assert(hs.skip(0) =~= hs);
                    }
                    routed = n > 0;
                }
                StepOutcome { msgs, quit: false, needs_layout: routed }
            },
        }
    }
}

/// The node views the located-event routing starts from: after a pointer
/// press the focus move has already happened; every other event routes
/// over the tree as it stood.
pub open spec fn pre_routing_view(t0: Control, e: Event, lt: LayoutTree, j: int) -> NodeView {
    match e {
        Event::MouseDown(_b, x, y, _m) => match spec_node_index_at(lt, x as int, y as int) {
            Some(i) => set_focus_view(view_of(node_at(t0, j)), j == i),
            None => view_of(node_at(t0, j)),
        },
        _ => view_of(node_at(t0, j)),
    }
}

/// The messages the hit nodes report, deepest hit first: each hit that
/// addresses a node of the tree contributes that node's messages, taken
/// against its own layout rectangle; a hit past the tree contributes
/// nothing.
pub open spec fn fanout_msgs(t0: Control, e: Event, lt: LayoutTree, hits: Seq<int>) -> Seq<Msg>
    decreases hits.len(),
{
    if hits.len() == 0 {
        Seq::empty()
    } else {
        (if 0 <= hits.last() < node_count(t0) {
            event_msgs(
                pre_routing_view(t0, e, lt, hits.last()),
                e,
                crate::layout::lt_rect_at(lt, hits.last()),
            )
        } else {
            Seq::empty()
        }) + fanout_msgs(t0, e, lt, hits.drop_last())
    }
}

/// Peeling the shallowest hit off the front puts its messages last.
proof fn lemma_fanout_cons(t0: Control, e: Event, lt: LayoutTree, hits: Seq<int>)
    requires
        hits.len() >= 1,
    ensures
        fanout_msgs(t0, e, lt, hits) == fanout_msgs(t0, e, lt, hits.drop_first()) + (if 0
            <= hits[0] < node_count(t0) {
            event_msgs(
                pre_routing_view(t0, e, lt, hits[0]),
                e,
                crate::layout::lt_rect_at(lt, hits[0]),
            )
        } else {
            Seq::<Msg>::empty()
        }),
    decreases hits.len(),
{
    if hits.len() == 1 {
        assert(hits.drop_last() =~= Seq::<int>::empty());
        assert(hits.drop_first() =~= Seq::<int>::empty());
        assert(hits.last() == hits[0]);
        assert(fanout_msgs(t0, e, lt, Seq::<int>::empty()) == Seq::<Msg>::empty());
        assert(fanout_msgs(t0, e, lt, hits) =~= fanout_msgs(t0, e, lt, hits.drop_first()) + (if 0
            <= hits[0] < node_count(t0) {
            event_msgs(
                pre_routing_view(t0, e, lt, hits[0]),
                e,
                crate::layout::lt_rect_at(lt, hits[0]),
            )
        } else {
            Seq::<Msg>::empty()
        }));
    } else {
        lemma_fanout_cons(t0, e, lt, hits.drop_last());
        assert(hits.drop_last()[0] == hits[0]);
        assert(hits.drop_first().last() == hits.last());
        assert(hits.drop_last().drop_first() =~= hits.drop_first().drop_last());
        assert(hits.drop_first().len() >= 1);
        assert(fanout_msgs(t0, e, lt, hits) =~= fanout_msgs(t0, e, lt, hits.drop_first()) + (if 0
            <= hits[0] < node_count(t0) {
            event_msgs(
                pre_routing_view(t0, e, lt, hits[0]),
                e,
                crate::layout::lt_rect_at(lt, hits[0]),
            )
        } else {
            Seq::<Msg>::empty()
        }));
    }
}

/// The layout rectangle at one preorder position, as a spec value.
pub open spec fn rect_at_spec(t: LayoutTree, i: int) -> Option<Rect> {
    if 0 <= i < lt_count(t) {
        Some(crate::layout::lt_rect_at(t, i))
    } else {
        None
    }
}

/// Granting focus preserves the renderer's well-formedness.
proof fn lemma_focus_keeps_wf(r0: Renderer, r1: Renderer, idx: int)
    requires
        r0.wf(),
        focus_applied(r0.root, r1.root, idx),
        r1.layout == r0.layout,
    ensures
        tree_wf(r1.root),
        node_count(r1.root) == node_count(r0.root),
{
    assert forall|j: int|
        0 <= j < node_count(r1.root) implies crate::control::node_wf(view_of(
        #[trigger] node_at(r1.root, j),
    )) by {
        assert(view_of(node_at(r1.root, j)) == crate::control::set_focus_view(
            view_of(node_at(r0.root, j)),
            j == idx,
        ));
        assert(crate::control::node_wf(view_of(node_at(r0.root, j))));
    }
}

} // verus!
