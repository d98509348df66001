//! The geometry tree produced from the solver's output: one resolved
//! rectangle per widget, children in widget order, with point-containment
//! queries and preorder index lookup.

use vstd::prelude::*;

verus! {

/// A resolved rectangle in screen cells.
#[derive(Clone, Copy, Debug)]
pub struct Rect {
    pub x: usize,
    pub y: usize,
    pub width: usize,
    pub height: usize,
}

impl Rect {
    /// Containment is half open: `[x, x + width) x [y, y + height)`.
    pub open spec fn spec_contains(self, px: int, py: int) -> bool {
        &&& self.x <= px < self.x + self.width
        &&& self.y <= py < self.y + self.height
    }

    /// Whether the point lies inside this rectangle.
    pub fn contains(&self, px: usize, py: usize) -> (r: bool)
        ensures
            r == self.spec_contains(px as int, py as int),
    {
        px >= self.x && px - self.x < self.width && py >= self.y && py - self.y < self.height
    }
}

/// The geometry mirror of the widget tree: the preorder index of a layout
/// node equals the preorder index of the widget it was solved for.
#[derive(Debug)]
pub struct LayoutTree {
    pub layout: Rect,
    pub children_layout: Vec<LayoutTree>,
}

/// How many nodes the layout tree holds.
pub open spec fn lt_count(t: LayoutTree) -> nat
    decreases t,
{
    1 + lt_count_seq(t.children_layout@)
}

/// How many nodes the forest `ts` holds.
pub open spec fn lt_count_seq(ts: Seq<LayoutTree>) -> nat
    decreases ts,
{
    if ts.len() == 0 {
        0
    } else {
        lt_count(ts[0]) + lt_count_seq(ts.drop_first())
    }
}

/// The subtree rooted at preorder position `i`.
pub open spec fn lt_node_at(t: LayoutTree, i: int) -> LayoutTree
    decreases t,
{
    if i <= 0 {
        t
    } else {
        lt_node_at_seq(t.children_layout@, i - 1)
    }
}

/// The subtree rooted at position `i` of the forest `ts`.
pub open spec fn lt_node_at_seq(ts: Seq<LayoutTree>, i: int) -> LayoutTree
    decreases ts,
{
    if ts.len() == 0 {
        arbitrary()
    } else if i < lt_count(ts[0]) {
        lt_node_at(ts[0], i)
    } else {
        lt_node_at_seq(ts.drop_first(), i - lt_count(ts[0]))
    }
}

/// The rectangle of the node at preorder position `i`.
pub open spec fn lt_rect_at(t: LayoutTree, i: int) -> Rect {
    lt_node_at(t, i).layout
}

/// The index `node_index_at` returns: `None` when the root's rectangle
/// does not contain the point; otherwise the first child subtree that
/// reports a hit wins, and only when no child does is the node itself the
/// answer — so the deepest containing node along the first matching
/// root-to-leaf path wins.
pub open spec fn spec_node_index_at(t: LayoutTree, px: int, py: int) -> Option<int>
    decreases t,
{
    if !t.layout.spec_contains(px, py) {
        None
    } else {
        match spec_node_index_at_seq(t.children_layout@, px, py) {
            Some(j) => Some(1 + j),
            None => Some(0),
        }
    }
}

/// The preorder position (within the forest) of the hit in the first tree
/// of `ts` that reports one.
pub open spec fn spec_node_index_at_seq(ts: Seq<LayoutTree>, px: int, py: int) -> Option<int>
    decreases ts,
{
    if ts.len() == 0 {
        None
    } else {
        match spec_node_index_at(ts[0], px, py) {
            Some(k) => Some(k),
            None => {
                match spec_node_index_at_seq(ts.drop_first(), px, py) {
                    Some(j) => Some(lt_count(ts[0]) + j),
                    None => None,
                }
            },
        }
    }
}

/// Count the nodes of the layout tree.
pub fn count_layout_nodes(t: &LayoutTree) -> (n: usize)
    requires
        lt_count(*t) <= usize::MAX,
    ensures
        n == lt_count(*t),
    decreases *t,
{
    let mut n: usize = 1;
    let k = t.children_layout.len();
    let mut i: usize = 0;
    proof {
        assert(t.children_layout@.take(0) =~= Seq::<LayoutTree>::empty());
        assert(t.children_layout@.skip(0) =~= t.children_layout@);
    }
    while i < k
        invariant
            i <= k,
            k == t.children_layout@.len(),
            lt_count(*t) <= usize::MAX,
            n == 1 + lt_count_seq(t.children_layout@.take(i as int)),
            lt_count_seq(t.children_layout@.take(i as int)) + lt_count_seq(
                t.children_layout@.skip(i as int),
            ) == lt_count_seq(t.children_layout@),
        decreases k - i,
    {
        proof {
            lemma_lt_count_split(t.children_layout@, i as int);
            assert(t.children_layout@.skip(i as int)[0] == t.children_layout@[i as int]);
            assert(t.children_layout@.skip(i as int).drop_first() =~= t.children_layout@.skip(
                i as int + 1,
            ));
            assert(t.children_layout@.take(i as int + 1).drop_last() =~= t.children_layout@.take(
                i as int,
            ));
            lemma_lt_count_take_snoc(t.children_layout@, i as int);
        }
        let c = count_layout_nodes(&t.children_layout[i]);
        n = n + c;
        i = i + 1;
    }
    proof {
        assert(t.children_layout@.take(k as int) =~= t.children_layout@);
    }
    n
}

/// Splitting a forest at `i` splits its node count.
pub proof fn lemma_lt_count_split(ts: Seq<LayoutTree>, i: int)
    requires
        0 <= i <= ts.len(),
    ensures
        lt_count_seq(ts.take(i)) + lt_count_seq(ts.skip(i)) == lt_count_seq(ts),
    decreases i,
{
    if i == 0 {
        assert(ts.take(0) =~= Seq::<LayoutTree>::empty());
        assert(ts.skip(0) =~= ts);
    } else {
        lemma_lt_count_split(ts.drop_first(), i - 1);
        assert(ts.take(i).drop_first() =~= ts.drop_first().take(i - 1));
        assert(ts.skip(i) =~= ts.drop_first().skip(i - 1));
        assert(lt_count_seq(ts.take(i)) == lt_count(ts[0]) + lt_count_seq(
            ts.drop_first().take(i - 1),
        ));
    }
}

/// Appending one tree to a forest prefix adds its node count.
pub proof fn lemma_lt_count_take_snoc(ts: Seq<LayoutTree>, i: int)
    requires
        0 <= i < ts.len(),
    ensures
        lt_count_seq(ts.take(i + 1)) == lt_count_seq(ts.take(i)) + lt_count(ts[i]),
    decreases i,
{
    if i == 0 {
        assert(ts.take(1).drop_first() =~= Seq::<LayoutTree>::empty());
        assert(ts.take(0) =~= Seq::<LayoutTree>::empty());
        assert(ts.take(1)[0] == ts[0]);
    } else {
        lemma_lt_count_take_snoc(ts.drop_first(), i - 1);
        assert(ts.take(i + 1).drop_first() =~= ts.drop_first().take(i));
        assert(ts.take(i).drop_first() =~= ts.drop_first().take(i - 1));
        assert(ts.drop_first()[i - 1] == ts[i]);
    }
}


/// A hit answer is always a position inside the tree.
pub proof fn lemma_index_at_bound(t: LayoutTree, px: int, py: int)
    ensures
        spec_node_index_at(t, px, py) matches Some(i) ==> 0 <= i < lt_count(t),
    decreases t,
{
    lemma_index_at_seq_bound(t.children_layout@, px, py);
}

/// A hit answer within a forest is a position inside it.
pub proof fn lemma_index_at_seq_bound(ts: Seq<LayoutTree>, px: int, py: int)
    ensures
        spec_node_index_at_seq(ts, px, py) matches Some(j) ==> 0 <= j < lt_count_seq(ts),
    decreases ts,
{
    if ts.len() > 0 {
        lemma_index_at_bound(ts[0], px, py);
        lemma_index_at_seq_bound(ts.drop_first(), px, py);
    }
}

/// When a forest reports no hit, no root rectangle of it contains the
/// point.
pub proof fn lemma_seq_none_no_root_hit(ts: Seq<LayoutTree>, px: int, py: int)
    requires
        spec_node_index_at_seq(ts, px, py) is None,
    ensures
        forall|k: int|
            0 <= k < ts.len() ==> !(#[trigger] ts[k]).layout.spec_contains(px, py),
    decreases ts,
{
    if ts.len() > 0 {
        assert(spec_node_index_at(ts[0], px, py) is None);
        assert(!ts[0].layout.spec_contains(px, py));
        assert(spec_node_index_at_seq(ts.drop_first(), px, py) is None);
        lemma_seq_none_no_root_hit(ts.drop_first(), px, py);
        assert forall|k: int| 0 <= k < ts.len() implies !(#[trigger] ts[k]).layout.spec_contains(
            px,
            py,
        ) by {
            if k > 0 {
                assert(ts[k] == ts.drop_first()[k - 1]);
                assert(!ts.drop_first()[k - 1].layout.spec_contains(px, py));
            }
        }
    }
}

/// The node a hit reports is the deepest along its path: its rectangle
/// contains the point, and no child of it does.  In particular, when a
/// node and one of its children both contain the point, the answer is
/// never the node itself.
pub proof fn lemma_index_at_deepest(t: LayoutTree, px: int, py: int)
    ensures
        spec_node_index_at(t, px, py) matches Some(i) ==> {
            &&& lt_rect_at(t, i).spec_contains(px, py)
            &&& forall|k: int|
                0 <= k < lt_node_at(t, i).children_layout@.len() ==> !(#[trigger] lt_node_at(
                    t,
                    i,
                ).children_layout@[k]).layout.spec_contains(px, py)
        },
    decreases t,
{
    if t.layout.spec_contains(px, py) {
        match spec_node_index_at_seq(t.children_layout@, px, py) {
            Some(j) => {
                lemma_index_at_seq_deepest(t.children_layout@, px, py);
                assert(lt_node_at(t, 1 + j) == lt_node_at_seq(t.children_layout@, j));
            },
            None => {
                lemma_seq_none_no_root_hit(t.children_layout@, px, py);
                assert(lt_node_at(t, 0) == t);
            },
        }
    }
}

/// The forest version of `lemma_index_at_deepest`.
pub proof fn lemma_index_at_seq_deepest(ts: Seq<LayoutTree>, px: int, py: int)
    ensures
        spec_node_index_at_seq(ts, px, py) matches Some(j) ==> {
            &&& 0 <= j < lt_count_seq(ts)
            &&& lt_node_at_seq(ts, j).layout.spec_contains(px, py)
            &&& forall|k: int|
                0 <= k < lt_node_at_seq(ts, j).children_layout@.len() ==> !(
                #[trigger] lt_node_at_seq(ts, j).children_layout@[k]).layout.spec_contains(px, py)
        },
    decreases ts,
{
    if ts.len() > 0 {
        lemma_index_at_bound(ts[0], px, py);
        lemma_index_at_seq_bound(ts.drop_first(), px, py);
        lemma_index_at_deepest(ts[0], px, py);
        lemma_index_at_seq_deepest(ts.drop_first(), px, py);
        match spec_node_index_at(ts[0], px, py) {
            Some(k) => {
                assert(lt_node_at_seq(ts, k) == lt_node_at(ts[0], k));
            },
            None => {
                match spec_node_index_at_seq(ts.drop_first(), px, py) {
                    Some(j) => {
                        assert(lt_node_at_seq(ts, lt_count(ts[0]) + j) == lt_node_at_seq(
                            ts.drop_first(),
                            j,
                        ));
                    },
                    None => {},
                }
            },
        }
    }
}

/// After a miss in the first `i` trees, the forest's answer is the rest's
/// answer, shifted by the nodes of the first `i` trees.
proof fn lemma_index_at_seq_split(ts: Seq<LayoutTree>, px: int, py: int, i: int)
    requires
        0 <= i <= ts.len(),
        spec_node_index_at_seq(ts.take(i), px, py) is None,
    ensures
        spec_node_index_at_seq(ts, px, py) == match spec_node_index_at_seq(ts.skip(i), px, py) {
            Some(j) => Some(lt_count_seq(ts.take(i)) + j),
            None => None::<int>,
        },
    decreases i,
{
    if i == 0 {
        assert(ts.skip(0) =~= ts);
        assert(ts.take(0) =~= Seq::<LayoutTree>::empty());
    } else {
        assert(ts.take(i)[0] == ts[0]);
        assert(ts.take(i).drop_first() =~= ts.drop_first().take(i - 1));
        assert(ts.skip(i) =~= ts.drop_first().skip(i - 1));
        lemma_index_at_seq_split(ts.drop_first(), px, py, i - 1);
    }
}

/// The preorder index of the deepest node whose rectangle contains the
/// point, along the first matching root-to-leaf path, or `None` when the
/// root's rectangle does not contain it.
pub fn node_index_at(t: &LayoutTree, x: usize, y: usize) -> (r: Option<usize>)
    requires
        lt_count(*t) <= usize::MAX,
    ensures
        match r {
            Some(i) => spec_node_index_at(*t, x as int, y as int) == Some(i as int),
            None => spec_node_index_at(*t, x as int, y as int) is None,
        },
    decreases *t,
{
    if !t.layout.contains(x, y) {
        return None;
    }
    let ghost cs = t.children_layout@;
    let k = t.children_layout.len();
    let mut acc: usize = 0;
    let mut i: usize = 0;
    proof {
        assert(cs.take(0) =~= Seq::<LayoutTree>::empty());
    }
    while i < k
        invariant
            i <= k,
            k == cs.len(),
            cs == t.children_layout@,
            lt_count(*t) <= usize::MAX,
            t.layout.spec_contains(x as int, y as int),
            acc == lt_count_seq(cs.take(i as int)),
            spec_node_index_at_seq(cs.take(i as int), x as int, y as int) is None,
        decreases k - i,
    {
        proof {
            lemma_lt_count_split(cs, i as int);
            assert(cs.skip(i as int)[0] == cs[i as int]);
            assert(cs.skip(i as int).drop_first() =~= cs.skip(i as int + 1));
            lemma_lt_count_take_snoc(cs, i as int);
            lemma_index_at_bound(cs[i as int], x as int, y as int);
        }
        let child = &t.children_layout[i];
        match node_index_at(child, x, y) {
            Some(j) => {
                proof {
                    assert(spec_node_index_at_seq(cs.skip(i as int), x as int, y as int) == Some(
                        j as int,
                    ));
                    lemma_index_at_seq_split(cs, x as int, y as int, i as int);
                    lemma_lt_count_split(cs, i as int + 1);
                    assert(j < lt_count(cs[i as int]));
                    assert(1 + acc + j <= lt_count(*t));
                    assert(t.layout.spec_contains(x as int, y as int));
                    assert(spec_node_index_at_seq(cs, x as int, y as int) == Some(
                        acc + j as int,
                    ));
                    assert(spec_node_index_at(*t, x as int, y as int) == Some(
                        1 + acc + j as int,
                    ));
                }
                return Some(1 + acc + j);
            },
            None => {
                let c = count_layout_nodes(child);
                acc = acc + c;
                proof {
                    assert(cs.take(i as int + 1).take(i as int) =~= cs.take(i as int));
                    assert(cs.take(i as int + 1).skip(i as int) =~= seq![cs[i as int]]);
                    assert(seq![cs[i as int]].drop_first() =~= Seq::<LayoutTree>::empty());
                    assert(spec_node_index_at_seq(
                        Seq::<LayoutTree>::empty(),
                        x as int,
                        y as int,
                    ) is None);
                    assert(spec_node_index_at(cs[i as int], x as int, y as int) is None);
                    assert(spec_node_index_at_seq(seq![cs[i as int]], x as int, y as int)
                        is None);
                    lemma_index_at_seq_split(cs.take(i as int + 1), x as int, y as int, i as int);
                }
            },
        }
        i = i + 1;
    }
    proof {
        assert(cs.take(k as int) =~= cs);
    }
    Some(0)
}

/// The spec of `hit_all` below: the preorder indices (offset by `base`)
/// of every node of `t` whose rectangle contains the point, root first,
/// in depth-first order.
pub open spec fn spec_hit_all(t: LayoutTree, px: int, py: int, base: int) -> Seq<int>
    decreases t,
{
    (if t.layout.spec_contains(px, py) {
        seq![base]
    } else {
        Seq::empty()
    }) + spec_hit_all_seq(t.children_layout@, px, py, base + 1)
}

/// The forest version of `spec_hit_all`.
pub open spec fn spec_hit_all_seq(ts: Seq<LayoutTree>, px: int, py: int, base: int) -> Seq<int>
    decreases ts,
{
    if ts.len() == 0 {
        Seq::empty()
    } else {
        spec_hit_all(ts[0], px, py, base) + spec_hit_all_seq(
            ts.drop_first(),
            px,
            py,
            base + lt_count(ts[0]),
        )
    }
}

fn hit_all_rec(t: &LayoutTree, x: usize, y: usize, base: usize, out: &mut Vec<usize>)
    requires
        base + lt_count(*t) <= usize::MAX,
    ensures
        final(out)@ == old(out)@ + spec_hit_all(*t, x as int, y as int, base as int).map_values(
            |v: int| v as usize,
        ),
    decreases *t,
{
    if t.layout.contains(x, y) {
        out.push(base);
    }
    let ghost cs = t.children_layout@;
    let ghost whole = spec_hit_all(*t, x as int, y as int, base as int).map_values(
        |v: int| v as usize,
    );
    proof {
        assert(cs.take(0) =~= Seq::<LayoutTree>::empty());
        assert(cs.skip(0) =~= cs);
        assert(out@ =~= old(out)@ + (if t.layout.spec_contains(x as int, y as int) {
            seq![base]
        } else {
            Seq::<usize>::empty()
        }));
        assert(out@ + spec_hit_all_seq(cs, x as int, y as int, base + 1).map_values(
            |v: int| v as usize,
        ) =~= old(out)@ + whole);
    }
    let k = t.children_layout.len();
    let mut b: usize = base + 1;
    let mut i: usize = 0;
    while i < k
        invariant
            i <= k,
            k == cs.len(),
            cs == t.children_layout@,
            base + lt_count(*t) <= usize::MAX,
            b == base + 1 + lt_count_seq(cs.take(i as int)),
            out@ + spec_hit_all_seq(cs.skip(i as int), x as int, y as int, b as int).map_values(
                |v: int| v as usize,
            ) == old(out)@ + whole,
        decreases k - i,
    {
        proof {
            lemma_lt_count_split(cs, i as int);
            lemma_lt_count_take_snoc(cs, i as int);
            assert(cs.skip(i as int)[0] == cs[i as int]);
            assert(cs.skip(i as int).drop_first() =~= cs.skip(i as int + 1));
        }
        hit_all_rec(&t.children_layout[i], x, y, b, out);
        let c = count_layout_nodes(&t.children_layout[i]);
        b = b + c;
        proof {
            assert(out@ + spec_hit_all_seq(
                cs.skip(i as int + 1),
                x as int,
                y as int,
                b as int,
            ).map_values(|v: int| v as usize) =~= old(out)@ + whole);
        }
        i = i + 1;
    }
    proof {
        assert(cs.skip(k as int) =~= Seq::<LayoutTree>::empty());
        assert(out@ =~= old(out)@ + whole);
    }
}

/// Every node (at any depth) whose rectangle contains the point, as
/// preorder indices in root-first depth-first order.  A router that wants
/// the most specific widget first walks the answer in reverse.
pub fn hit_all(t: &LayoutTree, x: usize, y: usize) -> (r: Vec<usize>)
    requires
        lt_count(*t) <= usize::MAX,
    ensures
        r@ == spec_hit_all(*t, x as int, y as int, 0).map_values(|v: int| v as usize),
{
    let mut out: Vec<usize> = Vec::new();
    hit_all_rec(t, x, y, 0, &mut out);
    out
}


/// A position past the first `i` trees addresses the rest of the forest.
pub proof fn lemma_lt_node_at_seq_split(ts: Seq<LayoutTree>, i: int, j: int)
    requires
        0 <= i <= ts.len(),
        lt_count_seq(ts.take(i)) <= j,
    ensures
        lt_node_at_seq(ts, j) == lt_node_at_seq(ts.skip(i), j - lt_count_seq(ts.take(i))),
    decreases i,
{
    if i == 0 {
        assert(ts.take(0) =~= Seq::<LayoutTree>::empty());
        assert(ts.skip(0) =~= ts);
    } else {
        assert(ts.take(i)[0] == ts[0]);
        assert(ts.take(i).drop_first() =~= ts.drop_first().take(i - 1));
        assert(ts.skip(i) =~= ts.drop_first().skip(i - 1));
        lemma_lt_node_at_seq_split(ts.drop_first(), i - 1, j - lt_count(ts[0]));
    }
}

/// The rectangle of the node at preorder position `idx`, or nothing when
/// the index is past the node count.
pub fn rect_at(t: &LayoutTree, idx: usize) -> (r: Option<Rect>)
    requires
        lt_count(*t) <= usize::MAX,
    ensures
        match r {
            Some(rc) => idx < lt_count(*t) && rc == lt_rect_at(*t, idx as int),
            None => idx >= lt_count(*t),
        },
    decreases *t,
{
    if idx == 0 {
        return Some(t.layout);
    }
    let ghost cs = t.children_layout@;
    let ghost total = lt_count(*t);
    let k = t.children_layout.len();
    let mut rem = idx - 1;
    let mut i: usize = 0;
    proof {
        assert(cs.take(0) =~= Seq::<LayoutTree>::empty());
    }
    while i < k
        invariant
            i <= k,
            k == cs.len(),
            cs == t.children_layout@,
            total == 1 + lt_count_seq(cs),
            total <= usize::MAX,
            total == lt_count(*t),
            idx >= 1,
            lt_count_seq(cs.take(i as int)) <= idx - 1,
            rem == idx - 1 - lt_count_seq(cs.take(i as int)),
        decreases k - i,
    {
        proof {
            lemma_lt_count_split(cs, i as int);
            assert(cs.skip(i as int)[0] == cs[i as int]);
            assert(cs.skip(i as int).drop_first() =~= cs.skip(i as int + 1));
            lemma_lt_count_take_snoc(cs, i as int);
        }
        let cnt = count_layout_nodes(&t.children_layout[i]);
        if rem < cnt {
            proof {
                lemma_lt_node_at_seq_split(cs, i as int, idx - 1);
                lemma_lt_count_split(cs, i as int + 1);
            }
            let r = rect_at(&t.children_layout[i], rem);
            proof {
                assert(lt_node_at_seq(cs, idx - 1) == lt_node_at(cs[i as int], rem as int));
                assert(lt_node_at(*t, idx as int) == lt_node_at_seq(cs, idx - 1));
            }
            return r;
        }
        rem = rem - cnt;
        i = i + 1;
    }
    proof {
        assert(cs.take(k as int) =~= cs);
    }
    None
}


/// Every hit index lies in the subtree's preorder range, and the hits
/// come in strictly increasing preorder: no node is reported twice.
pub proof fn lemma_hit_all_range(t: LayoutTree, px: int, py: int, base: int)
    ensures
        forall|m: int|
            0 <= m < spec_hit_all(t, px, py, base).len() ==> base <= #[trigger] spec_hit_all(
                t,
                px,
                py,
                base,
            )[m] < base + lt_count(t),
        forall|m1: int, m2: int|
            0 <= m1 < m2 < spec_hit_all(t, px, py, base).len() ==> #[trigger] spec_hit_all(
                t,
                px,
                py,
                base,
            )[m1] < #[trigger] spec_hit_all(t, px, py, base)[m2],
    decreases t,
{
    lemma_hit_all_seq_range(t.children_layout@, px, py, base + 1);
    let whole = spec_hit_all(t, px, py, base);
    let root_part: Seq<int> = if t.layout.spec_contains(px, py) {
        seq![base]
    } else {
        Seq::empty()
    };
    let rest = spec_hit_all_seq(t.children_layout@, px, py, base + 1);
    assert(whole == root_part + rest);
    assert forall|m: int| 0 <= m < whole.len() implies base <= #[trigger] whole[m] < base
        + lt_count(t) by {
        if m >= root_part.len() {
            assert(whole[m] == rest[m - root_part.len()]);
        }
    }
    assert forall|m1: int, m2: int| 0 <= m1 < m2 < whole.len() implies #[trigger] whole[m1]
        < #[trigger] whole[m2] by {
        if m1 >= root_part.len() {
            assert(whole[m1] == rest[m1 - root_part.len()]);
        }
        if m2 >= root_part.len() {
            assert(whole[m2] == rest[m2 - root_part.len()]);
        }
    }
}

/// The forest version of `lemma_hit_all_range`.
pub proof fn lemma_hit_all_seq_range(ts: Seq<LayoutTree>, px: int, py: int, base: int)
    ensures
        forall|m: int|
            0 <= m < spec_hit_all_seq(ts, px, py, base).len() ==> base <= #[trigger] spec_hit_all_seq(
                ts,
                px,
                py,
                base,
            )[m] < base + lt_count_seq(ts),
        forall|m1: int, m2: int|
            0 <= m1 < m2 < spec_hit_all_seq(ts, px, py, base).len() ==> #[trigger] spec_hit_all_seq(
                ts,
                px,
                py,
                base,
            )[m1] < #[trigger] spec_hit_all_seq(ts, px, py, base)[m2],
    decreases ts,
{
    if ts.len() > 0 {
        lemma_hit_all_range(ts[0], px, py, base);
        lemma_hit_all_seq_range(ts.drop_first(), px, py, base + lt_count(ts[0]));
        let whole = spec_hit_all_seq(ts, px, py, base);
        let head = spec_hit_all(ts[0], px, py, base);
        let tail = spec_hit_all_seq(ts.drop_first(), px, py, base + lt_count(ts[0]));
        assert(whole == head + tail);
        assert forall|m: int| 0 <= m < whole.len() implies base <= #[trigger] whole[m] < base
            + lt_count_seq(ts) by {
            if m >= head.len() {
                assert(whole[m] == tail[m - head.len()]);
            }
        }
        assert forall|m1: int, m2: int| 0 <= m1 < m2 < whole.len() implies #[trigger] whole[m1]
            < #[trigger] whole[m2] by {
            if m1 >= head.len() {
                assert(whole[m1] == tail[m1 - head.len()]);
            }
            if m2 >= head.len() {
                assert(whole[m2] == tail[m2 - head.len()]);
            }
        }
    }
}

} // verus!
