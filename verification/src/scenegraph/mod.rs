//! The scene graph: an arena of nodes addressed by stable index, with
//! children stored as index lists. One root (or none) spans the live tree;
//! each frame rebuilds world transforms top-down and submits drawables in
//! material-sorted order.
//!
//! Arena discipline: nodes are only appended, so a child's index is always
//! greater than its parent's, which rules out cycles. Detaching a subtree
//! removes its edge; the detached slots stay in the arena, unreachable,
//! until `clear` empties it.

pub mod draw;
pub mod node;

use vstd::prelude::*;

use crate::backend::D3D11Backend;
use crate::commands::RenderCommand;
use crate::drawable::{same_but_model, DxDrawable, ObjType};
use crate::material::MaterialSlot;
use crate::error::{ErrorCause, SceneGraphError};
use crate::geometry::Light;
use crate::math::{
    gmat_identity, gmat_mul, gmat_ok, gmat_prod, lemma_gmat_identity_left, lemma_gmat_prod_push,
    GMat4, Mat4,
};
use node::{Node, NodeKey};

verus! {

/// `c` appears in `p`'s child list.
pub open spec fn is_child_of(nodes: Seq<Node>, c: int, p: int) -> bool {
    &&& 0 <= p < nodes.len()
    &&& exists|a: int|
        0 <= a < nodes[p].spec_children().len() && #[trigger] nodes[p].spec_children()[a] == c
}

/// `path` descends the tree edge by edge, within the arena.
pub open spec fn is_chain(nodes: Seq<Node>, path: Seq<int>) -> bool {
    &&& 1 <= path.len()
    &&& forall|k: int| 0 <= k < path.len() ==> 0 <= #[trigger] path[k] < nodes.len()
    &&& forall|k: int| 0 <= k < path.len() - 1 ==> is_child_of(nodes, path[k + 1], #[trigger] path[k])
}

/// Every child index is in the arena and greater than its parent's index.
pub open spec fn valid_children(nodes: Seq<Node>, i: int) -> bool {
    forall|a: int|
        0 <= a < nodes[i].spec_children().len() ==> i < #[trigger] nodes[i].spec_children()[a]
            < nodes.len()
}

/// No two children of `i` share a key: names are unique per sibling set.
pub open spec fn sibling_keys_unique(nodes: Seq<Node>, i: int) -> bool {
    forall|a: int, b: int|
        0 <= a < b < nodes[i].spec_children().len()
            ==> nodes[#[trigger] nodes[i].spec_children()[a] as int].spec_key() != nodes[#[trigger] nodes[i].spec_children()[b] as int].spec_key()
}

/// Per-node well-formedness.
pub open spec fn node_wf(nodes: Seq<Node>, i: int) -> bool {
    &&& nodes[i].spec_local().wf()
    &&& nodes[i].spec_world().wf()
    &&& nodes[i].drawables_wf()
    &&& valid_children(nodes, i)
    &&& sibling_keys_unique(nodes, i)
}

pub open spec fn nodes_wf(nodes: Seq<Node>) -> bool {
    forall|i: int| 0 <= i < nodes.len() ==> #[trigger] node_wf(nodes, i)
}

/// Every node is the child of at most one parent, at one position: the
/// edges form a forest over the arena.
pub open spec fn unique_parents(nodes: Seq<Node>) -> bool {
    forall|i: int, a: int, j: int, b: int|
        #![trigger nodes[i].spec_children()[a], nodes[j].spec_children()[b]]
        (0 <= i < nodes.len() && 0 <= a < nodes[i].spec_children().len() && 0 <= j < nodes.len()
            && 0 <= b < nodes[j].spec_children().len() && nodes[i].spec_children()[a]
            == nodes[j].spec_children()[b]) ==> i == j && a == b
}

/// `r` is nobody's child.
pub open spec fn no_parent(nodes: Seq<Node>, r: int) -> bool {
    forall|i: int, a: int|
        (0 <= i < nodes.len() && 0 <= a < nodes[i].spec_children().len())
            ==> #[trigger] nodes[i].spec_children()[a] != r
}

/// Two arenas with the same tree shape: equal length and equal child lists.
pub open spec fn same_structure(a: Seq<Node>, b: Seq<Node>) -> bool {
    &&& a.len() == b.len()
    &&& forall|i: int|
        0 <= i < a.len() ==> (#[trigger] a[i]).spec_children() == (#[trigger] b[i]).spec_children()
}

/// Two nodes that differ at most in their world transform.
pub open spec fn same_but_world(x: Node, y: Node) -> bool {
    &&& y.spec_name() == x.spec_name()
    &&& y.spec_uuid() == x.spec_uuid()
    &&& y.spec_children() == x.spec_children()
    &&& y.spec_local() == x.spec_local()
    &&& y.spec_drawables() == x.spec_drawables()
}

/// The node named `s`?
pub open spec fn name_matches(n: Node, s: Seq<char>) -> bool {
    n.spec_name() == Some(s)
}

/// No node reachable from `i` (inclusive) is named `s`.
pub open spec fn no_match_in_subtree(nodes: Seq<Node>, i: int, s: Seq<char>) -> bool {
    forall|q: Seq<int>|
        (#[trigger] is_chain(nodes, q)) && q[0] == i ==> !name_matches(nodes[q.last()], s)
}

pub proof fn lemma_chain_singleton(nodes: Seq<Node>, i: int)
    requires
        0 <= i < nodes.len(),
    ensures
        is_chain(nodes, seq![i]),
        seq![i].last() == i,
{
    let p = seq![i];
    assert(p[0] == i);
    assert(forall|k: int| 0 <= k < p.len() ==> 0 <= #[trigger] p[k] < nodes.len());
}

pub proof fn lemma_chain_prepend(nodes: Seq<Node>, i: int, q: Seq<int>)
    requires
        is_chain(nodes, q),
        is_child_of(nodes, q[0], i),
        0 <= i < nodes.len(),
    ensures
        is_chain(nodes, seq![i] + q),
        (seq![i] + q).last() == q.last(),
        (seq![i] + q)[0] == i,
{
    let p = seq![i] + q;
    assert(p[0] == i);
    assert forall|k: int| 0 <= k < p.len() implies 0 <= #[trigger] p[k] < nodes.len() by {
        if k > 0 {
            assert(p[k] == q[k - 1]);
        }
    }
    assert forall|k: int| 0 <= k < p.len() - 1 implies is_child_of(nodes, p[k + 1], #[trigger] p[k]) by {
        if k == 0 {
            assert(p[1] == q[0]);
        } else {
            assert(p[k] == q[k - 1]);
            assert(p[k + 1] == q[k]);
        }
    }
}

pub proof fn lemma_chain_drop_first(nodes: Seq<Node>, p: Seq<int>)
    requires
        is_chain(nodes, p),
        p.len() >= 2,
    ensures
        is_child_of(nodes, p[1], p[0]),
        is_chain(nodes, p.drop_first()),
        p.drop_first()[0] == p[1],
        p.drop_first().last() == p.last(),
{
    let q = p.drop_first();
    assert(is_child_of(nodes, p[1 as int], p[0 as int]));
    assert forall|k: int| 0 <= k < q.len() implies 0 <= #[trigger] q[k] < nodes.len() by {
        assert(q[k] == p[k + 1]);
    }
    assert forall|k: int| 0 <= k < q.len() - 1 implies is_child_of(nodes, q[k + 1], #[trigger] q[k]) by {
        assert(q[k] == p[k + 1]);
        assert(q[k + 1] == p[k + 2]);
        assert(is_child_of(nodes, p[k + 1 + 1], p[k + 1]));
    }
}

/// Chains only depend on the tree shape.
pub proof fn lemma_chain_same_structure(a: Seq<Node>, b: Seq<Node>, p: Seq<int>)
    requires
        same_structure(a, b),
        is_chain(a, p),
    ensures
        is_chain(b, p),
{
    assert forall|k: int| 0 <= k < p.len() - 1 implies is_child_of(b, p[k + 1], #[trigger] p[k]) by {
        assert(is_child_of(a, p[k + 1], p[k]));
        let nxt = p[k + 1];
        let aa = choose|aa: int|
            0 <= aa < a[p[k]].spec_children().len() && #[trigger] a[p[k]].spec_children()[aa]
                == nxt;
        assert(b[p[k]].spec_children()[aa] == nxt);
    }
}

/// Two nodes that differ at most in world transform and staged drawable
/// transforms: name, identity, tree links, local transform and drawable
/// resources are the same.
pub open spec fn same_node_skeleton(x: Node, y: Node) -> bool {
    &&& y.spec_name() == x.spec_name()
    &&& y.spec_uuid() == x.spec_uuid()
    &&& y.spec_children() == x.spec_children()
    &&& y.spec_local() == x.spec_local()
    &&& y.spec_drawables().len() == x.spec_drawables().len()
    &&& forall|j: int|
        0 <= j < x.spec_drawables().len() ==> same_but_model(
            #[trigger] x.spec_drawables()[j],
            y.spec_drawables()[j],
        )
}

/// Two scenes that differ at most in derived (world) transform state.
pub open spec fn same_skeleton(a: &Scenegraph, b: &Scenegraph) -> bool {
    &&& b.spec_root() == a.spec_root()
    &&& b.spec_lights() == a.spec_lights()
    &&& b.spec_transform() == a.spec_transform()
    &&& b.spec_next_uuid() == a.spec_next_uuid()
    &&& b.spec_nodes().len() == a.spec_nodes().len()
    &&& forall|k: int|
        0 <= k < a.spec_nodes().len() ==> same_node_skeleton(
            #[trigger] a.spec_nodes()[k],
            b.spec_nodes()[k],
        )
}

pub proof fn lemma_chain_drop_last(nodes: Seq<Node>, p: Seq<int>)
    requires
        is_chain(nodes, p),
        p.len() >= 2,
    ensures
        is_chain(nodes, p.drop_last()),
        p.drop_last().len() == p.len() - 1,
        p.drop_last()[0] == p[0],
        is_child_of(nodes, p.last(), p.drop_last().last()),
{
    let q = p.drop_last();
    assert forall|k: int| 0 <= k < q.len() implies 0 <= #[trigger] q[k] < nodes.len() by {
        assert(q[k] == p[k]);
    }
    assert forall|k: int| 0 <= k < q.len() - 1 implies is_child_of(nodes, q[k + 1], #[trigger] q[k]) by {
        assert(is_child_of(nodes, p[k + 1], p[k]));
    }
    assert(is_child_of(nodes, p[p.len() - 2 + 1], p[p.len() - 2]));
}

/// Along a chain of a well-formed arena, indices strictly increase.
pub proof fn lemma_chain_indices_increase(nodes: Seq<Node>, p: Seq<int>, a: int, b: int)
    requires
        nodes_wf(nodes),
        is_chain(nodes, p),
        0 <= a < b < p.len(),
    ensures
        p[a] < p[b],
    decreases b - a,
{
    if b == a + 1 {
        assert(is_child_of(nodes, p[a + 1], p[a]));
        let pos = choose|pos: int|
            0 <= pos < nodes[p[a]].spec_children().len()
                && #[trigger] nodes[p[a]].spec_children()[pos] == p[a + 1];
        assert(node_wf(nodes, p[a]));
    } else {
        lemma_chain_indices_increase(nodes, p, a, b - 1);
        lemma_chain_indices_increase(nodes, p, b - 1, b);
    }
}

/// In a well-formed scene, the chain from the root to a node is unique.
pub proof fn lemma_rooted_chain_unique(nodes: Seq<Node>, root: int, p: Seq<int>, q: Seq<int>)
    requires
        nodes_wf(nodes),
        unique_parents(nodes),
        no_parent(nodes, root),
        is_chain(nodes, p),
        is_chain(nodes, q),
        p[0] == root,
        q[0] == root,
        p.last() == q.last(),
    ensures
        p == q,
    decreases p.len() + q.len(),
{
    if p.len() == 1 && q.len() == 1 {
        assert(p =~= q);
    } else if p.len() >= 2 && q.len() >= 2 {
        lemma_chain_drop_last(nodes, p);
        lemma_chain_drop_last(nodes, q);
        let pp = p.drop_last();
        let qq = q.drop_last();
        assert(is_child_of(nodes, p.last(), pp.last()));
        assert(is_child_of(nodes, q.last(), qq.last()));
        let pa = choose|pa: int|
            0 <= pa < nodes[pp.last()].spec_children().len()
                && #[trigger] nodes[pp.last()].spec_children()[pa] == p.last();
        let qa = choose|qa: int|
            0 <= qa < nodes[qq.last()].spec_children().len()
                && #[trigger] nodes[qq.last()].spec_children()[qa] == q.last();
        assert(nodes[pp.last()].spec_children()[pa] == nodes[qq.last()].spec_children()[qa]);
        assert(0 <= pp.last() < nodes.len());
        assert(pp.last() == qq.last());
        lemma_rooted_chain_unique(nodes, root, pp, qq);
        assert(p =~= pp.push(p.last()));
        assert(q =~= qq.push(q.last()));
    } else if p.len() == 1 {
        assert(q.len() >= 2);
        lemma_chain_drop_last(nodes, q);
        assert(is_child_of(nodes, q.last(), q.drop_last().last()));
        let qa = choose|qa: int|
            0 <= qa < nodes[q.drop_last().last()].spec_children().len()
                && #[trigger] nodes[q.drop_last().last()].spec_children()[qa] == q.last();
        assert(q.last() == root);
        assert(false);
    } else {
        assert(p.len() >= 2);
        lemma_chain_drop_last(nodes, p);
        let pa = choose|pa: int|
            0 <= pa < nodes[p.drop_last().last()].spec_children().len()
                && #[trigger] nodes[p.drop_last().last()].spec_children()[pa] == p.last();
        assert(p.last() == root);
        assert(false);
    }
}

pub proof fn lemma_chain_push(nodes: Seq<Node>, p: Seq<int>, c: int)
    requires
        is_chain(nodes, p),
        is_child_of(nodes, c, p.last()),
        0 <= c < nodes.len(),
    ensures
        is_chain(nodes, p.push(c)),
        p.push(c).last() == c,
        p.push(c)[0] == p[0],
        p.push(c).len() == p.len() + 1,
        p.push(c)[p.push(c).len() - 2] == p.last(),
{
    let q = p.push(c);
    assert forall|k: int| 0 <= k < q.len() implies 0 <= #[trigger] q[k] < nodes.len() by {
        if k < p.len() {
            assert(q[k] == p[k]);
        }
    }
    assert forall|k: int| 0 <= k < q.len() - 1 implies is_child_of(nodes, q[k + 1], #[trigger] q[k]) by {
        if k < p.len() - 1 {
            assert(q[k] == p[k]);
            assert(q[k + 1] == p[k + 1]);
            assert(is_child_of(nodes, p[k + 1], p[k]));
        } else {
            assert(q[k] == p.last());
            assert(q[k + 1] == c);
        }
    }
}

/// Within a visited prefix, the marking discipline coincides with
/// reachability.
pub proof fn lemma_reach_by_visited(sg: &Scenegraph, k: int, i: int)
    requires
        sg.wf(),
        sg.spec_root() is Some,
        0 <= k < sg.spec_nodes().len(),
        k < i,
    ensures
        sg.reach_by(k, i) <==> sg.reachable(k),
{
    let root = sg.spec_root().unwrap() as int;
    if sg.reach_by(k, i) {
        if k == root {
            lemma_chain_singleton(sg.spec_nodes(), root);
            assert(sg.rooted_chain(seq![root]) && seq![root].last() == k);
        } else {
            let p = choose|p: Seq<int>|
                #[trigger] sg.rooted_chain(p) && p.last() == k && p.len() >= 2 && p[p.len() - 2]
                    < i;
            assert(sg.rooted_chain(p) && p.last() == k);
        }
    }
    if sg.reachable(k) {
        let p = choose|p: Seq<int>| #[trigger] sg.rooted_chain(p) && p.last() == k;
        if p.len() == 1 {
            assert(k == p[0]);
        } else {
            lemma_chain_indices_increase(sg.spec_nodes(), p, p.len() - 2, p.len() - 1);
            assert(p[p.len() - 2] < k);
        }
    }
}

/// Reachability only depends on the tree shape and the root.
pub proof fn lemma_reachable_same_skeleton(a: &Scenegraph, b: &Scenegraph, k: int)
    requires
        same_skeleton(a, b),
    ensures
        a.reachable(k) <==> b.reachable(k),
        forall|p: Seq<int>| a.rooted_chain(p) <==> b.rooted_chain(p),
{
    assert(same_structure(a.spec_nodes(), b.spec_nodes())) by {
        assert forall|i: int|
            0 <= i < a.spec_nodes().len() implies (#[trigger] a.spec_nodes()[i]).spec_children()
            == (#[trigger] b.spec_nodes()[i]).spec_children() by {
            assert(same_node_skeleton(a.spec_nodes()[i], b.spec_nodes()[i]));
        }
    }
    assert forall|p: Seq<int>| a.rooted_chain(p) <==> b.rooted_chain(p) by {
        if a.rooted_chain(p) {
            lemma_chain_same_structure(a.spec_nodes(), b.spec_nodes(), p);
        }
        if b.rooted_chain(p) {
            lemma_chain_same_structure(b.spec_nodes(), a.spec_nodes(), p);
        }
    }
    if a.reachable(k) {
        let p = choose|p: Seq<int>| #[trigger] a.rooted_chain(p) && p.last() == k;
        assert(b.rooted_chain(p) && p.last() == k);
    }
    if b.reachable(k) {
        let p = choose|p: Seq<int>| #[trigger] b.rooted_chain(p) && p.last() == k;
        assert(a.rooted_chain(p) && p.last() == k);
    }
}

/// Writing a well-formed world transform into one node changes neither
/// well-formedness nor the tree skeleton.
proof fn lemma_state_after_world_set(o: Seq<Node>, prev: Seq<Node>, news: Seq<Node>, c: int)
    requires
        nodes_wf(prev),
        unique_parents(prev),
        o.len() == prev.len(),
        news.len() == prev.len(),
        forall|m: int| 0 <= m < o.len() ==> same_node_skeleton(#[trigger] o[m], prev[m]),
        0 <= c < prev.len(),
        forall|m: int| 0 <= m < prev.len() && m != c ==> news[m] == prev[m],
        news[c].spec_name() == prev[c].spec_name(),
        news[c].spec_uuid() == prev[c].spec_uuid(),
        news[c].spec_children() == prev[c].spec_children(),
        news[c].spec_local() == prev[c].spec_local(),
        news[c].spec_drawables() == prev[c].spec_drawables(),
        news[c].spec_world().wf(),
    ensures
        nodes_wf(news),
        unique_parents(news),
        forall|m: int| 0 <= m < o.len() ==> same_node_skeleton(#[trigger] o[m], news[m]),
        forall|r: int| no_parent(prev, r) ==> no_parent(news, r),
{
    assert forall|m: int| 0 <= m < news.len() implies #[trigger] node_wf(news, m) by {
        assert(node_wf(prev, m));
        assert forall|a: int|
            0 <= a < news[m].spec_children().len() implies m < #[trigger] news[m].spec_children()[a]
            < news.len() by {
            assert(prev[m].spec_children()[a] == news[m].spec_children()[a]);
        }
        assert forall|a: int, b: int|
            0 <= a < b < news[m].spec_children().len() implies news[#[trigger] news[m].spec_children()[a] as int].spec_key()
            != news[#[trigger] news[m].spec_children()[b] as int].spec_key() by {
            assert(prev[m].spec_children()[a] == news[m].spec_children()[a]);
            assert(prev[m].spec_children()[b] == news[m].spec_children()[b]);
            let ca = news[m].spec_children()[a] as int;
            let cb = news[m].spec_children()[b] as int;
            assert(0 <= ca < prev.len() && 0 <= cb < prev.len());
            assert(news[ca].spec_key() == prev[ca].spec_key());
            assert(news[cb].spec_key() == prev[cb].spec_key());
        }
        assert(news[m].spec_local().wf());
        assert(news[m].spec_world().wf());
        assert forall|j: int|
            0 <= j < news[m].spec_drawables().len() implies (#[trigger] news[m].spec_drawables()[j]).spec_material().wf()
            && news[m].spec_drawables()[j].spec_model().wf() by {
            assert(prev[m].drawables_wf());
            assert(news[m].spec_drawables()[j] == prev[m].spec_drawables()[j]);
        }
    }
    assert forall|i: int, a: int, j: int, b: int|
        #![trigger news[i].spec_children()[a], news[j].spec_children()[b]]
        (0 <= i < news.len() && 0 <= a < news[i].spec_children().len() && 0 <= j < news.len() && 0
            <= b < news[j].spec_children().len() && news[i].spec_children()[a]
            == news[j].spec_children()[b]) implies i == j && a == b by {
        assert(news[i].spec_children()[a] == prev[i].spec_children()[a]);
        assert(news[j].spec_children()[b] == prev[j].spec_children()[b]);
    }
    assert forall|m: int| 0 <= m < o.len() implies same_node_skeleton(#[trigger] o[m], news[m]) by {
        assert(same_node_skeleton(o[m], prev[m]));
        if m != c {
        } else {
            assert(news[m].spec_drawables() == prev[m].spec_drawables());
        }
    }
    assert forall|r: int| no_parent(prev, r) implies no_parent(news, r) by {
        assert forall|i: int, a: int|
            (0 <= i < news.len() && 0 <= a
                < news[i].spec_children().len()) implies #[trigger] news[i].spec_children()[a]
            != r by {
            assert(news[i].spec_children()[a] == prev[i].spec_children()[a]);
        }
    }
}

/// Staging a well-formed transform into one drawable's uniform buffer
/// changes neither well-formedness nor the tree skeleton.
proof fn lemma_state_after_model_set(
    o: Seq<Node>,
    prev: Seq<Node>,
    news: Seq<Node>,
    c: int,
    j: int,
)
    requires
        nodes_wf(prev),
        unique_parents(prev),
        o.len() == prev.len(),
        news.len() == prev.len(),
        forall|m: int| 0 <= m < o.len() ==> same_node_skeleton(#[trigger] o[m], prev[m]),
        0 <= c < prev.len(),
        0 <= j < prev[c].spec_drawables().len(),
        forall|m: int| 0 <= m < prev.len() && m != c ==> news[m] == prev[m],
        news[c].spec_name() == prev[c].spec_name(),
        news[c].spec_uuid() == prev[c].spec_uuid(),
        news[c].spec_children() == prev[c].spec_children(),
        news[c].spec_local() == prev[c].spec_local(),
        news[c].spec_world() == prev[c].spec_world(),
        news[c].spec_drawables().len() == prev[c].spec_drawables().len(),
        forall|x: int|
            0 <= x < prev[c].spec_drawables().len() && x != j
                ==> #[trigger] news[c].spec_drawables()[x] == prev[c].spec_drawables()[x],
        same_but_model(prev[c].spec_drawables()[j], news[c].spec_drawables()[j]),
        news[c].spec_drawables()[j].spec_model().wf(),
    ensures
        nodes_wf(news),
        unique_parents(news),
        forall|m: int| 0 <= m < o.len() ==> same_node_skeleton(#[trigger] o[m], news[m]),
        forall|r: int| no_parent(prev, r) ==> no_parent(news, r),
{
    assert forall|m: int| 0 <= m < news.len() implies #[trigger] node_wf(news, m) by {
        assert(node_wf(prev, m));
        assert forall|a: int|
            0 <= a < news[m].spec_children().len() implies m < #[trigger] news[m].spec_children()[a]
            < news.len() by {
            assert(prev[m].spec_children()[a] == news[m].spec_children()[a]);
        }
        assert forall|a: int, b: int|
            0 <= a < b < news[m].spec_children().len() implies news[#[trigger] news[m].spec_children()[a] as int].spec_key()
            != news[#[trigger] news[m].spec_children()[b] as int].spec_key() by {
            assert(prev[m].spec_children()[a] == news[m].spec_children()[a]);
            assert(prev[m].spec_children()[b] == news[m].spec_children()[b]);
            let ca = news[m].spec_children()[a] as int;
            let cb = news[m].spec_children()[b] as int;
            assert(0 <= ca < prev.len() && 0 <= cb < prev.len());
            assert(news[ca].spec_key() == prev[ca].spec_key());
            assert(news[cb].spec_key() == prev[cb].spec_key());
        }
        assert forall|x: int|
            0 <= x < news[m].spec_drawables().len() implies (#[trigger] news[m].spec_drawables()[x]).spec_material().wf()
            && news[m].spec_drawables()[x].spec_model().wf() by {
            assert(prev[m].drawables_wf());
            if m == c && x == j {
                assert((prev[m].spec_drawables()[x]).spec_material().wf());
            } else if m == c {
                assert(news[m].spec_drawables()[x] == prev[m].spec_drawables()[x]);
            } else {
                assert(news[m].spec_drawables()[x] == prev[m].spec_drawables()[x]);
            }
        }
    }
    assert forall|i: int, a: int, j2: int, b: int|
        #![trigger news[i].spec_children()[a], news[j2].spec_children()[b]]
        (0 <= i < news.len() && 0 <= a < news[i].spec_children().len() && 0 <= j2 < news.len() && 0
            <= b < news[j2].spec_children().len() && news[i].spec_children()[a]
            == news[j2].spec_children()[b]) implies i == j2 && a == b by {
        assert(news[i].spec_children()[a] == prev[i].spec_children()[a]);
        assert(news[j2].spec_children()[b] == prev[j2].spec_children()[b]);
    }
    assert forall|m: int| 0 <= m < o.len() implies same_node_skeleton(#[trigger] o[m], news[m]) by {
        assert(same_node_skeleton(o[m], prev[m]));
        if m == c {
            assert forall|x: int|
                0 <= x < o[m].spec_drawables().len() implies same_but_model(
                #[trigger] o[m].spec_drawables()[x],
                news[m].spec_drawables()[x],
            ) by {
                assert(same_but_model(o[m].spec_drawables()[x], prev[m].spec_drawables()[x]));
                if x != j {
                    assert(news[m].spec_drawables()[x] == prev[m].spec_drawables()[x]);
                }
            }
        }
    }
    assert forall|r: int| no_parent(prev, r) implies no_parent(news, r) by {
        assert forall|i: int, a: int|
            (0 <= i < news.len() && 0 <= a
                < news[i].spec_children().len()) implies #[trigger] news[i].spec_children()[a]
            != r by {
            assert(news[i].spec_children()[a] == prev[i].spec_children()[a]);
        }
    }
}

/// An empty scene issues no uploads.
proof fn lemma_upload_upto_no_root(sg: &Scenegraph, i: int)
    requires
        sg.spec_root() is None,
    ensures
        sg.upload_cmds_upto(i) == Seq::<RenderCommand>::empty(),
    decreases i,
{
    if i > 0 {
        lemma_upload_upto_no_root(sg, i - 1);
        if sg.reachable(i - 1) {
            let p = choose|p: Seq<int>| #[trigger] sg.rooted_chain(p) && p.last() == i - 1;
            assert(false);
        }
        assert(sg.upload_cmds_upto(i) =~= Seq::<RenderCommand>::empty());
    }
}

/// A marking reached by pass position `i` is also reached by any later one.
pub proof fn lemma_reach_by_widen(sg: &Scenegraph, k: int, i: int, i2: int)
    requires
        sg.reach_by(k, i),
        i <= i2,
    ensures
        sg.reach_by(k, i2),
{
    if !(sg.spec_root() is Some && k == sg.spec_root().unwrap() as int) {
        let p = choose|p: Seq<int>|
            #[trigger] sg.rooted_chain(p) && p.last() == k && p.len() >= 2 && p[p.len() - 2] < i;
        assert(sg.rooted_chain(p) && p.last() == k && p.len() >= 2 && p[p.len() - 2] < i2);
    }
}

/// After a live node's visit has marked all of its children, the marks
/// agree with the marking discipline advanced past that node.
proof fn lemma_visit_live(osg: &Scenegraph, live_now: Seq<bool>, i: int)
    requires
        osg.wf(),
        osg.spec_root() is Some,
        0 <= i < osg.spec_nodes().len(),
        live_now.len() == osg.spec_nodes().len(),
        osg.reachable(i),
        forall|k: int|
            0 <= k < osg.spec_nodes().len() && osg.reach_by(k, i) ==> live_now[k],
        forall|k: int|
            0 <= k < osg.spec_nodes().len() && is_child_of(osg.spec_nodes(), k, i)
                ==> live_now[k],
        forall|k: int|
            0 <= k < osg.spec_nodes().len() && live_now[k] ==> osg.reach_by(k, i) || is_child_of(
                osg.spec_nodes(),
                k,
                i,
            ),
    ensures
        forall|k: int|
            0 <= k < osg.spec_nodes().len() ==> (live_now[k] <==> osg.reach_by(k, i + 1)),
{
    let n = osg.spec_nodes().len() as int;
    assert forall|k: int| 0 <= k < n implies (live_now[k] <==> osg.reach_by(k, i + 1)) by {
        if live_now[k] {
            if osg.reach_by(k, i) {
                lemma_reach_by_widen(osg, k, i, i + 1);
            } else {
                assert(is_child_of(osg.spec_nodes(), k, i));
                let p = choose|p: Seq<int>| #[trigger] osg.rooted_chain(p) && p.last() == i;
                lemma_chain_push(osg.spec_nodes(), p, k);
                assert(osg.rooted_chain(p.push(k)));
                assert(p.push(k)[p.push(k).len() - 2] == i);
                assert(osg.reach_by(k, i + 1));
            }
        } else {
            if osg.reach_by(k, i + 1) {
                if osg.spec_root() is Some && k == osg.spec_root().unwrap() as int {
                    assert(osg.reach_by(k, i));
                } else {
                    let p = choose|p: Seq<int>|
                        #[trigger] osg.rooted_chain(p) && p.last() == k && p.len() >= 2 && p[p.len()
                            - 2] < i + 1;
                    if p[p.len() - 2] < i {
                        assert(osg.reach_by(k, i));
                    } else {
                        assert(p[p.len() - 2] == i);
                        lemma_chain_drop_last(osg.spec_nodes(), p);
                        assert(is_child_of(osg.spec_nodes(), k, i));
                    }
                }
            }
        }
    }
}

/// The per-instance transform uploads of one node's drawables.
pub open spec fn node_upload_cmds(n: Node) -> Seq<RenderCommand> {
    Seq::new(
        n.spec_drawables().len(),
        |j: int|
            RenderCommand::UploadBuffer { buffer: n.spec_drawables()[j].spec_model_buffer() },
    )
}

/// Some node reachable from `i` has a child named `s`.
pub open spec fn subtree_has_named_child(nodes: Seq<Node>, i: int, s: Seq<char>) -> bool {
    exists|q: Seq<int>|
        (#[trigger] is_chain(nodes, q)) && q[0] == i && has_child_with_key(
            nodes,
            q.last(),
            NodeKey::Named(s),
        )
}

/// `news` is `olds` with the child at position `aa` of node `pp` (a child
/// named `s`) detached, and nothing else changed.
pub open spec fn detached_child_state(
    olds: Seq<Node>,
    news: Seq<Node>,
    pp: int,
    aa: int,
    s: Seq<char>,
) -> bool {
    &&& 0 <= pp < olds.len()
    &&& 0 <= aa < olds[pp].spec_children().len()
    &&& name_matches(olds[olds[pp].spec_children()[aa] as int], s)
    &&& news.len() == olds.len()
    &&& forall|k: int| 0 <= k < olds.len() && k != pp ==> news[k] == olds[k]
    &&& news[pp].spec_children() == olds[pp].spec_children().remove(aa)
    &&& news[pp].spec_name() == olds[pp].spec_name()
    &&& news[pp].spec_uuid() == olds[pp].spec_uuid()
    &&& news[pp].spec_local() == olds[pp].spec_local()
    &&& news[pp].spec_world() == olds[pp].spec_world()
    &&& news[pp].spec_drawables() == olds[pp].spec_drawables()
}

/// The edge `(k, b)` of `news` maps back to an edge of `olds` after the
/// detachment of child `aa` of `pp`.
pub open spec fn olds_has_edge(
    olds: Seq<Node>,
    news: Seq<Node>,
    k: int,
    b: int,
    pp: int,
    aa: int,
) -> bool {
    let ob: int = if k == pp && b >= aa {
        b + 1
    } else {
        b
    };
    &&& 0 <= k < olds.len()
    &&& 0 <= ob < olds[k].spec_children().len()
    &&& olds[k].spec_children()[ob] == news[k].spec_children()[b]
}

/// The key a detached node will occupy once attached, given the identifier
/// it will be assigned.
pub open spec fn key_of_new(node: Node, uuid: u64) -> NodeKey {
    match node.spec_name() {
        Some(s) => NodeKey::Named(s),
        None => NodeKey::Anon(uuid),
    }
}

/// Some child of `p` already occupies `key`.
pub open spec fn has_child_with_key(nodes: Seq<Node>, p: int, key: NodeKey) -> bool {
    exists|a: int|
        0 <= a < nodes[p].spec_children().len() && nodes[#[trigger] nodes[p].spec_children()[a] as int].spec_key()
            == key
}

/// The scene graph.
pub struct Scenegraph {
    transform: Mat4,
    lights: Vec<Light>,
    nodes: Vec<Node>,
    root: Option<usize>,
    next_uuid: u64,
}

impl Scenegraph {
    pub closed spec fn spec_transform(&self) -> Mat4 {
        self.transform
    }

    pub closed spec fn spec_lights(&self) -> Seq<Light> {
        self.lights@
    }

    pub closed spec fn spec_nodes(&self) -> Seq<Node> {
        self.nodes@
    }

    pub closed spec fn spec_root(&self) -> Option<usize> {
        self.root
    }

    pub closed spec fn spec_next_uuid(&self) -> u64 {
        self.next_uuid
    }

    /// Scene-graph well-formedness.
    pub open spec fn wf(&self) -> bool {
        &&& nodes_wf(self.spec_nodes())
        &&& unique_parents(self.spec_nodes())
        &&& self.spec_transform().wf()
        &&& forall|k: int|
            0 <= k < self.spec_lights().len() ==> (#[trigger] self.spec_lights()[k]).light_proj.wf()
        &&& match self.spec_root() {
            Some(r) => r < self.spec_nodes().len() && no_parent(self.spec_nodes(), r as int),
            None => true,
        }
    }

    /// A chain from the root down to `path.last()`.
    pub open spec fn rooted_chain(&self, path: Seq<int>) -> bool {
        &&& self.spec_root() is Some
        &&& is_chain(self.spec_nodes(), path)
        &&& path[0] == self.spec_root().unwrap() as int
    }

    /// `i` is in the live tree.
    pub open spec fn reachable(&self, i: int) -> bool {
        exists|path: Seq<int>| #[trigger] self.rooted_chain(path) && path.last() == i
    }

    /// An empty scene: no nodes, no lights, identity pre-transform.
    pub fn empty() -> (r: Scenegraph)
        ensures
            r.wf(),
            r.spec_nodes() == Seq::<Node>::empty(),
            r.spec_root() is None,
            r.spec_lights() == Seq::<Light>::empty(),
            r.spec_transform()@ == crate::math::gmat_identity(),
            r.spec_next_uuid() == 1,
    {
        Scenegraph {
            transform: Mat4::identity(),
            lights: Vec::new(),
            nodes: Vec::new(),
            root: None,
            next_uuid: 1,
        }
    }

    pub fn node_count(&self) -> (r: usize)
        ensures
            r == self.spec_nodes().len(),
    {
        self.nodes.len()
    }

    pub fn root_index(&self) -> (r: Option<usize>)
        ensures
            r == self.spec_root(),
    {
        self.root
    }

    /// Read access to a node by arena index.
    pub fn node_at(&self, i: usize) -> (r: &Node)
        requires
            i < self.spec_nodes().len(),
        ensures
            *r == self.spec_nodes()[i as int],
    {
        &self.nodes[i]
    }

    /// Makes `node` the root of the scene. A previous tree, if any, is
    /// dropped from the live scene (its slots stay in the arena until
    /// `clear`).
    pub fn set_root(&mut self, node: Node)
        requires
            old(self).wf(),
            node.spec_children().len() == 0,
            node.spec_local().wf(),
            node.spec_world().wf(),
            node.drawables_wf(),
        ensures
            final(self).wf(),
            final(self).spec_root() == Some(old(self).spec_nodes().len() as usize),
            final(self).spec_nodes().len() == old(self).spec_nodes().len() + 1,
            forall|i: int|
                0 <= i < old(self).spec_nodes().len() ==> final(self).spec_nodes()[i] == old(
                    self,
                ).spec_nodes()[i],
            final(self).spec_nodes().last().spec_name() == node.spec_name(),
            final(self).spec_nodes().last().spec_local() == node.spec_local(),
            final(self).spec_nodes().last().spec_drawables() == node.spec_drawables(),
            final(self).spec_nodes().last().spec_children() == Seq::<usize>::empty(),
            final(self).spec_nodes().last().spec_uuid() == old(self).spec_next_uuid(),
            final(self).spec_lights() == old(self).spec_lights(),
            final(self).spec_transform() == old(self).spec_transform(),
    {
        let idx = self.nodes.len();
        let mut n = node;
        n.uuid = self.next_uuid;
        if self.next_uuid < u64::MAX {
            self.next_uuid = self.next_uuid + 1;
        }
        let ghost gn = n;
        self.nodes.push(n);
        self.root = Some(idx);
        proof {
            let news = self.spec_nodes();
            let olds = old(self).spec_nodes();
            assert(news == olds.push(gn));
            assert(news[idx as int] == gn);
            assert(gn.spec_children().len() == 0);
            assert forall|i: int| 0 <= i < news.len() implies #[trigger] node_wf(news, i) by {
                if i < olds.len() {
                    assert(node_wf(olds, i));
                    assert(news[i] == olds[i]);
                    assert forall|a: int|
                        0 <= a < news[i].spec_children().len() implies i
                        < #[trigger] news[i].spec_children()[a] < news.len() by {
                        assert(node_wf(olds, i));
                    }
                    assert forall|a: int, b: int|
                        0 <= a < b < news[i].spec_children().len() implies news[#[trigger] news[i].spec_children()[a] as int].spec_key()
                        != news[#[trigger] news[i].spec_children()[b] as int].spec_key() by {
                        assert(node_wf(olds, i));
                        assert(olds[i].spec_children()[a] < olds.len());
                        assert(olds[i].spec_children()[b] < olds.len());
                    }
                    assert(news[i].spec_local().wf());
                    assert(news[i].spec_world().wf());
                    assert(news[i].drawables_wf());
                    assert(valid_children(news, i));
                    assert(sibling_keys_unique(news, i));
                } else {
                    assert(i == idx as int);
                    assert(news[i] == gn);
                    assert(news[i].spec_children().len() == 0);
                    assert(news[i].spec_local().wf());
                    assert(news[i].spec_world().wf());
                    assert(gn.spec_drawables() == node.spec_drawables());
                    assert forall|j: int|
                        0 <= j < gn.spec_drawables().len() implies (#[trigger] gn.spec_drawables()[j]).spec_material().wf()
                        && gn.spec_drawables()[j].spec_model().wf() by {
                        assert(gn.spec_drawables()[j] == node.spec_drawables()[j]);
                    }
                    assert(news[i].drawables_wf());
                    assert(valid_children(news, i));
                    assert(sibling_keys_unique(news, i));
                }
            }
            assert forall|i: int, a: int|
                (0 <= i < news.len() && 0 <= a
                    < news[i].spec_children().len()) implies #[trigger] news[i].spec_children()[a]
                != idx as int by {
                assert(node_wf(olds, i));
            }
        }
    }

    /// Attaches `node` as a child of the node at arena index `parent` and
    /// returns the new node's index. Fails with `DuplicateName` when the
    /// parent already has a child with the same key (name, or identifier for
    /// anonymous nodes); the sibling set is left untouched in that case.
    pub fn add_child(&mut self, parent: usize, node: Node) -> (r: Result<usize, SceneGraphError>)
        requires
            old(self).wf(),
            node.spec_children().len() == 0,
            node.spec_local().wf(),
            node.spec_world().wf(),
            node.drawables_wf(),
        ensures
            final(self).wf(),
            parent >= old(self).spec_nodes().len() ==> r is Err && r.unwrap_err().spec_cause()
                == ErrorCause::NotFound && *final(self) == *old(self),
            parent < old(self).spec_nodes().len() ==> {
                let key = key_of_new(node, old(self).spec_next_uuid());
                &&& (r is Err <==> has_child_with_key(
                    old(self).spec_nodes(),
                    parent as int,
                    key,
                ))
                &&& r is Err ==> *final(self) == *old(self) && r.unwrap_err().spec_cause()
                    == ErrorCause::DuplicateName
                &&& r is Ok ==> {
                    let olds = old(self).spec_nodes();
                    let news = final(self).spec_nodes();
                    let idx = olds.len();
                    &&& r.unwrap() == idx
                    &&& news.len() == idx + 1
                    &&& forall|i: int| 0 <= i < idx && i != parent as int ==> news[i] == olds[i]
                    &&& news[parent as int].spec_children() == olds[parent as int].spec_children().push(idx as usize)
                    &&& news[parent as int].spec_name() == olds[parent as int].spec_name()
                    &&& news[parent as int].spec_uuid() == olds[parent as int].spec_uuid()
                    &&& news[parent as int].spec_local() == olds[parent as int].spec_local()
                    &&& news[parent as int].spec_world() == olds[parent as int].spec_world()
                    &&& news[parent as int].spec_drawables() == olds[parent as int].spec_drawables()
                    &&& news.last().spec_name() == node.spec_name()
                    &&& news.last().spec_uuid() == old(self).spec_next_uuid()
                    &&& news.last().spec_local() == node.spec_local()
                    &&& news.last().spec_world() == node.spec_world()
                    &&& news.last().spec_drawables() == node.spec_drawables()
                    &&& news.last().spec_children() == Seq::<usize>::empty()
                    &&& final(self).spec_root() == old(self).spec_root()
                    &&& final(self).spec_lights() == old(self).spec_lights()
                    &&& final(self).spec_transform() == old(self).spec_transform()
                }
            },
    {
        if parent >= self.nodes.len() {
            return Err(SceneGraphError::new("parent node not found", &ErrorCause::NotFound));
        }
        let ghost key = key_of_new(node, self.spec_next_uuid());
        let n_children = self.nodes[parent].children.len();
        let mut a: usize = 0;
        while a < n_children
            invariant
                *self == *old(self),
                self.wf(),
                parent < self.spec_nodes().len(),
                n_children == self.spec_nodes()[parent as int].spec_children().len(),
                0 <= a <= n_children,
                key == key_of_new(node, self.spec_next_uuid()),
                forall|b: int|
                    0 <= b < a
                        ==> self.spec_nodes()[#[trigger] self.spec_nodes()[parent as int].spec_children()[b] as int].spec_key()
                        != key,
            decreases n_children - a,
        {
            let c = self.nodes[parent].children[a];
            proof {
                assert(node_wf(self.spec_nodes(), parent as int));
                assert(self.spec_nodes()[parent as int].spec_children()[a as int] == c);
            }
            let dup = match (&self.nodes[c].name, &node.name) {
                (Some(cn), Some(nn)) => *cn == *nn,
                (None, None) => self.nodes[c].uuid == self.next_uuid,
                _ => false,
            };
            proof {
                assert(dup == (self.spec_nodes()[c as int].spec_key() == key));
            }
            if dup {
                proof {
                    assert(has_child_with_key(self.spec_nodes(), parent as int, key));
                }
                return Err(SceneGraphError::new("Duplicate Name", &ErrorCause::DuplicateName));
            }
            a += 1;
        }
        proof {
            if has_child_with_key(self.spec_nodes(), parent as int, key) {
                let b = choose|b: int|
                    0 <= b < self.spec_nodes()[parent as int].spec_children().len()
                        && self.spec_nodes()[#[trigger] self.spec_nodes()[parent as int].spec_children()[b] as int].spec_key()
                        == key;
                assert(false);
            }
        }
        let idx = self.nodes.len();
        let mut n = node;
        n.uuid = self.next_uuid;
        let ghost gn = n;
        if self.next_uuid < u64::MAX {
            self.next_uuid = self.next_uuid + 1;
        }
        self.nodes.push(n);
        let parent_node = vstd::std_specs::vec::vec_index_mut(&mut self.nodes, parent);
        parent_node.children.push(idx);
        proof {
            let olds = old(self).spec_nodes();
            let news = self.spec_nodes();
            assert(news[idx as int] == gn);
            assert(news[parent as int].spec_children() == olds[parent as int].spec_children().push(
                idx,
            ));
            assert(gn.spec_drawables() == node.spec_drawables());
            assert forall|j: int|
                0 <= j < gn.spec_drawables().len() implies (#[trigger] gn.spec_drawables()[j]).spec_material().wf()
                && gn.spec_drawables()[j].spec_model().wf() by {
                assert(gn.spec_drawables()[j] == node.spec_drawables()[j]);
            }
            assert(gn.drawables_wf());
            assert forall|i: int| 0 <= i < news.len() implies #[trigger] node_wf(news, i) by {
                if i == idx as int {
                    assert(news[i].spec_children().len() == 0);
                } else if i == parent as int {
                    assert(node_wf(olds, i));
                    assert forall|aa: int|
                        0 <= aa < news[i].spec_children().len() implies i
                        < #[trigger] news[i].spec_children()[aa] < news.len() by {
                        if aa < olds[i].spec_children().len() {
                            assert(news[i].spec_children()[aa] == olds[i].spec_children()[aa]);
                        } else {
                            assert(news[i].spec_children()[aa] == idx);
                        }
                    }
                    assert forall|aa: int, bb: int|
                        0 <= aa < bb < news[i].spec_children().len() implies news[#[trigger] news[i].spec_children()[aa] as int].spec_key()
                        != news[#[trigger] news[i].spec_children()[bb] as int].spec_key() by {
                        let ca = news[i].spec_children()[aa] as int;
                        let cb = news[i].spec_children()[bb] as int;
                        if bb < olds[i].spec_children().len() {
                            assert(ca == olds[i].spec_children()[aa] as int);
                            assert(cb == olds[i].spec_children()[bb] as int);
                            assert(ca < olds.len() && cb < olds.len());
                            assert(ca != parent as int && cb != parent as int);
                            assert(news[ca] == olds[ca] && news[cb] == olds[cb]);
                        } else {
                            assert(cb == idx as int);
                            assert(ca == olds[i].spec_children()[aa] as int);
                            assert(ca < olds.len());
                            assert(olds[ca].spec_key() != key);
                            assert(ca != parent as int);
                            assert(news[ca] == olds[ca]);
                            assert(news[cb].spec_key() == key);
                        }
                    }
                    assert(news[i].spec_local() == olds[i].spec_local());
                    assert(news[i].spec_world() == olds[i].spec_world());
                    assert(news[i].spec_drawables() == olds[i].spec_drawables());
                    assert forall|j: int|
                        0 <= j < news[i].spec_drawables().len() implies (
                        #[trigger] news[i].spec_drawables()[j]).spec_material().wf() && news[i].spec_drawables()[j].spec_model().wf() by {
                        assert(olds[i].drawables_wf());
                        assert(news[i].spec_drawables()[j] == olds[i].spec_drawables()[j]);
                    }
                } else {
                    assert(news[i] == olds[i]);
                    assert(node_wf(olds, i));
                    assert forall|aa: int|
                        0 <= aa < news[i].spec_children().len() implies i
                        < #[trigger] news[i].spec_children()[aa] < news.len() by {
                        assert(olds[i].spec_children()[aa] < olds.len());
                    }
                    assert forall|aa: int, bb: int|
                        0 <= aa < bb < news[i].spec_children().len() implies news[#[trigger] news[i].spec_children()[aa] as int].spec_key()
                        != news[#[trigger] news[i].spec_children()[bb] as int].spec_key() by {
                        let ca = news[i].spec_children()[aa] as int;
                        let cb = news[i].spec_children()[bb] as int;
                        assert(olds[i].spec_children()[aa] < olds.len());
                        assert(olds[i].spec_children()[bb] < olds.len());
                        assert(ca != parent as int ==> news[ca] == olds[ca]);
                        assert(cb != parent as int ==> news[cb] == olds[cb]);
                        assert(news[ca].spec_key() == olds[ca].spec_key());
                        assert(news[cb].spec_key() == olds[cb].spec_key());
                    }
                }
            }
            assert forall|i: int, aa: int, j: int, bb: int|
                #![trigger news[i].spec_children()[aa], news[j].spec_children()[bb]]
                (0 <= i < news.len() && 0 <= aa < news[i].spec_children().len() && 0 <= j
                    < news.len() && 0 <= bb < news[j].spec_children().len()
                    && news[i].spec_children()[aa] == news[j].spec_children()[bb]) implies i == j
                && aa == bb by {
                let via = news[i].spec_children()[aa];
                let new_edge_i = i == parent as int && aa == olds[parent as int].spec_children().len();
                let new_edge_j = j == parent as int && bb == olds[parent as int].spec_children().len();
                if i == idx as int || j == idx as int {
                    assert(news[idx as int].spec_children().len() == 0);
                } else {
                    if !new_edge_i {
                        assert(news[i].spec_children()[aa] == olds[i].spec_children()[aa]);
                        assert(node_wf(olds, i));
                        assert(olds[i].spec_children()[aa] < olds.len());
                    }
                    if !new_edge_j {
                        assert(news[j].spec_children()[bb] == olds[j].spec_children()[bb]);
                        assert(node_wf(olds, j));
                        assert(olds[j].spec_children()[bb] < olds.len());
                    }
                    if new_edge_i && new_edge_j {
                    } else if !new_edge_i && !new_edge_j {
                        assert(olds[i].spec_children()[aa] == olds[j].spec_children()[bb]);
                    } else {
                        assert(via == idx || via < olds.len());
                        assert(false);
                    }
                }
            }
            if old(self).spec_root() is Some {
                let rr = old(self).spec_root().unwrap() as int;
                assert forall|i: int, aa: int|
                    (0 <= i < news.len() && 0 <= aa
                        < news[i].spec_children().len()) implies #[trigger] news[i].spec_children()[aa]
                    != rr by {
                    if i == idx as int {
                        assert(news[idx as int].spec_children().len() == 0);
                    } else if i == parent as int && aa == olds[parent as int].spec_children().len() {
                        assert(news[i].spec_children()[aa] == idx);
                    } else {
                        assert(news[i].spec_children()[aa] == olds[i].spec_children()[aa]);
                    }
                }
            }
        }
        Ok(idx)
    }

    /// Appends a light.
    pub fn add_light(&mut self, light: Light)
        requires
            old(self).wf(),
            light.light_proj.wf(),
        ensures
            final(self).wf(),
            final(self).spec_lights() == old(self).spec_lights().push(light),
            final(self).spec_nodes() == old(self).spec_nodes(),
            final(self).spec_root() == old(self).spec_root(),
            final(self).spec_transform() == old(self).spec_transform(),
            final(self).spec_next_uuid() == old(self).spec_next_uuid(),
    {
        self.lights.push(light);
    }

    /// Replaces the light at `index`; `NotFound` when out of bounds.
    pub fn update_light(&mut self, light: Light, index: usize) -> (r: Result<(), SceneGraphError>)
        requires
            old(self).wf(),
            light.light_proj.wf(),
        ensures
            final(self).wf(),
            r is Ok <==> index < old(self).spec_lights().len(),
            r is Err ==> *final(self) == *old(self) && r.unwrap_err().spec_cause()
                == ErrorCause::NotFound,
            r is Ok ==> final(self).spec_lights() == old(self).spec_lights().update(
                index as int,
                light,
            ) && final(self).spec_nodes() == old(self).spec_nodes() && final(self).spec_root()
                == old(self).spec_root() && final(self).spec_transform() == old(
                self,
            ).spec_transform() && final(self).spec_next_uuid() == old(self).spec_next_uuid(),
    {
        if index >= self.lights.len() {
            return Err(SceneGraphError::new("Light index out of bounds", &ErrorCause::NotFound));
        }
        self.lights[index] = light;
        Ok(())
    }

    pub fn get_lights(&self) -> (r: &Vec<Light>)
        ensures
            r@ == self.spec_lights(),
    {
        &self.lights
    }

    pub fn light_count(&self) -> (r: usize)
        ensures
            r == self.spec_lights().len(),
    {
        self.lights.len()
    }

    /// The transform sequence a chain composes: the scene pre-transform
    /// followed by each node's local transform, root first.
    pub open spec fn chain_locals(&self, p: Seq<int>) -> Seq<GMat4> {
        seq![self.spec_transform()@] + p.map_values(
            |k: int| self.spec_nodes()[k].spec_local()@,
        )
    }

    /// Every world transform the rebuild would compute stays inside the
    /// representable entry range.
    pub open spec fn chain_products_ok(&self) -> bool {
        forall|p: Seq<int>| #[trigger] self.rooted_chain(p) ==> gmat_ok(gmat_prod(self.chain_locals(p)))
    }

    /// Every reachable node's world transform equals the product of the
    /// local transforms along its chain from the root.
    pub open spec fn worlds_built(&self) -> bool {
        forall|p: Seq<int>| #[trigger] self.rooted_chain(p) ==> self.spec_nodes()[p.last()].spec_world()@
            == gmat_prod(self.chain_locals(p))
    }

    /// Every reachable node's drawables carry that node's world transform in
    /// their per-instance uniform buffer.
    pub open spec fn models_staged(&self) -> bool {
        forall|k: int|
            0 <= k < self.spec_nodes().len() && #[trigger] self.reachable(k) ==> forall|j: int|
                0 <= j < self.spec_nodes()[k].spec_drawables().len()
                    ==> (#[trigger] self.spec_nodes()[k].spec_drawables()[j]).spec_model()
                    == self.spec_nodes()[k].spec_world()
    }

    /// `k` is the root, or lies at the end of a rooted chain whose
    /// second-to-last entry has already been visited by a forward pass that
    /// has reached index `i`.
    pub open spec fn reach_by(&self, k: int, i: int) -> bool {
        ||| (self.spec_root() is Some && k == self.spec_root().unwrap() as int)
        ||| exists|p: Seq<int>|
            #[trigger] self.rooted_chain(p) && p.last() == k && p.len() >= 2 && p[p.len() - 2] < i
    }

    /// The uploads a rebuild pass has issued after visiting arena indices
    /// below `i`: one transform upload per drawable of each reachable node,
    /// in arena order.
    pub open spec fn upload_cmds_upto(&self, i: int) -> Seq<RenderCommand>
        decreases i,
    {
        if i <= 0 {
            Seq::empty()
        } else {
            self.upload_cmds_upto(i - 1) + if self.reachable(i - 1) {
                node_upload_cmds(self.spec_nodes()[i - 1])
            } else {
                Seq::empty()
            }
        }
    }

    /// Some node on a rooted chain is named `s`.
    pub open spec fn has_node_named(&self, s: Seq<char>) -> bool {
        exists|p: Seq<int>|
            #[trigger] self.rooted_chain(p) && name_matches(self.spec_nodes()[p.last()], s)
    }

    /// Depth-first search for a node named `name` in the subtree rooted at
    /// arena index `i`.
    fn find_rec(&self, i: usize, name: &str) -> (r: Option<usize>)
        requires
            self.wf(),
            i < self.spec_nodes().len(),
        ensures
            r is Some ==> r.unwrap() < self.spec_nodes().len() && name_matches(
                self.spec_nodes()[r.unwrap() as int],
                name@,
            ) && exists|p: Seq<int>|
                #[trigger] is_chain(self.spec_nodes(), p) && p[0] == i as int && p.last()
                    == r.unwrap() as int,
            r is None ==> no_match_in_subtree(self.spec_nodes(), i as int, name@),
        decreases self.spec_nodes().len() - i,
    {
        let matches_self = match &self.nodes[i].name {
            Some(n) => node::str_eq(n.as_str(), name),
            None => false,
        };
        if matches_self {
            proof {
                lemma_chain_singleton(self.spec_nodes(), i as int);
            }
            return Some(i);
        }
        let n_children = self.nodes[i].children.len();
        let mut a: usize = 0;
        while a < n_children
            invariant
                self.wf(),
                i < self.spec_nodes().len(),
                n_children == self.spec_nodes()[i as int].spec_children().len(),
                0 <= a <= n_children,
                forall|b: int|
                    0 <= b < a ==> no_match_in_subtree(
                        self.spec_nodes(),
                        #[trigger] self.spec_nodes()[i as int].spec_children()[b] as int,
                        name@,
                    ),
            decreases n_children - a,
        {
            let c = self.nodes[i].children[a];
            proof {
                assert(node_wf(self.spec_nodes(), i as int));
                assert(self.spec_nodes()[i as int].spec_children()[a as int] == c);
            }
            match self.find_rec(c, name) {
                Some(j) => {
                    proof {
                        let q = choose|q: Seq<int>|
                            #[trigger] is_chain(self.spec_nodes(), q) && q[0] == c as int
                                && q.last() == j as int;
                        assert(is_child_of(self.spec_nodes(), c as int, i as int)) by {
                            assert(self.spec_nodes()[i as int].spec_children()[a as int]
                                == c);
                        }
                        lemma_chain_prepend(self.spec_nodes(), i as int, q);
                    }
                    return Some(j);
                },
                None => {},
            }
            a += 1;
        }
        proof {
            let nodes = self.spec_nodes();
            assert forall|q: Seq<int>|
                (#[trigger] is_chain(nodes, q)) && q[0] == i as int implies !name_matches(
                nodes[q.last()],
                name@,
            ) by {
                if q.len() == 1 {
                    assert(q.last() == q[0]);
                } else {
                    lemma_chain_drop_first(nodes, q);
                    let cc = q[1];
                    let aa = choose|aa: int|
                        0 <= aa < nodes[i as int].spec_children().len()
                            && #[trigger] nodes[i as int].spec_children()[aa] == cc;
                    assert(no_match_in_subtree(nodes, nodes[i as int].spec_children()[aa] as int, name@));
                    assert(is_chain(nodes, q.drop_first()));
                    assert(q.drop_first()[0] == cc);
                    assert(q.drop_first().last() == q.last());
                }
            }
        }
        None
    }

    /// Finds a node by name, depth-first from the root. Fails with
    /// `NotFound` when no node of the live tree carries the name (or the
    /// scene is empty).
    pub fn get_node_named(&self, name: &str) -> (r: Result<usize, SceneGraphError>)
        requires
            self.wf(),
        ensures
            r is Ok <==> self.has_node_named(name@),
            r is Ok ==> r.unwrap() < self.spec_nodes().len() && self.reachable(r.unwrap() as int)
                && name_matches(self.spec_nodes()[r.unwrap() as int], name@),
            r is Err ==> r.unwrap_err().spec_cause() == ErrorCause::NotFound,
    {
        let root = match self.root {
            Some(r) => r,
            None => {
                proof {
                    if self.has_node_named(name@) {
                        let p = choose|p: Seq<int>|
                            #[trigger] self.rooted_chain(p) && name_matches(
                                self.spec_nodes()[p.last()],
                                name@,
                            );
                    }
                }
                return Err(SceneGraphError::new("Root node is empty", &ErrorCause::NotFound));
            },
        };
        match self.find_rec(root, name) {
            Some(j) => {
                proof {
                    let q = choose|q: Seq<int>|
                        #[trigger] is_chain(self.spec_nodes(), q) && q[0] == root as int
                            && q.last() == j as int;
                    assert(self.rooted_chain(q));
                    assert(self.has_node_named(name@));
                    assert(self.reachable(j as int));
                }
                Ok(j)
            },
            None => {
                proof {
                    if self.has_node_named(name@) {
                        let p = choose|p: Seq<int>|
                            #[trigger] self.rooted_chain(p) && name_matches(
                                self.spec_nodes()[p.last()],
                                name@,
                            );
                        assert(is_chain(self.spec_nodes(), p) && p[0] == root as int);
                    }
                }
                Err(SceneGraphError::new(name, &ErrorCause::NotFound))
            },
        }
    }

    /// Detaches, from the parent found first in depth-first order, the child
    /// named `name`, releasing that child's whole subtree from the live
    /// scene.
    fn remove_rec(&mut self, i: usize, name: &str) -> (r: bool)
        requires
            old(self).wf(),
            i < old(self).spec_nodes().len(),
        ensures
            final(self).wf(),
            final(self).spec_root() == old(self).spec_root(),
            final(self).spec_lights() == old(self).spec_lights(),
            final(self).spec_transform() == old(self).spec_transform(),
            final(self).spec_next_uuid() == old(self).spec_next_uuid(),
            r == subtree_has_named_child(old(self).spec_nodes(), i as int, name@),
            !r ==> *final(self) == *old(self),
            r ==> exists|pp: int, aa: int|
                #![auto]
                detached_child_state(
                    old(self).spec_nodes(),
                    final(self).spec_nodes(),
                    pp,
                    aa,
                    name@,
                ),
        decreases self.spec_nodes().len() - i,
    {
        let ghost olds = old(self).spec_nodes();
        let n_children = self.nodes[i].children.len();
        let mut a: usize = 0;
        while a < n_children
            invariant
                *self == *old(self),
                olds == self.spec_nodes(),
                self.wf(),
                i < self.spec_nodes().len(),
                n_children == self.spec_nodes()[i as int].spec_children().len(),
                0 <= a <= n_children,
                forall|b: int|
                    0 <= b < a ==> !name_matches(
                        self.spec_nodes()[#[trigger] self.spec_nodes()[i as int].spec_children()[b] as int],
                        name@,
                    ),
            decreases n_children - a,
        {
            let c = self.nodes[i].children[a];
            proof {
                assert(node_wf(self.spec_nodes(), i as int));
                assert(self.spec_nodes()[i as int].spec_children()[a as int] == c);
            }
            let m = match &self.nodes[c].name {
                Some(nn) => node::str_eq(nn.as_str(), name),
                None => false,
            };
            if m {
                let parent_node = vstd::std_specs::vec::vec_index_mut(&mut self.nodes, i);
                parent_node.children.remove(a);
                proof {
                    self.prove_wf_after_detach(olds, i as int, a as int);
                    assert(detached_child_state(olds, self.spec_nodes(), i as int, a as int, name@));
                    lemma_chain_singleton(olds, i as int);
                    assert(olds[i as int].spec_key() == olds[i as int].spec_key());
                    assert(has_child_with_key(olds, i as int, NodeKey::Named(name@))) by {
                        assert(olds[olds[i as int].spec_children()[a as int] as int].spec_key()
                            == NodeKey::Named(name@));
                    }
                    assert(subtree_has_named_child(olds, i as int, name@)) by {
                        assert(is_chain(olds, seq![i as int]));
                    }
                }
                return true;
            }
            a += 1;
        }
        let mut a: usize = 0;
        while a < n_children
            invariant
                *self == *old(self),
                olds == self.spec_nodes(),
                self.wf(),
                i < self.spec_nodes().len(),
                n_children == self.spec_nodes()[i as int].spec_children().len(),
                0 <= a <= n_children,
                forall|b: int|
                    0 <= b < n_children ==> !name_matches(
                        self.spec_nodes()[#[trigger] self.spec_nodes()[i as int].spec_children()[b] as int],
                        name@,
                    ),
                forall|b: int|
                    0 <= b < a ==> !subtree_has_named_child(
                        self.spec_nodes(),
                        #[trigger] self.spec_nodes()[i as int].spec_children()[b] as int,
                        name@,
                    ),
            decreases n_children - a,
        {
            let c = self.nodes[i].children[a];
            proof {
                assert(node_wf(self.spec_nodes(), i as int));
                assert(self.spec_nodes()[i as int].spec_children()[a as int] == c);
            }
            if self.remove_rec(c, name) {
                proof {
                    let q = choose|q: Seq<int>|
                        (#[trigger] is_chain(olds, q)) && q[0] == c as int && has_child_with_key(
                            olds,
                            q.last(),
                            NodeKey::Named(name@),
                        );
                    assert(is_child_of(olds, c as int, i as int)) by {
                        assert(olds[i as int].spec_children()[a as int] == c);
                    }
                    lemma_chain_prepend(olds, i as int, q);
                    assert(subtree_has_named_child(olds, i as int, name@)) by {
                        assert(is_chain(olds, seq![i as int] + q));
                        assert((seq![i as int] + q).last() == q.last());
                    }
                }
                return true;
            }
            a += 1;
        }
        proof {
            let nodes = self.spec_nodes();
            assert forall|q: Seq<int>|
                (#[trigger] is_chain(nodes, q)) && q[0] == i as int implies !has_child_with_key(
                nodes,
                q.last(),
                NodeKey::Named(name@),
            ) by {
                if q.len() == 1 {
                    assert(q.last() == q[0]);
                    if has_child_with_key(nodes, i as int, NodeKey::Named(name@)) {
                        let bb = choose|bb: int|
                            0 <= bb < nodes[i as int].spec_children().len()
                                && nodes[#[trigger] nodes[i as int].spec_children()[bb] as int].spec_key()
                                == NodeKey::Named(name@);
                        assert(!name_matches(
                            nodes[nodes[i as int].spec_children()[bb] as int],
                            name@,
                        ));
                    }
                } else {
                    lemma_chain_drop_first(nodes, q);
                    let cc = q[1];
                    let aa = choose|aa: int|
                        0 <= aa < nodes[i as int].spec_children().len()
                            && #[trigger] nodes[i as int].spec_children()[aa] == cc;
                    assert(!subtree_has_named_child(
                        nodes,
                        nodes[i as int].spec_children()[aa] as int,
                        name@,
                    ));
                    assert(is_chain(nodes, q.drop_first()));
                    assert(q.drop_first()[0] == cc);
                    assert(q.drop_first().last() == q.last());
                }
            }
        }
        false
    }

    /// Detaching the child at position `aa` of `pp` preserves scene-graph
    /// well-formedness.
    proof fn prove_wf_after_detach(&self, olds: Seq<Node>, pp: int, aa: int)
        requires
            nodes_wf(olds),
            unique_parents(olds),
            self.spec_transform().wf(),
            forall|k: int|
                0 <= k < self.spec_lights().len() ==> (#[trigger] self.spec_lights()[k]).light_proj.wf(),
            match self.spec_root() {
                Some(r) => r < olds.len() && no_parent(olds, r as int),
                None => true,
            },
            0 <= pp < olds.len(),
            0 <= aa < olds[pp].spec_children().len(),
            self.spec_nodes().len() == olds.len(),
            forall|k: int| 0 <= k < olds.len() && k != pp ==> self.spec_nodes()[k] == olds[k],
            self.spec_nodes()[pp].spec_children() == olds[pp].spec_children().remove(aa),
            self.spec_nodes()[pp].spec_name() == olds[pp].spec_name(),
            self.spec_nodes()[pp].spec_uuid() == olds[pp].spec_uuid(),
            self.spec_nodes()[pp].spec_local() == olds[pp].spec_local(),
            self.spec_nodes()[pp].spec_world() == olds[pp].spec_world(),
            self.spec_nodes()[pp].spec_drawables() == olds[pp].spec_drawables(),
        ensures
            self.wf(),
    {
        let news = self.spec_nodes();
        olds[pp].spec_children().remove_ensures(aa);
        assert forall|k: int, b: int|
            0 <= k < news.len() && 0 <= b < news[k].spec_children().len() implies olds_has_edge(
            olds,
            news,
            k,
            b,
            pp,
            aa,
        ) by {
            if k != pp {
                assert(news[k] == olds[k]);
            } else {
                if b < aa {
                    assert(news[k].spec_children()[b] == olds[k].spec_children()[b]);
                } else {
                    assert(news[k].spec_children()[b] == olds[k].spec_children()[b + 1]);
                }
            }
        }
        assert forall|i: int| 0 <= i < news.len() implies #[trigger] node_wf(news, i) by {
            assert(node_wf(olds, i));
            assert forall|b: int|
                0 <= b < news[i].spec_children().len() implies i
                < #[trigger] news[i].spec_children()[b] < news.len() by {
                assert(olds_has_edge(olds, news, i, b, pp, aa));
                let ob: int = if i == pp && b >= aa {
                    b + 1
                } else {
                    b
                };
                assert(olds[i].spec_children()[ob] == news[i].spec_children()[b]);
            }
            assert forall|b: int, c: int|
                0 <= b < c < news[i].spec_children().len() implies news[#[trigger] news[i].spec_children()[b] as int].spec_key()
                != news[#[trigger] news[i].spec_children()[c] as int].spec_key() by {
                let ob: int = if i == pp && b >= aa {
                    b + 1
                } else {
                    b
                };
                let oc: int = if i == pp && c >= aa {
                    c + 1
                } else {
                    c
                };
                assert(olds[i].spec_children()[ob] == news[i].spec_children()[b]);
                assert(olds[i].spec_children()[oc] == news[i].spec_children()[c]);
                assert(olds[olds[i].spec_children()[ob] as int].spec_key()
                    != olds[olds[i].spec_children()[oc] as int].spec_key());
                let vb = news[i].spec_children()[b] as int;
                let vc = news[i].spec_children()[c] as int;
                assert(olds[i].spec_children()[ob] < olds.len());
                assert(olds[i].spec_children()[oc] < olds.len());
                assert(news[vb].spec_key() == olds[vb].spec_key());
                assert(news[vc].spec_key() == olds[vc].spec_key());
            }
            assert(news[i].spec_local() == olds[i].spec_local());
            assert(news[i].spec_world() == olds[i].spec_world());
            assert(news[i].spec_drawables() == olds[i].spec_drawables());
            assert forall|j: int|
                0 <= j < news[i].spec_drawables().len() implies (#[trigger] news[i].spec_drawables()[j]).spec_material().wf()
                && news[i].spec_drawables()[j].spec_model().wf() by {
                assert(olds[i].drawables_wf());
                assert(news[i].spec_drawables()[j] == olds[i].spec_drawables()[j]);
            }
        }
        assert forall|i: int, a: int, j: int, b: int|
            #![trigger news[i].spec_children()[a], news[j].spec_children()[b]]
            (0 <= i < news.len() && 0 <= a < news[i].spec_children().len() && 0 <= j < news.len()
                && 0 <= b < news[j].spec_children().len() && news[i].spec_children()[a]
                == news[j].spec_children()[b]) implies i == j && a == b by {
            let oa: int = if i == pp && a >= aa {
                a + 1
            } else {
                a
            };
            let ob: int = if j == pp && b >= aa {
                b + 1
            } else {
                b
            };
            assert(olds_has_edge(olds, news, i, a, pp, aa));
            assert(olds_has_edge(olds, news, j, b, pp, aa));
            assert(olds[i].spec_children()[oa] == news[i].spec_children()[a]);
            assert(olds[j].spec_children()[ob] == news[j].spec_children()[b]);
        }
        if self.spec_root() is Some {
            let rr = self.spec_root().unwrap() as int;
            assert forall|i: int, a: int|
                (0 <= i < news.len() && 0 <= a
                    < news[i].spec_children().len()) implies #[trigger] news[i].spec_children()[a]
                != rr by {
                assert(olds_has_edge(olds, news, i, a, pp, aa));
                let oa: int = if i == pp && a >= aa {
                    a + 1
                } else {
                    a
                };
                assert(olds[i].spec_children()[oa] == news[i].spec_children()[a]);
            }
        }
    }

    /// Removes (detaches) the first node named `name` found below the root,
    /// in depth-first order. The root itself cannot be removed this way.
    pub fn remove_node_named(&mut self, name: &str) -> (r: Result<(), SceneGraphError>)
        requires
            old(self).wf(),
        ensures
            final(self).wf(),
            final(self).spec_root() == old(self).spec_root(),
            final(self).spec_lights() == old(self).spec_lights(),
            final(self).spec_transform() == old(self).spec_transform(),
            old(self).spec_root() is None ==> r is Err && r.unwrap_err().spec_cause()
                == ErrorCause::Empty && *final(self) == *old(self),
            old(self).spec_root() is Some ==> {
                &&& (r is Ok <==> subtree_has_named_child(
                    old(self).spec_nodes(),
                    old(self).spec_root().unwrap() as int,
                    name@,
                ))
                &&& r is Err ==> r.unwrap_err().spec_cause() == ErrorCause::NotFound
                    && *final(self) == *old(self)
                &&& r is Ok ==> exists|pp: int, aa: int|
                    #![auto]
                    detached_child_state(
                        old(self).spec_nodes(),
                        final(self).spec_nodes(),
                        pp,
                        aa,
                        name@,
                    )
            },
    {
        let root = match self.root {
            Some(r) => r,
            None => {
                return Err(SceneGraphError::err_empty("No root"));
            },
        };
        if self.remove_rec(root, name) {
            Ok(())
        } else {
            Err(SceneGraphError::new(name, &ErrorCause::NotFound))
        }
    }

    /// The one-node rooted chain and the product it denotes.
    proof fn lemma_root_prod(osg: &Scenegraph, root: usize)
        requires
            osg.wf(),
            osg.spec_root() == Some(root),
        ensures
            osg.rooted_chain(seq![root as int]),
            seq![root as int].last() == root as int,
            gmat_prod(osg.chain_locals(seq![root as int])) == gmat_mul(
                osg.spec_transform()@,
                osg.spec_nodes()[root as int].spec_local()@,
            ),
    {
        lemma_chain_singleton(osg.spec_nodes(), root as int);
        let p0 = seq![root as int];
        assert(p0.map_values(|k: int| osg.spec_nodes()[k].spec_local()@) =~= seq![
            osg.spec_nodes()[root as int].spec_local()@,
        ]);
        let locs = osg.chain_locals(p0);
        assert(locs =~= seq![
            osg.spec_transform()@,
            osg.spec_nodes()[root as int].spec_local()@,
        ]);
        assert(locs.drop_last() =~= seq![osg.spec_transform()@]);
        let single = seq![osg.spec_transform()@];
        assert(single.drop_last() =~= Seq::<GMat4>::empty());
        assert(gmat_prod(Seq::<GMat4>::empty()) == gmat_identity());
        assert(single.last() == osg.spec_transform()@);
        assert(gmat_prod(single) == gmat_mul(gmat_identity(), osg.spec_transform()@));
        lemma_gmat_identity_left(osg.spec_transform()@);
        assert(gmat_prod(single) == osg.spec_transform()@);
        assert(gmat_prod(locs.drop_last()) == osg.spec_transform()@);
        assert(locs.last() == osg.spec_nodes()[root as int].spec_local()@);
    }

    /// Computes the root's world transform: scene pre-transform times the
    /// root's local transform.
    fn build_root_world(&mut self, root: usize, Ghost(osg): Ghost<Scenegraph>) -> (r: Result<
        (),
        SceneGraphError,
    >)
        requires
            osg.wf(),
            old(self).wf(),
            same_skeleton(&osg, old(self)),
            osg.spec_root() == Some(root),
        ensures
            final(self).wf(),
            same_skeleton(&osg, final(self)),
            r is Err ==> r.unwrap_err().spec_cause() == ErrorCause::InvalidState
                && !osg.chain_products_ok() && *final(self) == *old(self),
            r is Ok ==> {
                &&& osg.rooted_chain(seq![root as int])
                &&& final(self).spec_nodes()[root as int].spec_world()@ == gmat_prod(
                    osg.chain_locals(seq![root as int]),
                )
                &&& forall|k: int|
                    0 <= k < osg.spec_nodes().len() && k != root as int
                        ==> final(self).spec_nodes()[k] == old(self).spec_nodes()[k]
                &&& same_but_world(
                    old(self).spec_nodes()[root as int],
                    final(self).spec_nodes()[root as int],
                )
            },
    {
        proof {
            assert(root < self.spec_nodes().len());
            assert(node_wf(self.spec_nodes(), root as int));
            assert(same_node_skeleton(
                osg.spec_nodes()[root as int],
                self.spec_nodes()[root as int],
            ));
            Self::lemma_root_prod(&osg, root);
        }
        let t = self.transform;
        let lo = self.nodes[root].local;
        let w0o = t.multiply(&lo);
        if w0o.is_none() {
            proof {
                assert(!gmat_ok(gmat_prod(osg.chain_locals(seq![root as int]))));
                assert(!osg.chain_products_ok());
            }
            return Err(
                SceneGraphError::new("world transform out of range", &ErrorCause::InvalidState),
            );
        }
        let w0 = w0o.unwrap();
        let ghost prev = self.spec_nodes();
        let node_ref = vstd::std_specs::vec::vec_index_mut(&mut self.nodes, root);
        node_ref.world = w0;
        proof {
            lemma_state_after_world_set(osg.spec_nodes(), prev, self.spec_nodes(), root as int);
            assert(same_but_world(prev[root as int], self.spec_nodes()[root as int]));
        }
        Ok(())
    }

    /// One step of the rebuild pass: finalizes the world transform of the
    /// live node at arena index `i`, propagates world transforms to its
    /// children (marking them live), and uploads the node's per-instance
    /// transforms.
    #[verifier::rlimit(100)]
    fn build_visit(
        &mut self,
        i: usize,
        root: usize,
        live: &mut Vec<bool>,
        cmds: &mut Vec<RenderCommand>,
        Ghost(osg): Ghost<Scenegraph>,
    ) -> (r: Result<(), SceneGraphError>)
        requires
            osg.wf(),
            old(self).wf(),
            same_skeleton(&osg, old(self)),
            osg.spec_root() == Some(root),
            i < osg.spec_nodes().len(),
            old(live)@.len() == osg.spec_nodes().len(),
            old(live)@[i as int],
            forall|k: int|
                0 <= k < osg.spec_nodes().len() ==> (old(live)@[k] <==> osg.reach_by(k, i as int)),
            forall|k: int|
                0 <= k < osg.spec_nodes().len() && old(live)@[k] && (k != root as int || i
                    > root as int) ==> exists|p: Seq<int>|
                    #[trigger] osg.rooted_chain(p) && p.last() == k
                        && old(self).spec_nodes()[k].spec_world()@ == gmat_prod(
                        osg.chain_locals(p),
                    ),
        ensures
            final(self).wf(),
            same_skeleton(&osg, final(self)),
            final(live)@.len() == osg.spec_nodes().len(),
            r is Err ==> r.unwrap_err().spec_cause() == ErrorCause::InvalidState
                && !osg.chain_products_ok() && final(cmds)@ == old(cmds)@,
            r is Ok ==> {
                &&& final(cmds)@ == old(cmds)@ + node_upload_cmds(osg.spec_nodes()[i as int])
                &&& forall|k: int|
                    0 <= k < osg.spec_nodes().len() ==> (final(live)@[k] <==> osg.reach_by(
                        k,
                        i as int + 1,
                    ))
                &&& forall|k: int|
                    0 <= k < osg.spec_nodes().len() && final(live)@[k] ==> exists|p: Seq<int>|
                        #[trigger] osg.rooted_chain(p) && p.last() == k
                            && final(self).spec_nodes()[k].spec_world()@ == gmat_prod(
                            osg.chain_locals(p),
                        )
                &&& forall|k: int|
                    0 <= k < osg.spec_nodes().len() && k != i as int && !is_child_of(
                        osg.spec_nodes(),
                        k,
                        i as int,
                    ) ==> final(self).spec_nodes()[k] == old(self).spec_nodes()[k]
                &&& forall|k: int|
                    0 <= k < osg.spec_nodes().len() && is_child_of(osg.spec_nodes(), k, i as int)
                        ==> same_but_world(
                        old(self).spec_nodes()[k],
                        #[trigger] final(self).spec_nodes()[k],
                    )
                &&& forall|j: int|
                    0 <= j < final(self).spec_nodes()[i as int].spec_drawables().len()
                        ==> (#[trigger] final(self).spec_nodes()[i as int].spec_drawables()[j]).spec_model()
                        == final(self).spec_nodes()[i as int].spec_world()
            },
    {
        let ghost base = cmds@;
        let n = self.nodes.len();
        proof {
            assert(n == osg.spec_nodes().len());
        }

                proof {
                    lemma_reach_by_visited(&osg, i as int, i as int + 1);
                    assert(osg.reach_by(i as int, i as int) ==> osg.reach_by(
                        i as int,
                        i as int + 1,
                    ));
                    assert(osg.reachable(i as int));
                }
                if i == root {
                    match self.build_root_world(root, Ghost(osg)) {
                        Ok(()) => {},
                        Err(e) => {
                            proof {
                                assert(cmds@ == old(cmds)@);
                            }
                            return Err(e);
                        },
                    }
                }
                let w = self.nodes[i].world;
                proof {
                    if i != root {
                        assert(osg.reach_by(i as int, i as int));
                    }
                }
                proof {
                    if i as int != root as int {
                        let p = choose|p: Seq<int>|
                            #[trigger] osg.rooted_chain(p) && p.last() == i as int;
                        if p.len() >= 2 {
                            lemma_chain_indices_increase(
                                osg.spec_nodes(),
                                p,
                                0,
                                p.len() - 1,
                            );
                        }
                        assert(root as int <= i as int);
                    }
                }
                proof {
                    assert forall|k: int|
                        0 <= k < n && k != i as int implies self.spec_nodes()[k] == old(
                        self,
                    ).spec_nodes()[k] by {}
                    assert(same_but_world(
                        old(self).spec_nodes()[i as int],
                        self.spec_nodes()[i as int],
                    ));
                    assert(node_wf(self.spec_nodes(), i as int));
                }
                let ghost chain_i = choose|p: Seq<int>|
                    #[trigger] osg.rooted_chain(p) && p.last() == i as int
                        && self.spec_nodes()[i as int].spec_world()@ == gmat_prod(
                        osg.chain_locals(p),
                    );
                let c_count = self.nodes[i].children.len();
                let mut a: usize = 0;
                while a < c_count
                    invariant
                        osg.wf(),
                        self.wf(),
                        same_skeleton(&osg, self),
                        osg.spec_root() == Some(root),
                        n == osg.spec_nodes().len(),
                        live@.len() == n,
                        i < n,
                        root as int <= i as int,
                        live@[i as int],
                        c_count == self.spec_nodes()[i as int].spec_children().len(),
                        0 <= a <= c_count,
                        osg.rooted_chain(chain_i),
                        chain_i.last() == i as int,
                        w == self.spec_nodes()[i as int].spec_world(),
                        w@ == gmat_prod(osg.chain_locals(chain_i)),
                        w.wf(),
                        forall|k: int|
                            0 <= k < n && k != i as int && !is_child_of(
                                osg.spec_nodes(),
                                k,
                                i as int,
                            ) ==> self.spec_nodes()[k] == old(self).spec_nodes()[k],
                        forall|k: int|
                            0 <= k < n && is_child_of(osg.spec_nodes(), k, i as int)
                                ==> same_but_world(
                                old(self).spec_nodes()[k],
                                #[trigger] self.spec_nodes()[k],
                            ),
                        same_but_world(
                            old(self).spec_nodes()[i as int],
                            self.spec_nodes()[i as int],
                        ),
                        forall|k: int| 0 <= k < n && osg.reach_by(k, i as int) ==> live@[k],
                        forall|b: int|
                            0 <= b < a ==> live@[#[trigger] osg.spec_nodes()[i as int].spec_children()[b] as int],
                        forall|k: int|
                            0 <= k < n && live@[k] ==> osg.reach_by(k, i as int) || is_child_of(
                                osg.spec_nodes(),
                                k,
                                i as int,
                            ),
                        forall|k: int|
                            0 <= k < n && live@[k] && (k != root as int || true)
                                ==> exists|p: Seq<int>|
                                #[trigger] osg.rooted_chain(p) && p.last() == k
                                    && self.spec_nodes()[k].spec_world()@ == gmat_prod(
                                    osg.chain_locals(p),
                                ),
                        base == old(cmds)@,
                        cmds@ == base,
                    decreases c_count - a,
                {
                    let c = self.nodes[i].children[a];
                    proof {
                        assert(node_wf(self.spec_nodes(), i as int));
                        assert(self.spec_nodes()[i as int].spec_children()[a as int] == c);
                        assert(i < c < n);
                        assert(node_wf(self.spec_nodes(), c as int));
                        assert(same_node_skeleton(
                            osg.spec_nodes()[c as int],
                            self.spec_nodes()[c as int],
                        ));
                        assert(same_node_skeleton(
                            osg.spec_nodes()[i as int],
                            self.spec_nodes()[i as int],
                        ));
                        assert(is_child_of(osg.spec_nodes(), c as int, i as int)) by {
                            assert(osg.spec_nodes()[i as int].spec_children()[a as int]
                                == c);
                        }
                        lemma_chain_push(osg.spec_nodes(), chain_i, c as int);
                        let locs = osg.chain_locals(chain_i);
                        let locs2 = osg.chain_locals(chain_i.push(c as int));
                        assert(chain_i.push(c as int).map_values(
                            |k: int| osg.spec_nodes()[k].spec_local()@,
                        ) =~= chain_i.map_values(
                            |k: int| osg.spec_nodes()[k].spec_local()@,
                        ).push(osg.spec_nodes()[c as int].spec_local()@));
                        assert(locs2 =~= locs.push(
                            osg.spec_nodes()[c as int].spec_local()@,
                        ));
                        lemma_gmat_prod_push(
                            locs,
                            osg.spec_nodes()[c as int].spec_local()@,
                        );
                        assert(gmat_prod(locs2) == gmat_mul(
                            w@,
                            osg.spec_nodes()[c as int].spec_local()@,
                        ));
                    }
                    let lc = self.nodes[c].local;
                    let wco = w.multiply(&lc);
                    if wco.is_none() {
                        proof {
                            assert(osg.rooted_chain(chain_i.push(c as int)));
                            assert(!gmat_ok(
                                gmat_prod(osg.chain_locals(chain_i.push(c as int))),
                            ));
                            assert(!osg.chain_products_ok());
                            assert(cmds@ == old(cmds)@);
                        }
                        return Err(
                            SceneGraphError::new(
                                "world transform out of range",
                                &ErrorCause::InvalidState,
                            ),
                        );
                    }
                    let wc = wco.unwrap();
                    let ghost prev = self.spec_nodes();
                    let ghost live_prev = live@;
                    let child_ref = vstd::std_specs::vec::vec_index_mut(&mut self.nodes, c);
                    child_ref.world = wc;
                    live[c] = true;
                    proof {
                        assert(live@ =~= live_prev.update(c as int, true));
                        assert(osg.spec_nodes()[i as int].spec_children()[a as int] == c);
                        assert forall|b: int|
                            0 <= b < a + 1 implies live@[#[trigger] osg.spec_nodes()[i as int].spec_children()[b] as int] by {
                            if b < a {
                                assert(live_prev[osg.spec_nodes()[i as int].spec_children()[b] as int]);
                            }
                        }
                        assert forall|k: int|
                            0 <= k < n && live@[k] implies osg.reach_by(k, i as int)
                            || is_child_of(osg.spec_nodes(), k, i as int) by {
                            if k == c as int {
                                assert(is_child_of(osg.spec_nodes(), k, i as int));
                            } else {
                                assert(live_prev[k]);
                            }
                        }
                        lemma_state_after_world_set(
                            osg.spec_nodes(),
                            prev,
                            self.spec_nodes(),
                            c as int,
                        );
                        assert(same_but_world(prev[c as int], self.spec_nodes()[c as int]));
                        assert(is_child_of(osg.spec_nodes(), c as int, i as int));
                        assert forall|k: int|
                            0 <= k < n && is_child_of(
                                osg.spec_nodes(),
                                k,
                                i as int,
                            ) implies same_but_world(
                            old(self).spec_nodes()[k],
                            self.spec_nodes()[k],
                        ) by {
                            if k != c as int {
                                assert(self.spec_nodes()[k] == prev[k]);
                            }
                        }
                        assert(self.spec_nodes()[c as int].spec_world()@ == gmat_prod(
                            osg.chain_locals(chain_i.push(c as int)),
                        ));
                        assert(osg.rooted_chain(chain_i.push(c as int))
                            && chain_i.push(c as int).last() == c as int);
                    }
                    a += 1;
                }
                let d_count = self.nodes[i].drawables.len();
                let mut j: usize = 0;
                while j < d_count
                    invariant
                        osg.wf(),
                        self.wf(),
                        same_skeleton(&osg, self),
                        osg.spec_root() == Some(root),
                        n == osg.spec_nodes().len(),
                        live@.len() == n,
                        i < n,
                        root as int <= i as int,
                        live@[i as int],
                        osg.reachable(i as int),
                        d_count == self.spec_nodes()[i as int].spec_drawables().len(),
                        0 <= j <= d_count,
                        w == self.spec_nodes()[i as int].spec_world(),
                        forall|k: int|
                            0 <= k < n && k != i as int && !is_child_of(
                                osg.spec_nodes(),
                                k,
                                i as int,
                            ) ==> self.spec_nodes()[k] == old(self).spec_nodes()[k],
                        forall|k: int|
                            0 <= k < n && is_child_of(osg.spec_nodes(), k, i as int)
                                ==> same_but_world(
                                old(self).spec_nodes()[k],
                                #[trigger] self.spec_nodes()[k],
                            ),
                        forall|k: int| 0 <= k < n && osg.reach_by(k, i as int) ==> live@[k],
                        forall|b: int|
                            0 <= b < c_count ==> live@[#[trigger] osg.spec_nodes()[i as int].spec_children()[b] as int],
                        forall|k: int|
                            0 <= k < n && live@[k] ==> osg.reach_by(k, i as int) || is_child_of(
                                osg.spec_nodes(),
                                k,
                                i as int,
                            ),
                        forall|k: int|
                            0 <= k < n && live@[k] ==> exists|p: Seq<int>|
                                #[trigger] osg.rooted_chain(p) && p.last() == k
                                    && self.spec_nodes()[k].spec_world()@ == gmat_prod(
                                    osg.chain_locals(p),
                                ),
                        base == old(cmds)@,
                        cmds@ == base + node_upload_cmds(
                            osg.spec_nodes()[i as int],
                        ).take(j as int),
                        forall|jj: int|
                            0 <= jj < j
                                ==> (#[trigger] self.spec_nodes()[i as int].spec_drawables()[jj]).spec_model()
                                == self.spec_nodes()[i as int].spec_world(),
                    decreases d_count - j,
                {
                    proof {
                        assert(same_node_skeleton(
                            osg.spec_nodes()[i as int],
                            self.spec_nodes()[i as int],
                        ));
                        assert(same_but_model(
                            osg.spec_nodes()[i as int].spec_drawables()[j as int],
                            self.spec_nodes()[i as int].spec_drawables()[j as int],
                        ));
                    }
                    let ghost prev = self.spec_nodes();
                    let node_ref = vstd::std_specs::vec::vec_index_mut(&mut self.nodes, i);
                    let d_ref = vstd::std_specs::vec::vec_index_mut(&mut node_ref.drawables, j);
                    d_ref.update_model(&w, cmds);
                    proof {
                        assert(node_wf(prev, i as int));
                        assert(w.wf());
                        lemma_state_after_model_set(
                            osg.spec_nodes(),
                            prev,
                            self.spec_nodes(),
                            i as int,
                            j as int,
                        );
                        assert(cmds@ =~= base + node_upload_cmds(osg.spec_nodes()[i as int]).take(
                            j as int + 1,
                        ));
                    }
                    j += 1;
                }
                proof {
                    assert(node_upload_cmds(osg.spec_nodes()[i as int]).take(d_count as int)
                        =~= node_upload_cmds(osg.spec_nodes()[i as int]));
                    assert(cmds@ =~= base + node_upload_cmds(osg.spec_nodes()[i as int]));
                    assert forall|k: int|
                        0 <= k < n && is_child_of(osg.spec_nodes(), k, i as int) implies live@[k] by {
                        let b = choose|b: int|
                            0 <= b < osg.spec_nodes()[i as int].spec_children().len()
                                && #[trigger] osg.spec_nodes()[i as int].spec_children()[b] as int
                                == k;
                        assert(same_node_skeleton(
                            osg.spec_nodes()[i as int],
                            self.spec_nodes()[i as int],
                        ));
                        assert(b < c_count);
                        assert(live@[osg.spec_nodes()[i as int].spec_children()[b] as int]);
                    }
                    lemma_visit_live(&osg, live@, i as int);
                }
        Ok(())
    }

    /// Rebuilds every reachable node's world transform, top-down, as the
    /// product `pre-transform x A1.local x ... x Ak.local x N.local` of the
    /// local transforms along its chain from the root, and stages and
    /// uploads the result into each owned drawable's per-instance uniform
    /// buffer.
    ///
    /// Must be called once per frame before any draw pass. Fails with
    /// `InvalidState` exactly when some world transform would leave the
    /// representable entry range; the tree shape is never changed.
    #[verifier::rlimit(100)]
    pub fn build_matrices(&mut self, cmds: &mut Vec<RenderCommand>) -> (r: Result<
        (),
        SceneGraphError,
    >)
        requires
            old(self).wf(),
        ensures
            final(self).wf(),
            same_skeleton(old(self), final(self)),
            r is Ok <==> old(self).chain_products_ok(),
            r is Err ==> r.unwrap_err().spec_cause() == ErrorCause::InvalidState,
            r is Ok ==> final(self).worlds_built() && final(self).models_staged(),
            r is Ok ==> final(cmds)@ == old(cmds)@ + old(self).upload_cmds_upto(
                old(self).spec_nodes().len() as int,
            ),
            r is Err ==> exists|jj: int|
                #![auto]
                0 <= jj <= old(self).spec_nodes().len() && final(cmds)@ == old(cmds)@ + old(
                    self,
                ).upload_cmds_upto(jj),
    {
        let ghost base = cmds@;
        let n = self.nodes.len();
        let root = match self.root {
            Some(r) => r,
            None => {
                proof {
                    lemma_upload_upto_no_root(old(self), n as int);
                    assert(cmds@ =~= base + old(self).upload_cmds_upto(n as int));
                    assert forall|p: Seq<int>| !(#[trigger] old(self).rooted_chain(p)) by {}
                    assert forall|k: int| !(#[trigger] self.reachable(k)) by {
                        if self.reachable(k) {
                            let p = choose|p: Seq<int>|
                                #[trigger] self.rooted_chain(p) && p.last() == k;
                        }
                    }
                }
                return Ok(());
            },
        };
        let mut live: Vec<bool> = vec![false; n];
        live[root] = true;
        let mut i: usize = 0;
        while i < n
            invariant
                old(self).wf(),
                self.wf(),
                same_skeleton(old(self), self),
                old(self).spec_root() == Some(root),
                n == old(self).spec_nodes().len(),
                live@.len() == n,
                0 <= i <= n,
                forall|k: int| 0 <= k < n ==> (live@[k] <==> old(self).reach_by(k, i as int)),
                forall|k: int|
                    0 <= k < n && live@[k] && (k != root as int || i > root as int)
                        ==> exists|p: Seq<int>|
                        #[trigger] old(self).rooted_chain(p) && p.last() == k
                            && self.spec_nodes()[k].spec_world()@ == gmat_prod(
                            old(self).chain_locals(p),
                        ),
                base == old(cmds)@,
                cmds@ == base + old(self).upload_cmds_upto(i as int),
                forall|k: int|
                    0 <= k < i && #[trigger] old(self).reachable(k) ==> forall|j: int|
                        0 <= j < self.spec_nodes()[k].spec_drawables().len()
                            ==> (#[trigger] self.spec_nodes()[k].spec_drawables()[j]).spec_model()
                            == self.spec_nodes()[k].spec_world(),
            decreases n - i,
        {
            let is_live = live[i];
            if is_live {
                proof {
                    lemma_reach_by_visited(old(self), i as int, i as int + 1);
                    assert(old(self).reachable(i as int));
                }
                let ghost snap = *self;
                match self.build_visit(i, root, &mut live, cmds, Ghost(*old(self))) {
                    Ok(()) => {
                        proof {
                            assert(old(self).reachable(i as int));
                            assert(old(self).upload_cmds_upto(i as int + 1) == old(
                                self,
                            ).upload_cmds_upto(i as int) + node_upload_cmds(
                                old(self).spec_nodes()[i as int],
                            ));
                            assert(cmds@ =~= base + old(self).upload_cmds_upto(i as int + 1));
                            assert forall|k: int|
                                0 <= k < i + 1 && #[trigger] old(self).reachable(k) implies forall|
                                j: int,
                            |
                                0 <= j < self.spec_nodes()[k].spec_drawables().len() ==> (
                                #[trigger] self.spec_nodes()[k].spec_drawables()[j]).spec_model()
                                    == self.spec_nodes()[k].spec_world() by {
                                if k < i {
                                    assert(node_wf(old(self).spec_nodes(), i as int));
                                    assert(!is_child_of(old(self).spec_nodes(), k, i as int)) by {
                                        if is_child_of(old(self).spec_nodes(), k, i as int) {
                                            let aa = choose|aa: int|
                                                0 <= aa < old(self).spec_nodes()[i as int].spec_children().len()
                                                    && #[trigger] old(self).spec_nodes()[i as int].spec_children()[aa]
                                                    == k;
                                        }
                                    }
                                    assert(self.spec_nodes()[k] == snap.spec_nodes()[k]);
                                }
                            }
                        }
                    },
                    Err(e) => {
                        proof {
                            assert(cmds@ == base + old(self).upload_cmds_upto(i as int));
                            assert(0 <= i as int <= old(self).spec_nodes().len());
                        }
                        return Err(e);
                    },
                }
            } else {
                proof {
                    assert(!old(self).reach_by(i as int, i as int));
                    assert(!old(self).reachable(i as int)) by {
                        if old(self).reachable(i as int) {
                            let p = choose|p: Seq<int>|
                                #[trigger] old(self).rooted_chain(p) && p.last() == i as int;
                            if p.len() == 1 {
                                assert(old(self).reach_by(i as int, i as int));
                            } else {
                                lemma_chain_indices_increase(
                                    old(self).spec_nodes(),
                                    p,
                                    p.len() - 2,
                                    p.len() - 1,
                                );
                                assert(old(self).reach_by(i as int, i as int));
                            }
                        }
                    }
                    assert(old(self).upload_cmds_upto(i as int + 1) == old(self).upload_cmds_upto(
                        i as int,
                    ) + Seq::<RenderCommand>::empty());
                    assert(cmds@ =~= base + old(self).upload_cmds_upto(i as int + 1));
                    assert forall|k: int|
                        0 <= k < n implies (live@[k] <==> old(self).reach_by(
                        k,
                        i as int + 1,
                    )) by {
                        if !live@[k] && old(self).reach_by(k, i as int + 1) {
                            if k == root as int {
                            } else {
                                let p = choose|p: Seq<int>|
                                    #[trigger] old(self).rooted_chain(p) && p.last() == k
                                        && p.len() >= 2 && p[p.len() - 2] < i as int + 1;
                                if p[p.len() - 2] < i as int {
                                    assert(old(self).reach_by(k, i as int));
                                } else {
                                    assert(p[p.len() - 2] == i as int);
                                    lemma_chain_drop_last(old(self).spec_nodes(), p);
                                    let pre = p.drop_last();
                                    assert(old(self).rooted_chain(pre) && pre.last() == i as int);
                                    assert(old(self).reachable(i as int));
                                }
                            }
                        } else if live@[k] && !old(self).reach_by(k, i as int + 1) {
                            lemma_reach_by_widen(old(self), k, i as int, i as int + 1);
                        }
                    }
                }
            }
            i += 1;
        }
        proof {
            let fin = self;
            assert(cmds@ == base + old(self).upload_cmds_upto(n as int));
            assert forall|p: Seq<int>| #[trigger] old(self).rooted_chain(p) implies fin.spec_nodes()[p.last()].spec_world()@
                == gmat_prod(old(self).chain_locals(p)) && gmat_ok(
                gmat_prod(old(self).chain_locals(p)),
            ) by {
                let k = p.last();
                assert(0 <= k < n);
                assert(old(self).reach_by(k, n as int)) by {
                    lemma_reach_by_visited(old(self), k, n as int);
                    assert(old(self).rooted_chain(p) && p.last() == k);
                }
                assert(live@[k]);
                let pw = choose|pw: Seq<int>|
                    #[trigger] old(self).rooted_chain(pw) && pw.last() == k
                        && fin.spec_nodes()[k].spec_world()@ == gmat_prod(
                        old(self).chain_locals(pw),
                    );
                lemma_rooted_chain_unique(old(self).spec_nodes(), root as int, pw, p);
                assert(node_wf(fin.spec_nodes(), k));
                assert(gmat_ok(fin.spec_nodes()[k].spec_world()@));
            }
            assert(old(self).chain_products_ok());
            assert(fin.worlds_built()) by {
                assert forall|p: Seq<int>| #[trigger] fin.rooted_chain(p) implies fin.spec_nodes()[p.last()].spec_world()@
                    == gmat_prod(fin.chain_locals(p)) by {
                    lemma_reachable_same_skeleton(old(self), fin, 0);
                    assert(old(self).rooted_chain(p));
                    assert(fin.chain_locals(p) =~= old(self).chain_locals(p)) by {
                        assert(p.map_values(|k: int| fin.spec_nodes()[k].spec_local()@)
                            =~= p.map_values(
                            |k: int| old(self).spec_nodes()[k].spec_local()@,
                        )) by {
                            assert forall|x: int| 0 <= x < p.len() implies fin.spec_nodes()[p[x]].spec_local()
                                == old(self).spec_nodes()[p[x]].spec_local() by {
                                assert(old(self).rooted_chain(p));
                                assert(0 <= p[x] < n);
                                assert(same_node_skeleton(
                                    old(self).spec_nodes()[p[x]],
                                    fin.spec_nodes()[p[x]],
                                ));
                            }
                        }
                    }
                }
            }
            assert(fin.models_staged()) by {
                assert forall|k: int|
                    0 <= k < fin.spec_nodes().len() && #[trigger] fin.reachable(k) implies forall|
                    j: int,
                |
                    0 <= j < fin.spec_nodes()[k].spec_drawables().len()
                        ==> (#[trigger] fin.spec_nodes()[k].spec_drawables()[j]).spec_model()
                        == fin.spec_nodes()[k].spec_world() by {
                    lemma_reachable_same_skeleton(old(self), fin, k);
                    assert(old(self).reachable(k));
                }
            }
        }
        Ok(())
    }

    /// Releases the entire tree: every node (and its drawables) is dropped
    /// and the root is absent afterwards. Lights are kept.
    pub fn clear(&mut self) -> (r: Result<(), SceneGraphError>)
        requires
            old(self).wf(),
        ensures
            r is Ok,
            final(self).wf(),
            final(self).spec_nodes() == Seq::<Node>::empty(),
            final(self).spec_root() is None,
            final(self).spec_lights() == old(self).spec_lights(),
            final(self).spec_transform() == old(self).spec_transform(),
            forall|i: int| !final(self).reachable(i),
    {
        self.nodes.clear();
        self.root = None;
        proof {
            assert forall|i: int| !self.reachable(i) by {
                if self.reachable(i) {
                    let p = choose|p: Seq<int>| self.rooted_chain(p) && p.last() == i;
                    assert(self.spec_root() is None);
                }
            }
        }
        Ok(())
    }

    /// Attaches one imported record under `parent`: a node with the
    /// record's name and local transform, carrying one drawable per mesh.
    fn attach_record(
        &mut self,
        parent: usize,
        rec: &SceneRecord,
        backend: &mut D3D11Backend,
    ) -> (r: Result<usize, SceneGraphError>)
        requires
            old(self).wf(),
            old(backend).ids_ok(),
            rec.local.wf(),
            forall|m: int|
                0 <= m < rec.meshes@.len() ==> (#[trigger] rec.meshes@[m]).vertices@.len()
                    <= u32::MAX && rec.meshes@[m].indices@.len() <= u32::MAX,
        ensures
            final(self).wf(),
            final(backend).ids_ok(),
            crate::backend::unchanged_but_registry(old(backend), final(backend)),
            final(backend).spec_next_id() >= old(backend).spec_next_id(),
            final(self).spec_root() == old(self).spec_root(),
            final(self).spec_lights() == old(self).spec_lights(),
            final(self).spec_transform() == old(self).spec_transform(),
            r is Ok ==> final(self).spec_nodes().len() == old(self).spec_nodes().len() + 1
                && r.unwrap() == old(self).spec_nodes().len(),
            r is Err ==> final(self).spec_nodes().len() == old(self).spec_nodes().len(),
            final(self).spec_nodes().len() >= old(self).spec_nodes().len(),
    {
        if parent >= self.node_count() {
            return Err(SceneGraphError::new("parent node not found", &ErrorCause::NotFound));
        }
        let mesh_count = rec.meshes.len();
        let mut drawables: Vec<DxDrawable> = Vec::new();
        let mut m: usize = 0;
        while m < mesh_count
            invariant
                *self == *old(self),
                self.wf(),
                backend.ids_ok(),
                crate::backend::unchanged_but_registry(old(backend), backend),
                backend.spec_next_id() >= old(backend).spec_next_id(),
                mesh_count == rec.meshes@.len(),
                0 <= m <= mesh_count,
                forall|x: int|
                    0 <= x < mesh_count ==> (#[trigger] rec.meshes@[x]).vertices@.len()
                        <= u32::MAX && rec.meshes@[x].indices@.len() <= u32::MAX,
                forall|j: int|
                    0 <= j < drawables@.len() ==> (#[trigger] drawables@[j]).spec_material().wf()
                        && drawables@[j].spec_model().wf(),
            decreases mesh_count - m,
        {
            let mesh = &rec.meshes[m];
            let class = if mesh.transparent {
                ObjType::Transparent
            } else {
                ObjType::Opaque
            };
            let mut d = match DxDrawable::from_verts(backend, &mesh.vertices, &mesh.indices, class) {
                Ok(d) => d,
                Err(_) => {
                    return Err(
                        SceneGraphError::new(
                            "mesh resource creation failed",
                            &ErrorCause::InvalidState,
                        ),
                    );
                },
            };
            let slot_count = mesh.textures.len();
            let mut t: usize = 0;
            while t < slot_count
                invariant
                    slot_count == mesh.textures@.len(),
                    0 <= t <= slot_count,
                    d.spec_material().wf(),
                    d.spec_model().wf(),
                decreases slot_count - t,
            {
                let slot = mesh.textures[t];
                d.add_texture(slot.slot, slot.texture);
                t += 1;
            }
            drawables.push(d);
            m += 1;
        }
        let name_ref: Option<&str> = match &rec.name {
            Some(s) => Some(s.as_str()),
            None => None,
        };
        let node = Node::create(name_ref, rec.local, Some(drawables));
        self.add_child(parent, node)
    }

    /// Builds nodes and drawables under `parent` from a batch of imported
    /// records: each record becomes one node attached to `parent`, or to
    /// the node built for an earlier record of the batch where
    /// `parent_rec` says so. Stops at the first failure (a duplicate
    /// sibling name, a dangling parent reference, or a mesh whose GPU
    /// resources could not be created), leaving the nodes built so far in
    /// place.
    pub fn build_subtree(
        &mut self,
        parent: usize,
        records: &Vec<SceneRecord>,
        backend: &mut D3D11Backend,
    ) -> (r: Result<(), SceneGraphError>)
        requires
            old(self).wf(),
            old(backend).ids_ok(),
            forall|i: int|
                0 <= i < records@.len() ==> (#[trigger] records@[i]).local.wf() && (match records@[i].parent_rec {
                    Some(p) => p < i,
                    None => true,
                }),
            forall|i: int, m: int|
                0 <= i < records@.len() && 0 <= m < (#[trigger] records@[i]).meshes@.len() ==> (
                #[trigger] records@[i].meshes@[m]).vertices@.len() <= u32::MAX
                    && records@[i].meshes@[m].indices@.len() <= u32::MAX,
        ensures
            final(self).wf(),
            final(backend).ids_ok(),
            crate::backend::unchanged_but_registry(old(backend), final(backend)),
            final(backend).spec_next_id() >= old(backend).spec_next_id(),
            final(self).spec_root() == old(self).spec_root(),
            final(self).spec_lights() == old(self).spec_lights(),
            final(self).spec_transform() == old(self).spec_transform(),
            r is Ok ==> final(self).spec_nodes().len() == old(self).spec_nodes().len()
                + records@.len(),
    {
        let n = records.len();
        let mut built: Vec<usize> = Vec::new();
        let mut i: usize = 0;
        while i < n
            invariant
                self.wf(),
                backend.ids_ok(),
                crate::backend::unchanged_but_registry(old(backend), backend),
                backend.spec_next_id() >= old(backend).spec_next_id(),
                n == records@.len(),
                0 <= i <= n,
                built@.len() == i,
                self.spec_root() == old(self).spec_root(),
                self.spec_lights() == old(self).spec_lights(),
                self.spec_transform() == old(self).spec_transform(),
                self.spec_nodes().len() == old(self).spec_nodes().len() + i,
                forall|k: int|
                    0 <= k < records@.len() ==> (#[trigger] records@[k]).local.wf() && (match records@[k].parent_rec {
                        Some(p) => p < k,
                        None => true,
                    }),
                forall|k: int, m: int|
                    0 <= k < records@.len() && 0 <= m < (#[trigger] records@[k]).meshes@.len()
                        ==> (#[trigger] records@[k].meshes@[m]).vertices@.len() <= u32::MAX
                        && records@[k].meshes@[m].indices@.len() <= u32::MAX,
            decreases n - i,
        {
            let rec = &records[i];
            let target: usize = match rec.parent_rec {
                Some(p) => built[p],
                None => parent,
            };
            let idx = match self.attach_record(target, rec, backend) {
                Ok(idx) => idx,
                Err(e) => {
                    return Err(e);
                },
            };
            built.push(idx);
            i += 1;
        }
        Ok(())
    }
}

/// One mesh of an imported record: plain vertex and index data, its
/// object class, and the texture handles its material binds.
pub struct MeshRecord {
    pub vertices: Vec<crate::geometry::Vertex>,
    pub indices: Vec<u32>,
    /// Drawn in the forward transparency pass rather than deferred.
    pub transparent: bool,
    pub textures: Vec<MaterialSlot>,
}

/// One imported node record, as the asset-import collaborator hands it
/// over: a name, a local transform, the meshes the node carries, and which
/// earlier record of the same batch it attaches under (`None`: the batch's
/// root parent).
pub struct SceneRecord {
    pub name: Option<String>,
    pub local: Mat4,
    pub meshes: Vec<MeshRecord>,
    pub parent_rec: Option<usize>,
}

} // verus!
