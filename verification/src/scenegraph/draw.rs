//! Draw submission: flattening the live tree's drawables, filtering by
//! object class, sorting by material (stably, by original position) and
//! marking where material state must be rebound.

use vstd::prelude::*;

use super::{is_child_of, node_wf, Scenegraph};
use crate::commands::RenderCommand;
use crate::drawable::{class_matches, draw_cmds, ObjType};
use crate::error::{ErrorCause, SceneGraphError};
use crate::material::{
    lemma_slots_lt_trans, lemma_slots_total, material_before, material_same, slots_lt, Material,
};

verus! {

/// One draw submission: a drawable, addressed by owning node and position,
/// its rank in the flattened pre-sort order, and whether material state
/// must be rebound before the draw.
#[derive(Clone, Copy, Debug, PartialEq, Eq, Structural)]
pub struct DrawSubmission {
    /// Arena index of the owning node.
    pub node: usize,
    /// Position among the node's drawables.
    pub slot: usize,
    /// Rank in the flattened (pre-sort) submission order; the sort breaks
    /// material ties by this rank, which makes it stable.
    pub pos: usize,
    /// Material state differs from the previous submission's.
    pub rebind: bool,
}

/// The submission refers to an existing drawable of a live node that the
/// filter matches.
pub open spec fn sub_valid(sg: &Scenegraph, x: DrawSubmission, filter: ObjType) -> bool {
    &&& x.node < sg.spec_nodes().len()
    &&& sg.reachable(x.node as int)
    &&& x.slot < sg.spec_nodes()[x.node as int].spec_drawables().len()
    &&& class_matches(
        sg.spec_nodes()[x.node as int].spec_drawables()[x.slot as int].spec_object_type(),
        filter,
    )
}

/// The material a submission is drawn with.
pub open spec fn sub_material(sg: &Scenegraph, x: DrawSubmission) -> Material {
    sg.spec_nodes()[x.node as int].spec_drawables()[x.slot as int].spec_material()
}

/// Strict submission order: by material, then by flattened rank.
pub open spec fn sub_lt(sg: &Scenegraph, x: DrawSubmission, y: DrawSubmission) -> bool {
    ||| slots_lt(sub_material(sg, x).bindings(), sub_material(sg, y).bindings())
    ||| (sub_material(sg, x).bindings() == sub_material(sg, y).bindings() && x.pos < y.pos)
}

/// Loose submission order.
pub open spec fn sub_le(sg: &Scenegraph, x: DrawSubmission, y: DrawSubmission) -> bool {
    ||| sub_lt(sg, x, y)
    ||| (sub_material(sg, x).bindings() == sub_material(sg, y).bindings() && x.pos == y.pos)
}

pub proof fn lemma_sub_total(sg: &Scenegraph, x: DrawSubmission, y: DrawSubmission)
    ensures
        sub_le(sg, x, y) || sub_le(sg, y, x),
{
    lemma_slots_total(sub_material(sg, x).bindings(), sub_material(sg, y).bindings());
}

pub proof fn lemma_sub_le_trans(sg: &Scenegraph, x: DrawSubmission, y: DrawSubmission, z: DrawSubmission)
    requires
        sub_le(sg, x, y),
        sub_le(sg, y, z),
    ensures
        sub_le(sg, x, z),
{
    let a = sub_material(sg, x).bindings();
    let b = sub_material(sg, y).bindings();
    let c = sub_material(sg, z).bindings();
    if slots_lt(a, b) && slots_lt(b, c) {
        lemma_slots_lt_trans(a, b, c);
    }
}

/// Decides `sub_lt`.
fn sub_before(sg: &Scenegraph, x: DrawSubmission, y: DrawSubmission, filter: ObjType) -> (r: bool)
    requires
        sg.wf(),
        sub_valid(sg, x, filter),
        sub_valid(sg, y, filter),
    ensures
        r == sub_lt(sg, x, y),
{
    let mx = sg.node_at(x.node).drawable_at(x.slot).material();
    let my = sg.node_at(y.node).drawable_at(y.slot).material();
    if material_before(mx, my) {
        true
    } else if material_same(mx, my) {
        x.pos < y.pos
    } else {
        false
    }
}

impl Scenegraph {
    /// Read access to one drawable.
    pub fn drawable_at(&self, node: usize, slot: usize) -> (r: &crate::drawable::DxDrawable)
        requires
            node < self.spec_nodes().len(),
            slot < self.spec_nodes()[node as int].spec_drawables().len(),
        ensures
            *r == self.spec_nodes()[node as int].spec_drawables()[slot as int],
    {
        self.node_at(node).drawable_at(slot)
    }

    /// Computes, for every arena slot, whether it is part of the live tree.
    pub fn live_flags(&self) -> (r: Vec<bool>)
        requires
            self.wf(),
        ensures
            r@.len() == self.spec_nodes().len(),
            forall|k: int| 0 <= k < r@.len() ==> (r@[k] <==> self.reachable(k)),
    {
        let n = self.nodes.len();
        let mut live: Vec<bool> = vec![false; n];
        let root = match self.root {
            Some(r) => r,
            None => {
                proof {
                    assert forall|k: int| 0 <= k < live@.len() implies !self.reachable(k) by {
                        if self.reachable(k) {
                            let p = choose|p: Seq<int>|
                                #[trigger] self.rooted_chain(p) && p.last() == k;
                        }
                    }
                }
                return live;
            },
        };
        live[root] = true;
        let mut i: usize = 0;
        while i < n
            invariant
                self.wf(),
                self.spec_root() == Some(root),
                n == self.spec_nodes().len(),
                live@.len() == n,
                0 <= i <= n,
                forall|k: int| 0 <= k < n ==> (live@[k] <==> self.reach_by(k, i as int)),
            decreases n - i,
        {
            if live[i] {
                proof {
                    super::lemma_reach_by_visited(self, i as int, i as int + 1);
                    assert(self.reachable(i as int));
                }
                let c_count = self.nodes[i].children.len();
                let mut a: usize = 0;
                while a < c_count
                    invariant
                        self.wf(),
                        self.spec_root() == Some(root),
                        n == self.spec_nodes().len(),
                        live@.len() == n,
                        i < n,
                        self.reachable(i as int),
                        c_count == self.spec_nodes()[i as int].spec_children().len(),
                        0 <= a <= c_count,
                        forall|k: int| 0 <= k < n && self.reach_by(k, i as int) ==> live@[k],
                        forall|b: int|
                            0 <= b < a ==> live@[#[trigger] self.spec_nodes()[i as int].spec_children()[b] as int],
                        forall|k: int|
                            0 <= k < n && live@[k] ==> self.reach_by(k, i as int) || is_child_of(
                                self.spec_nodes(),
                                k,
                                i as int,
                            ),
                    decreases c_count - a,
                {
                    let c = self.nodes[i].children[a];
                    proof {
                        assert(node_wf(self.spec_nodes(), i as int));
                        assert(self.spec_nodes()[i as int].spec_children()[a as int] == c);
                    }
                    let ghost live_prev = live@;
                    live[c] = true;
                    proof {
                        assert(live@ =~= live_prev.update(c as int, true));
                        assert forall|b: int|
                            0 <= b < a + 1 implies live@[#[trigger] self.spec_nodes()[i as int].spec_children()[b] as int] by {
                            if b < a {
                                assert(live_prev[self.spec_nodes()[i as int].spec_children()[b] as int]);
                            }
                        }
                        assert forall|k: int|
                            0 <= k < n && live@[k] implies self.reach_by(k, i as int)
                            || is_child_of(self.spec_nodes(), k, i as int) by {
                            if k == c as int {
                                assert(is_child_of(self.spec_nodes(), k, i as int));
                            } else {
                                assert(live_prev[k]);
                            }
                        }
                    }
                    a += 1;
                }
                proof {
                    assert forall|k: int|
                        0 <= k < n && is_child_of(self.spec_nodes(), k, i as int) implies live@[k] by {
                        let b = choose|b: int|
                            0 <= b < self.spec_nodes()[i as int].spec_children().len()
                                && #[trigger] self.spec_nodes()[i as int].spec_children()[b] as int
                                == k;
                        assert(b < c_count);
                        assert(live@[self.spec_nodes()[i as int].spec_children()[b] as int]);
                    }
                    super::lemma_visit_live(self, live@, i as int);
                }
            } else {
                proof {
                    assert(!self.reach_by(i as int, i as int));
                    assert(!self.reachable(i as int)) by {
                        if self.reachable(i as int) {
                            let p = choose|p: Seq<int>|
                                #[trigger] self.rooted_chain(p) && p.last() == i as int;
                            if p.len() == 1 {
                                assert(self.reach_by(i as int, i as int));
                            } else {
                                super::lemma_chain_indices_increase(
                                    self.spec_nodes(),
                                    p,
                                    p.len() - 2,
                                    p.len() - 1,
                                );
                                assert(self.reach_by(i as int, i as int));
                            }
                        }
                    }
                    assert forall|k: int|
                        0 <= k < n implies (live@[k] <==> self.reach_by(k, i as int + 1)) by {
                        if !live@[k] && self.reach_by(k, i as int + 1) {
                            if self.spec_root() is Some && k == root as int {
                            } else {
                                let p = choose|p: Seq<int>|
                                    #[trigger] self.rooted_chain(p) && p.last() == k && p.len()
                                        >= 2 && p[p.len() - 2] < i as int + 1;
                                if p[p.len() - 2] < i as int {
                                    assert(self.reach_by(k, i as int));
                                } else {
                                    assert(p[p.len() - 2] == i as int);
                                    super::lemma_chain_drop_last(self.spec_nodes(), p);
                                    let pre = p.drop_last();
                                    assert(self.rooted_chain(pre) && pre.last() == i as int);
                                    assert(self.reachable(i as int));
                                }
                            }
                        } else if live@[k] && !self.reach_by(k, i as int + 1) {
                            super::lemma_reach_by_widen(self, k, i as int, i as int + 1);
                        }
                    }
                }
            }
            i += 1;
        }
        proof {
            assert forall|k: int| 0 <= k < n implies (live@[k] <==> self.reachable(k)) by {
                super::lemma_reach_by_visited(self, k, n as int);
            }
        }
        live
    }

    /// Gathers the flattened list of all drawables of the live tree that
    /// match `filter`, stably sorts it by material, and marks each
    /// submission whose material differs from its predecessor's.
    ///
    /// The result holds exactly the matching drawables: each entry is a
    /// matching drawable of a live node, and every matching drawable of a
    /// live node occurs at exactly one position. Entries are sorted by
    /// material (ties broken by flattened rank, so the sort is stable), and
    /// `rebind` is set exactly on the first entry and on every entry whose
    /// material differs from the previous entry's.
    #[verifier::rlimit(100)]
    #[verifier::spinoff_prover]
    pub fn submissions(&self, object_type: ObjType) -> (r: Result<
        Vec<DrawSubmission>,
        SceneGraphError,
    >)
        requires
            self.wf(),
        ensures
            r is Err <==> self.spec_root() is None,
            r is Err ==> r.unwrap_err().spec_cause() == ErrorCause::Empty,
            r is Ok ==> submission_list_ok(self, r.unwrap()@, object_type),
    {
        if self.root.is_none() {
            return Err(SceneGraphError::new("", &ErrorCause::Empty));
        }
        let live = self.live_flags();
        let flat = self.collect_refs(&live, object_type);
        let ghost gflat = flat@;
        let sorted = self.sort_refs(flat, object_type);
        let ghost gsorted = sorted@;
        let flagged = self.mark_rebinds(sorted, object_type);
        proof {
            broadcast use vstd::seq_lib::group_to_multiset_ensures;
            broadcast use vstd::multiset::group_multiset_axioms;

            let subs = flagged@;
            assert forall|t: int|
                0 <= t < subs.len() implies sub_valid(self, #[trigger] subs[t], object_type) by {
                assert(sub_valid(self, gsorted[t], object_type));
            }
            assert(gflat.no_duplicates()) by {
                assert forall|s: int, t: int|
                    0 <= s < gflat.len() && 0 <= t < gflat.len() && s != t implies gflat[s]
                    != gflat[t] by {
                    assert(gflat[s].pos == s && gflat[t].pos == t);
                }
            }
            gflat.lemma_multiset_has_no_duplicates();
            gsorted.lemma_multiset_has_no_duplicates_conv();
            assert forall|k: int, j: int|
                0 <= k < self.spec_nodes().len() && self.reachable(k) && 0 <= j
                    < self.spec_nodes()[k].spec_drawables().len() && class_matches(
                    (#[trigger] self.spec_nodes()[k].spec_drawables()[j]).spec_object_type(),
                    object_type,
                ) implies exists|t: int|
                0 <= t < subs.len() && (#[trigger] subs[t]).node == k && subs[t].slot == j by {
                let t0 = choose|t0: int|
                    0 <= t0 < gflat.len() && (#[trigger] gflat[t0]).node == k && gflat[t0].slot
                        == j;
                let e = gflat[t0];
                assert(gflat.contains(e));
                assert(gflat.to_multiset().count(e) > 0);
                assert(gsorted.to_multiset().count(e) > 0);
                assert(gsorted.contains(e));
                let t1 = choose|t1: int| 0 <= t1 < gsorted.len() && gsorted[t1] == e;
                assert(subs[t1].node == k && subs[t1].slot == j);
            }
            assert forall|s: int, t: int|
                #![trigger subs[s], subs[t]]
                0 <= s < t < subs.len() implies !(subs[s].node == subs[t].node && subs[s].slot
                == subs[t].slot) by {
                if subs[s].node == subs[t].node && subs[s].slot == subs[t].slot {
                    let es = gsorted[s];
                    let et = gsorted[t];
                    assert(es.node == et.node && es.slot == et.slot);
                    assert(gsorted.contains(es) && gsorted.contains(et));
                    assert(gsorted.to_multiset().count(es) > 0);
                    assert(gflat.to_multiset().count(es) > 0);
                    assert(gflat.contains(es));
                    assert(gflat.to_multiset().count(et) > 0);
                    assert(gflat.contains(et));
                    let i1 = choose|i1: int| 0 <= i1 < gflat.len() && gflat[i1] == es;
                    let i2 = choose|i2: int| 0 <= i2 < gflat.len() && gflat[i2] == et;
                    assert(i1 == i2) by {
                        if i1 < i2 {
                            assert(gflat[i1].node < gflat[i2].node || (gflat[i1].node
                                == gflat[i2].node && gflat[i1].slot < gflat[i2].slot));
                        } else if i2 < i1 {
                            assert(gflat[i2].node < gflat[i1].node || (gflat[i2].node
                                == gflat[i1].node && gflat[i2].slot < gflat[i1].slot));
                        }
                    }
                    assert(es == et);
                    assert(gsorted[s] == gsorted[t]);
                    assert(false);
                }
            }
            assert forall|s: int, t: int|
                0 <= s < t < subs.len() implies sub_le(self, #[trigger] subs[s], #[trigger] subs[t]) by {
                assert(sub_le(self, gsorted[s], gsorted[t]));
                assert(sub_material(self, subs[s]) == sub_material(self, gsorted[s]));
                assert(sub_material(self, subs[t]) == sub_material(self, gsorted[t]));
                assert(subs[s].pos == gsorted[s].pos && subs[t].pos == gsorted[t].pos);
            }
            assert forall|t: int|
                0 <= t < subs.len() implies ((#[trigger] subs[t]).rebind <==> (t == 0
                || sub_material(self, subs[t - 1]).bindings() != sub_material(
                self,
                subs[t],
            ).bindings())) by {
                if t > 0 {
                    assert(sub_material(self, subs[t - 1]) == sub_material(self, gsorted[t - 1]));
                    assert(sub_material(self, subs[t]) == sub_material(self, gsorted[t]));
                }
            }
            assert(submission_list_ok(self, subs, object_type));
        }
        Ok(flagged)
    }

    /// Flattens matching drawables of live nodes, in arena order.
    fn collect_refs(&self, live: &Vec<bool>, filter: ObjType) -> (r: Vec<DrawSubmission>)
        requires
            self.wf(),
            live@.len() == self.spec_nodes().len(),
            forall|k: int| 0 <= k < live@.len() ==> (live@[k] <==> self.reachable(k)),
        ensures
            forall|t: int| 0 <= t < r@.len() ==> sub_valid(self, #[trigger] r@[t], filter),
            forall|t: int| 0 <= t < r@.len() ==> (#[trigger] r@[t]).pos == t,
            forall|s: int, t: int|
                0 <= s < t < r@.len() ==> (r@[s].node < r@[t].node || (r@[s].node == r@[t].node
                    && r@[s].slot < r@[t].slot)),
            forall|k: int, j: int|
                0 <= k < self.spec_nodes().len() && self.reachable(k) && 0 <= j
                    < self.spec_nodes()[k].spec_drawables().len() && class_matches(
                    (#[trigger] self.spec_nodes()[k].spec_drawables()[j]).spec_object_type(),
                    filter,
                ) ==> exists|t: int|
                    0 <= t < r@.len() && (#[trigger] r@[t]).node == k && r@[t].slot == j,
    {
        let n = self.nodes.len();
        let mut out: Vec<DrawSubmission> = Vec::new();
        let mut k: usize = 0;
        while k < n
            invariant
                self.wf(),
                n == self.spec_nodes().len(),
                live@.len() == n,
                forall|kk: int| 0 <= kk < n ==> (live@[kk] <==> self.reachable(kk)),
                0 <= k <= n,
                forall|t: int| 0 <= t < out@.len() ==> sub_valid(self, #[trigger] out@[t], filter),
                forall|t: int| 0 <= t < out@.len() ==> (#[trigger] out@[t]).pos == t,
                forall|t: int| 0 <= t < out@.len() ==> (#[trigger] out@[t]).node < k,
                forall|s: int, t: int|
                    0 <= s < t < out@.len() ==> (out@[s].node < out@[t].node || (out@[s].node
                        == out@[t].node && out@[s].slot < out@[t].slot)),
                forall|kk: int, j: int|
                    0 <= kk < k && self.reachable(kk) && 0 <= j
                        < self.spec_nodes()[kk].spec_drawables().len() && class_matches(
                        (#[trigger] self.spec_nodes()[kk].spec_drawables()[j]).spec_object_type(),
                        filter,
                    ) ==> exists|t: int|
                        0 <= t < out@.len() && (#[trigger] out@[t]).node == kk && out@[t].slot == j,
            decreases n - k,
        {
            if live[k] {
                let d_count = self.nodes[k].drawables.len();
                let mut j: usize = 0;
                while j < d_count
                    invariant
                        self.wf(),
                        n == self.spec_nodes().len(),
                        live@.len() == n,
                        forall|kk: int| 0 <= kk < n ==> (live@[kk] <==> self.reachable(kk)),
                        k < n,
                        live@[k as int],
                        d_count == self.spec_nodes()[k as int].spec_drawables().len(),
                        0 <= j <= d_count,
                        forall|t: int|
                            0 <= t < out@.len() ==> sub_valid(self, #[trigger] out@[t], filter),
                        forall|t: int| 0 <= t < out@.len() ==> (#[trigger] out@[t]).pos == t,
                        forall|t: int|
                            0 <= t < out@.len() ==> ((#[trigger] out@[t]).node < k || (out@[t].node
                                == k && out@[t].slot < j)),
                        forall|s: int, t: int|
                            0 <= s < t < out@.len() ==> (out@[s].node < out@[t].node || (
                            out@[s].node == out@[t].node && out@[s].slot < out@[t].slot)),
                        forall|kk: int, jj: int|
                            0 <= kk < n && self.reachable(kk) && 0 <= jj
                                < self.spec_nodes()[kk].spec_drawables().len() && (kk < k as int
                                || (kk == k as int && jj < j)) && class_matches(
                                (
                                #[trigger] self.spec_nodes()[kk].spec_drawables()[jj]).spec_object_type(),
                                filter,
                            ) ==> exists|t: int|
                                0 <= t < out@.len() && (#[trigger] out@[t]).node == kk
                                    && out@[t].slot == jj,
                    decreases d_count - j,
                {
                    let d = self.nodes[k].drawables[j].object_type();
                    if d.matches_filter(filter) {
                        let ghost before = out@;
                        out.push(
                            DrawSubmission { node: k, slot: j, pos: out.len(), rebind: false },
                        );
                        proof {
                            assert forall|kk: int, jj: int|
                                0 <= kk < self.spec_nodes().len() && self.reachable(kk) && 0 <= jj
                                    < self.spec_nodes()[kk].spec_drawables().len() && (kk
                                    < k as int || (kk == k as int && jj < j + 1)) && class_matches(
                                    (
                                    #[trigger] self.spec_nodes()[kk].spec_drawables()[jj]).spec_object_type(),
                                    filter,
                                ) implies exists|t: int|
                                0 <= t < out@.len() && (#[trigger] out@[t]).node == kk
                                    && out@[t].slot == jj by {
                                if kk == k as int && jj == j as int {
                                    assert(out@[out@.len() - 1].node == kk && out@[out@.len()
                                        - 1].slot == jj);
                                } else {
                                    let t = choose|t: int|
                                        0 <= t < before.len() && (#[trigger] before[t]).node == kk
                                            && before[t].slot == jj;
                                    assert(out@[t].node == kk && out@[t].slot == jj);
                                }
                            }
                        }
                    }
                    j += 1;
                }
            } else {
                proof {
                    assert(!self.reachable(k as int));
                }
            }
            k += 1;
        }
        out
    }

    /// Selection sort by `sub_lt`: smallest material first, stable by rank.
    fn sort_refs(&self, input: Vec<DrawSubmission>, filter: ObjType) -> (r: Vec<DrawSubmission>)
        requires
            self.wf(),
            forall|t: int| 0 <= t < input@.len() ==> sub_valid(self, #[trigger] input@[t], filter),
        ensures
            r@.to_multiset() == input@.to_multiset(),
            r@.len() == input@.len(),
            forall|t: int| 0 <= t < r@.len() ==> sub_valid(self, #[trigger] r@[t], filter),
            forall|s: int, t: int|
                0 <= s < t < r@.len() ==> sub_le(self, #[trigger] r@[s], #[trigger] r@[t]),
    {
        let mut rest = input;
        let mut out: Vec<DrawSubmission> = Vec::new();
        proof {
            out@.to_multiset_ensures();
            rest@.to_multiset_ensures();
            assert(out@.to_multiset().add(rest@.to_multiset()) =~= input@.to_multiset());
        }
        while rest.len() > 0
            invariant
                self.wf(),
                out@.to_multiset().add(rest@.to_multiset()) == input@.to_multiset(),
                out@.len() + rest@.len() == input@.len(),
                forall|t: int|
                    0 <= t < rest@.len() ==> sub_valid(self, #[trigger] rest@[t], filter),
                forall|t: int| 0 <= t < out@.len() ==> sub_valid(self, #[trigger] out@[t], filter),
                forall|s: int, t: int|
                    0 <= s < t < out@.len() ==> sub_le(self, #[trigger] out@[s], #[trigger] out@[t]),
                forall|s: int, t: int|
                    0 <= s < out@.len() && 0 <= t < rest@.len() ==> sub_le(
                        self,
                        #[trigger] out@[s],
                        #[trigger] rest@[t],
                    ),
            decreases rest@.len(),
        {
            let mut m: usize = 0;
            let mut t: usize = 1;
            while t < rest.len()
                invariant
                    self.wf(),
                    rest@.len() > 0,
                    forall|x: int|
                        0 <= x < rest@.len() ==> sub_valid(self, #[trigger] rest@[x], filter),
                    0 <= m < rest@.len(),
                    m < t,
                    1 <= t <= rest@.len(),
                    forall|x: int| 0 <= x < t ==> sub_le(self, rest@[m as int], #[trigger] rest@[x]),
                decreases rest@.len() - t,
            {
                if sub_before(self, rest[t], rest[m], filter) {
                    proof {
                        assert forall|x: int|
                            0 <= x < t + 1 implies sub_le(self, rest@[t as int], #[trigger] rest@[x]) by {
                            lemma_sub_total(self, rest@[t as int], rest@[x]);
                            if x < t {
                                lemma_sub_le_trans(self, rest@[t as int], rest@[m as int], rest@[x]);
                            }
                        }
                    }
                    m = t;
                } else {
                    proof {
                        lemma_sub_total(self, rest@[m as int], rest@[t as int]);
                    }
                }
                t += 1;
            }
            let ghost rest_pre = rest@;
            let x = rest.remove(m);
            let ghost out_pre = out@;
            out.push(x);
            proof {
                broadcast use vstd::multiset::group_multiset_axioms;

                rest_pre.to_multiset_ensures();
                out_pre.to_multiset_ensures();
                rest_pre.remove_ensures(m as int);
                assert(rest@.to_multiset() =~= rest_pre.to_multiset().remove(x));
                assert(out@.to_multiset() =~= out_pre.to_multiset().insert(x));
                assert(rest_pre.contains(x)) by {
                    assert(rest_pre[m as int] == x);
                }
                assert(rest_pre.to_multiset().count(x) > 0);
                assert(out@.to_multiset().add(rest@.to_multiset()) =~= out_pre.to_multiset().add(
                    rest_pre.to_multiset(),
                ));
                assert forall|s: int, t: int|
                    0 <= s < t < out@.len() implies sub_le(
                    self,
                    #[trigger] out@[s],
                    #[trigger] out@[t],
                ) by {
                    if t == out@.len() - 1 {
                        assert(out@[s] == out_pre[s]);
                        assert(sub_le(self, out_pre[s], rest_pre[m as int]));
                    } else {
                        assert(out@[s] == out_pre[s] && out@[t] == out_pre[t]);
                    }
                }
                assert forall|s: int, t: int|
                    0 <= s < out@.len() && 0 <= t < rest@.len() implies sub_le(
                    self,
                    #[trigger] out@[s],
                    #[trigger] rest@[t],
                ) by {
                    let tp: int = if t < m as int {
                        t
                    } else {
                        t + 1
                    };
                    assert(rest@[t] == rest_pre[tp]);
                    if s == out@.len() - 1 {
                        assert(out@[s] == x);
                        assert(sub_le(self, rest_pre[m as int], rest_pre[tp]));
                    } else {
                        assert(out@[s] == out_pre[s]);
                        assert(sub_le(self, out_pre[s], rest_pre[tp]));
                    }
                }
                assert forall|t: int|
                    0 <= t < rest@.len() implies sub_valid(self, #[trigger] rest@[t], filter) by {
                    let tp: int = if t < m as int {
                        t
                    } else {
                        t + 1
                    };
                    assert(rest@[t] == rest_pre[tp]);
                }
            }
        }
        proof {
            rest@.to_multiset_ensures();
            assert(rest@.to_multiset().len() == 0);
            broadcast use vstd::multiset::group_multiset_axioms;

            assert(out@.to_multiset() =~= out@.to_multiset().add(rest@.to_multiset()));
            out@.to_multiset_ensures();
        }
        out
    }

    /// Sets each submission's rebind flag: on the first submission, and on
    /// every submission whose material differs from its predecessor's.
    fn mark_rebinds(&self, v: Vec<DrawSubmission>, filter: ObjType) -> (r: Vec<DrawSubmission>)
        requires
            self.wf(),
            forall|t: int| 0 <= t < v@.len() ==> sub_valid(self, #[trigger] v@[t], filter),
        ensures
            r@.len() == v@.len(),
            forall|t: int|
                0 <= t < r@.len() ==> (#[trigger] r@[t]).node == v@[t].node && r@[t].slot
                    == v@[t].slot && r@[t].pos == v@[t].pos,
            forall|t: int|
                0 <= t < r@.len() ==> ((#[trigger] r@[t]).rebind <==> (t == 0 || sub_material(
                    self,
                    v@[t - 1],
                ).bindings() != sub_material(self, v@[t]).bindings())),
    {
        let n = v.len();
        let mut out: Vec<DrawSubmission> = Vec::new();
        let mut t: usize = 0;
        while t < n
            invariant
                self.wf(),
                n == v@.len(),
                forall|x: int| 0 <= x < n ==> sub_valid(self, #[trigger] v@[x], filter),
                0 <= t <= n,
                out@.len() == t,
                forall|x: int|
                    0 <= x < t ==> (#[trigger] out@[x]).node == v@[x].node && out@[x].slot
                        == v@[x].slot && out@[x].pos == v@[x].pos,
                forall|x: int|
                    0 <= x < t ==> ((#[trigger] out@[x]).rebind <==> (x == 0 || sub_material(
                        self,
                        v@[x - 1],
                    ).bindings() != sub_material(self, v@[x]).bindings())),
            decreases n - t,
        {
            let cur = v[t];
            let needs_rebind: bool = if t == 0 {
                true
            } else {
                let prev = v[t - 1];
                let mp = self.node_at(prev.node).drawable_at(prev.slot).material();
                let mc = self.node_at(cur.node).drawable_at(cur.slot).material();
                !material_same(mp, mc)
            };
            out.push(
                DrawSubmission { node: cur.node, slot: cur.slot, pos: cur.pos, rebind: needs_rebind },
            );
            t += 1;
        }
        out
    }

    /// The flattened, material-sorted list of every drawable in the live
    /// tree, regardless of class: each live drawable occurs at exactly one
    /// position, sorted stably by material.
    pub fn traverse(&self) -> (r: Result<Vec<DrawSubmission>, SceneGraphError>)
        requires
            self.wf(),
        ensures
            r is Err <==> self.spec_root() is None,
            r is Err ==> r.unwrap_err().spec_cause() == ErrorCause::Empty,
            r is Ok ==> submission_list_ok(self, r.unwrap()@, ObjType::Any),
    {
        self.submissions(ObjType::Any)
    }

    /// Issues one draw call per submission of `submissions(object_type)`,
    /// in sorted order, rebinding material state only where the material
    /// differs from the immediately preceding drawable's.
    pub fn draw(&self, object_type: ObjType, cmds: &mut Vec<RenderCommand>) -> (r: Result<
        (),
        SceneGraphError,
    >)
        requires
            self.wf(),
        ensures
            r is Err <==> self.spec_root() is None,
            r is Err ==> r.unwrap_err().spec_cause() == ErrorCause::Empty && final(cmds)@ == old(
                cmds,
            )@,
            r is Ok ==> exists|subs: Seq<DrawSubmission>|
                #![auto]
                submission_list_ok(self, subs, object_type) && final(cmds)@ == old(cmds)@
                    + emit_cmds(self, subs),
    {
        let subs = match self.submissions(object_type) {
            Ok(s) => s,
            Err(e) => {
                return Err(e);
            },
        };
        let ghost base = cmds@;
        let n = subs.len();
        let mut t: usize = 0;
        while t < n
            invariant
                self.wf(),
                n == subs@.len(),
                0 <= t <= n,
                forall|x: int| 0 <= x < n ==> sub_valid(self, #[trigger] subs@[x], object_type),
                cmds@ == base + emit_cmds(self, subs@.take(t as int)),
            decreases n - t,
        {
            let s = subs[t];
            let d = self.node_at(s.node).drawable_at(s.slot);
            d.draw(s.rebind, cmds);
            proof {
                assert(subs@.take(t as int + 1).drop_last() =~= subs@.take(t as int));
                assert(subs@.take(t as int + 1).last() == subs@[t as int]);
                assert(cmds@ =~= base + emit_cmds(self, subs@.take(t as int + 1)));
            }
            t += 1;
        }
        proof {
            assert(subs@.take(n as int) =~= subs@);
            assert(submission_list_ok(self, subs@, object_type));
        }
        Ok(())
    }

    /// Issues one draw call per entry of an already-computed submission
    /// list.
    pub fn emit_list(&self, subs: &Vec<DrawSubmission>, cmds: &mut Vec<RenderCommand>)
        requires
            self.wf(),
            forall|x: int|
                0 <= x < subs@.len() ==> sub_valid(self, #[trigger] subs@[x], ObjType::Any)
                    || sub_valid(self, subs@[x], ObjType::Opaque) || sub_valid(
                    self,
                    subs@[x],
                    ObjType::Transparent,
                ),
        ensures
            final(cmds)@ == old(cmds)@ + emit_cmds(self, subs@),
    {
        let ghost base = cmds@;
        let n = subs.len();
        let mut t: usize = 0;
        while t < n
            invariant
                self.wf(),
                n == subs@.len(),
                0 <= t <= n,
                forall|x: int|
                    0 <= x < n ==> sub_valid(self, #[trigger] subs@[x], ObjType::Any) || sub_valid(
                        self,
                        subs@[x],
                        ObjType::Opaque,
                    ) || sub_valid(self, subs@[x], ObjType::Transparent),
                base == old(cmds)@,
                cmds@ == base + emit_cmds(self, subs@.take(t as int)),
            decreases n - t,
        {
            let s = subs[t];
            let d = self.node_at(s.node).drawable_at(s.slot);
            d.draw(s.rebind, cmds);
            proof {
                assert(subs@.take(t as int + 1).drop_last() =~= subs@.take(t as int));
                assert(subs@.take(t as int + 1).last() == subs@[t as int]);
                assert(cmds@ =~= base + emit_cmds(self, subs@.take(t as int + 1)));
            }
            t += 1;
        }
        proof {
            assert(subs@.take(n as int) =~= subs@);
        }
    }

    /// The drawables of the first node named `name`, if any, as
    /// submissions addressing that node.
    pub fn get_drawables_named(&self, name: &str) -> (r: Option<Vec<DrawSubmission>>)
        requires
            self.wf(),
        ensures
            r is Some <==> self.has_node_named(name@),
            r is Some ==> exists|k: int|
                #![auto]
                0 <= k < self.spec_nodes().len() && self.reachable(k) && super::name_matches(
                    self.spec_nodes()[k],
                    name@,
                ) && r.unwrap()@.len() == self.spec_nodes()[k].spec_drawables().len() && forall|
                    t: int,
                |
                    0 <= t < r.unwrap()@.len() ==> (#[trigger] r.unwrap()@[t]).node == k
                        && r.unwrap()@[t].slot == t,
    {
        let k = match self.get_node_named(name) {
            Ok(k) => k,
            Err(_) => {
                return None;
            },
        };
        let d_count = self.node_at(k).drawable_count();
        let mut out: Vec<DrawSubmission> = Vec::new();
        let mut t: usize = 0;
        while t < d_count
            invariant
                0 <= t <= d_count,
                out@.len() == t,
                forall|x: int|
                    0 <= x < t ==> (#[trigger] out@[x]).node == k && out@[x].slot == x,
            decreases d_count - t,
        {
            out.push(DrawSubmission { node: k, slot: t, pos: t, rebind: false });
            t += 1;
        }
        Some(out)
    }
}

/// The five facts `submissions` promises of its result.
pub open spec fn submission_list_ok(
    sg: &Scenegraph,
    subs: Seq<DrawSubmission>,
    filter: ObjType,
) -> bool {
    &&& forall|t: int| 0 <= t < subs.len() ==> sub_valid(sg, #[trigger] subs[t], filter)
    &&& forall|k: int, j: int|
        0 <= k < sg.spec_nodes().len() && sg.reachable(k) && 0 <= j
            < sg.spec_nodes()[k].spec_drawables().len() && class_matches(
            (#[trigger] sg.spec_nodes()[k].spec_drawables()[j]).spec_object_type(),
            filter,
        ) ==> exists|t: int|
            0 <= t < subs.len() && (#[trigger] subs[t]).node == k && subs[t].slot == j
    &&& forall|s: int, t: int|
        #![trigger subs[s], subs[t]]
        0 <= s < t < subs.len() ==> !(subs[s].node == subs[t].node && subs[s].slot == subs[t].slot)
    &&& forall|s: int, t: int|
        0 <= s < t < subs.len() ==> sub_le(sg, #[trigger] subs[s], #[trigger] subs[t])
    &&& forall|t: int|
        0 <= t < subs.len() ==> ((#[trigger] subs[t]).rebind <==> (t == 0 || sub_material(
            sg,
            subs[t - 1],
        ).bindings() != sub_material(sg, subs[t]).bindings()))
}

/// The command stream of a submission list: each drawable's draw call, in
/// order, with its rebind decision applied.
pub open spec fn emit_cmds(sg: &Scenegraph, subs: Seq<DrawSubmission>) -> Seq<RenderCommand>
    decreases subs.len(),
{
    if subs.len() == 0 {
        Seq::empty()
    } else {
        emit_cmds(sg, subs.drop_last()) + draw_cmds(
            &sg.spec_nodes()[subs.last().node as int].spec_drawables()[subs.last().slot as int],
            subs.last().rebind,
        )
    }
}

} // verus!
