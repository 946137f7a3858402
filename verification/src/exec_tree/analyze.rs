//! Analyses over a completed thread tree: traversal utilities, the
//! longest-invocation ranking, recursion-cycle detection, call and loop
//! frequency rankings, fan-out ranking, and the lowest-common-ancestor
//! query.
//!
//! Every analysis reads the tree and never changes it: each function's
//! result is a function of the tree's model alone.

use vstd::prelude::*;

use crate::exec_tree::action::{ActModel, ExecAction, FuncTypeModel};
use crate::exec_tree::thread_tree::{
    back_link_ok, call_act_links, depth_of, linked, parents_wf, ExecFuncNode, NodeModel,
    ThreadExecTree,
};
use crate::loc::{LocModel, SrcLoc};
use crate::tree::{NodeIdx, NodeKind};

verus! {

/// The child index a `Call` action owns, if the action is one.
pub open spec fn act_child(a: ActModel) -> Option<int> {
    match a {
        ActModel::Func(f) => match f.typ {
            FuncTypeModel::Call { child, .. } => Some(child),
            _ => None,
        },
        _ => None,
    }
}

/// The children owned by an action list, in list order.
pub open spec fn children_of_acts(acts: Seq<ActModel>) -> Seq<int>
    decreases acts.len(),
{
    if acts.len() == 0 {
        Seq::empty()
    } else {
        let rest = children_of_acts(acts.drop_last());
        match act_child(acts.last()) {
            Some(c) => rest.push(c),
            None => rest,
        }
    }
}

/// The child of every `Call` action stands in the children list.
pub proof fn lemma_child_in_children(acts: Seq<ActModel>, k: int)
    requires
        0 <= k < acts.len(),
        act_child(acts[k]) is Some,
    ensures
        children_of_acts(acts).contains(act_child(acts[k])->0),
    decreases acts.len(),
{
    if k == acts.len() - 1 {
        assert(children_of_acts(acts).last() == act_child(acts[k])->0);
    } else {
        lemma_child_in_children(acts.drop_last(), k);
        let rest = children_of_acts(acts.drop_last());
        let m = choose|m: int| 0 <= m < rest.len() && rest[m] == act_child(acts[k])->0;
        assert(children_of_acts(acts)[m] == act_child(acts[k])->0);
    }
}

/// Every entry of the children list is the child of some `Call` action.
pub proof fn lemma_children_are_calls(acts: Seq<ActModel>, m: int)
    requires
        0 <= m < children_of_acts(acts).len(),
    ensures
        exists|k: int|
            0 <= k < acts.len() && act_child(#[trigger] acts[k]) == Some(
                children_of_acts(acts)[m],
            ),
    decreases acts.len(),
{
    let cs = children_of_acts(acts);
    let rest = children_of_acts(acts.drop_last());
    if m < rest.len() {
        lemma_children_are_calls(acts.drop_last(), m);
        let k = choose|k: int|
            0 <= k < acts.drop_last().len() && act_child(#[trigger] acts.drop_last()[k]) == Some(
                rest[m],
            );
        assert(act_child(acts[k]) == Some(cs[m]));
    } else {
        assert(act_child(acts[acts.len() - 1]) == Some(cs[m]));
    }
}

/// In a linked arena, node `j` stands among the children of `p` exactly
/// when its identity names `p` as parent.
pub proof fn lemma_children_iff_parent(nodes: Seq<NodeModel>, p: int, j: int)
    requires
        parents_wf(nodes),
        linked(nodes),
        0 <= p < nodes.len(),
        0 <= j < nodes.len(),
    ensures
        children_of_acts(nodes[p].acts).contains(j) <==> (nodes[j].kind
            matches NodeKind::Regular { parent, .. } && parent == p),
{
    let cs = children_of_acts(nodes[p].acts);
    if cs.contains(j) {
        let m = choose|m: int| 0 <= m < cs.len() && cs[m] == j;
        lemma_children_are_calls(nodes[p].acts, m);
        let k = choose|k: int|
            0 <= k < nodes[p].acts.len() && act_child(#[trigger] nodes[p].acts[k]) == Some(j);
        assert(call_act_links(nodes, p, k));
    }
    if nodes[j].kind matches NodeKind::Regular { parent, .. } && parent == p {
        assert(back_link_ok(nodes, j));
        match nodes[j].kind {
            NodeKind::Regular { name, parent, act_index } => {
                assert(act_child(nodes[p].acts[act_index]) == Some(j));
                lemma_child_in_children(nodes[p].acts, act_index);
            },
            NodeKind::Init => {},
        }
    }
}

impl ThreadExecTree {
    /// The direct children of node `i`, in call order: the child of each
    /// `Call` action of the node's list, scanned forward.
    pub fn sub_funcs(&self, i: NodeIdx) -> (r: Vec<NodeIdx>)
        requires
            i < self@.nodes.len(),
        ensures
            r@.map_values(|x: NodeIdx| x as int) == children_of_acts(self@.nodes[i as int].acts),
    {
        let node = self.get_node(i);
        let acts = node.iter_acts();
        let n: usize = acts.len();
        let mut r: Vec<NodeIdx> = Vec::new();
        let mut idx: usize = 0;
        proof {
            assert(self@.nodes[i as int].acts.take(0) =~= Seq::<ActModel>::empty());
            assert(r@.map_values(|x: NodeIdx| x as int) =~= Seq::<int>::empty());
        }
        while idx < n
            invariant
                n == acts@.len(),
                acts@.map_values(|a: ExecAction| a@) == self@.nodes[i as int].acts,
                idx <= n,
                r@.map_values(|x: NodeIdx| x as int) == children_of_acts(
                    self@.nodes[i as int].acts.take(idx as int),
                ),
            decreases n - idx,
        {
            let ghost sacts = self@.nodes[i as int].acts;
            proof {
                assert(sacts.take(idx as int + 1).drop_last() =~= sacts.take(idx as int));
                assert(sacts.take(idx as int + 1).last() == sacts[idx as int]);
                assert(sacts[idx as int] == acts@[idx as int]@);
            }
            if let ExecAction::Func(f) = &acts[idx] {
                if f.is_call() {
                    match f.get_child_ptr() {
                        Some(c) => {
                            r.push(c);
                            proof {
                                assert(r@.map_values(|x: NodeIdx| x as int) =~= children_of_acts(
                                    sacts.take(idx as int),
                                ).push(c as int));
                            }
                        },
                        None => {
                            proof {
                                assert(false);
                            }
                        },
                    }
                }
            }
            idx = idx + 1;
        }
        proof {
            assert(self@.nodes[i as int].acts.take(n as int) =~= self@.nodes[i as int].acts);
        }
        r
    }
}

/// Whether the integer `c` occurs among the indices of `q`.
pub open spec fn contains_idx(q: Seq<NodeIdx>, c: int) -> bool {
    exists|i: int| 0 <= i < q.len() && (#[trigger] q[i]) as int == c
}

/// The action index a child's identity records; a helper for stating
/// call order.
pub open spec fn child_act_index(nodes: Seq<NodeModel>, c: int) -> int {
    match nodes[c].kind {
        NodeKind::Regular { act_index, .. } => act_index,
        NodeKind::Init => -1,
    }
}

/// The children of the first `t` actions all carry an owning action
/// index below `t`, point back at `p`, and are pairwise distinct.
pub proof fn lemma_children_nodup_rec(nodes: Seq<NodeModel>, p: int, t: int)
    requires
        parents_wf(nodes),
        linked(nodes),
        0 <= p < nodes.len(),
        0 <= t <= nodes[p].acts.len(),
    ensures
        children_of_acts(nodes[p].acts.take(t)).no_duplicates(),
        forall|m: int|
            0 <= m < children_of_acts(nodes[p].acts.take(t)).len() ==> {
                let c = #[trigger] children_of_acts(nodes[p].acts.take(t))[m];
                &&& 1 <= c < nodes.len()
                &&& nodes[c].kind matches NodeKind::Regular { parent, act_index, .. } && parent
                    == p && act_index < t
            },
        forall|m1: int, m2: int|
            0 <= m1 < m2 < children_of_acts(nodes[p].acts.take(t)).len() ==> child_act_index(
                nodes,
                #[trigger] children_of_acts(nodes[p].acts.take(t))[m1],
            ) < child_act_index(
                nodes,
                #[trigger] children_of_acts(nodes[p].acts.take(t))[m2],
            ),
    decreases t,
{
    if t > 0 {
        lemma_children_nodup_rec(nodes, p, t - 1);
        let pre = nodes[p].acts.take(t - 1);
        let cur = nodes[p].acts.take(t);
        assert(cur.drop_last() =~= pre);
        assert(cur.last() == nodes[p].acts[t - 1]);
        match act_child(nodes[p].acts[t - 1]) {
            Some(c) => {
                assert(call_act_links(nodes, p, t - 1));
                assert(children_of_acts(cur) == children_of_acts(pre).push(c));
                assert forall|m: int|
                    0 <= m < children_of_acts(cur).len() implies {
                    let cc = #[trigger] children_of_acts(cur)[m];
                    &&& 1 <= cc < nodes.len()
                    &&& nodes[cc].kind matches NodeKind::Regular { parent, act_index, .. }
                        && parent == p && act_index < t
                } by {
                    if m < children_of_acts(pre).len() {
                        assert(children_of_acts(cur)[m] == children_of_acts(pre)[m]);
                    } else {
                        assert(children_of_acts(cur)[m] == c);
                    }
                };
                if children_of_acts(pre).contains(c) {
                    let m = choose|m: int|
                        0 <= m < children_of_acts(pre).len() && children_of_acts(pre)[m] == c;
                    assert(false);
                }
            },
            None => {
                assert(children_of_acts(cur) == children_of_acts(pre));
            },
        }
    } else {
        assert(nodes[p].acts.take(0) =~= Seq::<ActModel>::empty());
    }
}

/// The children of one node are pairwise distinct, each pointing back at
/// the node as parent.
pub proof fn lemma_children_nodup(nodes: Seq<NodeModel>, p: int)
    requires
        parents_wf(nodes),
        linked(nodes),
        0 <= p < nodes.len(),
    ensures
        children_of_acts(nodes[p].acts).no_duplicates(),
        forall|m: int|
            0 <= m < children_of_acts(nodes[p].acts).len() ==> {
                let c = #[trigger] children_of_acts(nodes[p].acts)[m];
                &&& 1 <= c < nodes.len()
                &&& nodes[c].kind matches NodeKind::Regular { parent, .. } && parent == p
            },
        forall|m1: int, m2: int|
            0 <= m1 < m2 < children_of_acts(nodes[p].acts).len() ==> child_act_index(
                nodes,
                #[trigger] children_of_acts(nodes[p].acts)[m1],
            ) < child_act_index(nodes, #[trigger] children_of_acts(nodes[p].acts)[m2]),
{
    lemma_children_nodup_rec(nodes, p, nodes[p].acts.len() as int);
    assert(nodes[p].acts.take(nodes[p].acts.len() as int) =~= nodes[p].acts);
}

/// A sequence of distinct values below `bound` has at most `bound`
/// entries.
proof fn lemma_nodup_bounded_len(s: Seq<int>, bound: int)
    requires
        s.no_duplicates(),
        forall|i: int| 0 <= i < s.len() ==> 0 <= #[trigger] s[i] < bound,
        0 <= bound,
    ensures
        s.len() <= bound,
{
    broadcast use vstd::seq_lib::seq_to_set_is_finite;

    s.unique_seq_to_set();
    assert(s.to_set().subset_of(vstd::set_lib::set_int_range(0, bound))) by {
        assert forall|x: int| s.to_set().contains(x) implies vstd::set_lib::set_int_range(
            0,
            bound,
        ).contains(x) by {
            let i = choose|i: int| 0 <= i < s.len() && s[i] == x;
        };
    };
    vstd::set_lib::lemma_int_range(0, bound);
    vstd::set_lib::lemma_len_subset(s.to_set(), vstd::set_lib::set_int_range(0, bound));
}

/// A sequence of distinct values containing every value below `bound`
/// has at least `bound` entries.
proof fn lemma_contains_all_len(s: Seq<int>, bound: int)
    requires
        s.no_duplicates(),
        forall|v: int| 0 <= v < bound ==> s.contains(v),
        0 <= bound,
    ensures
        s.len() >= bound,
{
    broadcast use vstd::seq_lib::seq_to_set_is_finite;

    s.unique_seq_to_set();
    assert(vstd::set_lib::set_int_range(0, bound).subset_of(s.to_set())) by {
        assert forall|x: int| vstd::set_lib::set_int_range(0, bound).contains(
            x,
        ) implies s.to_set().contains(x) by {
            assert(s.contains(x));
        };
    };
    vstd::set_lib::lemma_int_range(0, bound);
    vstd::set_lib::lemma_len_subset(vstd::set_lib::set_int_range(0, bound), s.to_set());
}

/// Every node of a linked arena occurs in a processed queue that starts
/// at the root and is closed under children.
proof fn lemma_bfs_complete(nodes: Seq<NodeModel>, q: Seq<NodeIdx>, v: int)
    requires
        parents_wf(nodes),
        linked(nodes),
        q.len() >= 1,
        q[0] == 0,
        forall|pi: int, c: int|
            0 <= pi < q.len() && #[trigger] children_of_acts(nodes[q[pi] as int].acts).contains(
                c,
            ) ==> contains_idx(q, c),
        forall|m: int| 0 <= m < q.len() ==> (#[trigger] q[m]) < nodes.len(),
        0 <= v < nodes.len(),
    ensures
        contains_idx(q, v),
    decreases v,
{
    if v == 0 {
        assert(q[0] as int == 0);
    } else {
        match nodes[v].kind {
            NodeKind::Regular { parent, .. } => {
                lemma_bfs_complete(nodes, q, parent);
                let pi = choose|pi: int| 0 <= pi < q.len() && (#[trigger] q[pi]) as int == parent;
                lemma_children_iff_parent(nodes, parent, v);
                assert(children_of_acts(nodes[q[pi] as int].acts).contains(v));
            },
            NodeKind::Init => {
                assert(false);
            },
        }
    }
}

/// The breadth-first expansion of a queue: the node under the read
/// position appends its children, until the queue is exhausted.
pub open spec fn bfs_from(nodes: Seq<NodeModel>, q: Seq<NodeIdx>, head: int) -> Seq<NodeIdx>
    decreases nodes.len() - head,
{
    if head < 0 || head >= q.len() || head >= nodes.len() || q[head] as int >= nodes.len() {
        q
    } else {
        bfs_from(nodes, q + children_idx(nodes, q[head] as int), head + 1)
    }
}

/// The breadth-first order of a tree's nodes, from the root.
pub open spec fn bfs_order(nodes: Seq<NodeModel>) -> Seq<NodeIdx> {
    bfs_from(nodes, seq![0 as NodeIdx], 0)
}

impl ThreadExecTree {
    /// Every reachable node in breadth-first order, starting from the
    /// root: each node of the arena appears exactly once, and the order
    /// is exactly the queue expansion `bfs_order`.
    #[verifier::rlimit(100)]
    #[verifier::spinoff_prover]
    pub fn bfs_nodes(&self) -> (r: Vec<NodeIdx>)
        requires
            parents_wf(self@.nodes),
            linked(self@.nodes),
        ensures
            r@ == bfs_order(self@.nodes),
            r@.len() == self@.nodes.len(),
            forall|m: int| 0 <= m < r@.len() ==> (#[trigger] r@[m]) < self@.nodes.len(),
            r@.map_values(|x: NodeIdx| x as int).no_duplicates(),
            forall|v: int| 0 <= v < self@.nodes.len() ==> contains_idx(r@, v),
            r@[0] == 0,
    {
        let ghost nodes = self@.nodes;
        let len: usize = self.node_count();
        let mut q: Vec<NodeIdx> = Vec::new();
        q.push(0);
        let mut head: usize = 0;
        proof {
            assert(q@.map_values(|x: NodeIdx| x as int).no_duplicates());
            assert(q@ =~= seq![0 as NodeIdx]);
        }
        while head < q.len()
            invariant
                nodes == self@.nodes,
                parents_wf(nodes),
                linked(nodes),
                len == nodes.len(),
                bfs_order(nodes) == bfs_from(nodes, q@, head as int),
                1 <= q@.len() <= len,
                q@[0] == 0,
                head <= q@.len(),
                forall|m: int| 0 <= m < q@.len() ==> (#[trigger] q@[m]) < len,
                q@.map_values(|x: NodeIdx| x as int).no_duplicates(),
                forall|pi: int, c: int|
                    0 <= pi < head && #[trigger] children_of_acts(
                        nodes[q@[pi] as int].acts,
                    ).contains(c) ==> contains_idx(q@, c),
                forall|qi: int|
                    0 <= qi < q@.len() ==> (#[trigger] q@[qi]) == 0 || (
                    nodes[q@[qi] as int].kind matches NodeKind::Regular { parent, .. }
                        && contains_idx(q@.take(head as int), parent)),
            decreases len - head,
        {
            let p: NodeIdx = q[head];
            let kids = self.sub_funcs(p);
            let ghost kid_models = children_of_acts(nodes[p as int].acts);
            proof {
                lemma_children_nodup(nodes, p as int);
            }
            let kn: usize = kids.len();
            let mut ki: usize = 0;
            let ghost q_before = q@;
            while ki < kn
                invariant
                    nodes == self@.nodes,
                    parents_wf(nodes),
                    linked(nodes),
                    len == nodes.len(),
                    head < q_before.len(),
                    q_before[head as int] == p,
                    kn == kids@.len(),
                    kids@.map_values(|x: NodeIdx| x as int) == kid_models,
                    kid_models == children_of_acts(nodes[p as int].acts),
                    kid_models.no_duplicates(),
                    forall|m: int|
                        0 <= m < kid_models.len() ==> {
                            let c = #[trigger] kid_models[m];
                            &&& 1 <= c < nodes.len()
                            &&& nodes[c].kind matches NodeKind::Regular { parent, .. } && parent
                                == p
                        },
                    ki <= kn,
                    q@ =~= q_before + kids@.subrange(0, ki as int),
                    1 <= q@.len(),
                    q@[0] == 0,
                    head <= q@.len(),
                    forall|m: int| 0 <= m < q@.len() ==> (#[trigger] q@[m]) < len,
                    q@.map_values(|x: NodeIdx| x as int).no_duplicates(),
                    forall|pi: int, c: int|
                        0 <= pi < head && #[trigger] children_of_acts(
                            nodes[q@[pi] as int].acts,
                        ).contains(c) ==> contains_idx(q@, c),
                    forall|qi: int|
                        0 <= qi < q_before.len() ==> (#[trigger] q_before[qi]) == 0 || (
                        nodes[q_before[qi] as int].kind matches NodeKind::Regular { parent, .. }
                            && contains_idx(q_before.take(head as int), parent)),
                decreases kn - ki,
            {
                let kid: NodeIdx = kids[ki];
                proof {
                    assert(kid_models[ki as int] == kid as int);
                    if contains_idx(q@, kid as int) {
                        let qi = choose|qi: int|
                            0 <= qi < q@.len() && (#[trigger] q@[qi]) as int == kid as int;
                        if qi < q_before.len() {
                            assert(q_before[qi] == kid);
                            assert(nodes[kid as int].kind matches NodeKind::Regular {
                                parent,
                                ..
                            } && parent == p);
                            let hi = choose|hi: int|
                                0 <= hi < head && (#[trigger] q_before.take(head as int)[hi])
                                    as int == p as int;
                            assert(q@[hi] == q_before[hi]);
                            assert(q@[head as int] == p);
                            assert(q@.map_values(|x: NodeIdx| x as int)[hi] == q@.map_values(
                                |x: NodeIdx| x as int,
                            )[head as int]);
                            assert(false);
                        } else {
                            let mj = qi - q_before.len();
                            assert(kids@.subrange(0, ki as int)[mj] == kid);
                            assert(kid_models[mj] == kid as int);
                            assert(false);
                        }
                    }
                }
                q.push(kid);
                proof {
                    assert(q@.map_values(|x: NodeIdx| x as int) =~= (q_before + kids@.subrange(
                        0,
                        ki as int,
                    )).map_values(|x: NodeIdx| x as int).push(kid as int));
                    assert forall|pi: int, c: int|
                        0 <= pi < head && #[trigger] children_of_acts(
                            nodes[q@[pi] as int].acts,
                        ).contains(c) implies contains_idx(q@, c) by {
                        assert(q@[pi] == (q_before + kids@.subrange(0, ki as int + 1))[pi]);
                        let old_q = q_before + kids@.subrange(0, ki as int);
                        assert(old_q[pi] == q@[pi]);
                        assert(contains_idx(old_q, c));
                        let oi = choose|oi: int|
                            0 <= oi < old_q.len() && (#[trigger] old_q[oi]) as int == c;
                        assert(q@[oi] as int == c);
                    };
                    lemma_nodup_bounded_len(q@.map_values(|x: NodeIdx| x as int), len as int);
                }
                ki = ki + 1;
            }
            head = head + 1;
            proof {
                assert(kids@.subrange(0, kn as int) =~= kids@);
                assert(kids@ =~= children_idx(nodes, p as int)) by {
                    let cs = children_of_acts(nodes[p as int].acts);
                    assert(forall|m: int|
                        0 <= m < kids@.len() ==> (#[trigger] kids@[m]) as int == cs[m]);
                };
                assert(q@ =~= q_before + children_idx(nodes, p as int));
                assert(bfs_from(nodes, q_before, head - 1) == bfs_from(nodes, q@, head as int));
                assert forall|pi: int, c: int|
                    0 <= pi < head && #[trigger] children_of_acts(
                        nodes[q@[pi] as int].acts,
                    ).contains(c) implies contains_idx(q@, c) by {
                    if pi == head - 1 {
                        assert(q@[pi] == p);
                        assert(kids@.subrange(0, kn as int) =~= kids@);
                        let m = choose|m: int| 0 <= m < kid_models.len() && kid_models[m] == c;
                        assert(q@[q_before.len() + m] as int == c);
                    }
                };
                assert forall|qi: int|
                    0 <= qi < q@.len() implies (#[trigger] q@[qi]) == 0 || (
                    nodes[q@[qi] as int].kind matches NodeKind::Regular { parent, .. }
                        && contains_idx(q@.take(head as int), parent)) by {
                    if qi < q_before.len() {
                        assert(q@[qi] == q_before[qi]);
                        if q_before[qi] != 0 {
                            match nodes[q_before[qi] as int].kind {
                                NodeKind::Regular { parent, .. } => {
                                    let hi = choose|hi: int|
                                        0 <= hi < head - 1 && (#[trigger] q_before.take(
                                            (head - 1) as int,
                                        )[hi]) as int == parent;
                                    assert(q@.take(head as int)[hi] as int == parent);
                                },
                                NodeKind::Init => {},
                            }
                        }
                    } else {
                        assert(kids@.subrange(0, kn as int) =~= kids@);
                        let m = qi - q_before.len();
                        assert(q@[qi] as int == kid_models[m]);
                        assert(nodes[q@[qi] as int].kind matches NodeKind::Regular {
                            parent,
                            ..
                        } && parent == p);
                        assert(q@.take(head as int)[head - 1] == p);
                    }
                };
                lemma_nodup_bounded_len(q@.map_values(|x: NodeIdx| x as int), len as int);
            }
        }
        proof {
            assert(bfs_order(nodes) == q@);
            assert forall|v: int| 0 <= v < len implies contains_idx(q@, v) by {
                lemma_bfs_complete(nodes, q@, v);
            };
            let ghost qm = q@.map_values(|x: NodeIdx| x as int);
            assert forall|v: int| 0 <= v < len implies #[trigger] qm.contains(v) by {
                assert(contains_idx(q@, v));
                let i = choose|i: int| 0 <= i < q@.len() && (#[trigger] q@[i]) as int == v;
                assert(qm[i] == v);
            };
            lemma_contains_all_len(qm, len as int);
        }
        q
    }
}

/// The children of node `p`, as arena indices.
pub open spec fn children_idx(nodes: Seq<NodeModel>, p: int) -> Seq<NodeIdx> {
    children_of_acts(nodes[p].acts).map_values(|c: int| c as NodeIdx)
}

/// A breadth-first iterator over a tree's nodes: a queue of indices with
/// a read position; visiting a node enqueues its children.
pub struct ThreadTreeIter {
    queue: Vec<NodeIdx>,
    head: usize,
}

impl ThreadTreeIter {
    pub closed spec fn queue_view(&self) -> Seq<NodeIdx> {
        self.queue@
    }

    pub closed spec fn head_view(&self) -> int {
        self.head as int
    }

    pub fn new(root: NodeIdx) -> (r: Self)
        ensures
            r.queue_view() == seq![root],
            r.head_view() == 0,
    {
        let mut queue: Vec<NodeIdx> = Vec::new();
        queue.push(root);
        let r = Self { queue, head: 0 };
        proof {
            assert(r.queue_view() =~= seq![root]);
        }
        r
    }

    /// The next node in breadth-first order: the one under the read
    /// position, whose children join the end of the queue.
    pub fn next(&mut self, tree: &ThreadExecTree) -> (r: Option<NodeIdx>)
        requires
            parents_wf(tree@.nodes),
            linked(tree@.nodes),
            forall|m: int|
                0 <= m < old(self).queue_view().len() ==> (#[trigger] old(self).queue_view()[m])
                    < tree@.nodes.len(),
        ensures
            forall|m: int|
                0 <= m < final(self).queue_view().len()
                    ==> (#[trigger] final(self).queue_view()[m]) < tree@.nodes.len(),
            match r {
                Some(p) => old(self).head_view() < old(self).queue_view().len()
                    && p == old(self).queue_view()[old(self).head_view()]
                    && final(self).head_view() == old(self).head_view() + 1
                    && final(self).queue_view() == old(self).queue_view() + children_idx(
                    tree@.nodes,
                    p as int,
                ),
                None => old(self).head_view() >= old(self).queue_view().len()
                    && final(self).queue_view() == old(self).queue_view()
                    && final(self).head_view() == old(self).head_view(),
            },
    {
        if self.head >= self.queue.len() {
            return None;
        }
        let p: NodeIdx = self.queue[self.head];
        proof {
            assert(p == old(self).queue_view()[old(self).head_view()]);
            assert(p < tree@.nodes.len());
            lemma_children_nodup(tree@.nodes, p as int);
        }
        self.head = self.head + 1;
        let kids = tree.sub_funcs(p);
        let kn: usize = kids.len();
        let mut ki: usize = 0;
        let ghost q0 = self.queue@;
        while ki < kn
            invariant
                kn == kids@.len(),
                ki <= kn,
                self.head as int == old(self).head_view() + 1,
                self.queue@ == q0 + kids@.subrange(0, ki as int),
                forall|m: int| 0 <= m < q0.len() ==> (#[trigger] q0[m]) < tree@.nodes.len(),
                kids@.map_values(|x: NodeIdx| x as int) == children_of_acts(
                    tree@.nodes[p as int].acts,
                ),
                p < tree@.nodes.len(),
            decreases kn - ki,
        {
            let kid = kids[ki];
            self.queue.push(kid);
            proof {
                assert(self.queue@ =~= q0 + kids@.subrange(0, ki as int + 1));
            }
            ki = ki + 1;
        }
        proof {
            assert(kids@.subrange(0, kn as int) =~= kids@);
            assert(self.queue@ =~= q0 + kids@);
            let cs = children_of_acts(tree@.nodes[p as int].acts);
            assert(forall|m: int| 0 <= m < kids@.len() ==> (#[trigger] kids@[m]) as int == cs[m]);
            assert(self.queue@ =~= old(self).queue_view() + children_idx(tree@.nodes, p as int));
            assert forall|m: int|
                0 <= m < self.queue@.len() implies (#[trigger] self.queue@[m])
                < tree@.nodes.len() by {
                if m >= q0.len() {
                    assert(kids@[m - q0.len()] as int == cs[m - q0.len()]);
                } else {
                    assert(self.queue@[m] == old(self).queue_view()[m]);
                }
            };
        }
        Some(p)
    }
}

impl ThreadExecTree {
    /// A fresh breadth-first iterator over this tree's nodes.
    pub fn func_node_bfs_iter(&self) -> (r: ThreadTreeIter)
        ensures
            r.queue_view() == seq![0 as NodeIdx],
            r.head_view() == 0,
    {
        ThreadTreeIter::new(self.get_root_ptr())
    }
}

/// Mathematical model of a ranking entry.
pub struct LenEntryModel {
    pub name: Seq<char>,
    pub len: nat,
}

/// One entry of the longest-invocation ranking: a function name and how
/// many actions its invocation held.
#[derive(PartialEq, Eq)]
pub struct FuncNodeLenEntry {
    func_name: String,
    len: usize,
}

impl View for FuncNodeLenEntry {
    type V = LenEntryModel;

    closed spec fn view(&self) -> LenEntryModel {
        LenEntryModel { name: self.func_name@, len: self.len as nat }
    }
}

impl FuncNodeLenEntry {
    pub fn new(func_name: String, len: usize) -> (r: Self)
        ensures
            r@ == (LenEntryModel { name: func_name@, len: len as nat }),
    {
        Self { func_name, len }
    }

    pub fn get_func_name(&self) -> (r: &str)
        ensures
            r@ == self@.name,
    {
        self.func_name.as_str()
    }

    pub fn get_len(&self) -> (r: usize)
        ensures
            r as nat == self@.len,
    {
        self.len
    }
}

impl ExecFuncNode {
    /// This node as a ranking entry: its display name and action count.
    pub fn to_len_entry(&self) -> (r: FuncNodeLenEntry)
        ensures
            r@ == (LenEntryModel {
                name: crate::exec_tree::thread_tree::node_name_or_init(self@.kind),
                len: self@.acts.len(),
            }),
    {
        let name = self.get_func_name_or_init();
        let len = self.get_len();
        FuncNodeLenEntry::new(String::from_str(name), len)
    }
}

/// Entries in descending length order.
pub open spec fn sorted_desc(s: Seq<LenEntryModel>) -> bool {
    forall|i: int, j: int| 0 <= i < j < s.len() ==> (#[trigger] s[i]).len >= (#[trigger] s[j]).len
}

/// Where a new length lands in a descending list: after every entry at
/// least as long.
pub open spec fn insert_pos(s: Seq<LenEntryModel>, l: nat) -> int
    decreases s.len(),
{
    if s.len() == 0 {
        0
    } else if s[0].len < l {
        0
    } else {
        1 + insert_pos(s.drop_first(), l)
    }
}

pub proof fn lemma_insert_pos(s: Seq<LenEntryModel>, l: nat)
    ensures
        0 <= insert_pos(s, l) <= s.len(),
        forall|i: int| 0 <= i < insert_pos(s, l) ==> (#[trigger] s[i]).len >= l,
        insert_pos(s, l) < s.len() ==> s[insert_pos(s, l)].len < l,
    decreases s.len(),
{
    if s.len() > 0 && s[0].len >= l {
        lemma_insert_pos(s.drop_first(), l);
        assert(forall|i: int| 0 < i < s.len() ==> #[trigger] s[i] == s.drop_first()[i - 1]);
    }
}

/// What one insertion does to a capped descending ranking: under
/// capacity the entry joins at its place; at capacity it pushes out the
/// last (least) entry, or is dropped when no shorter entry remains.
pub open spec fn push_ranked(list: Seq<LenEntryModel>, e: LenEntryModel) -> Seq<LenEntryModel> {
    let pos = insert_pos(list, e.len);
    if list.len() < 10 {
        list.take(pos).push(e) + list.skip(pos)
    } else if pos < 10 {
        (list.take(pos).push(e) + list.skip(pos)).drop_last()
    } else {
        list
    }
}

/// Whether an entry stands in a ranking.
pub open spec fn entry_listed(list: Seq<LenEntryModel>, m: LenEntryModel) -> bool {
    exists|k: int| 0 <= k < list.len() && list[k] == m
}

/// What survives one ranked insertion: order and capacity, the new entry
/// listed or dominated, every old entry listed or dominated, every
/// listed entry drawn from the inputs, and a full ranking's least entry
/// never shrinking.
pub proof fn lemma_push_ranked_facts(list: Seq<LenEntryModel>, e: LenEntryModel)
    requires
        sorted_desc(list),
        list.len() <= 10,
    ensures
        ({
            let l2 = push_ranked(list, e);
            &&& sorted_desc(l2)
            &&& l2.len() == (if list.len() < 10 {
                list.len() + 1
            } else {
                10nat
            })
            &&& entry_listed(l2, e) || (l2.len() == 10 && e.len <= l2.last().len)
            &&& forall|k: int|
                0 <= k < list.len() ==> (entry_listed(l2, #[trigger] list[k]) || list[k].len
                    <= l2.last().len)
            &&& list.len() < 10 ==> forall|k: int|
                0 <= k < list.len() ==> entry_listed(l2, #[trigger] list[k])
            &&& forall|k: int|
                0 <= k < l2.len() ==> ((#[trigger] l2[k]) == e || entry_listed(list, l2[k]))
            &&& list.len() == 10 ==> l2.last().len >= list.last().len
            &&& ((forall|k1: int, k2: int|
                0 <= k1 < k2 < list.len() ==> (#[trigger] list[k1]).name != (
                #[trigger] list[k2]).name) && (forall|k: int|
                0 <= k < list.len() ==> (#[trigger] list[k]).name != e.name)) ==> (forall|
                k1: int,
                k2: int,
            |
                0 <= k1 < k2 < l2.len() ==> (#[trigger] l2[k1]).name != (#[trigger] l2[k2]).name)
        }),
{
    lemma_insert_pos(list, e.len);
    let pos = insert_pos(list, e.len);
    let l2 = push_ranked(list, e);
    lemma_sorted_after_insert(list, e, pos);
    let full = list.take(pos).push(e) + list.skip(pos);
    assert(forall|k: int|
        0 <= k < full.len() ==> #[trigger] full[k] == (if k < pos {
            list[k]
        } else if k == pos {
            e
        } else {
            list[k - 1]
        }));
    if list.len() < 10 {
        assert(l2 == full);
        assert(l2[pos] == e);
        assert forall|k: int| 0 <= k < list.len() implies entry_listed(
            l2,
            #[trigger] list[k],
        ) by {
            if k < pos {
                assert(l2[k] == list[k]);
            } else {
                assert(l2[k + 1] == list[k]);
            }
        };
    } else if pos < 10 {
        assert(l2 == full.drop_last());
        assert(forall|k: int| 0 <= k < l2.len() ==> #[trigger] l2[k] == full[k]);
        assert(l2[pos] == e);
        assert(l2.last() == full[l2.len() - 1]);
        assert forall|k: int|
            0 <= k < list.len() implies (entry_listed(l2, #[trigger] list[k]) || list[k].len
            <= l2.last().len) by {
            if k < pos {
                assert(l2[k] == list[k]);
            } else if k + 1 < full.len() - 1 {
                assert(l2[k + 1] == list[k]);
            } else {
                assert(k == list.len() - 1);
                assert(list[k] == full.last());
                assert(sorted_desc(full));
                assert(full[l2.len() - 1].len >= full[full.len() - 1].len);
            }
        };
        assert(l2.last().len >= list.last().len) by {
            if pos == l2.len() - 1 {
                assert(l2.last() == e);
                assert(list[pos].len < e.len);
                assert(list[pos].len >= list.last().len);
            } else {
                assert(l2.last() == list[l2.len() - 2]);
                assert(list[l2.len() - 2].len >= list.last().len);
            }
        };
    } else {
        assert(l2 == list);
        assert(e.len <= l2.last().len) by {
            assert(list[list.len() - 1].len >= e.len);
        };
    }
    if (forall|k1: int, k2: int|
        0 <= k1 < k2 < list.len() ==> (#[trigger] list[k1]).name != (#[trigger] list[k2]).name)
        && (forall|k: int| 0 <= k < list.len() ==> (#[trigger] list[k]).name != e.name) {
        if list.len() < 10 || pos < 10 {
            assert(forall|k: int|
                0 <= k < l2.len() ==> #[trigger] l2[k] == (if k < pos {
                    list[k]
                } else if k == pos {
                    e
                } else {
                    list[k - 1]
                }));
            assert forall|k1: int, k2: int|
                0 <= k1 < k2 < l2.len() implies (#[trigger] l2[k1]).name != (
            #[trigger] l2[k2]).name by {
                if k1 == pos {
                    assert(l2[k2] == list[k2 - 1]);
                } else if k2 == pos {
                    assert(l2[k1] == list[k1]);
                } else {
                    if k1 < pos {
                        assert(l2[k1] == list[k1]);
                    } else {
                        assert(l2[k1] == list[k1 - 1]);
                    }
                    if k2 < pos {
                        assert(l2[k2] == list[k2]);
                    } else {
                        assert(l2[k2] == list[k2 - 1]);
                    }
                }
            };
        }
    }
}

/// The ranking built from weighted entries, in input order.
pub open spec fn ranking_fold(entries: Seq<LenEntryModel>, k: int, acc: Seq<LenEntryModel>) -> Seq<
    LenEntryModel,
>
    decreases entries.len() - k,
{
    if k < 0 || k >= entries.len() {
        acc
    } else {
        ranking_fold(entries, k + 1, push_ranked(acc, entries[k]))
    }
}

/// The model of a weighted-entry list.
pub open spec fn entry_models(entries: Seq<(String, usize)>) -> Seq<LenEntryModel> {
    entries.map_values(|p: (String, usize)| LenEntryModel { name: p.0@, len: p.1 as nat })
}

/// The fixed-capacity longest-invocation ranking: at most ten entries,
/// kept in descending length order.
pub struct FuncNodeLenList {
    data: Vec<FuncNodeLenEntry>,
}

impl View for FuncNodeLenList {
    type V = Seq<LenEntryModel>;

    closed spec fn view(&self) -> Seq<LenEntryModel> {
        self.data@.map_values(|e: FuncNodeLenEntry| e@)
    }
}

impl FuncNodeLenList {
    pub fn new() -> (r: Self)
        ensures
            r@ == Seq::<LenEntryModel>::empty(),
    {
        let r = Self { data: Vec::new() };
        proof {
            assert(r@ =~= Seq::<LenEntryModel>::empty());
        }
        r
    }

    /// The entries, longest first.
    pub fn entries(&self) -> (r: &Vec<FuncNodeLenEntry>)
        ensures
            r@.map_values(|e: FuncNodeLenEntry| e@) == self@,
    {
        &self.data
    }

    /// Insert an entry: under capacity it joins at its place; at
    /// capacity it pushes out the last (least) entry, or is dropped when
    /// no shorter entry remains.
    pub fn push(&mut self, len_entry: FuncNodeLenEntry)
        requires
            sorted_desc(old(self)@),
            old(self)@.len() <= 10,
        ensures
            sorted_desc(final(self)@),
            final(self)@.len() <= 10,
            final(self)@ == push_ranked(old(self)@, len_entry@),
    {
        proof {
            lemma_insert_pos(self@, len_entry@.len);
        }
        let ghost old_view = self@;
        let ghost l = len_entry@.len;
        let n: usize = self.data.len();
        let new_len: usize = len_entry.get_len();
        let mut pos: usize = 0;
        while pos < n && self.data[pos].get_len() >= new_len
            invariant
                n == self.data@.len(),
                self@ == old_view,
                pos <= n,
                l == len_entry@.len,
                forall|i: int| 0 <= i < pos ==> (#[trigger] old_view[i]).len >= l,
                new_len as nat == l,
            decreases n - pos,
        {
            proof {
                assert(old_view[pos as int] == self.data@[pos as int]@);
            }
            pos = pos + 1;
        }
        proof {
            if pos < n {
                assert(old_view[pos as int] == self.data@[pos as int]@);
            }
            assert(pos as int == insert_pos(old_view, l)) by {
                let p = insert_pos(old_view, l);
                if p < pos {
                    assert(old_view[p].len >= l);
                }
                if pos < p {
                    assert(old_view[pos as int].len >= l);
                }
            };
        }
        if n < 10 {
            self.data.insert(pos, len_entry);
            proof {
                assert(self@ =~= old_view.take(pos as int).push(len_entry@) + old_view.skip(
                    pos as int,
                ));
                lemma_sorted_after_insert(old_view, len_entry@, pos as int);
            }
        } else if pos < 10 {
            self.data.insert(pos, len_entry);
            self.data.pop();
            proof {
                assert(self@ =~= (old_view.take(pos as int).push(len_entry@) + old_view.skip(
                    pos as int,
                )).drop_last());
                lemma_sorted_after_insert(old_view, len_entry@, pos as int);
                let full = old_view.take(pos as int).push(len_entry@) + old_view.skip(pos as int);
                assert(forall|i: int, j: int|
                    0 <= i < j < full.drop_last().len() ==> (#[trigger] full.drop_last()[i]).len
                        >= (#[trigger] full.drop_last()[j]).len);
            }
        }
    }
}

/// Rank weighted entries: the ten greatest kept in descending order.
/// The result is the ranking fold of the inputs; every input is either
/// listed exactly or — only when the ranking is full — weighs no more
/// than the least listed entry; every listed entry is an input; and
/// inputs with pairwise distinct names rank without repetition.
#[verifier::rlimit(100)]
#[verifier::spinoff_prover]
pub fn rank_entries(entries: &Vec<(String, usize)>) -> (r: FuncNodeLenList)
    ensures
        r@ == ranking_fold(entry_models(entries@), 0, Seq::empty()),
        sorted_desc(r@),
        r@.len() == (if entries@.len() < 10 {
            entries@.len() as int
        } else {
            10int
        }),
        forall|k: int|
            0 <= k < r@.len() ==> exists|j: int|
                0 <= j < entries@.len() && (#[trigger] r@[k]).name == entries@[j].0@ && r@[k].len
                    == entries@[j].1 as nat,
        forall|j: int|
            0 <= j < entries@.len() ==> listed_or_dominated(
                r@,
                (#[trigger] entries@[j]).0@,
                entries@[j].1 as nat,
            ),
        (forall|j1: int, j2: int|
            0 <= j1 < j2 < entries@.len() ==> (#[trigger] entries@[j1]).0@ != (
            #[trigger] entries@[j2]).0@) ==> (forall|k1: int, k2: int|
            0 <= k1 < k2 < r@.len() ==> (#[trigger] r@[k1]).name != (#[trigger] r@[k2]).name),
{
    let ghost ems = entry_models(entries@);
    let n: usize = entries.len();
    let mut list = FuncNodeLenList::new();
    let mut i: usize = 0;
    proof {
        assert(list@ =~= Seq::<LenEntryModel>::empty());
    }
    while i < n
        invariant
            n == entries@.len(),
            ems == entry_models(entries@),
            i <= n,
            sorted_desc(list@),
            ranking_fold(ems, 0, Seq::empty()) == ranking_fold(ems, i as int, list@),
            list@.len() == (if i < 10 {
                i as int
            } else {
                10int
            }),
            forall|k: int|
                0 <= k < list@.len() ==> exists|j: int|
                    0 <= j < i && (#[trigger] list@[k]).name == entries@[j].0@ && list@[k].len
                        == entries@[j].1 as nat,
            forall|j: int|
                0 <= j < i ==> listed_or_dominated(
                    list@,
                    (#[trigger] entries@[j]).0@,
                    entries@[j].1 as nat,
                ),
            (forall|j1: int, j2: int|
                0 <= j1 < j2 < entries@.len() ==> (#[trigger] entries@[j1]).0@ != (
                #[trigger] entries@[j2]).0@) ==> (forall|k1: int, k2: int|
                0 <= k1 < k2 < list@.len() ==> (#[trigger] list@[k1]).name != (
                #[trigger] list@[k2]).name),
        decreases n - i,
    {
        let nm = entries[i].0.clone();
        let c = entries[i].1;
        let entry = FuncNodeLenEntry::new(nm, c);
        let ghost list0 = list@;
        proof {
            lemma_push_ranked_facts(list0, entry@);
            assert(ems[i as int] == entry@);
        }
        list.push(entry);
        proof {
            let l2 = list@;
            assert forall|k: int|
                0 <= k < l2.len() implies exists|j: int|
                0 <= j < i + 1 && (#[trigger] l2[k]).name == entries@[j].0@ && l2[k].len
                    == entries@[j].1 as nat by {
                if l2[k] == entry@ {
                    assert(l2[k].name == entries@[i as int].0@);
                } else {
                    assert(entry_listed(list0, l2[k]));
                    let k0 = choose|k0: int| 0 <= k0 < list0.len() && list0[k0] == l2[k];
                }
            };
            assert forall|j: int| 0 <= j < i + 1 implies listed_or_dominated(
                l2,
                (#[trigger] entries@[j]).0@,
                entries@[j].1 as nat,
            ) by {
                if j == i {
                    if entry_listed(l2, entry@) {
                        let k = choose|k: int| 0 <= k < l2.len() && #[trigger] l2[k] == entry@;
                    }
                } else {
                    assert(listed_or_dominated(list0, entries@[j].0@, entries@[j].1 as nat));
                    if exists|k: int|
                        0 <= k < list0.len() && (#[trigger] list0[k]).name == entries@[j].0@
                            && list0[k].len == entries@[j].1 as nat {
                        let k = choose|k: int|
                            0 <= k < list0.len() && (#[trigger] list0[k]).name == entries@[j].0@
                                && list0[k].len == entries@[j].1 as nat;
                        assert(entry_listed(l2, list0[k]) || list0[k].len <= l2.last().len);
                        if entry_listed(l2, list0[k]) {
                            let k2 = choose|k2: int|
                                0 <= k2 < l2.len() && #[trigger] l2[k2] == list0[k];
                        } else {
                            assert(list0.len() == 10);
                        }
                    } else {
                        assert(list0.len() == 10 && entries@[j].1 as nat <= list0.last().len);
                        assert(l2.last().len >= list0.last().len);
                    }
                }
            };
            if forall|j1: int, j2: int|
                0 <= j1 < j2 < entries@.len() ==> (#[trigger] entries@[j1]).0@ != (
                #[trigger] entries@[j2]).0@ {
                assert(forall|k: int|
                    0 <= k < list0.len() ==> (#[trigger] list0[k]).name != entry@.name) by {
                    assert forall|k: int|
                        0 <= k < list0.len() implies (#[trigger] list0[k]).name
                        != entry@.name by {
                        let j = choose|j: int|
                            0 <= j < i && (#[trigger] list0[k]).name == entries@[j].0@ && list0[
                                k
                            ].len == entries@[j].1 as nat;
                        assert(entries@[j].0@ != entries@[i as int].0@);
                    };
                };
            }
        }
        i = i + 1;
    }
    list
}

/// Inserting at the computed position keeps the list descending.
proof fn lemma_sorted_after_insert(s: Seq<LenEntryModel>, e: LenEntryModel, pos: int)
    requires
        sorted_desc(s),
        pos == insert_pos(s, e.len),
    ensures
        sorted_desc(s.take(pos).push(e) + s.skip(pos)),
{
    lemma_insert_pos(s, e.len);
    let r = s.take(pos).push(e) + s.skip(pos);
    assert forall|i: int, j: int|
        0 <= i < j < r.len() implies (#[trigger] r[i]).len >= (#[trigger] r[j]).len by {
        if i < pos {
            assert(r[i] == s[i]);
        } else if i == pos {
            assert(r[i] == e);
        } else {
            assert(r[i] == s[i - 1]);
        }
        if j < pos {
            assert(r[j] == s[j]);
        } else if j == pos {
            assert(r[j] == e);
        } else {
            assert(r[j] == s[j - 1]);
        }
    };
}

/// The function name of node `v`, when it is a real invocation; the
/// synthetic root is no function and counts for no name.
pub open spec fn func_name_of(nodes: Seq<NodeModel>, v: int) -> Option<Seq<char>> {
    match nodes[v].kind {
        NodeKind::Regular { name, .. } => Some(name),
        NodeKind::Init => None,
    }
}

/// Whether `nm` occurs among the listed entry names.
pub open spec fn name_listed(entries: Seq<(String, usize)>, nm: Seq<char>) -> bool {
    exists|i: int| 0 <= i < entries.len() && (#[trigger] entries[i]).0@ == nm
}

/// A list that keeps its prefix names keeps what was listed.
pub proof fn lemma_name_listed_preserved(
    a: Seq<(String, usize)>,
    b: Seq<(String, usize)>,
    nm: Seq<char>,
)
    requires
        a.len() <= b.len(),
        forall|j: int| 0 <= j < a.len() ==> (#[trigger] b[j]).0@ == a[j].0@,
        name_listed(a, nm),
    ensures
        name_listed(b, nm),
{
    let i = choose|i: int| 0 <= i < a.len() && (#[trigger] a[i]).0@ == nm;
    assert(b[i].0@ == nm);
}

/// Every function node's name occurs among the listed entries; the
/// synthetic root is not a function and is never listed.
pub open spec fn covers_names(entries: Seq<(String, usize)>, nodes: Seq<NodeModel>) -> bool {
    forall|v: int|
        0 <= v < nodes.len() ==> ((#[trigger] nodes[v].kind) matches NodeKind::Regular {
            name,
            ..
        } ==> name_listed(entries, name))
}

/// How many of the first `t` nodes are invocations of function `name`;
/// the synthetic root never counts.
pub open spec fn count_name(nodes: Seq<NodeModel>, name: Seq<char>, t: int) -> int
    decreases t,
{
    if t <= 0 || t > nodes.len() {
        0
    } else {
        count_name(nodes, name, t - 1) + (if func_name_of(nodes, t - 1) == Some(name) {
            1int
        } else {
            0int
        })
    }
}

/// A name's count never exceeds the prefix length.
pub proof fn lemma_count_name_bound(nodes: Seq<NodeModel>, name: Seq<char>, t: int)
    ensures
        0 <= count_name(nodes, name, t) <= (if t <= 0 {
            0
        } else {
            t
        }),
    decreases t,
{
    if t > 0 {
        lemma_count_name_bound(nodes, name, t - 1);
    }
}

/// A positive count names a function node in the prefix.
pub proof fn lemma_count_name_witness(nodes: Seq<NodeModel>, name: Seq<char>, t: int)
    requires
        count_name(nodes, name, t) > 0,
    ensures
        exists|u: int|
            0 <= u < t && u < nodes.len() && #[trigger] func_name_of(nodes, u) == Some(name),
    decreases t,
{
    if t > nodes.len() {
        assert(count_name(nodes, name, t) == 0);
    } else if func_name_of(nodes, t - 1) == Some(name) {
    } else {
        lemma_count_name_witness(nodes, name, t - 1);
    }
}

impl ThreadExecTree {
    /// How often each function name occurs among the tree's invocations:
    /// every function node's name appears exactly once in the result,
    /// with its exact occurrence count, in first-appearance (creation)
    /// order.  The synthetic root is not a function: on a root-only tree
    /// the result is empty, the condition a caller reports as no
    /// functions found.
    #[verifier::rlimit(100)]
    #[verifier::spinoff_prover]
    pub fn collect_func_call_counts(&self) -> (r: Vec<(String, usize)>)
        ensures
            forall|i: int, j: int|
                0 <= i < j < r@.len() ==> (#[trigger] r@[i]).0@ != (#[trigger] r@[j]).0@,
            forall|i: int|
                0 <= i < r@.len() ==> (#[trigger] r@[i]).1 as int == count_name(
                    self@.nodes,
                    r@[i].0@,
                    self@.nodes.len() as int,
                ) && (exists|v: int|
                    0 <= v < self@.nodes.len() && #[trigger] func_name_of(self@.nodes, v) == Some(
                        r@[i].0@,
                    )),
            covers_names(r@, self@.nodes),
    {
        let ghost nodes = self@.nodes;
        let len: usize = self.node_count();
        let mut acc: Vec<(String, usize)> = Vec::new();
        let mut v: usize = 0;
        while v < len
            invariant
                nodes == self@.nodes,
                len == nodes.len(),
                v <= len,
                forall|i: int, j: int|
                    0 <= i < j < acc@.len() ==> (#[trigger] acc@[i]).0@ != (#[trigger] acc@[j]).0@,
                forall|i: int|
                    0 <= i < acc@.len() ==> (#[trigger] acc@[i]).1 as int == count_name(
                        nodes,
                        acc@[i].0@,
                        v as int,
                    ) && (exists|w: int|
                        0 <= w < nodes.len() && #[trigger] func_name_of(nodes, w) == Some(
                            acc@[i].0@,
                        )),
                forall|u: int|
                    0 <= u < v ==> ((#[trigger] nodes[u].kind) matches NodeKind::Regular {
                        name,
                        ..
                    } ==> name_listed(acc@, name)),
            decreases len - v,
        {
            let node = self.get_node(v);
            match node.get_func_name() {
                None => {
                    proof {
                        assert(forall|i: int|
                            0 <= i < acc@.len() ==> count_name(nodes, (#[trigger] acc@[i]).0@, v
                                as int) == count_name(nodes, acc@[i].0@, v as int + 1));
                    }
                },
                Some(name) => {
                    let ghost nm = name@;
                    proof {
                        assert(func_name_of(nodes, v as int) == Some(nm));
                    }
                    let an: usize = acc.len();
                    let mut i: usize = 0;
                    let mut found = false;
                    while i < an && !found
                        invariant
                            an == acc@.len(),
                            i <= an,
                            nm == name@,
                            !found ==> forall|j: int| 0 <= j < i ==> (#[trigger] acc@[j]).0@ != nm,
                            found ==> i < an && acc@[i as int].0@ == nm,
                        decreases an - i + (if found {
                            0int
                        } else {
                            1int
                        }),
                    {
                        if crate::strutil::str_eq(acc[i].0.as_str(), name) {
                            found = true;
                        } else {
                            i = i + 1;
                        }
                    }
                    proof {
                        lemma_count_name_bound(nodes, nm, v as int);
                    }
                    if found {
                        let ghost acc0 = acc@;
                        let entry_name = acc[i].0.clone();
                        let entry_cnt = acc[i].1;
                        proof {
                            assert(entry_cnt as int == count_name(nodes, nm, v as int));
                        }
                        acc.remove(i);
                        acc.insert(i, (entry_name, entry_cnt + 1));
                        proof {
                            assert(acc@ =~= acc0.update(i as int, acc@[i as int]));
                            assert(acc@[i as int].0@ == nm);
                            assert(forall|j: int|
                                0 <= j < acc@.len() ==> (#[trigger] acc@[j]).0@ == acc0[j].0@);
                            assert forall|u: int| 0 <= u < v + 1 implies ((
                            #[trigger] nodes[u].kind) matches NodeKind::Regular { name, .. }
                                ==> name_listed(acc@, name)) by {
                                match nodes[u].kind {
                                    NodeKind::Regular { name: nu, .. } => {
                                        if u < v {
                                            lemma_name_listed_preserved(acc0, acc@, nu);
                                        } else {
                                            assert(acc@[i as int].0@ == nm);
                                        }
                                    },
                                    NodeKind::Init => {},
                                }
                            };
                        }
                    } else {
                        proof {
                            if count_name(nodes, nm, v as int) > 0 {
                                lemma_count_name_witness(nodes, nm, v as int);
                                let u = choose|u: int|
                                    0 <= u < v && u < nodes.len() && #[trigger] func_name_of(
                                        nodes,
                                        u,
                                    ) == Some(nm);
                                assert(nodes[u].kind matches NodeKind::Regular { name, .. }
                                    && name == nm);
                                assert(false);
                            }
                        }
                        let ghost acc0 = acc@;
                        acc.push((String::from_str(name), 1));
                        proof {
                            assert(acc@[acc@.len() - 1].0@ == nm);
                            assert(forall|j: int|
                                0 <= j < acc0.len() ==> (#[trigger] acc@[j]).0@ == acc0[j].0@);
                            assert forall|u: int| 0 <= u < v + 1 implies ((
                            #[trigger] nodes[u].kind) matches NodeKind::Regular { name, .. }
                                ==> name_listed(acc@, name)) by {
                                match nodes[u].kind {
                                    NodeKind::Regular { name: nu, .. } => {
                                        if u < v {
                                            lemma_name_listed_preserved(acc0, acc@, nu);
                                        } else {
                                            assert(acc@[acc@.len() - 1].0@ == nm);
                                        }
                                    },
                                    NodeKind::Init => {},
                                }
                            };
                        }
                    }
                },
            }
            v = v + 1;
        }
        let result = acc;
        proof {
            assert(covers_names(result@, self@.nodes));
        }
        result
    }
}

/// A cursor over the direct children of one node: it remembers the scan
/// position just after the previously yielded child's `Call` action.
pub struct FuncIter {
    node: NodeIdx,
    pos: usize,
}

/// The index of the first `Call` action at or after `from`.
pub open spec fn next_call_index(acts: Seq<ActModel>, from: int) -> Option<int>
    decreases acts.len() - from,
{
    if from < 0 || from >= acts.len() {
        None
    } else if act_child(acts[from]) is Some {
        Some(from)
    } else {
        next_call_index(acts, from + 1)
    }
}

impl FuncIter {
    pub fn new(node: NodeIdx) -> (r: Self)
        ensures
            r.node_view() == node as int,
            r.pos_view() == 0,
    {
        Self { node, pos: 0 }
    }

    pub closed spec fn node_view(&self) -> int {
        self.node as int
    }

    pub closed spec fn pos_view(&self) -> int {
        self.pos as int
    }

    /// The next child in call order: the child of the first `Call`
    /// action at or after the remembered position, which the cursor then
    /// passes.
    pub fn next(&mut self, tree: &ThreadExecTree) -> (r: Option<NodeIdx>)
        requires
            old(self).node_view() < tree@.nodes.len(),
        ensures
            final(self).node_view() == old(self).node_view(),
            match r {
                Some(c) => next_call_index(
                    tree@.nodes[old(self).node_view()].acts,
                    old(self).pos_view(),
                ) matches Some(k) && act_child(tree@.nodes[old(self).node_view()].acts[k])
                    == Some(c as int) && final(self).pos_view() == k + 1,
                None => next_call_index(
                    tree@.nodes[old(self).node_view()].acts,
                    old(self).pos_view(),
                ) is None && final(self).pos_view() == old(self).pos_view(),
            },
    {
        let node = tree.get_node(self.node);
        let acts = node.iter_acts();
        // the measured length bounds the found index within usize
        let _n: usize = acts.len();
        match scan_next_call(acts, self.pos) {
            Some((k, c)) => {
                self.pos = k + 1;
                Some(c)
            },
            None => None,
        }
    }
}

/// Find the first `Call` action at or after `from` in an action list.
fn scan_next_call(acts: &Vec<ExecAction>, from: usize) -> (r: Option<(usize, NodeIdx)>)
    ensures
        match r {
            Some((k, c)) => k < acts@.len() && next_call_index(
                acts@.map_values(|a: ExecAction| a@),
                from as int,
            ) == Some(k as int) && act_child(acts@.map_values(|a: ExecAction| a@)[k as int])
                == Some(c as int),
            None => next_call_index(acts@.map_values(|a: ExecAction| a@), from as int) is None,
        },
{
    let ghost view = acts@.map_values(|a: ExecAction| a@);
    let n: usize = acts.len();
    let mut k: usize = from;
    while k < n
        invariant
            n == acts@.len(),
            view == acts@.map_values(|a: ExecAction| a@),
            from <= k,
            next_call_index(view, from as int) == next_call_index(view, k as int),
        decreases n - k,
    {
        proof {
            assert(view[k as int] == acts@[k as int]@);
        }
        if let ExecAction::Func(f) = &acts[k] {
            if f.is_call() {
                match f.get_child_ptr() {
                    Some(c) => {
                        return Some((k, c));
                    },
                    None => {
                        proof {
                            assert(false);
                        }
                    },
                }
            }
        }
        k = k + 1;
    }
    None
}


/// The sub-function scan reproduces the call order exactly: for every
/// node of a well-formed tree, the children list holds each direct child
/// exactly once, a node is listed exactly when the scanned node is its
/// parent, and the listing follows the order of the owning `Call`
/// actions, which the replay appended in input order.
pub proof fn lemma_sub_funcs_reproduce_call_order(nodes: Seq<NodeModel>, p: int)
    requires
        parents_wf(nodes),
        linked(nodes),
        0 <= p < nodes.len(),
    ensures
        children_of_acts(nodes[p].acts).no_duplicates(),
        forall|j: int|
            0 <= j < nodes.len() ==> (children_of_acts(nodes[p].acts).contains(j) <==> (
            nodes[j].kind matches NodeKind::Regular { parent, .. } && parent == p)),
        forall|m1: int, m2: int|
            0 <= m1 < m2 < children_of_acts(nodes[p].acts).len() ==> child_act_index(
                nodes,
                #[trigger] children_of_acts(nodes[p].acts)[m1],
            ) < child_act_index(nodes, #[trigger] children_of_acts(nodes[p].acts)[m2]),
{
    lemma_children_nodup(nodes, p);
    assert forall|j: int|
        0 <= j < nodes.len() implies (children_of_acts(nodes[p].acts).contains(j) <==> (
    nodes[j].kind matches NodeKind::Regular { parent, .. } && parent == p)) by {
        lemma_children_iff_parent(nodes, p, j);
    };
}

/// A name is listed with an exact tally, or — only in a full ranking —
/// its tally is at most the least listed entry's.
pub open spec fn listed_or_dominated(list: Seq<LenEntryModel>, nm: Seq<char>, tally: nat) -> bool {
    (exists|k: int| 0 <= k < list.len() && (#[trigger] list[k]).name == nm && list[k].len == tally)
        || (list.len() == 10 && tally <= list.last().len)
}

/// A function name is listed with its exact occurrence count, or the
/// full ranking's least entry counts at least as much.
pub open spec fn ranked_name(list: Seq<LenEntryModel>, nodes: Seq<NodeModel>, nm: Seq<char>) -> bool {
    listed_or_dominated(list, nm, count_name(nodes, nm, nodes.len() as int) as nat)
}

/// A ranking entry drawn from some node of the tree: its display name
/// and its action count.
pub open spec fn entry_from_tree(m: LenEntryModel, nodes: Seq<NodeModel>) -> bool {
    exists|v: int|
        0 <= v < nodes.len() && m.name == crate::exec_tree::thread_tree::node_name_or_init(
            (#[trigger] nodes[v]).kind,
        ) && m.len == nodes[v].acts.len()
}

/// The ranking entries of a tree's nodes, in breadth-first order: each
/// node's display name with its action count.
pub open spec fn node_len_entries(nodes: Seq<NodeModel>) -> Seq<LenEntryModel> {
    bfs_order(nodes).map_values(
        |x: NodeIdx| LenEntryModel {
            name: crate::exec_tree::thread_tree::node_name_or_init(nodes[x as int].kind),
            len: nodes[x as int].acts.len(),
        },
    )
}

impl ThreadExecTree {
    /// The longest-invocation ranking: every node's display name and
    /// action count offered to a ten-entry descending list, in
    /// breadth-first order — the ranking fold of the tree's node
    /// entries.  Every node is either listed or — only when the ranking
    /// is full — holds no more actions than the least listed entry.
    #[verifier::rlimit(100)]
    #[verifier::spinoff_prover]
    pub fn collect_long_func_nodes(&self) -> (r: FuncNodeLenList)
        requires
            parents_wf(self@.nodes),
            linked(self@.nodes),
        ensures
            r@ == ranking_fold(node_len_entries(self@.nodes), 0, Seq::empty()),
            sorted_desc(r@),
            r@.len() == (if self@.nodes.len() < 10 {
                self@.nodes.len() as int
            } else {
                10int
            }),
            forall|k: int| 0 <= k < r@.len() ==> entry_from_tree(#[trigger] r@[k], self@.nodes),
            forall|v: int|
                0 <= v < self@.nodes.len() ==> listed_or_dominated(
                    r@,
                    crate::exec_tree::thread_tree::node_name_or_init(
                        (#[trigger] self@.nodes[v]).kind,
                    ),
                    self@.nodes[v].acts.len(),
                ),
    {
        let ghost nodes = self@.nodes;
        let order = self.bfs_nodes();
        let n: usize = order.len();
        let mut entries: Vec<(String, usize)> = Vec::new();
        let mut i: usize = 0;
        while i < n
            invariant
                nodes == self@.nodes,
                n == order@.len(),
                n == nodes.len(),
                order@ == bfs_order(nodes),
                forall|m: int| 0 <= m < order@.len() ==> (#[trigger] order@[m]) < nodes.len(),
                forall|w: int| 0 <= w < nodes.len() ==> contains_idx(order@, w),
                i <= n,
                entries@.len() == i,
                forall|j: int|
                    0 <= j < i ==> (#[trigger] entries@[j]).0@
                        == crate::exec_tree::thread_tree::node_name_or_init(
                        nodes[order@[j] as int].kind,
                    ) && entries@[j].1 == nodes[order@[j] as int].acts.len(),
            decreases n - i,
        {
            let node = self.get_node(order[i]);
            entries.push((String::from_str(node.get_func_name_or_init()), node.get_len()));
            i = i + 1;
        }
        let r = rank_entries(&entries);
        proof {
            assert(entry_models(entries@) =~= node_len_entries(nodes));
            assert forall|k: int| 0 <= k < r@.len() implies entry_from_tree(
                #[trigger] r@[k],
                nodes,
            ) by {
                let j = choose|j: int|
                    0 <= j < entries@.len() && (#[trigger] r@[k]).name == entries@[j].0@ && r@[
                        k
                    ].len == entries@[j].1 as nat;
                assert(nodes[order@[j] as int] == nodes[order@[j] as int]);
            };
            assert forall|v: int| 0 <= v < nodes.len() implies listed_or_dominated(
                r@,
                crate::exec_tree::thread_tree::node_name_or_init((#[trigger] nodes[v]).kind),
                nodes[v].acts.len(),
            ) by {
                assert(contains_idx(order@, v));
                let m = choose|m: int|
                    0 <= m < order@.len() && (#[trigger] order@[m]) as int == v;
                assert(listed_or_dominated(r@, entries@[m].0@, entries@[m].1 as nat));
            };
        }
        r
    }

    /// The most-called-function ranking: each distinct function name
    /// with its exact occurrence count, the ten most frequent kept in
    /// descending order.  Every function name is either listed with its
    /// exact count or — only when the ranking is full — counts no more
    /// than the least listed entry.  A root-only tree yields an empty
    /// ranking: no functions found.
    #[verifier::rlimit(100)]
    #[verifier::spinoff_prover]
    pub fn collect_most_called_funcs(&self) -> (r: FuncNodeLenList)
        ensures
            sorted_desc(r@),
            r@.len() <= 10,
            forall|k1: int, k2: int|
                0 <= k1 < k2 < r@.len() ==> (#[trigger] r@[k1]).name != (#[trigger] r@[k2]).name,
            forall|k: int|
                0 <= k < r@.len() ==> (#[trigger] r@[k]).len == count_name(
                    self@.nodes,
                    r@[k].name,
                    self@.nodes.len() as int,
                ) && (exists|v: int|
                    0 <= v < self@.nodes.len() && #[trigger] func_name_of(self@.nodes, v) == Some(
                        r@[k].name,
                    )),
            forall|v: int|
                0 <= v < self@.nodes.len() ==> ((#[trigger] self@.nodes[v].kind)
                    matches NodeKind::Regular { name, .. } ==> ranked_name(
                    r@,
                    self@.nodes,
                    name,
                )),
    {
        let ghost nodes = self@.nodes;
        let counts = self.collect_func_call_counts();
        let n: usize = counts.len();
        let mut list = FuncNodeLenList::new();
        let mut i: usize = 0;
        while i < n
            invariant
                nodes == self@.nodes,
                n == counts@.len(),
                forall|j1: int, j2: int|
                    0 <= j1 < j2 < counts@.len() ==> (#[trigger] counts@[j1]).0@ != (
                    #[trigger] counts@[j2]).0@,
                forall|j: int|
                    0 <= j < counts@.len() ==> (#[trigger] counts@[j]).1 as int == count_name(
                        nodes,
                        counts@[j].0@,
                        nodes.len() as int,
                    ) && (exists|v: int|
                        0 <= v < nodes.len() && #[trigger] func_name_of(nodes, v) == Some(
                            counts@[j].0@,
                        )),
                covers_names(counts@, nodes),
                i <= n,
                sorted_desc(list@),
                list@.len() == (if i < 10 {
                    i as int
                } else {
                    10int
                }),
                forall|k: int|
                    0 <= k < list@.len() ==> exists|j: int|
                        0 <= j < i && (#[trigger] list@[k]).name == counts@[j].0@ && list@[k].len
                            == counts@[j].1 as nat,
                forall|k1: int, k2: int|
                    0 <= k1 < k2 < list@.len() ==> (#[trigger] list@[k1]).name != (
                    #[trigger] list@[k2]).name,
                forall|j: int|
                    0 <= j < i ==> listed_or_dominated(
                        list@,
                        (#[trigger] counts@[j]).0@,
                        counts@[j].1 as nat,
                    ),
            decreases n - i,
        {
            let nm = counts[i].0.clone();
            let c = counts[i].1;
            let entry = FuncNodeLenEntry::new(nm, c);
            let ghost list0 = list@;
            proof {
                lemma_push_ranked_facts(list0, entry@);
            }
            list.push(entry);
            proof {
                let l2 = list@;
                assert forall|k: int|
                    0 <= k < l2.len() implies exists|j: int|
                    0 <= j < i + 1 && (#[trigger] l2[k]).name == counts@[j].0@ && l2[k].len
                        == counts@[j].1 as nat by {
                    if l2[k] == entry@ {
                        assert(l2[k].name == counts@[i as int].0@);
                    } else {
                        assert(entry_listed(list0, l2[k]));
                        let k0 = choose|k0: int| 0 <= k0 < list0.len() && list0[k0] == l2[k];
                    }
                };
                assert(forall|k: int|
                    0 <= k < list0.len() ==> (#[trigger] list0[k]).name != entry@.name) by {
                    assert forall|k: int|
                        0 <= k < list0.len() implies (#[trigger] list0[k]).name
                        != entry@.name by {
                        let j = choose|j: int|
                            0 <= j < i && (#[trigger] list0[k]).name == counts@[j].0@ && list0[
                                k
                            ].len == counts@[j].1 as nat;
                        assert(counts@[j].0@ != counts@[i as int].0@);
                    };
                };
                assert forall|j: int| 0 <= j < i + 1 implies listed_or_dominated(
                    l2,
                    (#[trigger] counts@[j]).0@,
                    counts@[j].1 as nat,
                ) by {
                    if j == i {
                        assert(entry_listed(l2, entry@) || (l2.len() == 10 && entry@.len
                            <= l2.last().len));
                        if entry_listed(l2, entry@) {
                            let k = choose|k: int| 0 <= k < l2.len() && #[trigger] l2[k] == entry@;
                        }
                    } else {
                        assert(listed_or_dominated(list0, counts@[j].0@, counts@[j].1 as nat));
                        if exists|k: int|
                            0 <= k < list0.len() && (#[trigger] list0[k]).name == counts@[j].0@
                                && list0[k].len == counts@[j].1 as nat {
                            let k = choose|k: int|
                                0 <= k < list0.len() && (#[trigger] list0[k]).name == counts@[
                                    j
                                ].0@ && list0[k].len == counts@[j].1 as nat;
                            assert(entry_listed(l2, list0[k]) || list0[k].len <= l2.last().len);
                            if entry_listed(l2, list0[k]) {
                                let k2 = choose|k2: int|
                                    0 <= k2 < l2.len() && #[trigger] l2[k2] == list0[k];
                            } else {
                                assert(list0.len() == 10);
                                assert(l2.len() == 10);
                            }
                        } else {
                            assert(list0.len() == 10 && counts@[j].1 as nat <= list0.last().len);
                            assert(l2.last().len >= list0.last().len);
                        }
                    }
                };
            }
            i = i + 1;
        }
        proof {
            assert forall|v: int|
                0 <= v < nodes.len() implies ((#[trigger] nodes[v].kind)
                matches NodeKind::Regular { name, .. } ==> ranked_name(list@, nodes, name)) by {
                match nodes[v].kind {
                    NodeKind::Regular { name, .. } => {
                        assert(name_listed(counts@, name));
                        let j = choose|j: int|
                            0 <= j < counts@.len() && (#[trigger] counts@[j]).0@ == name;
                        assert(listed_or_dominated(list@, counts@[j].0@, counts@[j].1 as nat));
                        assert(counts@[j].1 as int == count_name(nodes, name, nodes.len() as int));
                    },
                    NodeKind::Init => {},
                }
            };
        }
        list
    }

    /// The parent display names recorded at the nodes bearing
    /// `func_name`, in arena order, stopping once `limit` parents are
    /// recorded; the root records none, having no parent.
    pub fn parents_of_name(&self, func_name: &str, limit: usize) -> (r: Vec<String>)
        requires
            parents_wf(self@.nodes),
        ensures
            r@.map_values(|s: String| s@) == parents_fold(
                self@.nodes,
                0,
                func_name@,
                limit as nat,
                Seq::empty(),
            ),
            r@.len() <= limit,
    {
        let ghost nodes = self@.nodes;
        let ghost nm = func_name@;
        let len: usize = self.node_count();
        let mut out: Vec<String> = Vec::new();
        let mut v: usize = 0;
        proof {
            assert(out@.map_values(|s: String| s@) =~= Seq::<Seq<char>>::empty());
        }
        while v < len
            invariant
                nodes == self@.nodes,
                nm == func_name@,
                len == nodes.len(),
                parents_wf(nodes),
                v <= len,
                out@.len() <= limit,
                parents_fold(nodes, 0, nm, limit as nat, Seq::empty()) == parents_fold(
                    nodes,
                    v as int,
                    nm,
                    limit as nat,
                    out@.map_values(|s: String| s@),
                ),
            decreases len - v,
        {
            if out.len() >= limit {
                proof {
                    lemma_parents_fold_full(nodes, v as int, nm, limit as nat, out@.map_values(
                        |s: String| s@,
                    ));
                }
                return out;
            }
            let node = self.get_node(v);
            if crate::strutil::str_eq(node.get_func_name_or_init(), func_name) {
                match node.get_parent_ptr() {
                    Some(p) => {
                        let parent = self.get_node(p);
                        let ghost out0 = out@.map_values(|s: String| s@);
                        out.push(String::from_str(parent.get_func_name_or_init()));
                        proof {
                            assert(out@.map_values(|s: String| s@) =~= out0.push(
                                crate::exec_tree::thread_tree::node_name_or_init(
                                    nodes[p as int].kind,
                                ),
                            ));
                        }
                    },
                    None => {},
                }
            }
            v = v + 1;
        }
        out
    }
}

/// The parent display names recorded at occurrences of `nm` among the
/// nodes from `k` on, capped at `limit` recorded parents.
pub open spec fn parents_fold(
    nodes: Seq<NodeModel>,
    k: int,
    nm: Seq<char>,
    limit: nat,
    acc: Seq<Seq<char>>,
) -> Seq<Seq<char>>
    decreases nodes.len() - k,
{
    if k < 0 || k >= nodes.len() || acc.len() >= limit {
        acc
    } else {
        let acc2 = match nodes[k].kind {
            NodeKind::Regular { name, parent, .. } => if name == nm && 0 <= parent < nodes.len() {
                acc.push(crate::exec_tree::thread_tree::node_name_or_init(nodes[parent].kind))
            } else {
                acc
            },
            NodeKind::Init => acc,
        };
        parents_fold(nodes, k + 1, nm, limit, acc2)
    }
}

/// Once the cap is reached, the fold records nothing more.
proof fn lemma_parents_fold_full(
    nodes: Seq<NodeModel>,
    k: int,
    nm: Seq<char>,
    limit: nat,
    acc: Seq<Seq<char>>,
)
    requires
        acc.len() >= limit,
    ensures
        parents_fold(nodes, k, nm, limit, acc) == acc,
{
}

/// One detected recursion: the names from the repeated frame down to the
/// repeating call, and the name of the frame below the repetition.
pub struct RecurEntry {
    func_cycle: Vec<String>,
    parent_func: String,
}

/// Mathematical model of a recursion entry.
pub struct RecurModel {
    pub cycle: Seq<Seq<char>>,
    pub parent: Seq<char>,
}

impl View for RecurEntry {
    type V = RecurModel;

    closed spec fn view(&self) -> RecurModel {
        RecurModel {
            cycle: self.func_cycle@.map_values(|s: String| s@),
            parent: self.parent_func@,
        }
    }
}

impl RecurEntry {
    pub fn get_func_cycle(&self) -> (r: &Vec<String>)
        ensures
            r@.map_values(|s: String| s@) == self@.cycle,
    {
        &self.func_cycle
    }

    pub fn get_parent_func(&self) -> (r: &str)
        ensures
            r@ == self@.parent,
    {
        self.parent_func.as_str()
    }
}

/// Whether two recursion entries are the same cycle under the same
/// parent.
fn recur_entry_eq(a: &RecurEntry, b: &RecurEntry) -> (r: bool)
    ensures
        r == (a@ == b@),
{
    if !crate::strutil::str_eq(a.parent_func.as_str(), b.parent_func.as_str()) {
        return false;
    }
    let an: usize = a.func_cycle.len();
    let bn: usize = b.func_cycle.len();
    if an != bn {
        assert(a@.cycle.len() != b@.cycle.len());
        return false;
    }
    let mut i: usize = 0;
    while i < an
        invariant
            an == a.func_cycle@.len(),
            an == b.func_cycle@.len(),
            i <= an,
            a@.parent == b@.parent,
            forall|j: int| 0 <= j < i ==> (#[trigger] a@.cycle[j]) == b@.cycle[j],
        decreases an - i,
    {
        proof {
            assert(a@.cycle[i as int] == a.func_cycle@[i as int]@);
            assert(b@.cycle[i as int] == b.func_cycle@[i as int]@);
        }
        if !crate::strutil::str_eq(a.func_cycle[i].as_str(), b.func_cycle[i].as_str()) {
            return false;
        }
        i = i + 1;
    }
    proof {
        assert(a@.cycle =~= b@.cycle);
    }
    true
}

/// The entries' models, in discovery order.
pub open spec fn entries_models(entries: Seq<RecurEntry>) -> Seq<RecurModel> {
    entries.map_values(|e: RecurEntry| e@)
}

/// The innermost occurrence of `nm` on a name stack, if any.
pub open spec fn last_stack_index(stack: Seq<Seq<char>>, nm: Seq<char>) -> Option<int>
    decreases stack.len(),
{
    if stack.len() == 0 {
        None
    } else if stack.last() == nm {
        Some(stack.len() - 1)
    } else {
        last_stack_index(stack.drop_last(), nm)
    }
}

pub proof fn lemma_last_stack_index(stack: Seq<Seq<char>>, nm: Seq<char>)
    ensures
        match last_stack_index(stack, nm) {
            Some(i) => 0 <= i < stack.len() && stack[i] == nm && forall|j: int|
                i < j < stack.len() ==> stack[j] != nm,
            None => forall|j: int| 0 <= j < stack.len() ==> stack[j] != nm,
        },
    decreases stack.len(),
{
    if stack.len() > 0 && stack.last() != nm {
        lemma_last_stack_index(stack.drop_last(), nm);
        assert(forall|j: int|
            0 <= j < stack.len() - 1 ==> #[trigger] stack[j] == stack.drop_last()[j]);
    }
}

/// What visiting one node records: when its display name already stands
/// on the stack above the bottom frame, the cycle from that innermost
/// occurrence down to this repetition, with the frame below it — unless
/// the identical pair was recorded before.
pub open spec fn recur_visit(
    nodes: Seq<NodeModel>,
    i: int,
    stack: Seq<Seq<char>>,
    acc: Seq<RecurModel>,
) -> Seq<RecurModel> {
    let nm = crate::exec_tree::thread_tree::node_name_or_init(nodes[i].kind);
    match last_stack_index(stack, nm) {
        Some(idx) => if idx >= 1 {
            let m = RecurModel { cycle: stack.skip(idx).push(nm), parent: stack[idx - 1] };
            if acc.contains(m) {
                acc
            } else {
                acc.push(m)
            }
        } else {
            acc
        },
        None => acc,
    }
}

/// The depth-first walk under node `i` with the live name stack `stack`:
/// record at the node, push its name, walk the children in call order,
/// and leave the stack as it was.
pub open spec fn recur_dfs(
    nodes: Seq<NodeModel>,
    i: int,
    stack: Seq<Seq<char>>,
    acc: Seq<RecurModel>,
) -> Seq<RecurModel>
    decreases nodes.len() - i, children_of_acts(nodes[i].acts).len() + 1,
{
    if i < 0 || i >= nodes.len() {
        acc
    } else {
        let nm = crate::exec_tree::thread_tree::node_name_or_init(nodes[i].kind);
        recur_children(nodes, i, 0, stack.push(nm), recur_visit(nodes, i, stack, acc))
    }
}

/// The walk over the children of node `i`, from the `k`-th on.
pub open spec fn recur_children(
    nodes: Seq<NodeModel>,
    i: int,
    k: int,
    stack: Seq<Seq<char>>,
    acc: Seq<RecurModel>,
) -> Seq<RecurModel>
    decreases nodes.len() - i, children_of_acts(nodes[i].acts).len() - k,
{
    let cs = children_of_acts(nodes[i].acts);
    if i < 0 || i >= nodes.len() || k < 0 || k >= cs.len() {
        acc
    } else {
        let acc2 = if i < cs[k] < nodes.len() {
            recur_dfs(nodes, cs[k], stack, acc)
        } else {
            acc
        };
        recur_children(nodes, i, k + 1, stack, acc2)
    }
}

/// The depth-first recursion detector: a live name stack and the
/// de-duplicated entries found so far.
pub struct ThreadTreeRecurChecker {
    recur_entries: Vec<RecurEntry>,
    func_stack: Vec<String>,
}

/// A well-shaped recursion entry: the cycle runs from one occurrence of
/// a name to its repetition, so it has at least two names and starts and
/// ends with the same one.
pub open spec fn recur_entry_shaped(m: RecurModel) -> bool {
    m.cycle.len() >= 2 && m.cycle[0] == m.cycle[m.cycle.len() - 1]
}

/// Every listed recursion entry is well-shaped.
pub open spec fn entries_shaped(entries: Seq<RecurEntry>) -> bool {
    forall|e: int| 0 <= e < entries.len() ==> recur_entry_shaped((#[trigger] entries[e])@)
}

/// Entries pairwise distinct as (cycle, parent) pairs.
pub open spec fn entries_distinct(entries: Seq<RecurEntry>) -> bool {
    forall|i: int, j: int|
        0 <= i < j < entries.len() ==> (#[trigger] entries[i])@ != (#[trigger] entries[j])@
}

/// A shaped entry appended to shaped entries keeps them shaped.
pub proof fn lemma_entries_shaped_push(entries: Seq<RecurEntry>, e: RecurEntry)
    requires
        entries_shaped(entries),
        recur_entry_shaped(e@),
    ensures
        entries_shaped(entries.push(e)),
{
    assert forall|k: int|
        0 <= k < entries.push(e).len() implies recur_entry_shaped(
        (#[trigger] entries.push(e)[k])@,
    ) by {
        if k < entries.len() {
            assert(entries.push(e)[k] == entries[k]);
        } else {
            assert(entries.push(e)[k] == e);
        }
    };
}

impl ThreadTreeRecurChecker {
    pub fn new() -> (r: Self)
        ensures
            r.entries_view() == Seq::<RecurEntry>::empty(),
            r.stack_view() == Seq::<Seq<char>>::empty(),
    {
        let r = Self { recur_entries: Vec::new(), func_stack: Vec::new() };
        proof {
            assert(r.entries_view() =~= Seq::<RecurEntry>::empty());
            assert(r.stack_view() =~= Seq::<Seq<char>>::empty());
        }
        r
    }

    pub closed spec fn entries_view(&self) -> Seq<RecurEntry> {
        self.recur_entries@
    }

    pub closed spec fn stack_view(&self) -> Seq<Seq<char>> {
        self.func_stack@.map_values(|s: String| s@)
    }

    /// The index of the innermost stack frame with name `nm`, if any.
    fn get_latest_same_func(&self, func_name: &str) -> (r: Option<usize>)
        ensures
            match r {
                Some(i) => i < self.stack_view().len() && self.stack_view()[i as int] == func_name@
                    && forall|j: int|
                    i < j < self.stack_view().len() ==> (#[trigger] self.stack_view()[j])
                        != func_name@,
                None => forall|j: int|
                    0 <= j < self.stack_view().len() ==> (#[trigger] self.stack_view()[j])
                        != func_name@,
            },
    {
        let n: usize = self.func_stack.len();
        let mut i: usize = n;
        while i > 0
            invariant
                n == self.func_stack@.len(),
                i <= n,
                forall|j: int|
                    i <= j < n ==> (#[trigger] self.stack_view()[j]) != func_name@,
            decreases i,
        {
            i = i - 1;
            proof {
                assert(self.stack_view()[i as int] == self.func_stack@[i as int]@);
            }
            if crate::strutil::str_eq(self.func_stack[i].as_str(), func_name) {
                return Some(i);
            }
        }
        None
    }

    /// Walk the subtree under `cur`, tracking the live name stack; on a
    /// repeated name, record the cycle from its innermost earlier
    /// occurrence to the repetition, with the frame below it, dropping
    /// exact duplicates.  Every recorded entry is well-shaped.
    /// Walk the subtree under `cur`, tracking the live name stack; on a
    /// repeated name, record the cycle from its innermost earlier
    /// occurrence to the repetition, with the frame below it, dropping
    /// exact duplicates.  The entries recorded are exactly those of the
    /// depth-first walk `recur_dfs`; the walk continues past a recursive
    /// node whether or not it has children.
    fn check_recur_impl(&mut self, tree: &ThreadExecTree, cur: NodeIdx)
        requires
            parents_wf(tree@.nodes),
            linked(tree@.nodes),
            cur < tree@.nodes.len(),
            entries_shaped(old(self).entries_view()),
            entries_distinct(old(self).entries_view()),
        ensures
            final(self).stack_view() == old(self).stack_view(),
            entries_models(final(self).entries_view()) == recur_dfs(
                tree@.nodes,
                cur as int,
                old(self).stack_view(),
                entries_models(old(self).entries_view()),
            ),
            entries_shaped(final(self).entries_view()),
            entries_distinct(final(self).entries_view()),
        decreases tree@.nodes.len() - cur,
    {
        let ghost nodes = tree@.nodes;
        let ghost stack_pre = self.stack_view();
        let ghost acc_pre = entries_models(self.recur_entries@);
        let node = tree.get_node(cur);
        let func_name = String::from_str(node.get_func_name_or_init());
        let ghost nm = func_name@;
        proof {
            assert(nm == crate::exec_tree::thread_tree::node_name_or_init(
                nodes[cur as int].kind,
            ));
            lemma_last_stack_index(stack_pre, nm);
        }
        match self.get_latest_same_func(func_name.as_str()) {
            Some(cycle_start_idx) => {
                proof {
                    match last_stack_index(stack_pre, nm) {
                        Some(si) => {
                            if si < cycle_start_idx {
                                assert(stack_pre[cycle_start_idx as int] != nm);
                            }
                            if si > cycle_start_idx {
                                assert(stack_pre[si] != nm);
                            }
                        },
                        None => {
                            assert(stack_pre[cycle_start_idx as int] != nm);
                        },
                    }
                    assert(last_stack_index(stack_pre, nm) == Some(cycle_start_idx as int));
                }
                if cycle_start_idx > 0 {
                    let mut func_cycle: Vec<String> = Vec::new();
                    let sn: usize = self.func_stack.len();
                    let mut k: usize = cycle_start_idx;
                    while k < sn
                        invariant
                            sn == self.func_stack@.len(),
                            cycle_start_idx <= k <= sn,
                            cycle_start_idx < sn,
                            func_cycle@.len() == k - cycle_start_idx,
                            forall|j: int|
                                0 <= j < func_cycle@.len() ==> (#[trigger] func_cycle@[j])@
                                    == self.stack_view()[cycle_start_idx + j],
                        decreases sn - k,
                    {
                        proof {
                            assert(self.stack_view()[k as int] == self.func_stack@[k as int]@);
                        }
                        func_cycle.push(self.func_stack[k].clone());
                        k = k + 1;
                    }
                    func_cycle.push(func_name.clone());
                    let parent_func = self.func_stack[cycle_start_idx - 1].clone();
                    let entry = RecurEntry { func_cycle, parent_func };
                    proof {
                        assert(entry@.cycle =~= stack_pre.skip(cycle_start_idx as int).push(nm));
                        assert(entry@.parent == stack_pre[cycle_start_idx - 1]);
                        assert(entry@.cycle[0] == self.stack_view()[cycle_start_idx as int]);
                        assert(entry@.cycle[entry@.cycle.len() - 1] == nm);
                        assert(recur_entry_shaped(entry@));
                    }
                    let en: usize = self.recur_entries.len();
                    let mut seen = false;
                    let mut e: usize = 0;
                    while e < en && !seen
                        invariant
                            en == self.recur_entries@.len(),
                            e <= en,
                            !seen ==> forall|j: int|
                                0 <= j < e ==> (#[trigger] self.recur_entries@[j])@ != entry@,
                            seen ==> e < en && self.recur_entries@[e as int]@ == entry@,
                        decreases en - e + (if seen {
                            0int
                        } else {
                            1int
                        }),
                    {
                        if recur_entry_eq(&self.recur_entries[e], &entry) {
                            seen = true;
                        } else {
                            e = e + 1;
                        }
                    }
                    if !seen {
                        proof {
                            if acc_pre.contains(entry@) {
                                let w = choose|w: int|
                                    0 <= w < acc_pre.len() && acc_pre[w] == entry@;
                                assert(self.recur_entries@[w]@ == entry@);
                                assert(false);
                            }
                        }
                        let ghost entries0 = self.recur_entries@;
                        self.recur_entries.push(entry);
                        proof {
                            lemma_entries_shaped_push(entries0, entry);
                            assert(self.entries_view() == entries0.push(entry));
                            assert(entries_models(self.recur_entries@) =~= acc_pre.push(entry@));
                            assert forall|i: int, j: int|
                                0 <= i < j < self.recur_entries@.len() implies (
                            #[trigger] self.recur_entries@[i])@ != (
                            #[trigger] self.recur_entries@[j])@ by {
                                if j < entries0.len() {
                                    assert(self.recur_entries@[i] == entries0[i]);
                                    assert(self.recur_entries@[j] == entries0[j]);
                                } else {
                                    assert(self.recur_entries@[i] == entries0[i]);
                                    assert(self.recur_entries@[j] == entry);
                                }
                            };
                        }
                    } else {
                        proof {
                            let we = choose|w: int|
                                0 <= w < self.recur_entries@.len() && (
                                #[trigger] self.recur_entries@[w])@ == entry@;
                            assert(acc_pre[we] == entry@);
                            assert(acc_pre.contains(entry@));
                        }
                    }
                }
            },
            None => {},
        }
        let ghost acc_visit = entries_models(self.recur_entries@);
        proof {
            assert(acc_visit == recur_visit(nodes, cur as int, stack_pre, acc_pre));
        }
        let ghost stack0 = self.stack_view();
        self.func_stack.push(func_name);
        proof {
            assert(self.stack_view() =~= stack0.push(nm));
        }
        let kids = tree.sub_funcs(cur);
        proof {
            lemma_children_nodup(tree@.nodes, cur as int);
        }
        let kn: usize = kids.len();
        let mut ki: usize = 0;
        while ki < kn
            invariant
                nodes == tree@.nodes,
                parents_wf(tree@.nodes),
                linked(tree@.nodes),
                cur < tree@.nodes.len(),
                kn == kids@.len(),
                kids@.map_values(|x: NodeIdx| x as int) == children_of_acts(
                    tree@.nodes[cur as int].acts,
                ),
                forall|m: int|
                    0 <= m < children_of_acts(tree@.nodes[cur as int].acts).len() ==> {
                        let c = #[trigger] children_of_acts(tree@.nodes[cur as int].acts)[m];
                        &&& 1 <= c < tree@.nodes.len()
                        &&& tree@.nodes[c].kind matches NodeKind::Regular { parent, .. }
                            && parent == cur
                    },
                ki <= kn,
                self.stack_view() == stack0.push(nm),
                recur_children(nodes, cur as int, 0, stack0.push(nm), acc_visit)
                    == recur_children(
                    nodes,
                    cur as int,
                    ki as int,
                    stack0.push(nm),
                    entries_models(self.entries_view()),
                ),
                entries_shaped(self.entries_view()),
                entries_distinct(self.entries_view()),
            decreases kn - ki,
        {
            let kid = kids[ki];
            proof {
                assert(kids@[ki as int] as int == children_of_acts(
                    tree@.nodes[cur as int].acts,
                )[ki as int]);
                assert((cur as int) < (kid as int) && (kid as int) < nodes.len());
            }
            self.check_recur_impl(tree, kid);
            ki = ki + 1;
        }
        proof {
            assert(recur_children(
                nodes,
                cur as int,
                kn as int,
                stack0.push(nm),
                entries_models(self.entries_view()),
            ) == entries_models(self.entries_view()));
        }
        let ghost pre_pop = self.func_stack@;
        let ghost svb = self.stack_view();
        self.func_stack.pop();
        proof {
            assert(forall|j: int|
                0 <= j < self.func_stack@.len() ==> #[trigger] self.func_stack@[j]
                    == pre_pop[j]);
            assert forall|j: int|
                0 <= j < stack0.len() implies #[trigger] self.stack_view()[j] == stack0[j] by {
                assert(self.stack_view()[j] == self.func_stack@[j]@);
                assert(svb[j] == pre_pop[j]@);
                assert(svb[j] == stack0.push(nm)[j]);
            };
            assert(self.stack_view() =~= stack0);
            assert(entries_models(self.entries_view()) == recur_dfs(
                nodes,
                cur as int,
                stack_pre,
                acc_pre,
            ));
        }
    }

    /// All recursion entries found under `root`: exactly those of the
    /// depth-first walk `recur_dfs`, continued from this checker's
    /// state; each well-shaped, no two alike.
    pub fn check_recur(self, tree: &ThreadExecTree, root: NodeIdx) -> (r: Vec<RecurEntry>)
        requires
            parents_wf(tree@.nodes),
            linked(tree@.nodes),
            root < tree@.nodes.len(),
            entries_shaped(self.entries_view()),
            entries_distinct(self.entries_view()),
        ensures
            entries_models(r@) == recur_dfs(
                tree@.nodes,
                root as int,
                self.stack_view(),
                entries_models(self.entries_view()),
            ),
            entries_shaped(r@),
            entries_distinct(r@),
    {
        let mut checker = self;
        checker.check_recur_impl(tree, root);
        proof {
            assert(entries_shaped(checker.recur_entries@));
            assert(entries_distinct(checker.recur_entries@));
        }
        checker.recur_entries
    }
}

impl ThreadExecTree {
    /// The tree's recursion entries: exactly the repeated-name cycles of
    /// the depth-first walk from the root, in discovery order — for every
    /// node whose display name occurs on its root path above the bottom
    /// frame, the names from the innermost earlier occurrence down to
    /// that node, with the frame below the occurrence — de-duplicated,
    /// each well-shaped.
    pub fn collect_recur_entries(&self) -> (r: Vec<RecurEntry>)
        requires
            parents_wf(self@.nodes),
            linked(self@.nodes),
        ensures
            entries_models(r@) == recur_dfs(
                self@.nodes,
                0,
                Seq::empty(),
                Seq::empty(),
            ),
            entries_shaped(r@),
            entries_distinct(r@),
    {
        let recur_checker = ThreadTreeRecurChecker::new();
        let r = recur_checker.check_recur(self, self.get_root_ptr());
        proof {
            assert(entries_models(Seq::<RecurEntry>::empty()) =~= Seq::<RecurModel>::empty());
        }
        r
    }
}

/// The header locations of the loop actions in one action list, in list
/// order.
pub open spec fn headers_of_acts(acts: Seq<ActModel>) -> Seq<LocModel>
    decreases acts.len(),
{
    if acts.len() == 0 {
        Seq::empty()
    } else {
        let rest = headers_of_acts(acts.drop_last());
        match acts.last() {
            ActModel::Loop(l) => rest.push(l.header),
            _ => rest,
        }
    }
}

/// The header locations of every loop action of the first `t` nodes.
pub open spec fn headers_of_nodes(nodes: Seq<NodeModel>, t: int) -> Seq<LocModel>
    decreases t,
{
    if t <= 0 || t > nodes.len() {
        Seq::empty()
    } else {
        headers_of_nodes(nodes, t - 1) + headers_of_acts(nodes[t - 1].acts)
    }
}

/// How often `h` occurs among the first `t` of the collected headers.
pub open spec fn count_loc(hs: Seq<LocModel>, h: LocModel, t: int) -> int
    decreases t,
{
    if t <= 0 || t > hs.len() {
        0
    } else {
        count_loc(hs, h, t - 1) + (if hs[t - 1] == h {
            1int
        } else {
            0int
        })
    }
}

pub proof fn lemma_count_loc_bound(hs: Seq<LocModel>, h: LocModel, t: int)
    ensures
        0 <= count_loc(hs, h, t) <= (if t <= 0 {
            0
        } else {
            t
        }),
    decreases t,
{
    if t > 0 {
        lemma_count_loc_bound(hs, h, t - 1);
    }
}

pub proof fn lemma_count_loc_witness(hs: Seq<LocModel>, h: LocModel, t: int)
    requires
        count_loc(hs, h, t) > 0,
    ensures
        exists|u: int| 0 <= u < t && u < hs.len() && (#[trigger] hs[u]) == h,
    decreases t,
{
    if t > hs.len() {
        assert(count_loc(hs, h, t) == 0);
    } else if hs[t - 1] == h {
    } else {
        lemma_count_loc_witness(hs, h, t - 1);
    }
}

/// Whether a location model occurs among the listed entry keys.
pub open spec fn loc_listed(entries: Seq<(SrcLoc, usize)>, h: LocModel) -> bool {
    exists|i: int| 0 <= i < entries.len() && (#[trigger] entries[i]).0@ == h
}

/// Whether two locations are the same place.
pub fn loc_eq(a: &SrcLoc, b: &SrcLoc) -> (r: bool)
    ensures
        r == (a@ == b@),
{
    match (a.get_src_path(), b.get_src_path()) {
        (None, None) => true,
        (Some(pa), Some(pb)) => {
            let la = a.get_line().unwrap_or(0);
            let lb = b.get_line().unwrap_or(0);
            let ca = a.get_col().unwrap_or(0);
            let cb = b.get_col().unwrap_or(0);
            crate::strutil::str_eq(pa.as_str(), pb.as_str()) && la == lb && ca == cb
        },
        _ => false,
    }
}

impl ThreadExecTree {
    /// Every loop action's header location, node by node in arena order,
    /// action by action in list order.
    pub fn collect_loop_headers(&self) -> (r: Vec<SrcLoc>)
        ensures
            r@.map_values(|l: SrcLoc| l@) == headers_of_nodes(
                self@.nodes,
                self@.nodes.len() as int,
            ),
    {
        let ghost nodes = self@.nodes;
        let len: usize = self.node_count();
        let mut out: Vec<SrcLoc> = Vec::new();
        let mut v: usize = 0;
        proof {
            assert(out@.map_values(|l: SrcLoc| l@) =~= headers_of_nodes(nodes, 0));
        }
        while v < len
            invariant
                nodes == self@.nodes,
                len == nodes.len(),
                v <= len,
                out@.map_values(|l: SrcLoc| l@) == headers_of_nodes(nodes, v as int),
            decreases len - v,
        {
            let node = self.get_node(v);
            let acts = node.iter_acts();
            let an: usize = acts.len();
            let mut k: usize = 0;
            let ghost sacts = nodes[v as int].acts;
            proof {
                assert(sacts.take(0) =~= Seq::<ActModel>::empty());
                assert(out@.map_values(|l: SrcLoc| l@) =~= headers_of_nodes(nodes, v as int)
                    + headers_of_acts(sacts.take(0)));
            }
            while k < an
                invariant
                    nodes == self@.nodes,
                    an == acts@.len(),
                    acts@.map_values(|a: ExecAction| a@) == sacts,
                    sacts == nodes[v as int].acts,
                    k <= an,
                    out@.map_values(|l: SrcLoc| l@) == headers_of_nodes(nodes, v as int)
                        + headers_of_acts(sacts.take(k as int)),
                decreases an - k,
            {
                proof {
                    assert(sacts.take(k as int + 1).drop_last() =~= sacts.take(k as int));
                    assert(sacts.take(k as int + 1).last() == sacts[k as int]);
                    assert(sacts[k as int] == acts@[k as int]@);
                }
                if let ExecAction::Loop(l) = &acts[k] {
                    let h = l.get_header_loc();
                    out.push(clone_loc(h));
                    proof {
                        assert(out@.map_values(|x: SrcLoc| x@) =~= (headers_of_nodes(
                            nodes,
                            v as int,
                        ) + headers_of_acts(sacts.take(k as int))).push(l@.header));
                    }
                }
                k = k + 1;
            }
            proof {
                assert(sacts.take(an as int) =~= sacts);
            }
            v = v + 1;
        }
        out
    }

    /// How often each loop header is hit: every header that occurs is
    /// listed exactly once, with its exact tally over the whole tree.
    #[verifier::rlimit(100)]
    #[verifier::spinoff_prover]
    pub fn collect_most_hit_loop_headers(&self) -> (r: Vec<(SrcLoc, usize)>)
        ensures
            forall|i: int, j: int|
                0 <= i < j < r@.len() ==> (#[trigger] r@[i]).0@ != (#[trigger] r@[j]).0@,
            forall|i: int|
                0 <= i < r@.len() ==> (#[trigger] r@[i]).1 as int == count_loc(
                    headers_of_nodes(self@.nodes, self@.nodes.len() as int),
                    r@[i].0@,
                    headers_of_nodes(self@.nodes, self@.nodes.len() as int).len() as int,
                ) && headers_of_nodes(self@.nodes, self@.nodes.len() as int).contains(r@[i].0@),
            forall|u: int|
                0 <= u < headers_of_nodes(self@.nodes, self@.nodes.len() as int).len()
                    ==> loc_listed(
                    r@,
                    #[trigger] headers_of_nodes(self@.nodes, self@.nodes.len() as int)[u],
                ),
    {
        let headers = self.collect_loop_headers();
        let ghost hs = headers@.map_values(|l: SrcLoc| l@);
        let n: usize = headers.len();
        let mut acc: Vec<(SrcLoc, usize)> = Vec::new();
        let mut v: usize = 0;
        while v < n
            invariant
                hs == headers@.map_values(|l: SrcLoc| l@),
                n == headers@.len(),
                v <= n,
                forall|i: int, j: int|
                    0 <= i < j < acc@.len() ==> (#[trigger] acc@[i]).0@ != (#[trigger] acc@[j]).0@,
                forall|i: int|
                    0 <= i < acc@.len() ==> (#[trigger] acc@[i]).1 as int == count_loc(
                        hs,
                        acc@[i].0@,
                        v as int,
                    ) && hs.contains(acc@[i].0@),
                forall|u: int| 0 <= u < v ==> loc_listed(acc@, #[trigger] hs[u]),
            decreases n - v,
        {
            let h: &SrcLoc = &headers[v];
            let ghost hm = h@;
            proof {
                assert(hs[v as int] == hm);
            }
            let an: usize = acc.len();
            let mut i: usize = 0;
            let mut found = false;
            while i < an && !found
                invariant
                    an == acc@.len(),
                    hm == h@,
                    i <= an,
                    !found ==> forall|j: int| 0 <= j < i ==> (#[trigger] acc@[j]).0@ != hm,
                    found ==> i < an && acc@[i as int].0@ == hm,
                decreases an - i + (if found {
                    0int
                } else {
                    1int
                }),
            {
                if loc_eq(&acc[i].0, h) {
                    found = true;
                } else {
                    i = i + 1;
                }
            }
            proof {
                lemma_count_loc_bound(hs, hm, v as int);
            }
            if found {
                let ghost acc0 = acc@;
                let entry_loc = clone_loc(&acc[i].0);
                let entry_cnt = acc[i].1;
                acc.remove(i);
                acc.insert(i, (entry_loc, entry_cnt + 1));
                proof {
                    assert(acc@ =~= acc0.update(i as int, acc@[i as int]));
                    assert(acc@[i as int].0@ == hm);
                    assert(forall|j: int|
                        0 <= j < acc@.len() ==> (#[trigger] acc@[j]).0@ == acc0[j].0@);
                    assert forall|u: int| 0 <= u < v + 1 implies loc_listed(
                        acc@,
                        #[trigger] hs[u],
                    ) by {
                        if u < v {
                            let wi = choose|wi: int|
                                0 <= wi < acc0.len() && (#[trigger] acc0[wi]).0@ == hs[u];
                            assert(acc@[wi].0@ == hs[u]);
                        } else {
                            assert(acc@[i as int].0@ == hm);
                        }
                    };
                }
            } else {
                proof {
                    if count_loc(hs, hm, v as int) > 0 {
                        lemma_count_loc_witness(hs, hm, v as int);
                        let u = choose|u: int|
                            0 <= u < v && u < hs.len() && (#[trigger] hs[u]) == hm;
                        assert(false);
                    }
                }
                let ghost acc0 = acc@;
                acc.push((clone_loc(h), 1));
                proof {
                    assert(acc@[acc@.len() - 1].0@ == hm);
                    assert(forall|j: int|
                        0 <= j < acc0.len() ==> (#[trigger] acc@[j]).0@ == acc0[j].0@);
                    assert forall|u: int| 0 <= u < v + 1 implies loc_listed(
                        acc@,
                        #[trigger] hs[u],
                    ) by {
                        if u < v {
                            let wi = choose|wi: int|
                                0 <= wi < acc0.len() && (#[trigger] acc0[wi]).0@ == hs[u];
                            assert(acc@[wi].0@ == hs[u]);
                        } else {
                            assert(acc@[acc@.len() - 1].0@ == hm);
                        }
                    };
                }
            }
            v = v + 1;
        }
        acc
    }

    /// The fan-out record: for each function name, the direct child
    /// count recorded at the name's first occurrence in breadth-first
    /// order; later occurrences never overwrite it, and the synthetic
    /// root records nothing.
    #[verifier::rlimit(100)]
    #[verifier::spinoff_prover]
    pub fn collect_func_with_most_childs(&self) -> (r: Vec<(String, usize)>)
        requires
            parents_wf(self@.nodes),
            linked(self@.nodes),
        ensures
            r@.map_values(|p: (String, usize)| (p.0@, p.1 as nat)) == fanout_fold(
                self@.nodes,
                bfs_order(self@.nodes),
                0,
                Seq::empty(),
            ),
            forall|i: int, j: int|
                0 <= i < j < r@.len() ==> (#[trigger] r@[i]).0@ != (#[trigger] r@[j]).0@,
            covers_names(r@, self@.nodes),
    {
        let ghost nodes = self@.nodes;
        let order = self.bfs_nodes();
        let n: usize = order.len();
        let mut acc: Vec<(String, usize)> = Vec::new();
        let mut oi: usize = 0;
        proof {
            assert(acc@.map_values(|p: (String, usize)| (p.0@, p.1 as nat)) =~= Seq::<
                (Seq<char>, nat),
            >::empty());
        }
        while oi < n
            invariant
                nodes == self@.nodes,
                parents_wf(nodes),
                linked(nodes),
                n == order@.len(),
                n == nodes.len(),
                order@ == bfs_order(nodes),
                forall|m: int| 0 <= m < order@.len() ==> (#[trigger] order@[m]) < nodes.len(),
                forall|w: int| 0 <= w < nodes.len() ==> contains_idx(order@, w),
                oi <= n,
                fanout_fold(nodes, order@, 0, Seq::empty()) == fanout_fold(
                    nodes,
                    order@,
                    oi as int,
                    acc@.map_values(|p: (String, usize)| (p.0@, p.1 as nat)),
                ),
                forall|i: int, j: int|
                    0 <= i < j < acc@.len() ==> (#[trigger] acc@[i]).0@ != (#[trigger] acc@[j]).0@,
                forall|m: int|
                    0 <= m < oi ==> ((#[trigger] nodes[order@[m] as int].kind)
                        matches NodeKind::Regular { name, .. } ==> name_listed(acc@, name)),
            decreases n - oi,
        {
            let ghost accm = acc@.map_values(|p: (String, usize)| (p.0@, p.1 as nat));
            let p: NodeIdx = order[oi];
            let node = self.get_node(p);
            match node.get_func_name() {
                None => {},
                Some(name) => {
                    let ghost nm = name@;
                    let an: usize = acc.len();
                    let mut i: usize = 0;
                    let mut found = false;
                    while i < an && !found
                        invariant
                            an == acc@.len(),
                            nm == name@,
                            i <= an,
                            !found ==> forall|j: int| 0 <= j < i ==> (#[trigger] acc@[j]).0@ != nm,
                            found ==> i < an && acc@[i as int].0@ == nm,
                        decreases an - i + (if found {
                            0int
                        } else {
                            1int
                        }),
                    {
                        if crate::strutil::str_eq(acc[i].0.as_str(), name) {
                            found = true;
                        } else {
                            i = i + 1;
                        }
                    }
                    proof {
                        if found {
                            assert(accm[i as int].0 == nm);
                            assert(fan_listed(accm, nm));
                        } else {
                            if fan_listed(accm, nm) {
                                let w = choose|w: int|
                                    0 <= w < accm.len() && (#[trigger] accm[w]).0 == nm;
                                assert(acc@[w].0@ == nm);
                                assert(false);
                            }
                        }
                    }
                    if !found {
                        let kids = self.sub_funcs(p);
                        let ghost acc0 = acc@;
                        acc.push((String::from_str(name), kids.len()));
                        proof {
                            assert(acc@[acc@.len() - 1].0@ == nm);
                            assert(acc@.map_values(|q: (String, usize)| (q.0@, q.1 as nat))
                                =~= accm.push(
                                (nm, children_of_acts(nodes[p as int].acts).len() as nat),
                            ));
                            assert(forall|j: int|
                                0 <= j < acc0.len() ==> #[trigger] acc@[j] == acc0[j]);
                            assert forall|m: int| 0 <= m < oi + 1 implies ((
                            #[trigger] nodes[order@[m] as int].kind) matches NodeKind::Regular {
                                name,
                                ..
                            } ==> name_listed(acc@, name)) by {
                                match nodes[order@[m] as int].kind {
                                    NodeKind::Regular { name: nu, .. } => {
                                        if m < oi {
                                            lemma_name_listed_preserved(acc0, acc@, nu);
                                        } else {
                                            assert(acc@[acc@.len() - 1].0@ == nm);
                                        }
                                    },
                                    NodeKind::Init => {},
                                }
                            };
                        }
                    } else {
                        proof {
                            assert forall|m: int| 0 <= m < oi + 1 implies ((
                            #[trigger] nodes[order@[m] as int].kind) matches NodeKind::Regular {
                                name,
                                ..
                            } ==> name_listed(acc@, name)) by {
                                if m == oi {
                                    assert(acc@[i as int].0@ == nm);
                                }
                            };
                        }
                    }
                },
            }
            oi = oi + 1;
        }
        let result = acc;
        proof {
            assert forall|w: int|
                0 <= w < nodes.len() implies ((#[trigger] nodes[w].kind)
                matches NodeKind::Regular { name, .. } ==> name_listed(result@, name)) by {
                match nodes[w].kind {
                    NodeKind::Regular { name, .. } => {
                        assert(contains_idx(order@, w));
                        let m = choose|m: int|
                            0 <= m < order@.len() && (#[trigger] order@[m]) as int == w;
                        assert(name_listed(
                            result@,
                            match nodes[order@[m] as int].kind {
                                NodeKind::Regular { name: nu, .. } => nu,
                                NodeKind::Init => name,
                            },
                        ));
                    },
                    NodeKind::Init => {},
                }
            };
            assert(covers_names(result@, self@.nodes));
        }
        result
    }
}

/// Whether a name already has a fan-out record.
pub open spec fn fan_listed(acc: Seq<(Seq<char>, nat)>, nm: Seq<char>) -> bool {
    exists|i: int| 0 <= i < acc.len() && (#[trigger] acc[i]).0 == nm
}

/// The fan-out records over the nodes of `order` from the `k`-th on:
/// the first occurrence of each function name records its direct child
/// count; the synthetic root and later occurrences record nothing.
pub open spec fn fanout_fold(
    nodes: Seq<NodeModel>,
    order: Seq<NodeIdx>,
    k: int,
    acc: Seq<(Seq<char>, nat)>,
) -> Seq<(Seq<char>, nat)>
    decreases order.len() - k,
{
    if k < 0 || k >= order.len() {
        acc
    } else {
        let v = order[k] as int;
        let acc2 = if 0 <= v < nodes.len() {
            match nodes[v].kind {
                NodeKind::Regular { name, .. } => if fan_listed(acc, name) {
                    acc
                } else {
                    acc.push((name, children_of_acts(nodes[v].acts).len() as nat))
                },
                NodeKind::Init => acc,
            }
        } else {
            acc
        };
        fanout_fold(nodes, order, k + 1, acc2)
    }
}

/// The display label of a location: `path:line:col`, or the null
/// literal.
pub open spec fn loc_label_spec(m: LocModel) -> Seq<char> {
    match m {
        LocModel::Null => "NullLoc"@,
        LocModel::At { path, line, col } => path + ":"@ + crate::strutil::decimal_of(line) + ":"@
            + crate::strutil::decimal_of(col),
    }
}

/// Render a location as its display label.
pub fn loc_label(l: &SrcLoc) -> (r: String)
    ensures
        r@ == loc_label_spec(l@),
{
    match l {
        SrcLoc::NullLoc => String::from_str("NullLoc"),
        SrcLoc::Valid { fpath, line, col } => {
            let mut s = fpath.clone();
            s.append(":");
            s.append(crate::strutil::usize_to_decimal(*line).as_str());
            s.append(":");
            s.append(crate::strutil::usize_to_decimal(*col).as_str());
            s
        },
    }
}

impl ThreadExecTree {
    /// The most-hit-loop-header report: the ten largest tallies in
    /// descending order, each entry a header's display label with its
    /// exact tally; every hit header is either listed or — only when the
    /// report is full — tallies no more than the least listed entry.
    pub fn collect_top_loop_headers(&self) -> (r: FuncNodeLenList)
        ensures
            sorted_desc(r@),
            r@.len() <= 10,
            forall|u: int|
                0 <= u < headers_of_nodes(self@.nodes, self@.nodes.len() as int).len()
                    ==> listed_or_dominated(
                    r@,
                    loc_label_spec(
                        #[trigger] headers_of_nodes(self@.nodes, self@.nodes.len() as int)[u],
                    ),
                    count_loc(
                        headers_of_nodes(self@.nodes, self@.nodes.len() as int),
                        headers_of_nodes(self@.nodes, self@.nodes.len() as int)[u],
                        headers_of_nodes(self@.nodes, self@.nodes.len() as int).len() as int,
                    ) as nat,
                ),
    {
        let ghost hs = headers_of_nodes(self@.nodes, self@.nodes.len() as int);
        let tallies = self.collect_most_hit_loop_headers();
        let n: usize = tallies.len();
        let mut labeled: Vec<(String, usize)> = Vec::new();
        let mut i: usize = 0;
        while i < n
            invariant
                hs == headers_of_nodes(self@.nodes, self@.nodes.len() as int),
                n == tallies@.len(),
                forall|j: int|
                    0 <= j < tallies@.len() ==> (#[trigger] tallies@[j]).1 as int == count_loc(
                        hs,
                        tallies@[j].0@,
                        hs.len() as int,
                    ) && hs.contains(tallies@[j].0@),
                forall|u: int| 0 <= u < hs.len() ==> loc_listed(tallies@, #[trigger] hs[u]),
                i <= n,
                labeled@.len() == i,
                forall|j: int|
                    0 <= j < i ==> (#[trigger] labeled@[j]).0@ == loc_label_spec(tallies@[j].0@)
                        && labeled@[j].1 == tallies@[j].1,
            decreases n - i,
        {
            let lbl = loc_label(&tallies[i].0);
            labeled.push((lbl, tallies[i].1));
            i = i + 1;
        }
        let r = rank_entries(&labeled);
        proof {
            assert forall|u: int| 0 <= u < hs.len() implies listed_or_dominated(
                r@,
                loc_label_spec(#[trigger] hs[u]),
                count_loc(hs, hs[u], hs.len() as int) as nat,
            ) by {
                assert(loc_listed(tallies@, hs[u]));
                let j = choose|j: int|
                    0 <= j < tallies@.len() && (#[trigger] tallies@[j]).0@ == hs[u];
                assert(labeled@[j].0@ == loc_label_spec(hs[u]));
                assert(listed_or_dominated(r@, labeled@[j].0@, labeled@[j].1 as nat));
            };
        }
        r
    }

    /// The widest-fan-out report: the ten largest first-occurrence child
    /// counts in descending order; every recorded name is either listed
    /// with its exact count or — only when the report is full — counts no
    /// more than the least listed entry.
    pub fn collect_widest_fan_out(&self) -> (r: FuncNodeLenList)
        requires
            parents_wf(self@.nodes),
            linked(self@.nodes),
        ensures
            sorted_desc(r@),
            r@.len() <= 10,
            forall|k1: int, k2: int|
                0 <= k1 < k2 < r@.len() ==> (#[trigger] r@[k1]).name != (#[trigger] r@[k2]).name,
            forall|k: int|
                0 <= k < r@.len() ==> exists|j: int|
                    0 <= j < fanout_fold(self@.nodes, bfs_order(self@.nodes), 0, Seq::empty()).len()
                        && (#[trigger] r@[k]).name == fanout_fold(
                        self@.nodes,
                        bfs_order(self@.nodes),
                        0,
                        Seq::empty(),
                    )[j].0 && r@[k].len == fanout_fold(
                        self@.nodes,
                        bfs_order(self@.nodes),
                        0,
                        Seq::empty(),
                    )[j].1,
            forall|j: int|
                0 <= j < fanout_fold(self@.nodes, bfs_order(self@.nodes), 0, Seq::empty()).len()
                    ==> listed_or_dominated(
                    r@,
                    (#[trigger] fanout_fold(self@.nodes, bfs_order(self@.nodes), 0, Seq::empty())[
                        j
                    ]).0,
                    fanout_fold(self@.nodes, bfs_order(self@.nodes), 0, Seq::empty())[j].1,
                ),
    {
        let fan = self.collect_func_with_most_childs();
        let ghost fm = fanout_fold(self@.nodes, bfs_order(self@.nodes), 0, Seq::empty());
        let r = rank_entries(&fan);
        proof {
            assert(forall|j: int|
                0 <= j < fan@.len() ==> (#[trigger] fm[j]).0 == fan@[j].0@ && fm[j].1 == fan@[
                    j
                ].1 as nat);
            assert forall|k: int|
                0 <= k < r@.len() implies exists|j: int|
                0 <= j < fm.len() && (#[trigger] r@[k]).name == fm[j].0 && r@[k].len
                    == fm[j].1 by {
                let j = choose|j: int|
                    0 <= j < fan@.len() && (#[trigger] r@[k]).name == fan@[j].0@ && r@[k].len
                        == fan@[j].1 as nat;
                assert(fm[j].0 == r@[k].name && fm[j].1 == r@[k].len);
            };
            assert forall|j: int| 0 <= j < fm.len() implies listed_or_dominated(
                r@,
                (#[trigger] fm[j]).0,
                fm[j].1,
            ) by {
                assert(listed_or_dominated(r@, fan@[j].0@, fan@[j].1 as nat));
            };
        }
        r
    }
}

/// The display names up the parent chain from node `i` to the root,
/// the node's own name first.
pub open spec fn ancestor_names(nodes: Seq<NodeModel>, i: int) -> Seq<Seq<char>>
    decreases i,
{
    seq![crate::exec_tree::thread_tree::node_name_or_init(nodes[i].kind)] + (
    match parent_of(nodes, i) {
        Some(p) => if 0 <= p < i {
            ancestor_names(nodes, p)
        } else {
            Seq::empty()
        },
        None => Seq::empty(),
    })
}

impl ThreadExecTree {
    /// The first two nodes bearing `func_name`, in creation order; when
    /// fewer than two bear it, there is no pair to compare.
    pub fn first_two_with_name(&self, func_name: &str) -> (r: Option<(NodeIdx, NodeIdx)>)
        ensures
            match r {
                Some((a, b)) => a < b < self@.nodes.len()
                    && crate::exec_tree::thread_tree::node_name_or_init(self@.nodes[a as int].kind)
                    == func_name@ && crate::exec_tree::thread_tree::node_name_or_init(
                    self@.nodes[b as int].kind,
                ) == func_name@,
                None => forall|v1: int, v2: int|
                    0 <= v1 < v2 < self@.nodes.len()
                        ==> !(crate::exec_tree::thread_tree::node_name_or_init(
                        (#[trigger] self@.nodes[v1]).kind,
                    ) == func_name@ && crate::exec_tree::thread_tree::node_name_or_init(
                        (#[trigger] self@.nodes[v2]).kind,
                    ) == func_name@),
            },
    {
        let ghost nodes = self@.nodes;
        let ghost nm = func_name@;
        let len: usize = self.node_count();
        let mut first: Option<NodeIdx> = None;
        let mut v: usize = 0;
        while v < len
            invariant
                nodes == self@.nodes,
                nm == func_name@,
                len == nodes.len(),
                v <= len,
                match first {
                    Some(a) => a < v && crate::exec_tree::thread_tree::node_name_or_init(
                        nodes[a as int].kind,
                    ) == nm && forall|u: int|
                        0 <= u < v && u != a
                            ==> crate::exec_tree::thread_tree::node_name_or_init(
                            (#[trigger] nodes[u]).kind,
                        ) != nm,
                    None => forall|u: int|
                        0 <= u < v ==> crate::exec_tree::thread_tree::node_name_or_init(
                            (#[trigger] nodes[u]).kind,
                        ) != nm,
                },
            decreases len - v,
        {
            let node = self.get_node(v);
            if crate::strutil::str_eq(node.get_func_name_or_init(), func_name) {
                match first {
                    Some(a) => {
                        return Some((a, v));
                    },
                    None => {
                        first = Some(v);
                    },
                }
            }
            v = v + 1;
        }
        None
    }

    /// The names along the parent chain of node `i`, the node's own name
    /// first, the root's last.
    pub fn chain_to_root(&self, i: NodeIdx) -> (r: Vec<String>)
        requires
            parents_wf(self@.nodes),
            i < self@.nodes.len(),
        ensures
            r@.map_values(|s: String| s@) == ancestor_names(self@.nodes, i as int),
    {
        let ghost nodes = self@.nodes;
        let mut out: Vec<String> = Vec::new();
        let mut cur: NodeIdx = i;
        proof {
            assert(out@.map_values(|s: String| s@) =~= Seq::<Seq<char>>::empty());
        }
        loop
            invariant
                nodes == self@.nodes,
                parents_wf(nodes),
                cur < nodes.len(),
                ancestor_names(nodes, i as int) =~= out@.map_values(|s: String| s@)
                    + ancestor_names(nodes, cur as int),
            decreases cur,
        {
            let node = self.get_node(cur);
            let ghost out0 = out@.map_values(|s: String| s@);
            out.push(String::from_str(node.get_func_name_or_init()));
            proof {
                assert(out@.map_values(|s: String| s@) =~= out0.push(
                    crate::exec_tree::thread_tree::node_name_or_init(nodes[cur as int].kind),
                ));
            }
            match node.get_parent_ptr() {
                Some(p) => {
                    proof {
                        assert(ancestor_names(nodes, cur as int) =~= seq![
                            crate::exec_tree::thread_tree::node_name_or_init(
                                nodes[cur as int].kind,
                            ),
                        ] + ancestor_names(nodes, p as int));
                    }
                    cur = p;
                },
                None => {
                    proof {
                        assert(ancestor_names(nodes, cur as int) =~= seq![
                            crate::exec_tree::thread_tree::node_name_or_init(
                                nodes[cur as int].kind,
                            ),
                        ]);
                        assert(out@.map_values(|s: String| s@) =~= ancestor_names(
                            nodes,
                            i as int,
                        ));
                    }
                    return out;
                },
            }
        }
    }
}

/// A structural copy of a location.
fn clone_loc(l: &SrcLoc) -> (r: SrcLoc)
    ensures
        r@ == l@,
{
    match l {
        SrcLoc::NullLoc => SrcLoc::NullLoc,
        SrcLoc::Valid { fpath, line, col } => SrcLoc::Valid {
            fpath: fpath.clone(),
            line: *line,
            col: *col,
        },
    }
}

/// The parent of node `i`, if it has one.
pub open spec fn parent_of(nodes: Seq<NodeModel>, i: int) -> Option<int> {
    match nodes[i].kind {
        NodeKind::Regular { parent, .. } => Some(parent),
        NodeKind::Init => None,
    }
}

/// The lockstep ancestor walk: both chains ascend one hop at a time;
/// the first pair of identical ancestors is the answer; a chain that
/// reaches the root first makes the walk fail.
pub open spec fn lca_walk(nodes: Seq<NodeModel>, a: int, b: int) -> Option<int>
    recommends
        parents_wf(nodes),
        0 <= a < nodes.len(),
        0 <= b < nodes.len(),
    decreases a + b,
{
    match (parent_of(nodes, a), parent_of(nodes, b)) {
        (Some(pa), Some(pb)) => {
            if pa == pb {
                Some(pa)
            } else if 0 <= pa < a && 0 <= pb < b {
                lca_walk(nodes, pa, pb)
            } else {
                None
            }
        },
        _ => None,
    }
}

/// Whether `anc` lies on the parent chain of `i` (a node is its own
/// ancestor).
pub open spec fn is_ancestor(nodes: Seq<NodeModel>, anc: int, i: int) -> bool
    decreases i,
{
    if anc == i {
        true
    } else {
        match parent_of(nodes, i) {
            Some(p) => if 0 <= p < i {
                is_ancestor(nodes, anc, p)
            } else {
                false
            },
            None => false,
        }
    }
}

impl ThreadExecTree {
    /// The lowest common ancestor of two invocations by lockstep walk:
    /// both parent chains ascend one hop at a time and the first pair of
    /// identical ancestors is the answer; `None` when a chain reaches
    /// the root before any pair coincides.
    pub fn get_common_parent_ptr(&self, func_ptr_a: NodeIdx, func_ptr_b: NodeIdx) -> (r: Option<
        NodeIdx,
    >)
        requires
            parents_wf(self@.nodes),
            func_ptr_a < self@.nodes.len(),
            func_ptr_b < self@.nodes.len(),
        ensures
            match r {
                Some(c) => lca_walk(self@.nodes, func_ptr_a as int, func_ptr_b as int) == Some(
                    c as int,
                ),
                None => lca_walk(self@.nodes, func_ptr_a as int, func_ptr_b as int) is None,
            },
    {
        let mut a: NodeIdx = func_ptr_a;
        let mut b: NodeIdx = func_ptr_b;
        loop
            invariant
                parents_wf(self@.nodes),
                a < self@.nodes.len(),
                b < self@.nodes.len(),
                lca_walk(self@.nodes, func_ptr_a as int, func_ptr_b as int) == lca_walk(
                    self@.nodes,
                    a as int,
                    b as int,
                ),
            decreases a + b,
        {
            let pa_op = self.get_node(a).get_parent_ptr();
            let pb_op = self.get_node(b).get_parent_ptr();
            match (pa_op, pb_op) {
                (Some(pa), Some(pb)) => {
                    if pa == pb {
                        return Some(pa);
                    }
                    a = pa;
                    b = pb;
                },
                _ => {
                    return None;
                },
            }
        }
    }
}

/// The common-ancestor law: two non-root nodes of one tree standing at
/// the same depth always resolve to a common ancestor of both; the walk
/// cannot fail on them.
pub proof fn lemma_lca_equal_depth(nodes: Seq<NodeModel>, a: int, b: int)
    requires
        parents_wf(nodes),
        0 <= a < nodes.len(),
        0 <= b < nodes.len(),
        nodes[a].kind is Regular,
        nodes[b].kind is Regular,
        depth_of(nodes, a) == depth_of(nodes, b),
    ensures
        lca_walk(nodes, a, b) matches Some(c) && is_ancestor(nodes, c, a) && is_ancestor(
            nodes,
            c,
            b,
        ),
    decreases a + b,
{
    match (parent_of(nodes, a), parent_of(nodes, b)) {
        (Some(pa), Some(pb)) => {
            assert(depth_of(nodes, a) == 1 + depth_of(nodes, pa));
            assert(depth_of(nodes, b) == 1 + depth_of(nodes, pb));
            if pa == pb {
                assert(a >= 1 && 0 <= pa < a);
                assert(b >= 1 && 0 <= pb < b);
                assert(is_ancestor(nodes, pa, pa));
                assert(is_ancestor(nodes, pa, a));
                assert(is_ancestor(nodes, pb, b));
            } else {
                if nodes[pa].kind is Init {
                    assert(depth_of(nodes, pa) == 0);
                    assert(depth_of(nodes, pb) == 0);
                    match nodes[pb].kind {
                        NodeKind::Regular { parent, .. } => {
                            crate::exec_tree::thread_tree::lemma_depth_of_bound(nodes, parent);
                            assert(depth_of(nodes, pb) >= 1);
                        },
                        NodeKind::Init => {
                            assert(pa == 0 && pb == 0);
                        },
                    }
                    assert(false);
                }
                if nodes[pb].kind is Init {
                    assert(depth_of(nodes, pb) == 0);
                    match nodes[pa].kind {
                        NodeKind::Regular { parent, .. } => {
                            crate::exec_tree::thread_tree::lemma_depth_of_bound(nodes, parent);
                            assert(depth_of(nodes, pa) >= 1);
                        },
                        NodeKind::Init => {
                            assert(pa == 0 && pb == 0);
                        },
                    }
                    assert(false);
                }
                assert(a >= 1 && 0 <= pa < a);
                assert(b >= 1 && 0 <= pb < b);
                lemma_lca_equal_depth(nodes, pa, pb);
                match lca_walk(nodes, pa, pb) {
                    Some(c) => {
                        assert(is_ancestor(nodes, c, a));
                        assert(is_ancestor(nodes, c, b));
                        assert(lca_walk(nodes, a, b) == Some(c));
                    },
                    None => {
                        assert(false);
                    },
                }
            }
        },
        _ => {
            assert(false);
        },
    }
}

/// Determinism of the ancestor query: against one completed, immutable
/// tree, two runs that each satisfy the query's contract return the same
/// answer, because the contract pins the answer to the lockstep walk,
/// a function of the tree's model alone.
pub proof fn lemma_lca_deterministic(
    nodes: Seq<NodeModel>,
    a: int,
    b: int,
    r1: Option<NodeIdx>,
    r2: Option<NodeIdx>,
)
    requires
        match r1 {
            Some(c) => lca_walk(nodes, a, b) == Some(c as int),
            None => lca_walk(nodes, a, b) is None,
        },
        match r2 {
            Some(c) => lca_walk(nodes, a, b) == Some(c as int),
            None => lca_walk(nodes, a, b) is None,
        },
    ensures
        r1 == r2,
{
}

/// Determinism of the sub-function scan: two runs over one node's
/// action list yield the same children, because the contract pins the
/// result to the list of `Call` actions, a function of the tree's model
/// alone.
pub proof fn lemma_sub_funcs_deterministic(acts: Seq<ActModel>, r1: Seq<NodeIdx>, r2: Seq<NodeIdx>)
    requires
        r1.map_values(|x: NodeIdx| x as int) == children_of_acts(acts),
        r2.map_values(|x: NodeIdx| x as int) == children_of_acts(acts),
    ensures
        r1 == r2,
{
    assert(r1.len() == children_of_acts(acts).len());
    assert(r2.len() == children_of_acts(acts).len());
    assert forall|m: int| 0 <= m < r1.len() implies r1[m] == r2[m] by {
        assert(r1.map_values(|x: NodeIdx| x as int)[m] == children_of_acts(acts)[m]);
        assert(r2.map_values(|x: NodeIdx| x as int)[m] == children_of_acts(acts)[m]);
    };
    assert(r1 =~= r2);
}

/// Determinism of the longest-invocation ranking: against one
/// completed, immutable tree, two runs return identical rankings,
/// because the contract pins them to the ranking fold of the tree's
/// node entries, a function of the tree's model alone.
pub proof fn lemma_long_ranking_deterministic(
    nodes: Seq<NodeModel>,
    r1: Seq<LenEntryModel>,
    r2: Seq<LenEntryModel>,
)
    requires
        r1 == ranking_fold(node_len_entries(nodes), 0, Seq::empty()),
        r2 == ranking_fold(node_len_entries(nodes), 0, Seq::empty()),
    ensures
        r1 == r2,
{
}

/// Determinism of the recursion entries: against one completed,
/// immutable tree, two runs return the same entries, because the
/// contract pins them to the depth-first walk, a function of the tree's
/// model alone.
pub proof fn lemma_recur_deterministic(
    nodes: Seq<NodeModel>,
    r1: Seq<RecurEntry>,
    r2: Seq<RecurEntry>,
)
    requires
        entries_models(r1) == recur_dfs(nodes, 0, Seq::empty(), Seq::empty()),
        entries_models(r2) == recur_dfs(nodes, 0, Seq::empty(), Seq::empty()),
    ensures
        entries_models(r1) == entries_models(r2),
{
}

/// Determinism of the occurrence counts: two runs over one tree tally
/// every name identically, because each tally is pinned to the node
/// count of that name, a function of the tree's model alone.
pub proof fn lemma_counts_deterministic(
    nodes: Seq<NodeModel>,
    r1: Seq<(String, usize)>,
    r2: Seq<(String, usize)>,
    i: int,
    j: int,
)
    requires
        forall|k: int|
            0 <= k < r1.len() ==> (#[trigger] r1[k]).1 as int == count_name(
                nodes,
                r1[k].0@,
                nodes.len() as int,
            ),
        forall|k: int|
            0 <= k < r2.len() ==> (#[trigger] r2[k]).1 as int == count_name(
                nodes,
                r2[k].0@,
                nodes.len() as int,
            ),
        0 <= i < r1.len(),
        0 <= j < r2.len(),
        r1[i].0@ == r2[j].0@,
    ensures
        r1[i].1 == r2[j].1,
{
}

} // verus!
