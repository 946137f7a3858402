//! Second-generation execution trees: one `ThreadExecTree` per guard
//! file, assembled into an `ExecForest` per execution.
//!
//! One directory holds one file per thread, named by the thread id, the
//! entry thread's name carrying a `_main` suffix.  Each file replays
//! into its own tree; a file whose replay fails is reported and left
//! out, and never disturbs the other files' trees.

pub mod action;
pub mod analyze;
pub mod thread_tree;

use vstd::prelude::*;

use crate::constraints::{ConsModel, Constraint};
use crate::exec_tree::action::Tid;
use crate::exec_tree::thread_tree::{
    init_tree_model, replay, thcp_view, tree_wf, ActionPoint, ThreadExecTree, TreeModel,
};
use crate::strutil::{is_digit_seq, digit_seq_val, parse_usize, str_ends_with};
use crate::tree::{cons_model_of, NodeIdx};

verus! {

/// One guard file handed in by the caller: its file name and its lines.
pub struct GuardFile {
    pub fname: String,
    pub lines: Vec<String>,
}

/// Mathematical model of a guard file.
pub struct GuardFileModel {
    pub fname: Seq<char>,
    pub lines: Seq<Seq<char>>,
}

impl View for GuardFile {
    type V = GuardFileModel;

    open spec fn view(&self) -> GuardFileModel {
        GuardFileModel { fname: self.fname@, lines: self.lines@.map_values(|s: String| s@) }
    }
}

/// Whether a guard file name designates the entry thread.
pub open spec fn is_main_name(fname: Seq<char>) -> bool {
    "_main"@.is_suffix_of(fname)
}

/// The thread id a guard file name carries: its digits, after an
/// optional `_main` suffix is dropped.
pub open spec fn tid_of_fname(fname: Seq<char>) -> Option<nat> {
    let base = if is_main_name(fname) {
        fname.take(fname.len() - "_main"@.len())
    } else {
        fname
    };
    if is_digit_seq(base) && digit_seq_val(base) <= usize::MAX {
        Some(digit_seq_val(base))
    } else {
        None
    }
}

/// Mathematical model of a forest under assembly.
pub struct ForestModel {
    pub trees: Seq<TreeModel>,
    pub thcp: Seq<(nat, (int, int))>,
    pub tids: Seq<(nat, int)>,
    pub main: int,
}

/// The forest before any file is taken in.
pub open spec fn empty_forest_model() -> ForestModel {
    ForestModel { trees: Seq::empty(), thcp: Seq::empty(), tids: Seq::empty(), main: 0 }
}

/// What one guard file adds to the forest: nothing when its name carries
/// no thread id or its replay fails; otherwise its tree, its
/// thread-creation coordinates, its id binding, and — for the entry
/// thread's file — the main-tree designation.
pub open spec fn forest_step(
    acc: ForestModel,
    f: GuardFileModel,
    cons: Option<ConsModel>,
    trunc: nat,
) -> ForestModel {
    match tid_of_fname(f.fname) {
        None => acc,
        Some(tid) => match replay(init_tree_model(tid), 0, Seq::empty(), f.lines, cons, trunc) {
            Err(_) => acc,
            Ok((tm, _h, ps)) => ForestModel {
                trees: acc.trees.push(tm),
                thcp: acc.thcp + ps,
                tids: acc.tids.push((tid, acc.trees.len() as int)),
                main: if is_main_name(f.fname) {
                    acc.trees.len() as int
                } else {
                    acc.main
                },
            },
        },
    }
}

/// The forest assembled from a list of guard files, in order.
pub open spec fn forest_fold(
    acc: ForestModel,
    files: Seq<GuardFileModel>,
    cons: Option<ConsModel>,
    trunc: nat,
) -> ForestModel
    decreases files.len(),
{
    if files.len() == 0 {
        acc
    } else {
        forest_fold(forest_step(acc, files[0], cons, trunc), files.drop_first(), cons, trunc)
    }
}

/// A fatal error is local to its file: a guard file whose replay fails,
/// or whose name carries no thread id, contributes nothing, and the
/// forest assembled from the remaining files is exactly the forest
/// assembled without it.
pub proof fn lemma_failed_file_is_local(
    acc: ForestModel,
    f: GuardFileModel,
    rest: Seq<GuardFileModel>,
    cons: Option<ConsModel>,
    trunc: nat,
)
    requires
        tid_of_fname(f.fname) is None || (tid_of_fname(f.fname) matches Some(tid) && replay(
            init_tree_model(tid),
            0,
            Seq::empty(),
            f.lines,
            cons,
            trunc,
        ) is Err),
    ensures
        forest_fold(acc, seq![f] + rest, cons, trunc) == forest_fold(acc, rest, cons, trunc),
{
    assert((seq![f] + rest)[0] == f);
    assert((seq![f] + rest).drop_first() =~= rest);
    assert(forest_step(acc, f, cons, trunc) == acc);
}

/// The binding of a thread id in an id list; the latest binding wins.
pub open spec fn assoc_tid(tids: Seq<(nat, int)>, tid: nat) -> Option<int>
    decreases tids.len(),
{
    if tids.len() == 0 {
        None
    } else if tids.last().0 == tid {
        Some(tids.last().1)
    } else {
        assoc_tid(tids.drop_last(), tid)
    }
}

/// All thread trees of one execution, with the thread-id index, the
/// thread-creation coordinates, and the designated main tree.
pub struct ExecForest {
    thcp_mapping: Vec<(Tid, ActionPoint)>,
    tid_mapping: Vec<(Tid, usize)>,
    thread_tree_list: Vec<ThreadExecTree>,
    main_idx: usize,
}

impl View for ExecForest {
    type V = ForestModel;

    closed spec fn view(&self) -> ForestModel {
        ForestModel {
            trees: self.thread_tree_list@.map_values(|t: ThreadExecTree| t@),
            thcp: thcp_view(self.thcp_mapping@),
            tids: self.tid_mapping@.map_values(|p: (Tid, usize)| (p.0 as nat, p.1 as int)),
            main: self.main_idx as int,
        }
    }
}

impl ExecForest {
    /// Assemble the forest: each file's tree is built independently; a
    /// file whose name carries no thread id, or whose replay fails, is
    /// skipped and the others stand untouched.
    pub fn from_guard_inputs(
        files: &Vec<GuardFile>,
        cons_op: Option<&Constraint>,
        trunc_cnt: usize,
    ) -> (r: ExecForest)
        ensures
            r@ == forest_fold(
                empty_forest_model(),
                files@.map_values(|f: GuardFile| f@),
                cons_model_of(cons_op),
                trunc_cnt as nat,
            ),
            forall|t: int| 0 <= t < r@.trees.len() ==> tree_wf(#[trigger] r@.trees[t]),
    {
        let ghost fmodels = files@.map_values(|f: GuardFile| f@);
        let ghost cons = cons_model_of(cons_op);
        let mut tree_list: Vec<ThreadExecTree> = Vec::new();
        let mut thcp_mapping: Vec<(Tid, ActionPoint)> = Vec::new();
        let mut tid_mapping: Vec<(Tid, usize)> = Vec::new();
        let mut main_idx: usize = 0;
        let n: usize = files.len();
        let mut i: usize = 0;
        proof {
            assert(fmodels.skip(0) =~= fmodels);
            assert(tree_list@.map_values(|t: ThreadExecTree| t@) =~= Seq::<TreeModel>::empty());
            assert(thcp_view(thcp_mapping@) =~= Seq::<(nat, (int, int))>::empty());
            assert(tid_mapping@.map_values(|p: (Tid, usize)| (p.0 as nat, p.1 as int))
                =~= Seq::<(nat, int)>::empty());
        }
        while i < n
            invariant
                n == files@.len(),
                fmodels == files@.map_values(|f: GuardFile| f@),
                cons == cons_model_of(cons_op),
                i <= n,
                tree_list@.len() <= i,
                forall|t: int|
                    0 <= t < tree_list@.len() ==> tree_wf(#[trigger] tree_list@[t]@),
                forest_fold(empty_forest_model(), fmodels, cons, trunc_cnt as nat) == forest_fold(
                    ForestModel {
                        trees: tree_list@.map_values(|t: ThreadExecTree| t@),
                        thcp: thcp_view(thcp_mapping@),
                        tids: tid_mapping@.map_values(
                            |p: (Tid, usize)| (p.0 as nat, p.1 as int),
                        ),
                        main: main_idx as int,
                    },
                    fmodels.skip(i as int),
                    cons,
                    trunc_cnt as nat,
                ),
            decreases n - i,
        {
            let ghost acc0 = ForestModel {
                trees: tree_list@.map_values(|t: ThreadExecTree| t@),
                thcp: thcp_view(thcp_mapping@),
                tids: tid_mapping@.map_values(|p: (Tid, usize)| (p.0 as nat, p.1 as int)),
                main: main_idx as int,
            };
            let file = &files[i];
            proof {
                assert(fmodels[i as int] == file@);
                assert(fmodels.skip(i as int)[0] == fmodels[i as int]);
                assert(fmodels.skip(i as int).drop_first() =~= fmodels.skip(i as int + 1));
            }
            let fname: &str = file.fname.as_str();
            let flen: usize = fname.unicode_len();
            let is_main = str_ends_with(fname, "_main");
            proof {
                reveal_strlit("_main");
            }
            let base: &str = if is_main {
                fname.substring_char(0, flen - 5)
            } else {
                fname
            };
            proof {
                if is_main {
                    assert(base@ =~= file@.fname.take(file@.fname.len() - "_main"@.len()));
                }
            }
            match parse_usize(base) {
                Some(tid) => {
                    match ThreadExecTree::from_guard_lines(tid, &file.lines, cons_op, trunc_cnt) {
                        Ok((tree, mut sub_mapping)) => {
                            let ghost trees0 = tree_list@;
                            let ghost thcp0 = thcp_mapping@;
                            let ghost tids0 = tid_mapping@;
                            let ghost subm0 = sub_mapping@;
                            if is_main {
                                main_idx = tree_list.len();
                            }
                            tid_mapping.push((tid, tree_list.len()));
                            thcp_mapping.append(&mut sub_mapping);
                            tree_list.push(tree);
                            proof {
                                assert(tree_list@.map_values(|t: ThreadExecTree| t@)
                                    =~= trees0.map_values(|t: ThreadExecTree| t@).push(tree@));
                                assert(thcp_view(thcp_mapping@) =~= thcp_view(thcp0) + thcp_view(
                                    subm0,
                                ));
                                assert(tid_mapping@.map_values(
                                    |p: (Tid, usize)| (p.0 as nat, p.1 as int),
                                ) =~= tids0.map_values(
                                    |p: (Tid, usize)| (p.0 as nat, p.1 as int),
                                ).push((tid as nat, trees0.len() as int)));
                            }
                        },
                        Err(_) => {},
                    }
                },
                None => {},
            }
            i = i + 1;
        }
        proof {
            assert(fmodels.skip(n as int).len() == 0);
        }
        ExecForest { thcp_mapping, tid_mapping, thread_tree_list: tree_list, main_idx }
    }

    /// The root of the designated main tree: every tree's root is its
    /// arena's first slot.
    pub fn get_main_root_ptr(&self) -> (r: NodeIdx)
        ensures
            r == 0,
    {
        0
    }

    /// The index of the designated main tree.
    pub fn get_main_idx(&self) -> (r: usize)
        ensures
            r as int == self@.main,
    {
        self.main_idx
    }

    /// The thread trees, in assembly order.
    pub fn iter_trees(&self) -> (r: &Vec<ThreadExecTree>)
        ensures
            r@.map_values(|t: ThreadExecTree| t@) == self@.trees,
    {
        &self.thread_tree_list
    }

    /// How many trees the forest holds.
    pub fn len(&self) -> (r: usize)
        ensures
            r == self@.trees.len(),
    {
        self.thread_tree_list.len()
    }

    /// The tree at one index.
    pub fn get_tree(&self, i: usize) -> (r: &ThreadExecTree)
        requires
            i < self@.trees.len(),
        ensures
            r@ == self@.trees[i as int],
    {
        &self.thread_tree_list[i]
    }

    /// The tree index bound to a thread id; the latest binding wins.
    pub fn get_tree_idx_by_tid(&self, tid: Tid) -> (r: Option<usize>)
        ensures
            match r {
                Some(idx) => assoc_tid(self@.tids, tid as nat) == Some(idx as int),
                None => assoc_tid(self@.tids, tid as nat) is None,
            },
    {
        let n: usize = self.tid_mapping.len();
        let mut i: usize = n;
        proof {
            assert(self@.tids.take(n as int) =~= self@.tids);
        }
        while i > 0
            invariant
                n == self.tid_mapping@.len(),
                i <= n,
                assoc_tid(self@.tids, tid as nat) == assoc_tid(
                    self@.tids.take(i as int),
                    tid as nat,
                ),
            decreases i,
        {
            i = i - 1;
            proof {
                assert(self@.tids.take(i as int + 1).last() == self@.tids[i as int]);
                assert(self@.tids.take(i as int + 1).drop_last() =~= self@.tids.take(i as int));
                assert(self@.tids[i as int].0 == self.tid_mapping@[i as int].0 as nat);
            }
            if self.tid_mapping[i].0 == tid {
                return Some(self.tid_mapping[i].1);
            }
        }
        None
    }

    /// The lowest common ancestor across the forest: two invocations in
    /// different trees never share an ancestor, so the query fails for
    /// them rather than walking anything; within one tree the lockstep
    /// walk answers.
    pub fn common_parent_across_trees(
        &self,
        tree_a: usize,
        node_a: NodeIdx,
        tree_b: usize,
        node_b: NodeIdx,
    ) -> (r: Option<NodeIdx>)
        requires
            tree_a < self@.trees.len(),
            tree_b < self@.trees.len(),
            crate::exec_tree::thread_tree::parents_wf(self@.trees[tree_a as int].nodes),
            node_a < self@.trees[tree_a as int].nodes.len(),
            node_b < self@.trees[tree_a as int].nodes.len(),
        ensures
            tree_a != tree_b ==> r is None,
            tree_a == tree_b ==> (match r {
                Some(c) => crate::exec_tree::analyze::lca_walk(
                    self@.trees[tree_a as int].nodes,
                    node_a as int,
                    node_b as int,
                ) == Some(c as int),
                None => crate::exec_tree::analyze::lca_walk(
                    self@.trees[tree_a as int].nodes,
                    node_a as int,
                    node_b as int,
                ) is None,
            }),
    {
        if tree_a != tree_b {
            return None;
        }
        let tree = self.get_tree(tree_a);
        tree.get_common_parent_ptr(node_a, node_b)
    }
}

} // verus!
