//! Second-generation call tree: one tree per guard file, replayed with
//! the full grammar.  Beyond the first-generation machine it tracks the
//! cursor's depth and the greatest depth observed, treats `unwind from`
//! like `return from`, and records where each thread creation happened.

use vstd::prelude::*;

use crate::constraints::{cons_is_hit, ConsModel, Constraint};
use crate::error::{GuardParseError, ParseOutcome};
use crate::exec_tree::action::{
    call_guard_spec, jump_guard_spec, loop_guard_spec, recur_guard_spec, thread_guard_spec,
    ActModel, CallParse, ExecAction, FuncActModel, FuncAction, FuncActionType, FuncTypeModel,
    JumpAction, JumpModel, LoopAction, LoopModel, RecurAction, ThreadAction, ThreadModel, Tid,
};
use crate::loc::{parse_loc_spec, LocModel, SrcLoc};
use crate::strutil::{find_space_idx, first_index_of, first_space_index, str_eq, trim, trimmed};
use crate::tree::{cons_model_of, value_guard_spec, NodeIdx, NodeKind, ValueHit};

verus! {

/// The exact coordinate of an action: a node and an index into its
/// action list.
#[derive(Clone, Copy, PartialEq, Eq, Structural)]
pub struct ActionPoint {
    pub node_ptr: NodeIdx,
    pub act_index: usize,
}

/// Mathematical model of one function node.
pub struct NodeModel {
    pub kind: NodeKind,
    pub acts: Seq<ActModel>,
}

/// Mathematical model of a thread tree under construction.
pub struct TreeModel {
    pub nodes: Seq<NodeModel>,
    pub cur: int,
    pub depth: int,
    pub max_depth: int,
    pub tid: nat,
}

pub struct ExecFuncNode {
    node_type: crate::tree::FuncEntryType,
    data: Vec<ExecAction>,
}

impl View for ExecFuncNode {
    type V = NodeModel;

    closed spec fn view(&self) -> NodeModel {
        NodeModel {
            kind: match &self.node_type {
                crate::tree::FuncEntryType::Init => NodeKind::Init,
                crate::tree::FuncEntryType::Regular { name, parent, act_index } =>
                    NodeKind::Regular {
                    name: name@,
                    parent: *parent as int,
                    act_index: *act_index as int,
                },
            },
            acts: self.data@.map_values(|a: ExecAction| a@),
        }
    }
}

impl ExecFuncNode {
    fn init_node() -> (r: Self)
        ensures
            r@.kind is Init,
            r@.acts == Seq::<ActModel>::empty(),
    {
        let r = Self { node_type: crate::tree::FuncEntryType::Init, data: Vec::new() };
        proof {
            assert(r@.acts =~= Seq::<ActModel>::empty());
        }
        r
    }

    fn regular_node(name: String, parent: NodeIdx, act_index: usize) -> (r: Self)
        ensures
            r@.kind == (NodeKind::Regular {
                name: name@,
                parent: parent as int,
                act_index: act_index as int,
            }),
            r@.acts == Seq::<ActModel>::empty(),
    {
        let r = Self {
            node_type: crate::tree::FuncEntryType::Regular { name, parent, act_index },
            data: Vec::new(),
        };
        proof {
            assert(r@.acts =~= Seq::<ActModel>::empty());
        }
        r
    }

    /// The node's action list, in append order.
    pub fn iter_acts(&self) -> (r: &Vec<ExecAction>)
        ensures
            r@.map_values(|a: ExecAction| a@) == self@.acts,
    {
        &self.data
    }

    /// The action at one index of the node's list.
    pub fn get_act_at(&self, idx: usize) -> (r: Option<&ExecAction>)
        ensures
            match r {
                Some(a) => idx < self@.acts.len() && a@ == self@.acts[idx as int],
                None => idx >= self@.acts.len(),
            },
    {
        if idx < self.data.len() {
            Some(&self.data[idx])
        } else {
            None
        }
    }

    /// How many actions the node holds.
    pub fn get_len(&self) -> (r: usize)
        ensures
            r == self@.acts.len(),
    {
        self.data.len()
    }

    pub fn get_parent_ptr(&self) -> (r: Option<NodeIdx>)
        ensures
            match r {
                Some(p) => self@.kind matches NodeKind::Regular { parent, .. } && p == parent,
                None => self@.kind is Init,
            },
    {
        match &self.node_type {
            crate::tree::FuncEntryType::Regular { parent, .. } => Some(*parent),
            crate::tree::FuncEntryType::Init => None,
        }
    }

    pub fn is_init(&self) -> (r: bool)
        ensures
            r == (self@.kind is Init),
    {
        matches!(self.node_type, crate::tree::FuncEntryType::Init)
    }

    pub fn get_func_name(&self) -> (r: Option<&str>)
        ensures
            match r {
                Some(n) => self@.kind matches NodeKind::Regular { name, .. } && n@ == name,
                None => self@.kind is Init,
            },
    {
        if let crate::tree::FuncEntryType::Regular { name, .. } = &self.node_type {
            Some(name.as_str())
        } else {
            None
        }
    }

    /// The node's function name, with the root reported as `init_node`.
    pub fn get_func_name_or_init(&self) -> (r: &str)
        ensures
            r@ == node_name_or_init(self@.kind),
    {
        match &self.node_type {
            crate::tree::FuncEntryType::Init => "init_node",
            crate::tree::FuncEntryType::Regular { name, .. } => name.as_str(),
        }
    }

    /// A render label: the function name, or `init_node` for the root.
    pub fn get_dot_id(&self) -> (r: &str)
        ensures
            r@ == node_name_or_init(self@.kind),
    {
        self.get_func_name_or_init()
    }

    fn push(&mut self, act: ExecAction)
        ensures
            final(self)@.acts == old(self)@.acts.push(act@),
            final(self)@.kind == old(self)@.kind,
    {
        self.data.push(act);
    }
}

/// The display name of a node: its function name, or `init_node`.
pub open spec fn node_name_or_init(kind: NodeKind) -> Seq<char> {
    match kind {
        NodeKind::Init => "init_node"@,
        NodeKind::Regular { name, .. } => name,
    }
}

/// One `Br Guard:<value-loc> <loc> <0|1> <loc>` line.
pub open spec fn reg_br_guard_spec(line: Seq<char>) -> ParseOutcome<(LocModel, JumpModel)> {
    match first_index_of(line, ':') {
        None => ParseOutcome::NoPrefix,
        Some(ci) => {
            if line.take(ci + 1) != "Br Guard:"@ {
                ParseOutcome::NoPrefix
            } else {
                let t = trimmed(line.skip(ci + 1));
                match first_space_index(t) {
                    None => ParseOutcome::Malformed,
                    Some(i) => match (
                        parse_loc_spec(t.take(i)),
                        crate::exec_tree::action::jump_slice_spec(trimmed(t.skip(i))),
                    ) {
                        (Some(v), Some(j)) => ParseOutcome::Parsed((v, j)),
                        _ => ParseOutcome::Malformed,
                    },
                }
            }
        },
    }
}

/// How one line classifies under the full rule set, tried in order:
/// value hit, branch guard, loop guard, recursion lock, thread creation,
/// combined value-and-branch guard, function entry (with its skip
/// signal), function return, function unwind.
pub enum LineClass {
    ValueHit(LocModel),
    Jump(JumpModel),
    Loop(LoopModel),
    Recur(bool),
    Thread(ThreadModel),
    ValueJump(LocModel, JumpModel),
    Call(Option<LocModel>, Seq<char>),
    Ret(Seq<char>),
    Unwind(Seq<char>),
    Skip(int),
    Fatal,
}

/// One pass of the rules over `line`; a `Skip` asks for a second pass on
/// the line's remainder.
pub open spec fn classify_once(line: Seq<char>) -> LineClass {
    match value_guard_spec(line) {
        ParseOutcome::Parsed(v) => LineClass::ValueHit(v),
        ParseOutcome::Malformed => LineClass::Fatal,
        ParseOutcome::NoPrefix => match jump_guard_spec(line) {
            ParseOutcome::Parsed(j) => LineClass::Jump(j),
            ParseOutcome::Malformed => LineClass::Fatal,
            ParseOutcome::NoPrefix => match loop_guard_spec(line) {
                ParseOutcome::Parsed(l) => LineClass::Loop(l),
                ParseOutcome::Malformed => LineClass::Fatal,
                ParseOutcome::NoPrefix => match recur_guard_spec(line) {
                    ParseOutcome::Parsed(b) => LineClass::Recur(b),
                    ParseOutcome::Malformed => LineClass::Fatal,
                    ParseOutcome::NoPrefix => match thread_guard_spec(line) {
                        ParseOutcome::Parsed(t) => LineClass::Thread(t),
                        ParseOutcome::Malformed => LineClass::Fatal,
                        ParseOutcome::NoPrefix => match reg_br_guard_spec(line) {
                            ParseOutcome::Parsed((v, j)) => LineClass::ValueJump(v, j),
                            ParseOutcome::Malformed => LineClass::Fatal,
                            ParseOutcome::NoPrefix => match call_guard_spec(line) {
                                CallParse::Parsed(invoc, name) => LineClass::Call(invoc, name),
                                CallParse::Skip(k) => {
                                    if k > 0 {
                                        LineClass::Skip(k)
                                    } else if "return from "@.is_prefix_of(line) {
                                        LineClass::Ret(
                                            crate::action::func_name_spec(
                                                line,
                                                "return from "@.len() as int,
                                            ),
                                        )
                                    } else if "unwind from "@.is_prefix_of(line) {
                                        LineClass::Unwind(
                                            crate::action::func_name_spec(
                                                line,
                                                "unwind from "@.len() as int,
                                            ),
                                        )
                                    } else {
                                        LineClass::Fatal
                                    }
                                },
                            },
                        },
                    },
                },
            },
        },
    }
}

/// The classification of one line: a skip signal is retried once on the
/// remainder; a second skip is fatal.
pub open spec fn classify_line(line: Seq<char>) -> LineClass {
    match classify_once(line) {
        LineClass::Skip(k) => match classify_once(line.skip(k)) {
            LineClass::Skip(_) => LineClass::Fatal,
            c => c,
        },
        c => c,
    }
}

/// The tree with one action appended to the cursor's list.
pub open spec fn append_act(tm: TreeModel, a: ActModel) -> TreeModel {
    TreeModel {
        nodes: tm.nodes.update(
            tm.cur,
            NodeModel { kind: tm.nodes[tm.cur].kind, acts: tm.nodes[tm.cur].acts.push(a) },
        ),
        ..tm
    }
}

/// The tree after an `enter`: a fresh child is allocated, a `Call`
/// action owning it is appended, the cursor descends, the depth grows,
/// and the greatest observed depth is updated.
pub open spec fn enter_node(tm: TreeModel, invoc: Option<LocModel>, name: Seq<char>) -> TreeModel {
    let k = tm.nodes.len() as int;
    let call_act = ActModel::Func(
        FuncActModel { typ: FuncTypeModel::Call { child: k, invoc }, name },
    );
    let child = NodeModel {
        kind: NodeKind::Regular {
            name,
            parent: tm.cur,
            act_index: tm.nodes[tm.cur].acts.len() as int,
        },
        acts: Seq::empty(),
    };
    TreeModel {
        nodes: append_act(tm, call_act).nodes.push(child),
        cur: k,
        depth: tm.depth + 1,
        max_depth: if tm.depth + 1 > tm.max_depth {
            tm.depth + 1
        } else {
            tm.max_depth
        },
        tid: tm.tid,
    }
}

/// The tree after a `return from` or `unwind from`: the action is
/// appended, the cursor ascends, the depth shrinks.
pub open spec fn leave_node(tm: TreeModel, typ: FuncTypeModel, name: Seq<char>) -> TreeModel {
    let with_act = append_act(tm, ActModel::Func(FuncActModel { typ, name }));
    TreeModel {
        nodes: with_act.nodes,
        cur: match tm.nodes[tm.cur].kind {
            NodeKind::Regular { parent, .. } => parent,
            NodeKind::Init => tm.cur,
        },
        depth: tm.depth - 1,
        ..tm
    }
}

/// How many hits the line's value signal contributes against `cons`.
pub open spec fn hit_delta(cons: Option<ConsModel>, line: Seq<char>) -> nat {
    match classify_line(line) {
        LineClass::ValueHit(v) => if cons matches Some(c) && cons_is_hit(c, v) {
            1
        } else {
            0
        },
        LineClass::ValueJump(v, _) => if cons matches Some(c) && cons_is_hit(c, v) {
            1
        } else {
            0
        },
        _ => 0,
    }
}

/// The thread-creation coordinate the line records, if any: the new
/// thread's id and the point where the action stands.
pub open spec fn thcp_of(tm: TreeModel, line: Seq<char>) -> Option<(nat, (int, int))> {
    match classify_line(line) {
        LineClass::Thread(t) => Some((t.tid, (tm.cur, tm.nodes[tm.cur].acts.len() as int))),
        _ => None,
    }
}

/// One replay step over the tree alone: `Ok` carries the next tree;
/// `Err` carries the tree as the fatal error leaves it.
pub open spec fn line_step(tm: TreeModel, line: Seq<char>) -> Result<TreeModel, TreeModel> {
    match classify_line(line) {
        LineClass::Fatal => Err(tm),
        LineClass::Skip(_) => Err(tm),
        LineClass::ValueHit(_) => Ok(tm),
        LineClass::Jump(j) => Ok(append_act(tm, ActModel::Intra(j))),
        LineClass::Loop(l) => Ok(append_act(tm, ActModel::Loop(l))),
        LineClass::Recur(b) => Ok(append_act(tm, ActModel::Recur(b))),
        LineClass::Thread(t) => Ok(append_act(tm, ActModel::Thread(t))),
        LineClass::ValueJump(_, j) => Ok(append_act(tm, ActModel::Intra(j))),
        LineClass::Call(invoc, name) => Ok(enter_node(tm, invoc, name)),
        LineClass::Ret(name) => if tm.nodes[tm.cur].kind is Regular {
            Ok(leave_node(tm, FuncTypeModel::Return, name))
        } else {
            Err(
                append_act(tm, ActModel::Func(FuncActModel { typ: FuncTypeModel::Return, name })),
            )
        },
        LineClass::Unwind(name) => if tm.nodes[tm.cur].kind is Regular {
            Ok(leave_node(tm, FuncTypeModel::Unwind, name))
        } else {
            Err(
                append_act(tm, ActModel::Func(FuncActModel { typ: FuncTypeModel::Unwind, name })),
            )
        },
    }
}

/// The tree a fresh replay starts from: one `Init` root, cursor on it,
/// depth zero.
pub open spec fn init_tree_model(tid: nat) -> TreeModel {
    TreeModel {
        nodes: seq![NodeModel { kind: NodeKind::Init, acts: Seq::empty() }],
        cur: 0,
        depth: 0,
        max_depth: 0,
        tid,
    }
}

/// Replay of `lines` from a carried state: the tree, the hit count, and
/// the thread-creation coordinates recorded so far.  It stops at the end
/// of input, on a fatal line (`Err`), or as soon as the hit count
/// reaches `trunc`.
pub open spec fn replay(
    tm: TreeModel,
    hits: nat,
    thcp: Seq<(nat, (int, int))>,
    lines: Seq<Seq<char>>,
    cons: Option<ConsModel>,
    trunc: nat,
) -> Result<(TreeModel, nat, Seq<(nat, (int, int))>), TreeModel>
    decreases lines.len(),
{
    if lines.len() == 0 {
        Ok((tm, hits, thcp))
    } else {
        match line_step(tm, lines[0]) {
            Err(t2) => Err(t2),
            Ok(t2) => {
                let h2 = hits + hit_delta(cons, lines[0]);
                let p2 = match thcp_of(tm, lines[0]) {
                    Some(p) => thcp.push(p),
                    None => thcp,
                };
                if h2 >= trunc {
                    Ok((t2, h2, p2))
                } else {
                    replay(t2, h2, p2, lines.drop_first(), cons, trunc)
                }
            },
        }
    }
}

/// How many lines a replay starting with `hits` hits consumes: all of
/// them, or up to and including the line whose value hit reaches
/// `trunc`.
pub open spec fn consumed_lines(
    hits: nat,
    lines: Seq<Seq<char>>,
    cons: Option<ConsModel>,
    trunc: nat,
) -> int
    decreases lines.len(),
{
    if lines.len() == 0 {
        0
    } else if hits + hit_delta(cons, lines[0]) >= trunc {
        1
    } else {
        1 + consumed_lines(hits + hit_delta(cons, lines[0]), lines.drop_first(), cons, trunc)
    }
}

/// How many of the first `k` lines are function entries.
pub open spec fn enters_in(lines: Seq<Seq<char>>, k: int) -> int
    decreases lines.len(),
{
    if k <= 0 || lines.len() == 0 {
        0
    } else {
        (if classify_line(lines[0]) is Call {
            1int
        } else {
            0int
        }) + enters_in(lines.drop_first(), k - 1)
    }
}

/// The nesting change one line contributes: an entry descends, a return
/// or unwind ascends.
pub open spec fn depth_step(line: Seq<char>) -> int {
    match classify_line(line) {
        LineClass::Call(_, _) => 1,
        LineClass::Ret(_) => -1,
        LineClass::Unwind(_) => -1,
        _ => 0,
    }
}

/// The net nesting change of the first `k` lines.
pub open spec fn net_depth(lines: Seq<Seq<char>>, k: int) -> int
    decreases lines.len(),
{
    if k <= 0 || lines.len() == 0 {
        0
    } else {
        depth_step(lines[0]) + net_depth(lines.drop_first(), k - 1)
    }
}

/// The greatest nesting depth reached within the first `k` lines,
/// relative to the starting depth; never below zero.
pub open spec fn peak_depth(lines: Seq<Seq<char>>, k: int) -> int
    decreases lines.len(),
{
    if k <= 0 || lines.len() == 0 {
        0
    } else {
        let rest = depth_step(lines[0]) + peak_depth(lines.drop_first(), k - 1);
        if rest > 0 {
            rest
        } else {
            0
        }
    }
}

/// A replay consumes at most the lines it was given.
pub proof fn lemma_consumed_bound(
    hits: nat,
    lines: Seq<Seq<char>>,
    cons: Option<ConsModel>,
    trunc: nat,
)
    ensures
        0 <= consumed_lines(hits, lines, cons, trunc) <= lines.len(),
        lines.len() > 0 ==> consumed_lines(hits, lines, cons, trunc) >= 1,
    decreases lines.len(),
{
    if lines.len() > 0 && hits + hit_delta(cons, lines[0]) < trunc {
        lemma_consumed_bound(hits + hit_delta(cons, lines[0]), lines.drop_first(), cons, trunc);
    }
}

/// What one successful replay step does to the tree's measures: an
/// entry adds one node and one level of depth, a return or unwind
/// removes one level, everything else leaves them alone; the greatest
/// observed depth follows the cursor's depth upward.
pub proof fn lemma_step_measures(tm: TreeModel, line: Seq<char>)
    requires
        tree_wf(tm),
    ensures
        line_step(tm, line) matches Ok(t2) ==> {
            &&& t2.nodes.len() == tm.nodes.len() + (if classify_line(line) is Call {
                1int
            } else {
                0int
            })
            &&& t2.depth == tm.depth + depth_step(line)
            &&& t2.max_depth == (if tm.depth + depth_step(line) > tm.max_depth {
                tm.depth + depth_step(line)
            } else {
                tm.max_depth
            })
            &&& t2.tid == tm.tid
        },
{
}

/// The measures of a whole replay (P2, P3): starting from `tm`, a
/// successful replay of `lines` consumes exactly the lines up to the
/// truncation point; it adds one node per consumed entry line, shifts
/// the depth by their net nesting change, and raises the greatest
/// observed depth to the starting depth plus the consumed peak.
pub proof fn lemma_replay_measures(
    tm: TreeModel,
    hits: nat,
    thcp: Seq<(nat, (int, int))>,
    lines: Seq<Seq<char>>,
    cons: Option<ConsModel>,
    trunc: nat,
)
    requires
        tree_wf(tm),
    ensures
        replay(tm, hits, thcp, lines, cons, trunc) matches Ok((t2, h2, p2)) ==> {
            let k = consumed_lines(hits, lines, cons, trunc);
            &&& t2.nodes.len() == tm.nodes.len() + enters_in(lines, k)
            &&& t2.depth == tm.depth + net_depth(lines, k)
            &&& t2.max_depth == (if tm.depth + peak_depth(lines, k) > tm.max_depth {
                tm.depth + peak_depth(lines, k)
            } else {
                tm.max_depth
            })
            &&& t2.tid == tm.tid
            &&& tree_wf(t2)
        },
    decreases lines.len(),
{
    if lines.len() > 0 {
        lemma_step_preserves_wf(tm, lines[0]);
        lemma_step_measures(tm, lines[0]);
        match line_step(tm, lines[0]) {
            Ok(t2) => {
                let h2 = hits + hit_delta(cons, lines[0]);
                if h2 >= trunc {
                    let k = consumed_lines(hits, lines, cons, trunc);
                    assert(k == 1);
                    assert(enters_in(lines, 1) == (if classify_line(lines[0]) is Call {
                        1int
                    } else {
                        0int
                    }) + enters_in(lines.drop_first(), 0));
                    assert(net_depth(lines, 1) == depth_step(lines[0]) + net_depth(
                        lines.drop_first(),
                        0,
                    ));
                    assert(peak_depth(lines.drop_first(), 0) == 0);
                } else {
                    lemma_replay_measures(
                        t2,
                        h2,
                        match thcp_of(tm, lines[0]) {
                            Some(p) => thcp.push(p),
                            None => thcp,
                        },
                        lines.drop_first(),
                        cons,
                        trunc,
                    );
                    let k = consumed_lines(hits, lines, cons, trunc);
                    let kp = consumed_lines(h2, lines.drop_first(), cons, trunc);
                    lemma_consumed_bound(h2, lines.drop_first(), cons, trunc);
                    assert(k == 1 + kp);
                    assert(enters_in(lines, k) == (if classify_line(lines[0]) is Call {
                        1int
                    } else {
                        0int
                    }) + enters_in(lines.drop_first(), kp));
                    assert(net_depth(lines, k) == depth_step(lines[0]) + net_depth(
                        lines.drop_first(),
                        kp,
                    ));
                    let pk = peak_depth(lines.drop_first(), kp);
                    assert(pk >= 0) by {
                        if !(kp <= 0 || lines.drop_first().len() == 0) {
                            assert(peak_depth(lines.drop_first(), kp) == (
                            if depth_step(lines.drop_first()[0]) + peak_depth(
                                lines.drop_first().drop_first(),
                                kp - 1,
                            ) > 0 {
                                depth_step(lines.drop_first()[0]) + peak_depth(
                                    lines.drop_first().drop_first(),
                                    kp - 1,
                                )
                            } else {
                                0
                            }));
                        }
                    };
                    assert(peak_depth(lines, k) == (if depth_step(lines[0]) + pk > 0 {
                        depth_step(lines[0]) + pk
                    } else {
                        0
                    }));
                }
            },
            Err(_) => {},
        }
    }
}

/// Truncation (P6): a replay that ends with the hit threshold reached
/// is exactly the untruncated replay of the consumed prefix; no node
/// created by a later line appears in the tree.
#[verifier::rlimit(100)]
pub proof fn lemma_truncation_consumes_prefix(
    tm: TreeModel,
    hits: nat,
    thcp: Seq<(nat, (int, int))>,
    lines: Seq<Seq<char>>,
    cons: Option<ConsModel>,
    trunc: nat,
)
    requires
        hits < trunc,
    ensures
        replay(tm, hits, thcp, lines, cons, trunc) is Ok ==> replay(
            tm,
            hits,
            thcp,
            lines.take(consumed_lines(hits, lines, cons, trunc)),
            cons,
            trunc,
        ) == replay(tm, hits, thcp, lines, cons, trunc),
    decreases lines.len(),
{
    if lines.len() > 0 {
        match line_step(tm, lines[0]) {
            Ok(t2) => {
                let h2 = hits + hit_delta(cons, lines[0]);
                let k = consumed_lines(hits, lines, cons, trunc);
                lemma_consumed_bound(hits, lines, cons, trunc);
                assert(k >= 1);
                assert(lines.take(k)[0] == lines[0]);
                if h2 >= trunc {
                    assert(k == 1);
                    assert(lines.take(1).len() == 1);
                } else {
                    lemma_truncation_consumes_prefix(
                        t2,
                        h2,
                        match thcp_of(tm, lines[0]) {
                            Some(p) => thcp.push(p),
                            None => thcp,
                        },
                        lines.drop_first(),
                        cons,
                        trunc,
                    );
                    assert(lines.take(k).drop_first() =~= lines.drop_first().take(k - 1));
                }
            },
            Err(_) => {},
        }
    }
}

/// The node-count and depth laws on a freshly built tree: it holds one
/// node for the root plus one per consumed entry line, its greatest
/// observed depth is exactly the peak nesting depth of the consumed
/// `enter`/`return from` pairs, and its final depth is their net
/// nesting.  The breadth-first traversal visits each of those nodes
/// exactly once, so its count says the same.
pub proof fn lemma_built_tree_counts(
    tid: nat,
    lines: Seq<Seq<char>>,
    cons: Option<ConsModel>,
    trunc: nat,
    tm: TreeModel,
    h: nat,
    ps: Seq<(nat, (int, int))>,
)
    requires
        replay(init_tree_model(tid), 0, Seq::empty(), lines, cons, trunc) == Ok::<
            (TreeModel, nat, Seq<(nat, (int, int))>),
            TreeModel,
        >((tm, h, ps)),
    ensures
        tm.nodes.len() == 1 + enters_in(lines, consumed_lines(0, lines, cons, trunc)),
        tm.max_depth == peak_depth(lines, consumed_lines(0, lines, cons, trunc)),
        tm.depth == net_depth(lines, consumed_lines(0, lines, cons, trunc)),
{
    let init = init_tree_model(tid);
    assert(tree_wf(init)) by {
        assert(init.nodes[0].kind is Init);
        assert(depth_of(init.nodes, 0) == 0);
    };
    lemma_replay_measures(init, 0, Seq::empty(), lines, cons, trunc);
    let k = consumed_lines(0, lines, cons, trunc);
    assert(peak_depth(lines, k) >= 0) by {
        if !(k <= 0 || lines.len() == 0) {
        }
    };
}

/// The depth of node `i`: how many parent hops reach the root.
pub open spec fn depth_of(nodes: Seq<NodeModel>, i: int) -> int
    decreases i,
{
    if 0 <= i < nodes.len() {
        match nodes[i].kind {
            NodeKind::Init => 0,
            NodeKind::Regular { parent, .. } => if 0 <= parent < i {
                1 + depth_of(nodes, parent)
            } else {
                0
            },
        }
    } else {
        0
    }
}

/// Every non-root node names a parent earlier in the arena.
pub open spec fn parents_wf(nodes: Seq<NodeModel>) -> bool {
    &&& nodes.len() >= 1
    &&& nodes[0].kind is Init
    &&& forall|i: int|
        1 <= i < nodes.len() ==> ((#[trigger] nodes[i].kind) matches NodeKind::Regular {
            parent,
            ..
        } && 0 <= parent < i)
}

/// A node's depth never exceeds its index.
pub proof fn lemma_depth_of_bound(nodes: Seq<NodeModel>, i: int)
    requires
        parents_wf(nodes),
        0 <= i < nodes.len(),
    ensures
        0 <= depth_of(nodes, i) <= i,
    decreases i,
{
    match nodes[i].kind {
        NodeKind::Init => {},
        NodeKind::Regular { parent, .. } => {
            if 0 <= parent < i {
                lemma_depth_of_bound(nodes, parent);
            }
        },
    }
}

/// Depth depends only on the node kinds up to the index.
pub proof fn lemma_depth_of_same_kinds(a: Seq<NodeModel>, b: Seq<NodeModel>, i: int)
    requires
        parents_wf(a),
        0 <= i < a.len(),
        a.len() <= b.len(),
        forall|j: int| 0 <= j <= i ==> a[j].kind == (#[trigger] b[j].kind),
    ensures
        depth_of(a, i) == depth_of(b, i),
    decreases i,
{
    match a[i].kind {
        NodeKind::Init => {},
        NodeKind::Regular { parent, .. } => {
            if 0 <= parent < i {
                lemma_depth_of_same_kinds(a, b, parent);
            }
        },
    }
}


/// One `Call` action names a real child whose identity points back at
/// the action.
pub open spec fn call_act_links(nodes: Seq<NodeModel>, i: int, k: int) -> bool {
    match nodes[i].acts[k] {
        ActModel::Func(f) => match f.typ {
            FuncTypeModel::Call { child, .. } => {
                &&& 1 <= child < nodes.len()
                &&& nodes[child].kind == (NodeKind::Regular {
                    name: f.name,
                    parent: i,
                    act_index: k,
                })
            },
            _ => true,
        },
        _ => true,
    }
}

/// A non-root node's identity names the `Call` action that owns it.
pub open spec fn back_link_ok(nodes: Seq<NodeModel>, j: int) -> bool {
    match nodes[j].kind {
        NodeKind::Regular { name, parent, act_index } => {
            &&& 0 <= act_index < nodes[parent].acts.len()
            &&& nodes[parent].acts[act_index] matches ActModel::Func(f) && f.name == name && (
            f.typ matches FuncTypeModel::Call { child, .. } && child == j)
        },
        NodeKind::Init => true,
    }
}

/// Every child is reachable forward through exactly the `Call` action
/// that its identity names, and every `Call` action owns exactly the
/// child that points back at it.
pub open spec fn linked(nodes: Seq<NodeModel>) -> bool {
    &&& forall|i: int, k: int|
        0 <= i < nodes.len() && 0 <= k < nodes[i].acts.len() ==> #[trigger] call_act_links(
            nodes,
            i,
            k,
        )
    &&& forall|j: int| 1 <= j < nodes.len() ==> #[trigger] back_link_ok(nodes, j)
}

/// Appending a non-call action keeps the links sound.
pub proof fn lemma_append_keeps_links(tm: TreeModel, a: ActModel)
    requires
        parents_wf(tm.nodes),
        0 <= tm.cur < tm.nodes.len(),
        linked(tm.nodes),
        !(a matches ActModel::Func(f) && f.typ is Call),
    ensures
        linked(append_act(tm, a).nodes),
{
    let n1 = tm.nodes;
    let n2 = append_act(tm, a).nodes;
    assert forall|i: int, k: int|
        0 <= i < n2.len() && 0 <= k < n2[i].acts.len() implies #[trigger] call_act_links(
        n2,
        i,
        k,
    ) by {
        if i == tm.cur && k == n1[i].acts.len() {
            assert(n2[i].acts[k] == a);
        } else {
            assert(call_act_links(n1, i, k));
            assert(n2[i].acts[k] == n1[i].acts[k]);
        }
    };
    assert forall|j: int| 1 <= j < n2.len() implies #[trigger] back_link_ok(n2, j) by {
        assert(back_link_ok(n1, j));
    };
}

/// An `enter` keeps the links sound: the new `Call` action and the new
/// child point at each other.
pub proof fn lemma_enter_keeps_links(tm: TreeModel, invoc: Option<LocModel>, name: Seq<char>)
    requires
        parents_wf(tm.nodes),
        0 <= tm.cur < tm.nodes.len(),
        linked(tm.nodes),
    ensures
        linked(enter_node(tm, invoc, name).nodes),
{
    let n1 = tm.nodes;
    let n2 = enter_node(tm, invoc, name).nodes;
    let kk = n1.len() as int;
    let ll = n1[tm.cur].acts.len() as int;
    assert forall|i: int, k: int|
        0 <= i < n2.len() && 0 <= k < n2[i].acts.len() implies #[trigger] call_act_links(
        n2,
        i,
        k,
    ) by {
        if i == kk {
            assert(n2[i].acts.len() == 0);
        } else if i == tm.cur && k == ll {
            assert(n2[kk].kind == (NodeKind::Regular { name, parent: tm.cur, act_index: ll }));
        } else {
            assert(call_act_links(n1, i, k));
            assert(n2[i].acts[k] == n1[i].acts[k]);
        }
    };
    assert forall|j: int| 1 <= j < n2.len() implies #[trigger] back_link_ok(n2, j) by {
        if j == kk {
        } else {
            assert(back_link_ok(n1, j));
        }
    };
}

/// Well-formedness of a thread tree under construction: sound parent
/// indices, the cursor in range, and the depth fields tracking the
/// cursor's true depth.
pub open spec fn tree_wf(tm: TreeModel) -> bool {
    &&& parents_wf(tm.nodes)
    &&& linked(tm.nodes)
    &&& 0 <= tm.cur < tm.nodes.len()
    &&& tm.depth == depth_of(tm.nodes, tm.cur)
    &&& tm.max_depth >= tm.depth
    &&& tm.max_depth < tm.nodes.len()
}

/// A successful replay step keeps the tree well-formed.
pub proof fn lemma_step_preserves_wf(tm: TreeModel, line: Seq<char>)
    requires
        tree_wf(tm),
    ensures
        line_step(tm, line) matches Ok(t2) ==> tree_wf(t2),
{
    lemma_depth_of_bound(tm.nodes, tm.cur);
    match line_step(tm, line) {
        Ok(t2) => {
            match classify_line(line) {
                LineClass::Jump(j0) => {
                    assert(forall|j: int|
                        0 <= j < t2.nodes.len() ==> tm.nodes[j].kind == (
                        #[trigger] t2.nodes[j].kind));
                    lemma_depth_of_same_kinds(tm.nodes, t2.nodes, tm.cur);
                    lemma_append_keeps_links(tm, ActModel::Intra(j0));
                },
                LineClass::Loop(l0) => {
                    assert(forall|j: int|
                        0 <= j < t2.nodes.len() ==> tm.nodes[j].kind == (
                        #[trigger] t2.nodes[j].kind));
                    lemma_depth_of_same_kinds(tm.nodes, t2.nodes, tm.cur);
                    lemma_append_keeps_links(tm, ActModel::Loop(l0));
                },
                LineClass::Recur(b0) => {
                    assert(forall|j: int|
                        0 <= j < t2.nodes.len() ==> tm.nodes[j].kind == (
                        #[trigger] t2.nodes[j].kind));
                    lemma_depth_of_same_kinds(tm.nodes, t2.nodes, tm.cur);
                    lemma_append_keeps_links(tm, ActModel::Recur(b0));
                },
                LineClass::Thread(t0) => {
                    assert(forall|j: int|
                        0 <= j < t2.nodes.len() ==> tm.nodes[j].kind == (
                        #[trigger] t2.nodes[j].kind));
                    lemma_depth_of_same_kinds(tm.nodes, t2.nodes, tm.cur);
                    lemma_append_keeps_links(tm, ActModel::Thread(t0));
                },
                LineClass::ValueJump(_, j0) => {
                    assert(forall|j: int|
                        0 <= j < t2.nodes.len() ==> tm.nodes[j].kind == (
                        #[trigger] t2.nodes[j].kind));
                    lemma_depth_of_same_kinds(tm.nodes, t2.nodes, tm.cur);
                    lemma_append_keeps_links(tm, ActModel::Intra(j0));
                },
                LineClass::Call(invoc, name) => {
                    let k = tm.nodes.len() as int;
                    assert(forall|j: int|
                        0 <= j < k ==> tm.nodes[j].kind == (#[trigger] t2.nodes[j].kind));
                    lemma_depth_of_same_kinds(tm.nodes, t2.nodes, tm.cur);
                    assert(t2.nodes[k].kind matches NodeKind::Regular { parent, .. } && parent
                        == tm.cur);
                    assert(depth_of(t2.nodes, k) == 1 + depth_of(t2.nodes, tm.cur));
                    lemma_enter_keeps_links(tm, invoc, name);
                },
                LineClass::Ret(name) => {
                    if tm.nodes[tm.cur].kind is Regular {
                        assert(forall|j: int|
                            0 <= j < t2.nodes.len() ==> tm.nodes[j].kind == (
                            #[trigger] t2.nodes[j].kind));
                        match tm.nodes[tm.cur].kind {
                            NodeKind::Regular { parent, .. } => {
                                lemma_depth_of_same_kinds(tm.nodes, t2.nodes, parent);
                            },
                            NodeKind::Init => {},
                        }
                        lemma_append_keeps_links(
                            tm,
                            ActModel::Func(FuncActModel { typ: FuncTypeModel::Return, name }),
                        );
                    }
                },
                LineClass::Unwind(name) => {
                    if tm.nodes[tm.cur].kind is Regular {
                        assert(forall|j: int|
                            0 <= j < t2.nodes.len() ==> tm.nodes[j].kind == (
                            #[trigger] t2.nodes[j].kind));
                        match tm.nodes[tm.cur].kind {
                            NodeKind::Regular { parent, .. } => {
                                lemma_depth_of_same_kinds(tm.nodes, t2.nodes, parent);
                            },
                            NodeKind::Init => {},
                        }
                        lemma_append_keeps_links(
                            tm,
                            ActModel::Func(FuncActModel { typ: FuncTypeModel::Unwind, name }),
                        );
                    }
                },
                _ => {},
            }
        },
        Err(_) => {},
    }
}

/// Appending an action in place keeps the tree well-formed.
pub proof fn lemma_append_preserves_wf(tm: TreeModel, a: ActModel)
    requires
        tree_wf(tm),
        !(a matches ActModel::Func(f) && f.typ is Call),
    ensures
        tree_wf(append_act(tm, a)),
{
    let t2 = append_act(tm, a);
    assert(forall|j: int| 0 <= j < t2.nodes.len() ==> tm.nodes[j].kind == (#[trigger] t2.nodes[j].kind));
    lemma_depth_of_same_kinds(tm.nodes, t2.nodes, tm.cur);
    lemma_append_keeps_links(tm, a);
}

/// The model of a recorded thread-creation list.
pub open spec fn thcp_view(v: Seq<(Tid, ActionPoint)>) -> Seq<(nat, (int, int))> {
    v.map_values(|p: (Tid, ActionPoint)| (p.0 as nat, (p.1.node_ptr as int, p.1.act_index as int)))
}

pub struct ThreadExecTree {
    nodes: Vec<ExecFuncNode>,
    cur_node_ptr: NodeIdx,
    depth: usize,
    max_depth: usize,
    tid: Tid,
}

impl View for ThreadExecTree {
    type V = TreeModel;

    closed spec fn view(&self) -> TreeModel {
        TreeModel {
            nodes: self.nodes@.map_values(|n: ExecFuncNode| n@),
            cur: self.cur_node_ptr as int,
            depth: self.depth as int,
            max_depth: self.max_depth as int,
            tid: self.tid as nat,
        }
    }
}

impl ThreadExecTree {
    pub fn new(tid: Tid) -> (r: Self)
        ensures
            r@ == init_tree_model(tid as nat),
    {
        let mut nodes: Vec<ExecFuncNode> = Vec::new();
        nodes.push(ExecFuncNode::init_node());
        let r = Self { nodes, cur_node_ptr: 0, depth: 0, max_depth: 0, tid };
        proof {
            assert(r@.nodes =~= init_tree_model(tid as nat).nodes);
        }
        r
    }

    /// The index of the root node: the arena's first slot.
    pub fn get_root_ptr(&self) -> (r: NodeIdx)
        ensures
            r == 0,
    {
        0
    }

    pub fn get_tid(&self) -> (r: Tid)
        ensures
            r as nat == self@.tid,
    {
        self.tid
    }

    /// The cursor's depth: open calls not yet returned from.
    pub fn get_depth(&self) -> (r: usize)
        ensures
            r as int == self@.depth,
    {
        self.depth
    }

    /// The greatest nesting depth the replay observed.
    pub fn get_max_depth(&self) -> (r: usize)
        ensures
            r as int == self@.max_depth,
    {
        self.max_depth
    }

    /// The node at index `i`.
    pub fn get_node(&self, i: NodeIdx) -> (r: &ExecFuncNode)
        requires
            i < self@.nodes.len(),
        ensures
            r@ == self@.nodes[i as int],
    {
        &self.nodes[i]
    }

    /// The number of nodes in the arena.
    pub fn node_count(&self) -> (r: usize)
        ensures
            r == self@.nodes.len(),
    {
        self.nodes.len()
    }

    /// Append `act` to the node under the cursor.
    fn add_act(&mut self, act: ExecAction)
        requires
            0 <= old(self)@.cur < old(self)@.nodes.len(),
        ensures
            final(self)@ == append_act(old(self)@, act@),
    {
        let cur = self.cur_node_ptr;
        let node = &mut self.nodes[cur];
        node.push(act);
        proof {
            assert(self@.nodes =~= append_act(old(self)@, act@).nodes);
        }
    }

    /// Build the function action of a call line: allocate the child node
    /// in the arena; the returned `Call` action refers to it.  The
    /// cursor does not move.
    fn create_call_act(&mut self, invoc_loc: Option<SrcLoc>, name: String) -> (r: FuncAction)
        requires
            0 <= old(self)@.cur < old(self)@.nodes.len(),
        ensures
            r@ == (FuncActModel {
                typ: FuncTypeModel::Call {
                    child: old(self)@.nodes.len() as int,
                    invoc: match invoc_loc {
                        Some(l) => Some(l@),
                        None => None,
                    },
                },
                name: name@,
            }),
            final(self)@.nodes == old(self)@.nodes.push(
                NodeModel {
                    kind: NodeKind::Regular {
                        name: name@,
                        parent: old(self)@.cur,
                        act_index: old(self)@.nodes[old(self)@.cur].acts.len() as int,
                    },
                    acts: Seq::empty(),
                },
            ),
            final(self)@.cur == old(self)@.cur,
            final(self)@.depth == old(self)@.depth,
            final(self)@.max_depth == old(self)@.max_depth,
            final(self)@.tid == old(self)@.tid,
    {
        let cur = self.cur_node_ptr;
        let act_index = self.nodes[cur].get_len();
        let child = ExecFuncNode::regular_node(name.clone(), cur, act_index);
        let child_ptr = self.nodes.len();
        self.nodes.push(child);
        proof {
            assert(self@.nodes =~= old(self)@.nodes.push(
                NodeModel {
                    kind: NodeKind::Regular {
                        name: name@,
                        parent: old(self)@.cur,
                        act_index: old(self)@.nodes[old(self)@.cur].acts.len() as int,
                    },
                    acts: Seq::empty(),
                },
            ));
        }
        FuncAction::new(FuncActionType::Call { child_ptr, invoc_loc }, name)
    }

    /// One pass of the classification rules over `line`.  A `Call` line
    /// has its child node allocated here.  A skip signal or a fatal line
    /// comes back as an error, the tree untouched.
    #[verifier::rlimit(100)]
    #[verifier::spinoff_prover]
    fn parse_guard_once(&mut self, line: &str) -> (r: Result<
        (Option<ValueHit>, Option<ExecAction>),
        GuardParseError,
    >)
        requires
            0 <= old(self)@.cur < old(self)@.nodes.len(),
        ensures
            match r {
                Ok((vh, act)) => match classify_once(line@) {
                    LineClass::ValueHit(v) => {
                        &&& vh matches Some(h) && h@ == v
                        &&& act is None
                        &&& final(self)@ == old(self)@
                    },
                    LineClass::Jump(j) => {
                        &&& vh is None
                        &&& act matches Some(a) && a@ == ActModel::Intra(j)
                        &&& final(self)@ == old(self)@
                    },
                    LineClass::Loop(l) => {
                        &&& vh is None
                        &&& act matches Some(a) && a@ == ActModel::Loop(l)
                        &&& final(self)@ == old(self)@
                    },
                    LineClass::Recur(b) => {
                        &&& vh is None
                        &&& act matches Some(a) && a@ == ActModel::Recur(b)
                        &&& final(self)@ == old(self)@
                    },
                    LineClass::Thread(t) => {
                        &&& vh is None
                        &&& act matches Some(a) && a@ == ActModel::Thread(t)
                        &&& final(self)@ == old(self)@
                    },
                    LineClass::ValueJump(v, j) => {
                        &&& vh matches Some(h) && h@ == v
                        &&& act matches Some(a) && a@ == ActModel::Intra(j)
                        &&& final(self)@ == old(self)@
                    },
                    LineClass::Call(invoc, name) => {
                        &&& vh is None
                        &&& act matches Some(a) && a@ == ActModel::Func(
                            FuncActModel {
                                typ: FuncTypeModel::Call {
                                    child: old(self)@.nodes.len() as int,
                                    invoc,
                                },
                                name,
                            },
                        )
                        &&& final(self)@.nodes == old(self)@.nodes.push(
                            NodeModel {
                                kind: NodeKind::Regular {
                                    name,
                                    parent: old(self)@.cur,
                                    act_index: old(self)@.nodes[old(self)@.cur].acts.len() as int,
                                },
                                acts: Seq::empty(),
                            },
                        )
                        &&& final(self)@.cur == old(self)@.cur
                        &&& final(self)@.depth == old(self)@.depth
                        &&& final(self)@.max_depth == old(self)@.max_depth
                        &&& final(self)@.tid == old(self)@.tid
                    },
                    LineClass::Ret(name) => {
                        &&& vh is None
                        &&& act matches Some(a) && a@ == ActModel::Func(
                            FuncActModel { typ: FuncTypeModel::Return, name },
                        )
                        &&& final(self)@ == old(self)@
                    },
                    LineClass::Unwind(name) => {
                        &&& vh is None
                        &&& act matches Some(a) && a@ == ActModel::Func(
                            FuncActModel { typ: FuncTypeModel::Unwind, name },
                        )
                        &&& final(self)@ == old(self)@
                    },
                    LineClass::Skip(_) => false,
                    LineClass::Fatal => false,
                },
                Err(e) => {
                    &&& final(self)@ == old(self)@
                    &&& match e {
                        GuardParseError::SkipError { skip_num, .. } => classify_once(line@)
                            == LineClass::Skip(skip_num as int),
                        _ => classify_once(line@) is Fatal,
                    }
                },
            },
    {
        match ValueHit::parse_value_guard(line) {
            Ok(value_hit) => {
                return Ok((Some(value_hit), None));
            },
            Err(e) => {
                if !e.is_prefix_err() {
                    return Err(e);
                }
            },
        }
        match JumpAction::parse_simple_guard(line) {
            Ok(intra_act) => {
                return Ok((None, Some(ExecAction::Intra(intra_act))));
            },
            Err(e) => {
                if !e.is_prefix_err() {
                    return Err(e);
                }
            },
        }
        match LoopAction::parse_loop_guard(line) {
            Ok(loop_act) => {
                return Ok((None, Some(ExecAction::Loop(loop_act))));
            },
            Err(e) => {
                if !e.is_prefix_err() {
                    return Err(e);
                }
            },
        }
        match RecurAction::parse_recur_guard(line) {
            Ok(recur_act) => {
                return Ok((None, Some(ExecAction::Recur(recur_act))));
            },
            Err(e) => {
                if !e.is_prefix_err() {
                    return Err(e);
                }
            },
        }
        match ThreadAction::parse_thread_guard(line) {
            Ok(thread_act) => {
                return Ok((None, Some(ExecAction::Thread(thread_act))));
            },
            Err(e) => {
                if !e.is_prefix_err() {
                    return Err(e);
                }
            },
        }
        match Self::parse_regular_br_guard(line) {
            Ok((value_hit, intra_act)) => {
                return Ok((Some(value_hit), Some(ExecAction::Intra(intra_act))));
            },
            Err(e) => {
                if !e.is_prefix_err() {
                    return Err(e);
                }
            },
        }
        match FuncAction::parse_call_guard(line) {
            Ok((invoc_loc_op, func_name)) => {
                let func_act = self.create_call_act(invoc_loc_op, func_name);
                return Ok((None, Some(ExecAction::Func(func_act))));
            },
            Err(e) => {
                let skip_num: usize = match &e {
                    GuardParseError::SkipError { skip_num, .. } => *skip_num,
                    _ => 0,
                };
                if skip_num > 0 {
                    return Err(e);
                }
            },
        }
        if crate::action::FuncActionType::is_return_guard(line) {
            let func_act = match FuncAction::parse_return_guard(line) {
                Ok(a) => a,
                Err(e) => {
                    return Err(e);
                },
            };
            return Ok((None, Some(ExecAction::Func(func_act))));
        }
        if crate::strutil::str_starts_with(line, "unwind from ") {
            let func_act = match FuncAction::parse_unwind_guard(line) {
                Ok(a) => a,
                Err(e) => {
                    return Err(e);
                },
            };
            return Ok((None, Some(ExecAction::Func(func_act))));
        }
        Err(GuardParseError::as_parse_err(String::from_str("line matches no classification rule")))
    }

    /// Classify one line, honouring a skip signal once: classification
    /// is re-run on the line's remainder, and a second skip is fatal.
    fn parse_guard(&mut self, line: &str) -> (r: Result<
        (Option<ValueHit>, Option<ExecAction>),
        GuardParseError,
    >)
        requires
            0 <= old(self)@.cur < old(self)@.nodes.len(),
        ensures
            match r {
                Ok((vh, act)) => match classify_line(line@) {
                    LineClass::ValueHit(v) => {
                        &&& vh matches Some(h) && h@ == v
                        &&& act is None
                        &&& final(self)@ == old(self)@
                    },
                    LineClass::Jump(j) => {
                        &&& vh is None
                        &&& act matches Some(a) && a@ == ActModel::Intra(j)
                        &&& final(self)@ == old(self)@
                    },
                    LineClass::Loop(l) => {
                        &&& vh is None
                        &&& act matches Some(a) && a@ == ActModel::Loop(l)
                        &&& final(self)@ == old(self)@
                    },
                    LineClass::Recur(b) => {
                        &&& vh is None
                        &&& act matches Some(a) && a@ == ActModel::Recur(b)
                        &&& final(self)@ == old(self)@
                    },
                    LineClass::Thread(t) => {
                        &&& vh is None
                        &&& act matches Some(a) && a@ == ActModel::Thread(t)
                        &&& final(self)@ == old(self)@
                    },
                    LineClass::ValueJump(v, j) => {
                        &&& vh matches Some(h) && h@ == v
                        &&& act matches Some(a) && a@ == ActModel::Intra(j)
                        &&& final(self)@ == old(self)@
                    },
                    LineClass::Call(invoc, name) => {
                        &&& vh is None
                        &&& act matches Some(a) && a@ == ActModel::Func(
                            FuncActModel {
                                typ: FuncTypeModel::Call {
                                    child: old(self)@.nodes.len() as int,
                                    invoc,
                                },
                                name,
                            },
                        )
                        &&& final(self)@.nodes == old(self)@.nodes.push(
                            NodeModel {
                                kind: NodeKind::Regular {
                                    name,
                                    parent: old(self)@.cur,
                                    act_index: old(self)@.nodes[old(self)@.cur].acts.len() as int,
                                },
                                acts: Seq::empty(),
                            },
                        )
                        &&& final(self)@.cur == old(self)@.cur
                        &&& final(self)@.depth == old(self)@.depth
                        &&& final(self)@.max_depth == old(self)@.max_depth
                        &&& final(self)@.tid == old(self)@.tid
                    },
                    LineClass::Ret(name) => {
                        &&& vh is None
                        &&& act matches Some(a) && a@ == ActModel::Func(
                            FuncActModel { typ: FuncTypeModel::Return, name },
                        )
                        &&& final(self)@ == old(self)@
                    },
                    LineClass::Unwind(name) => {
                        &&& vh is None
                        &&& act matches Some(a) && a@ == ActModel::Func(
                            FuncActModel { typ: FuncTypeModel::Unwind, name },
                        )
                        &&& final(self)@ == old(self)@
                    },
                    LineClass::Skip(_) => false,
                    LineClass::Fatal => false,
                },
                Err(_) => classify_line(line@) is Fatal && final(self)@ == old(self)@,
            },
    {
        let first = self.parse_guard_once(line);
        match first {
            Ok(p) => Ok(p),
            Err(e) => {
                match e {
                    GuardParseError::SkipError { data: _, skip_num } => {
                        proof {
                            match crate::exec_tree::action::invoc_part_spec(line@) {
                                Some((_l, _k)) => {
                                    crate::strutil::lemma_first_space_index(
                                        line@.skip("Function Invocation:"@.len() as int + 1),
                                    );
                                },
                                None => {},
                            }
                            assert(skip_num <= line@.len());
                        }
                        let n: usize = line.unicode_len();
                        let rest = line.substring_char(skip_num, n);
                        proof {
                            assert(rest@ =~= line@.skip(skip_num as int));
                        }
                        match self.parse_guard_once(rest) {
                            Ok(p) => Ok(p),
                            Err(e2) => {
                                match e2 {
                                    GuardParseError::SkipError { .. } => Err(
                                        GuardParseError::as_parse_err(
                                            String::from_str(
                                                "line matches no classification rule after a skip",
                                            ),
                                        ),
                                    ),
                                    _ => Err(e2),
                                }
                            },
                        }
                    },
                    _ => Err(e),
                }
            },
        }
    }

    /// Replay one line against the cursor: classify it, append its
    /// action, move the cursor and track the depth on a call, return or
    /// unwind, record a thread-creation coordinate, and count a value
    /// hit against the constraint.  A return or unwind with no open call
    /// is fatal; the appended action stays, the cursor does not move.
    ///
    /// A genuine divergence, left visible rather than resolved: this
    /// replay records a `return from` line's function name but does not
    /// compare it with the node being closed, while the chain replay in
    /// `inter` treats such a mismatch as fatal.  Either behaviour is
    /// defensible; a silent mismatch here closes the wrong frame and
    /// skews every depth-based figure downstream.
    #[verifier::rlimit(100)]
    #[verifier::spinoff_prover]
    pub fn read_line(
        &mut self,
        line: &str,
        cons_op: Option<&Constraint>,
        hit_cnt: &mut usize,
        thcp: &mut Vec<(Tid, ActionPoint)>,
    ) -> (r: Result<(), GuardParseError>)
        requires
            tree_wf(old(self)@),
            *old(hit_cnt) < usize::MAX,
        ensures
            match r {
                Ok(_) => line_step(old(self)@, line@) == Ok::<TreeModel, TreeModel>(final(self)@)
                    && *final(hit_cnt) == *old(hit_cnt) + hit_delta(cons_model_of(cons_op), line@)
                    && thcp_view(final(thcp)@) == (match thcp_of(old(self)@, line@) {
                    Some(p) => thcp_view(old(thcp)@).push(p),
                    None => thcp_view(old(thcp)@),
                }),
                Err(_) => line_step(old(self)@, line@) == Err::<TreeModel, TreeModel>(final(self)@)
                    && *final(hit_cnt) == *old(hit_cnt) && final(thcp)@ == old(thcp)@,
            },
            tree_wf(final(self)@),
    {
        proof {
            lemma_step_preserves_wf(old(self)@, line@);
            lemma_depth_of_bound(old(self)@.nodes, old(self)@.cur);
        }
        let ghost tm0 = old(self)@;
        let (value_hit_op, act_op) = match self.parse_guard(line) {
            Ok(p) => p,
            Err(e) => {
                return Err(e);
            },
        };
        if let Some(act) = act_op {
            let is_call = act.is_func_call();
            let mut is_leave = false;
            let mut child_ptr_op: Option<NodeIdx> = None;
            if let ExecAction::Func(f) = &act {
                if f.is_call() {
                    child_ptr_op = f.get_child_ptr();
                } else {
                    is_leave = true;
                }
            }
            if let ExecAction::Thread(t) = &act {
                let point = ActionPoint {
                    node_ptr: self.cur_node_ptr,
                    act_index: self.nodes[self.cur_node_ptr].get_len(),
                };
                let tid_new: Tid = t.get_thread_id();
                thcp.push((tid_new, point));
                proof {
                    if let LineClass::Thread(tmod) = classify_line(line@) {
                        assert(thcp_view(thcp@) =~= thcp_view(old(thcp)@).push(
                            (tmod.tid, (tm0.cur, tm0.nodes[tm0.cur].acts.len() as int)),
                        ));
                    }
                }
            }
            let ghost am = act@;
            self.add_act(act);
            if is_call {
                if let Some(child_ptr) = child_ptr_op {
                    self.cur_node_ptr = child_ptr;
                    let n_now: usize = self.nodes.len();
                    proof {
                        assert(self@.nodes.len() == n_now as int);
                        assert(tm0.nodes.len() == n_now - 1);
                        assert(tm0.depth <= tm0.cur);
                    }
                    self.depth = self.depth + 1;
                    if self.depth > self.max_depth {
                        self.max_depth = self.depth;
                    }
                    proof {
                        if let LineClass::Call(invoc, nm) = classify_line(line@) {
                            assert(self@.nodes =~= enter_node(tm0, invoc, nm).nodes);
                            assert(self@ == enter_node(tm0, invoc, nm));
                        }
                    }
                }
            } else if is_leave {
                proof {
                    assert(self@.cur == tm0.cur);
                    assert(self@.nodes.len() == tm0.nodes.len());
                    assert(self@.nodes[tm0.cur].kind == tm0.nodes[tm0.cur].kind);
                }
                let parent_op = self.nodes[self.cur_node_ptr].get_parent_ptr();
                match parent_op {
                    Some(parent_ptr) => {
                        proof {
                            match tm0.nodes[tm0.cur].kind {
                                NodeKind::Regular { parent, .. } => {
                                    lemma_depth_of_bound(tm0.nodes, parent);
                                },
                                NodeKind::Init => {},
                            }
                            assert(tm0.depth >= 1);
                        }
                        self.cur_node_ptr = parent_ptr;
                        self.depth = self.depth - 1;
                        proof {
                            match classify_line(line@) {
                                LineClass::Ret(nm) => {
                                    assert(self@ == leave_node(tm0, FuncTypeModel::Return, nm));
                                },
                                LineClass::Unwind(nm) => {
                                    assert(self@ == leave_node(tm0, FuncTypeModel::Unwind, nm));
                                },
                                _ => {},
                            }
                        }
                    },
                    None => {
                        proof {
                            lemma_append_preserves_wf(tm0, am);
                        }
                        return Err(
                            GuardParseError::as_parse_err(
                                String::from_str("current node has no parent, cannot return"),
                            ),
                        );
                    },
                }
            } else {
                proof {
                    assert(self@ == append_act(tm0, am));
                    lemma_append_preserves_wf(tm0, am);
                }
            }
        }
        proof {
            assert(line_step(tm0, line@) == Ok::<TreeModel, TreeModel>(self@));
        }
        if let Some(val_hit) = value_hit_op {
            if let Some(cons) = cons_op {
                if cons.is_hit(&val_hit) {
                    *hit_cnt = *hit_cnt + 1;
                    proof {
                        assert(hit_delta(cons_model_of(cons_op), line@) == 1);
                    }
                } else {
                    proof {
                        assert(hit_delta(cons_model_of(cons_op), line@) == 0);
                    }
                }
            } else {
                proof {
                    assert(hit_delta(cons_model_of(cons_op), line@) == 0);
                }
            }
        } else {
            proof {
                assert(hit_delta(cons_model_of(cons_op), line@) == 0);
            }
        }
        Ok(())
    }

    /// Build one thread's tree by replaying `lines` in order: the cursor
    /// machine consumes every line, records thread-creation coordinates,
    /// counts value hits against `cons_op`, and stops early once the hit
    /// count reaches `trunc_cnt`.  A fatal line, or a return or unwind
    /// past the root, aborts with an error.
    pub fn from_guard_lines(
        tid: Tid,
        lines: &Vec<String>,
        cons_op: Option<&Constraint>,
        trunc_cnt: usize,
    ) -> (r: Result<(ThreadExecTree, Vec<(Tid, ActionPoint)>), GuardParseError>)
        ensures
            match r {
                Ok((t, v)) => replay(
                    init_tree_model(tid as nat),
                    0,
                    Seq::empty(),
                    lines@.map_values(|s: String| s@),
                    cons_model_of(cons_op),
                    trunc_cnt as nat,
                ) matches Ok((tm, _, ps)) && t@ == tm && thcp_view(v@) == ps && tree_wf(t@),
                Err(_) => replay(
                    init_tree_model(tid as nat),
                    0,
                    Seq::empty(),
                    lines@.map_values(|s: String| s@),
                    cons_model_of(cons_op),
                    trunc_cnt as nat,
                ) is Err,
            },
    {
        let ghost full = lines@.map_values(|s: String| s@);
        let ghost cons = cons_model_of(cons_op);
        let mut tree = ThreadExecTree::new(tid);
        let mut thcp: Vec<(Tid, ActionPoint)> = Vec::new();
        let mut hit_cnt: usize = 0;
        let n: usize = lines.len();
        let mut idx: usize = 0;
        proof {
            assert(full.skip(0) =~= full);
            assert(tree_wf(tree@));
            assert(thcp_view(thcp@) =~= Seq::<(nat, (int, int))>::empty());
        }
        while idx < n
            invariant
                n == lines@.len(),
                n == full.len(),
                full == lines@.map_values(|s: String| s@),
                cons == cons_model_of(cons_op),
                idx <= n,
                tree_wf(tree@),
                hit_cnt == 0 || hit_cnt < trunc_cnt,
                replay(init_tree_model(tid as nat), 0, Seq::empty(), full, cons, trunc_cnt as nat)
                    == replay(
                    tree@,
                    hit_cnt as nat,
                    thcp_view(thcp@),
                    full.skip(idx as int),
                    cons,
                    trunc_cnt as nat,
                ),
            decreases n - idx,
        {
            let line = &lines[idx];
            proof {
                assert(full[idx as int] == line@);
                assert(full.skip(idx as int).len() > 0);
                assert(full.skip(idx as int)[0] == full[idx as int]);
                assert(full.skip(idx as int).drop_first() =~= full.skip(idx as int + 1));
            }
            match tree.read_line(line.as_str(), cons_op, &mut hit_cnt, &mut thcp) {
                Ok(_) => {},
                Err(e) => {
                    return Err(e);
                },
            }
            idx = idx + 1;
            if hit_cnt >= trunc_cnt {
                return Ok((tree, thcp));
            }
        }
        proof {
            assert(full.skip(n as int).len() == 0);
        }
        Ok((tree, thcp))
    }

    fn parse_regular_br_guard(line: &str) -> (r: Result<(ValueHit, JumpAction), GuardParseError>)
        ensures
            match r {
                Ok((v, a)) => reg_br_guard_spec(line@) == ParseOutcome::Parsed((v@, a@)),
                Err(e) => match e {
                    GuardParseError::PrefixError { .. } => reg_br_guard_spec(line@) is NoPrefix,
                    GuardParseError::ParseError { .. } => reg_br_guard_spec(line@) is Malformed,
                    GuardParseError::SkipError { .. } => false,
                },
            },
    {
        let prefix = match crate::action::get_prefix(line) {
            Ok(p) => p,
            Err(e) => {
                return Err(e);
            },
        };
        if !str_eq(prefix, "Br Guard:") {
            return Err(
                GuardParseError::as_prefix_err(
                    String::from_str("line does not match the plain branch-guard prefix"),
                ),
            );
        }
        let n: usize = line.unicode_len();
        let plen: usize = prefix.unicode_len();
        proof {
            crate::strutil::lemma_first_index_of(line@, ':');
        }
        let line_cont = trim(line.substring_char(plen, n));
        proof {
            assert(line@.subrange(plen as int, n as int) =~= line@.skip(plen as int));
        }
        let m: usize = line_cont.unicode_len();
        let idx = match find_space_idx(line_cont) {
            Some(i) => i,
            None => {
                return Err(
                    GuardParseError::as_parse_err(
                        String::from_str("branch guard line has no fields after the value"),
                    ),
                );
            },
        };
        proof {
            crate::strutil::lemma_first_space_index(line_cont@);
        }
        let value_hit_str = line_cont.substring_char(0, idx);
        let intra_act_str = trim(line_cont.substring_char(idx, m));
        proof {
            assert(value_hit_str@ =~= line_cont@.take(idx as int));
            assert(line_cont@.subrange(idx as int, m as int) =~= line_cont@.skip(idx as int));
        }
        let value_hit = match ValueHit::from_str(value_hit_str) {
            Ok(v) => v,
            Err(e) => {
                return Err(e);
            },
        };
        let intra_act = match JumpAction::from_slice(intra_act_str) {
            Ok(a) => a,
            Err(e) => {
                return Err(e);
            },
        };
        Ok((value_hit, intra_act))
    }
}

} // verus!
