//! First-generation call tree: an arena of function nodes built by
//! replaying one guard file.
//!
//! The arena owns every node; parents and `Call` actions refer to nodes
//! by index, so the tree structure is purely index relationships.  The
//! replay is a cursor machine: `enter` allocates a child and descends,
//! `return from` ascends, every other action is appended in place.

use vstd::prelude::*;

use crate::action::{
    func_name_spec, jump_guard_spec, jump_slice_spec, loop_guard_spec, ActModel, ExecAction,
    FuncActModel, FuncAction, FuncActionType, IntraAction, JumpModel, LoopAction,
};
use crate::constraints::{cons_is_hit, ConsModel, Constraint};
use crate::error::{GuardParseError, ParseOutcome};
use crate::loc::{parse_loc_spec, LocModel, SrcLoc};
use crate::strutil::{find_space_idx, first_index_of, first_space_index, str_eq, trim, trimmed};

verus! {

/// Index of a `FuncNode` in its tree's arena.
pub type NodeIdx = usize;

/// A short identifier for graph rendering.
pub trait DotId {
    fn get_dot_id(&self) -> &str;
}

/// Mathematical model of a node's identity.
pub enum NodeKind {
    Init,
    Regular { name: Seq<char>, parent: int, act_index: int },
}

/// Mathematical model of one function node.
pub struct NodeModel {
    pub kind: NodeKind,
    pub acts: Seq<ActModel>,
}

/// Mathematical model of a tree under construction: its arena and the
/// cursor.
pub struct TreeModel {
    pub nodes: Seq<NodeModel>,
    pub cur: int,
}

pub enum FuncEntryType {
    Init,
    Regular { name: String, parent: NodeIdx, act_index: usize },
}

pub struct FuncNode {
    node_type: FuncEntryType,
    data: Vec<ExecAction>,
}

impl View for FuncNode {
    type V = NodeModel;

    closed spec fn view(&self) -> NodeModel {
        NodeModel {
            kind: match &self.node_type {
                FuncEntryType::Init => NodeKind::Init,
                FuncEntryType::Regular { name, parent, act_index } => NodeKind::Regular {
                    name: name@,
                    parent: *parent as int,
                    act_index: *act_index as int,
                },
            },
            acts: self.data@.map_values(|a: ExecAction| a@),
        }
    }
}

impl DotId for FuncNode {
    fn get_dot_id(&self) -> &str {
        match &self.node_type {
            FuncEntryType::Init => "init_node",
            FuncEntryType::Regular { name, .. } => name.as_str(),
        }
    }
}

impl FuncNode {
    pub fn init_node() -> (r: Self)
        ensures
            r@.kind is Init,
            r@.acts == Seq::<ActModel>::empty(),
    {
        let r = Self { node_type: FuncEntryType::Init, data: Vec::new() };
        proof {
            assert(r@.acts =~= Seq::<ActModel>::empty());
        }
        r
    }

    pub fn regular_node(name: String, parent: NodeIdx, act_index: usize) -> (r: Self)
        ensures
            r@.kind == (NodeKind::Regular {
                name: name@,
                parent: parent as int,
                act_index: act_index as int,
            }),
            r@.acts == Seq::<ActModel>::empty(),
    {
        let r = Self {
            node_type: FuncEntryType::Regular { name, parent, act_index },
            data: Vec::new(),
        };
        proof {
            assert(r@.acts =~= Seq::<ActModel>::empty());
        }
        r
    }

    /// The node's action list, in append order.
    pub fn iter_acts(&self) -> (r: &Vec<ExecAction>)
        ensures
            r@.map_values(|a: ExecAction| a@) == self@.acts,
    {
        &self.data
    }

    /// Hand this node to a tree's arena; the new index refers to it.
    pub fn get_node_ptr(self, tree: &mut ExecTree) -> (r: NodeIdx)
        ensures
            final(tree)@.nodes == old(tree)@.nodes.push(self@),
            final(tree)@.cur == old(tree)@.cur,
            r == old(tree)@.nodes.len(),
    {
        let r = tree.nodes.len();
        tree.nodes.push(self);
        r
    }

    pub fn get_parent_ptr(&self) -> (r: Option<NodeIdx>)
        ensures
            match r {
                Some(p) => self@.kind matches NodeKind::Regular { parent, .. } && p == parent,
                None => self@.kind is Init,
            },
    {
        match &self.node_type {
            FuncEntryType::Regular { parent, .. } => Some(*parent),
            FuncEntryType::Init => None,
        }
    }

    pub fn is_init(&self) -> (r: bool)
        ensures
            r == (self@.kind is Init),
    {
        matches!(self.node_type, FuncEntryType::Init)
    }

    pub fn is_regular(&self) -> (r: bool)
        ensures
            r == (self@.kind is Regular),
    {
        matches!(self.node_type, FuncEntryType::Regular { .. })
    }

    pub fn get_func_name(&self) -> (r: Option<&str>)
        ensures
            match r {
                Some(n) => self@.kind matches NodeKind::Regular { name, .. } && n@ == name,
                None => self@.kind is Init,
            },
    {
        if let FuncEntryType::Regular { name, .. } = &self.node_type {
            Some(name.as_str())
        } else {
            None
        }
    }

    pub fn push(&mut self, act: ExecAction)
        ensures
            final(self)@.acts == old(self)@.acts.push(act@),
            final(self)@.kind == old(self)@.kind,
    {
        self.data.push(act);
    }
}

/// The separate value-hit signal of a trace line; never stored in the
/// tree, only compared against the constraint.
pub struct ValueHit {
    loc: SrcLoc,
}

impl View for ValueHit {
    type V = LocModel;

    closed spec fn view(&self) -> LocModel {
        self.loc@
    }
}

/// One `Unconditional Branch Value:<loc>` line.
pub open spec fn value_guard_spec(line: Seq<char>) -> ParseOutcome<LocModel> {
    if !"Unconditional Branch Value:"@.is_prefix_of(line) {
        ParseOutcome::NoPrefix
    } else {
        match parse_loc_spec(trimmed(line.skip("Unconditional Branch Value:"@.len() as int))) {
            Some(m) => ParseOutcome::Parsed(m),
            None => ParseOutcome::Malformed,
        }
    }
}

impl ValueHit {
    pub fn get_src_path(&self) -> (r: Option<&String>)
        ensures
            match r {
                Some(p) => self@ matches LocModel::At { path, .. } && p@ == path,
                None => self@ is Null,
            },
    {
        self.loc.get_src_path()
    }

    pub fn get_loc(&self) -> (r: &SrcLoc)
        ensures
            r@ == self@,
    {
        &self.loc
    }

    pub fn get_line(&self) -> (r: Option<usize>)
        ensures
            match r {
                Some(n) => self@ matches LocModel::At { line, .. } && n == line,
                None => self@ is Null,
            },
    {
        self.loc.get_line()
    }

    pub fn parse_value_guard(line: &str) -> (r: Result<ValueHit, GuardParseError>)
        ensures
            match r {
                Ok(v) => value_guard_spec(line@) == ParseOutcome::Parsed(v@),
                Err(e) => match e {
                    GuardParseError::PrefixError { .. } => value_guard_spec(line@) is NoPrefix,
                    GuardParseError::ParseError { .. } => value_guard_spec(line@) is Malformed,
                    GuardParseError::SkipError { .. } => false,
                },
            },
    {
        let loc = match SrcLoc::parse_line_with_prefix(line, "Unconditional Branch Value:") {
            Ok(l) => l,
            Err(e) => {
                return Err(e);
            },
        };
        Ok(ValueHit { loc })
    }

    pub fn from_str(slice: &str) -> (r: Result<Self, GuardParseError>)
        ensures
            match r {
                Ok(v) => parse_loc_spec(slice@) == Some(v@),
                Err(e) => parse_loc_spec(slice@) is None && e is ParseError,
            },
    {
        let loc = match SrcLoc::from_str(slice) {
            Ok(l) => l,
            Err(e) => {
                return Err(e);
            },
        };
        Ok(ValueHit { loc })
    }
}

/// How one line classifies under the first-generation rules, tried in
/// order: value hit, branch guard, loop guard, combined value-and-branch
/// guard, function entry, function return.  `Fatal` covers both a rule
/// whose fields were malformed and a line matching no rule.
pub enum LineClass {
    ValueHit(LocModel),
    Jump(JumpModel),
    Loop(LoopModel1),
    ValueJump(LocModel, JumpModel),
    Enter(Seq<char>),
    Ret(Seq<char>),
    Fatal,
}

use crate::action::LoopModel as LoopModel1;

/// One `Br Guard:<value-loc> <loc> <0|1> <loc>` line.
pub open spec fn reg_br_guard_spec(line: Seq<char>) -> ParseOutcome<(LocModel, JumpModel)> {
    match first_index_of(line, ':') {
        None => ParseOutcome::NoPrefix,
        Some(ci) => {
            if line.take(ci + 1) != "Br Guard:"@ {
                ParseOutcome::NoPrefix
            } else {
                let t = trimmed(line.skip(ci + 1));
                match first_space_index(t) {
                    None => ParseOutcome::Malformed,
                    Some(i) => match (parse_loc_spec(t.take(i)), jump_slice_spec(
                        trimmed(t.skip(i)),
                    )) {
                        (Some(v), Some(j)) => ParseOutcome::Parsed((v, j)),
                        _ => ParseOutcome::Malformed,
                    },
                }
            }
        },
    }
}

/// The classification of one line: the first rule in order whose prefix
/// matches decides; its fields then either parse or make the line fatal.
pub open spec fn classify_line(line: Seq<char>) -> LineClass {
    match value_guard_spec(line) {
        ParseOutcome::Parsed(v) => LineClass::ValueHit(v),
        ParseOutcome::Malformed => LineClass::Fatal,
        ParseOutcome::NoPrefix => match jump_guard_spec(line) {
            ParseOutcome::Parsed(j) => LineClass::Jump(j),
            ParseOutcome::Malformed => LineClass::Fatal,
            ParseOutcome::NoPrefix => match loop_guard_spec(line) {
                ParseOutcome::Parsed(l) => LineClass::Loop(l),
                ParseOutcome::Malformed => LineClass::Fatal,
                ParseOutcome::NoPrefix => match reg_br_guard_spec(line) {
                    ParseOutcome::Parsed((v, j)) => LineClass::ValueJump(v, j),
                    ParseOutcome::Malformed => LineClass::Fatal,
                    ParseOutcome::NoPrefix => {
                        if "enter "@.is_prefix_of(line) {
                            LineClass::Enter(func_name_spec(line, "enter "@.len() as int))
                        } else if "return from "@.is_prefix_of(line) {
                            LineClass::Ret(func_name_spec(line, "return from "@.len() as int))
                        } else {
                            LineClass::Fatal
                        }
                    },
                },
            },
        },
    }
}

/// The tree with one action appended to the cursor's list.
pub open spec fn append_act(tm: TreeModel, a: ActModel) -> TreeModel {
    TreeModel {
        nodes: tm.nodes.update(
            tm.cur,
            NodeModel { kind: tm.nodes[tm.cur].kind, acts: tm.nodes[tm.cur].acts.push(a) },
        ),
        cur: tm.cur,
    }
}

/// The tree after an `enter`: a fresh child node is allocated at the end
/// of the arena, a `Call` action owning it is appended to the cursor, and
/// the cursor descends to the child.
pub open spec fn enter_node(tm: TreeModel, name: Seq<char>) -> TreeModel {
    let k = tm.nodes.len() as int;
    let call_act = ActModel::Func(
        FuncActModel { typ: FuncActionType::Call { child_ptr: k as usize }, name },
    );
    let child = NodeModel {
        kind: NodeKind::Regular { name, parent: tm.cur, act_index: tm.nodes[tm.cur].acts.len() as int },
        acts: Seq::empty(),
    };
    TreeModel { nodes: append_act(tm, call_act).nodes.push(child), cur: k }
}

/// The tree after a `return from`: the `Return` action is appended to the
/// cursor and the cursor ascends to its parent.
pub open spec fn ret_node(tm: TreeModel, name: Seq<char>) -> TreeModel {
    let with_act = append_act(tm, ActModel::Func(FuncActModel { typ: FuncActionType::Return, name }));
    TreeModel {
        nodes: with_act.nodes,
        cur: match tm.nodes[tm.cur].kind {
            NodeKind::Regular { parent, .. } => parent,
            NodeKind::Init => tm.cur,
        },
    }
}

/// How many hits the line's value signal contributes against `cons`.
pub open spec fn hit_delta(cons: Option<ConsModel>, line: Seq<char>) -> nat {
    match classify_line(line) {
        LineClass::ValueHit(v) => if cons matches Some(c) && cons_is_hit(c, v) {
            1
        } else {
            0
        },
        LineClass::ValueJump(v, _) => if cons matches Some(c) && cons_is_hit(c, v) {
            1
        } else {
            0
        },
        _ => 0,
    }
}

/// One replay step: `Ok` carries the next tree; `Err` carries the tree as
/// the fatal error leaves it (a fatal line leaves it unchanged; a return
/// past the root leaves the appended `Return` behind, cursor unmoved).
pub open spec fn line_step(tm: TreeModel, line: Seq<char>) -> Result<TreeModel, TreeModel> {
    match classify_line(line) {
        LineClass::Fatal => Err(tm),
        LineClass::ValueHit(_) => Ok(tm),
        LineClass::Jump(j) => Ok(append_act(tm, ActModel::Intra(j))),
        LineClass::Loop(l) => Ok(append_act(tm, ActModel::Loop(l))),
        LineClass::ValueJump(_, j) => Ok(append_act(tm, ActModel::Intra(j))),
        LineClass::Enter(name) => Ok(enter_node(tm, name)),
        LineClass::Ret(name) => if tm.nodes[tm.cur].kind is Regular {
            Ok(ret_node(tm, name))
        } else {
            Err(
                append_act(
                    tm,
                    ActModel::Func(FuncActModel { typ: FuncActionType::Return, name }),
                ),
            )
        },
    }
}

/// The tree a fresh replay starts from: one `Init` root, cursor on it.
pub open spec fn init_tree_model() -> TreeModel {
    TreeModel {
        nodes: seq![NodeModel { kind: NodeKind::Init, acts: Seq::empty() }],
        cur: 0,
    }
}

/// Replay of `lines` from state `(tm, hits)`: stops at the end of input,
/// on a fatal line (`Err`), or as soon as the hit count reaches `trunc`.
pub open spec fn replay(
    tm: TreeModel,
    hits: nat,
    lines: Seq<Seq<char>>,
    cons: Option<ConsModel>,
    trunc: nat,
) -> Result<(TreeModel, nat), TreeModel>
    decreases lines.len(),
{
    if lines.len() == 0 {
        Ok((tm, hits))
    } else {
        match line_step(tm, lines[0]) {
            Err(t2) => Err(t2),
            Ok(t2) => {
                let h2 = hits + hit_delta(cons, lines[0]);
                if h2 >= trunc {
                    Ok((t2, h2))
                } else {
                    replay(t2, h2, lines.drop_first(), cons, trunc)
                }
            },
        }
    }
}

/// The model of an optional constraint argument.
pub open spec fn cons_model_of(cons_op: Option<&Constraint>) -> Option<ConsModel> {
    match cons_op {
        Some(c) => Some(c@),
        None => None,
    }
}

pub struct ExecTree {
    nodes: Vec<FuncNode>,
    cur_node_ptr: NodeIdx,
}

impl View for ExecTree {
    type V = TreeModel;

    closed spec fn view(&self) -> TreeModel {
        TreeModel {
            nodes: self.nodes@.map_values(|n: FuncNode| n@),
            cur: self.cur_node_ptr as int,
        }
    }
}

impl ExecTree {
    pub fn new() -> (r: Self)
        ensures
            r@ == init_tree_model(),
    {
        let mut nodes: Vec<FuncNode> = Vec::new();
        nodes.push(FuncNode::init_node());
        let r = Self { nodes, cur_node_ptr: 0 };
        proof {
            assert(r@.nodes =~= init_tree_model().nodes);
        }
        r
    }

    /// The index of the root node: the arena's first slot.
    pub fn get_root_ptr(&self) -> (r: NodeIdx)
        ensures
            r == 0,
    {
        0
    }

    /// The node at index `i`.
    pub fn get_node(&self, i: NodeIdx) -> (r: &FuncNode)
        requires
            i < self@.nodes.len(),
        ensures
            r@ == self@.nodes[i as int],
    {
        &self.nodes[i]
    }

    /// The number of nodes in the arena.
    pub fn node_count(&self) -> (r: usize)
        ensures
            r == self@.nodes.len(),
    {
        self.nodes.len()
    }

    fn parse_regular_br_guard(line: &str) -> (r: Result<(ValueHit, IntraAction), GuardParseError>)
        ensures
            match r {
                Ok((v, a)) => reg_br_guard_spec(line@) == ParseOutcome::Parsed((v@, a@)),
                Err(e) => match e {
                    GuardParseError::PrefixError { .. } => reg_br_guard_spec(line@) is NoPrefix,
                    GuardParseError::ParseError { .. } => reg_br_guard_spec(line@) is Malformed,
                    GuardParseError::SkipError { .. } => false,
                },
            },
    {
        let prefix = match crate::action::get_prefix(line) {
            Ok(p) => p,
            Err(e) => {
                return Err(e);
            },
        };
        if !str_eq(prefix, "Br Guard:") {
            return Err(
                GuardParseError::as_prefix_err(
                    String::from_str("line does not match the plain branch-guard prefix"),
                ),
            );
        }
        let n: usize = line.unicode_len();
        let plen: usize = prefix.unicode_len();
        proof {
            crate::strutil::lemma_first_index_of(line@, ':');
        }
        let line_cont = trim(line.substring_char(plen, n));
        proof {
            assert(line@.subrange(plen as int, n as int) =~= line@.skip(plen as int));
        }
        let m: usize = line_cont.unicode_len();
        let idx = match find_space_idx(line_cont) {
            Some(i) => i,
            None => {
                return Err(
                    GuardParseError::as_parse_err(
                        String::from_str("branch guard line has no fields after the value"),
                    ),
                );
            },
        };
        proof {
            crate::strutil::lemma_first_space_index(line_cont@);
        }
        let value_hit_str = line_cont.substring_char(0, idx);
        let intra_act_str = trim(line_cont.substring_char(idx, m));
        proof {
            assert(value_hit_str@ =~= line_cont@.take(idx as int));
            assert(line_cont@.subrange(idx as int, m as int) =~= line_cont@.skip(idx as int));
        }
        let value_hit = match ValueHit::from_str(value_hit_str) {
            Ok(v) => v,
            Err(e) => {
                return Err(e);
            },
        };
        let intra_act = match IntraAction::from_slice(intra_act_str) {
            Ok(a) => a,
            Err(e) => {
                return Err(e);
            },
        };
        Ok((value_hit, intra_act))
    }

    /// Append `act` to the node under the cursor.
    fn add_act(&mut self, act: ExecAction)
        requires
            old(self)@.cur < old(self)@.nodes.len(),
        ensures
            final(self)@ == append_act(old(self)@, act@),
    {
        let cur = self.cur_node_ptr;
        let node = &mut self.nodes[cur];
        node.push(act);
        proof {
            assert(self@.nodes =~= append_act(old(self)@, act@).nodes);
        }
    }

    /// Classify `line` into a function action.  An `enter` line allocates
    /// the child node in the arena; the returned `Call` action refers to
    /// it.  The cursor does not move.
    fn create_func_act(&mut self, line: &str) -> (r: Result<FuncAction, GuardParseError>)
        requires
            old(self)@.cur < old(self)@.nodes.len(),
        ensures
            match r {
                Ok(act) => {
                    if "enter "@.is_prefix_of(line@) {
                        let name = func_name_spec(line@, "enter "@.len() as int);
                        &&& act@ == (FuncActModel {
                            typ: FuncActionType::Call {
                                child_ptr: old(self)@.nodes.len() as usize,
                            },
                            name,
                        })
                        &&& final(self)@.nodes == old(self)@.nodes.push(
                            NodeModel {
                                kind: NodeKind::Regular {
                                    name,
                                    parent: old(self)@.cur,
                                    act_index: old(self)@.nodes[old(self)@.cur].acts.len() as int,
                                },
                                acts: Seq::empty(),
                            },
                        )
                        &&& final(self)@.cur == old(self)@.cur
                    } else {
                        &&& "return from "@.is_prefix_of(line@)
                        &&& act@ == (FuncActModel {
                            typ: FuncActionType::Return,
                            name: func_name_spec(line@, "return from "@.len() as int),
                        })
                        &&& final(self)@ == old(self)@
                    }
                },
                Err(_) => !"enter "@.is_prefix_of(line@) && !"return from "@.is_prefix_of(line@)
                    && final(self)@ == old(self)@,
            },
    {
        if !FuncActionType::is_call_guard(line) && !FuncActionType::is_return_guard(line) {
            return Err(
                GuardParseError::as_parse_err(
                    String::from_str("line does not match a function action"),
                ),
            );
        }
        let func_name = match FuncActionType::get_func_name(line) {
            Ok(n) => n,
            Err(e) => {
                return Err(e);
            },
        };
        let name_string = String::from_str(func_name);
        if FuncActionType::is_return_guard(line) && !FuncActionType::is_call_guard(line) {
            return Ok(FuncAction::new(FuncActionType::Return, name_string));
        }
        let cur = self.cur_node_ptr;
        let act_index = self.nodes[cur].iter_acts().len();
        let child = FuncNode::regular_node(name_string.clone(), cur, act_index);
        let child_ptr = child.get_node_ptr(self);
        let act_type = FuncActionType::Call { child_ptr };
        proof {
            assert(self@.nodes =~= old(self)@.nodes.push(
                NodeModel {
                    kind: NodeKind::Regular {
                        name: name_string@,
                        parent: old(self)@.cur,
                        act_index: old(self)@.nodes[old(self)@.cur].acts.len() as int,
                    },
                    acts: Seq::empty(),
                },
            ));
        }
        Ok(FuncAction::new(act_type, name_string))
    }

    /// Classify one line.  On success: an optional value-hit signal and
    /// an optional action, as `classify_line` says; an `enter` line has
    /// already allocated its child node.  On failure the line is fatal
    /// and the tree is unchanged.
    #[verifier::rlimit(100)]
    #[verifier::spinoff_prover]
    fn parse_guard(&mut self, line: &str) -> (r: Result<
        (Option<ValueHit>, Option<ExecAction>),
        GuardParseError,
    >)
        requires
            old(self)@.cur < old(self)@.nodes.len(),
        ensures
            match r {
                Ok((vh, act)) => match classify_line(line@) {
                    LineClass::ValueHit(v) => {
                        &&& vh matches Some(h) && h@ == v
                        &&& act is None
                        &&& final(self)@ == old(self)@
                    },
                    LineClass::Jump(j) => {
                        &&& vh is None
                        &&& act matches Some(a) && a@ == ActModel::Intra(j)
                        &&& final(self)@ == old(self)@
                    },
                    LineClass::Loop(l) => {
                        &&& vh is None
                        &&& act matches Some(a) && a@ == ActModel::Loop(l)
                        &&& final(self)@ == old(self)@
                    },
                    LineClass::ValueJump(v, j) => {
                        &&& vh matches Some(h) && h@ == v
                        &&& act matches Some(a) && a@ == ActModel::Intra(j)
                        &&& final(self)@ == old(self)@
                    },
                    LineClass::Enter(name) => {
                        &&& vh is None
                        &&& act matches Some(a) && a@ == ActModel::Func(
                            FuncActModel {
                                typ: FuncActionType::Call {
                                    child_ptr: old(self)@.nodes.len() as usize,
                                },
                                name,
                            },
                        )
                        &&& final(self)@.nodes == old(self)@.nodes.push(
                            NodeModel {
                                kind: NodeKind::Regular {
                                    name,
                                    parent: old(self)@.cur,
                                    act_index: old(self)@.nodes[old(self)@.cur].acts.len() as int,
                                },
                                acts: Seq::empty(),
                            },
                        )
                        &&& final(self)@.cur == old(self)@.cur
                    },
                    LineClass::Ret(name) => {
                        &&& vh is None
                        &&& act matches Some(a) && a@ == ActModel::Func(
                            FuncActModel { typ: FuncActionType::Return, name },
                        )
                        &&& final(self)@ == old(self)@
                    },
                    LineClass::Fatal => false,
                },
                Err(_) => classify_line(line@) is Fatal && final(self)@ == old(self)@,
            },
    {
        match ValueHit::parse_value_guard(line) {
            Ok(value_hit) => {
                return Ok((Some(value_hit), None));
            },
            Err(e) => {
                if !e.is_prefix_err() {
                    return Err(e);
                }
            },
        }
        match IntraAction::parse_simple_guard(line) {
            Ok(intra_act) => {
                return Ok((None, Some(ExecAction::Intra(intra_act))));
            },
            Err(e) => {
                if !e.is_prefix_err() {
                    return Err(e);
                }
            },
        }
        match LoopAction::parse_loop_guard(line) {
            Ok(loop_act) => {
                return Ok((None, Some(ExecAction::Loop(loop_act))));
            },
            Err(e) => {
                if !e.is_prefix_err() {
                    return Err(e);
                }
            },
        }
        match Self::parse_regular_br_guard(line) {
            Ok((value_hit, intra_act)) => {
                return Ok((Some(value_hit), Some(ExecAction::Intra(intra_act))));
            },
            Err(e) => {
                if !e.is_prefix_err() {
                    return Err(e);
                }
            },
        }
        let func_act = match self.create_func_act(line) {
            Ok(a) => a,
            Err(e) => {
                return Err(e);
            },
        };
        Ok((None, Some(ExecAction::Func(func_act))))
    }

    /// Replay one line against the cursor: classify it, append its
    /// action, move the cursor on a call or return, and count a value
    /// hit against the constraint.  A return with no open call is fatal;
    /// the appended `Return` stays, the cursor does not move.
    ///
    /// As in the second-generation replay, a `return from` line's name
    /// is recorded but not compared with the node being closed; the
    /// chain replay in `inter` does verify it.  The divergence is kept
    /// visible here rather than silently resolved either way.
    #[verifier::rlimit(100)]
    #[verifier::spinoff_prover]
    pub fn read_line(
        &mut self,
        line: &str,
        cons_op: Option<&Constraint>,
        hit_cnt: &mut usize,
    ) -> (r: Result<(), GuardParseError>)
        requires
            tree_wf(old(self)@),
            *old(hit_cnt) < usize::MAX,
        ensures
            match r {
                Ok(_) => line_step(old(self)@, line@) == Ok::<TreeModel, TreeModel>(final(self)@)
                    && *final(hit_cnt) == *old(hit_cnt) + hit_delta(cons_model_of(cons_op), line@),
                Err(_) => line_step(old(self)@, line@) == Err::<TreeModel, TreeModel>(final(self)@)
                    && *final(hit_cnt) == *old(hit_cnt),
            },
            tree_wf(final(self)@),
    {
        proof {
            lemma_step_preserves_wf(old(self)@, line@);
        }
        let ghost tm0 = old(self)@;
        let (value_hit_op, act_op) = match self.parse_guard(line) {
            Ok(p) => p,
            Err(e) => {
                return Err(e);
            },
        };
        if let Some(act) = act_op {
            let is_call = act.is_func_call();
            let mut is_ret = false;
            let mut child_ptr_op: Option<NodeIdx> = None;
            if let Some(func_act) = act.get_func_call_act() {
                is_ret = func_act.is_return();
                child_ptr_op = func_act.get_child_ptr();
            }
            let ghost am = act@;
            self.add_act(act);
            if is_call {
                if let Some(child_ptr) = child_ptr_op {
                    self.cur_node_ptr = child_ptr;
                    let n_now: usize = self.nodes.len();
                    proof {
                        assert(self@.nodes.len() == n_now as int);
                        assert(tm0.nodes.len() == n_now - 1);
                        if let LineClass::Enter(nm) = classify_line(line@) {
                            assert(self@.nodes =~= enter_node(tm0, nm).nodes);
                            assert(self@ == enter_node(tm0, nm));
                        }
                    }
                }
            } else if is_ret {
                proof {
                    assert(classify_line(line@) is Ret);
                    assert(self@.cur == tm0.cur);
                    assert(self@.nodes.len() == tm0.nodes.len());
                    assert(self@.nodes[tm0.cur].kind == tm0.nodes[tm0.cur].kind);
                }
                let parent_op = self.nodes[self.cur_node_ptr].get_parent_ptr();
                match parent_op {
                    Some(parent_ptr) => {
                        self.cur_node_ptr = parent_ptr;
                        proof {
                            if let LineClass::Ret(nm) = classify_line(line@) {
                                assert(self@ == ret_node(tm0, nm));
                            }
                        }
                    },
                    None => {
                        return Err(
                            GuardParseError::as_parse_err(
                                String::from_str("current node has no parent, cannot return"),
                            ),
                        );
                    },
                }
            } else {
                proof {
                    assert(self@ == append_act(tm0, am));
                }
            }
        }
        proof {
            assert(line_step(tm0, line@) == Ok::<TreeModel, TreeModel>(self@));
        }
        if let Some(val_hit) = value_hit_op {
            if let Some(cons) = cons_op {
                if cons.is_hit(&val_hit) {
                    *hit_cnt = *hit_cnt + 1;
                    proof {
                        assert(hit_delta(cons_model_of(cons_op), line@) == 1);
                    }
                } else {
                    proof {
                        assert(hit_delta(cons_model_of(cons_op), line@) == 0);
                    }
                }
            } else {
                proof {
                    assert(hit_delta(cons_model_of(cons_op), line@) == 0);
                }
            }
        } else {
            proof {
                assert(hit_delta(cons_model_of(cons_op), line@) == 0);
            }
        }
        Ok(())
    }
}

impl ExecTree {
    /// Build one tree by replaying `lines` in order: the cursor machine
    /// consumes every line, counts value hits against `cons_op`, and
    /// stops early once the hit count reaches `trunc_cnt`.  A fatal line
    /// or a return past the root aborts with an error.
    pub fn from_guard_lines(
        lines: &Vec<String>,
        cons_op: Option<&Constraint>,
        trunc_cnt: usize,
    ) -> (r: Result<ExecTree, GuardParseError>)
        ensures
            match r {
                Ok(t) => replay(
                    init_tree_model(),
                    0,
                    lines@.map_values(|s: String| s@),
                    cons_model_of(cons_op),
                    trunc_cnt as nat,
                ) matches Ok((tm, _)) && t@ == tm && tree_wf(t@),
                Err(_) => replay(
                    init_tree_model(),
                    0,
                    lines@.map_values(|s: String| s@),
                    cons_model_of(cons_op),
                    trunc_cnt as nat,
                ) is Err,
            },
    {
        let ghost full = lines@.map_values(|s: String| s@);
        let ghost cons = cons_model_of(cons_op);
        let mut exec_tree = ExecTree::new();
        let mut hit_cnt: usize = 0;
        let n: usize = lines.len();
        let mut idx: usize = 0;
        proof {
            assert(full.skip(0) =~= full);
            assert(tree_wf(exec_tree@));
        }
        while idx < n
            invariant
                n == lines@.len(),
                n == full.len(),
                full == lines@.map_values(|s: String| s@),
                cons == cons_model_of(cons_op),
                idx <= n,
                tree_wf(exec_tree@),
                hit_cnt == 0 || hit_cnt < trunc_cnt,
                replay(init_tree_model(), 0, full, cons, trunc_cnt as nat) == replay(
                    exec_tree@,
                    hit_cnt as nat,
                    full.skip(idx as int),
                    cons,
                    trunc_cnt as nat,
                ),
            decreases n - idx,
        {
            let ghost pre = exec_tree@;
            let ghost pre_hits = hit_cnt as nat;
            let line = &lines[idx];
            proof {
                assert(full[idx as int] == line@);
                assert(full.skip(idx as int).len() > 0);
                assert(full.skip(idx as int)[0] == full[idx as int]);
                assert(full.skip(idx as int).drop_first() =~= full.skip(idx as int + 1));
            }
            match exec_tree.read_line(line.as_str(), cons_op, &mut hit_cnt) {
                Ok(_) => {},
                Err(e) => {
                    return Err(e);
                },
            }
            idx = idx + 1;
            if hit_cnt >= trunc_cnt {
                return Ok(exec_tree);
            }
        }
        proof {
            assert(full.skip(n as int).len() == 0);
        }
        Ok(exec_tree)
    }
}

/// Well-formedness of a tree under construction: the root is the `Init`
/// node, every other node names a parent earlier in the arena, and the
/// cursor is in range.
pub open spec fn tree_wf(tm: TreeModel) -> bool {
    &&& tm.nodes.len() >= 1
    &&& tm.nodes[0].kind is Init
    &&& 0 <= tm.cur < tm.nodes.len()
    &&& forall|i: int|
        1 <= i < tm.nodes.len() ==> ((#[trigger] tm.nodes[i].kind) matches NodeKind::Regular {
            parent,
            ..
        } && 0 <= parent < i)
}

/// A successful replay step keeps the tree well-formed.
pub proof fn lemma_step_preserves_wf(tm: TreeModel, line: Seq<char>)
    requires
        tree_wf(tm),
    ensures
        line_step(tm, line) matches Ok(t2) ==> tree_wf(t2),
{
}

} // verus!
