//! Second-generation guard-line actions: the full grammar, adding
//! unwinds, invocation-location prefixes on `enter` lines, recursion
//! locks, thread creation, and loop-exit locations.

use vstd::prelude::*;

use crate::error::{GuardParseError, ParseOutcome};
use crate::loc::{parse_loc_spec, LocModel, SrcLoc};
use crate::strutil::{
    decimal_of, find_space_idx, first_index_of, first_space_index, str_eq, str_starts_with, trim,
    trimmed, usize_to_decimal,
};
use crate::tree::NodeIdx;

verus! {

/// A thread identifier as recorded in the trace.
pub type Tid = usize;

/// Mathematical model of a function action's kind.
pub enum FuncTypeModel {
    Call { child: int, invoc: Option<LocModel> },
    Return,
    Unwind,
}

/// Mathematical model of a function action.
pub struct FuncActModel {
    pub typ: FuncTypeModel,
    pub name: Seq<char>,
}

pub enum FuncActionType {
    Call { child_ptr: NodeIdx, invoc_loc: Option<SrcLoc> },
    Return,
    Unwind,
}

impl View for FuncActionType {
    type V = FuncTypeModel;

    open spec fn view(&self) -> FuncTypeModel {
        match self {
            FuncActionType::Call { child_ptr, invoc_loc } => FuncTypeModel::Call {
                child: *child_ptr as int,
                invoc: match invoc_loc {
                    Some(l) => Some(l@),
                    None => None,
                },
            },
            FuncActionType::Return => FuncTypeModel::Return,
            FuncActionType::Unwind => FuncTypeModel::Unwind,
        }
    }
}

impl FuncActionType {
    pub fn is_return_guard(line: &str) -> (r: bool)
        ensures
            r == "return from "@.is_prefix_of(line@),
    {
        str_starts_with(line, "return from ")
    }

    fn get_func_name_from_line<'a>(line: &'a str, prefix: &'a str) -> (r: Result<
        &'a str,
        GuardParseError,
    >)
        requires
            forall|k: int| 0 <= k < prefix@.len() ==> prefix@[k] != '(',
        ensures
            match r {
                Ok(name) => prefix@.is_prefix_of(line@) && name@ == crate::action::func_name_spec(
                    line@,
                    prefix@.len() as int,
                ),
                Err(e) => !prefix@.is_prefix_of(line@) && e is ParseError,
            },
    {
        if !str_starts_with(line, prefix) {
            return Err(
                GuardParseError::as_parse_err(
                    String::from_str("line does not start with the expected prefix"),
                ),
            );
        }
        let start: usize = prefix.unicode_len();
        let n: usize = line.unicode_len();
        let end: usize = match crate::strutil::find_char_idx(line, '(') {
            Some(e) => e,
            None => n,
        };
        proof {
            crate::strutil::lemma_first_index_of(line@, '(');
            match first_index_of(line@, '(') {
                Some(e) => {
                    if e < start {
                        assert(line@[e] == prefix@[e]);
                    }
                },
                None => {},
            }
        }
        let name = line.substring_char(start, end);
        proof {
            if first_index_of(line@, '(') is None {
                assert(name@ =~= line@.skip(start as int));
            }
        }
        Ok(name)
    }

    /// The function name of a `return from` line.
    pub fn get_func_name_from_return_guard(line: &str) -> (r: Result<&str, GuardParseError>)
        ensures
            match r {
                Ok(name) => "return from "@.is_prefix_of(line@) && name@
                    == crate::action::func_name_spec(line@, "return from "@.len() as int),
                Err(_) => !"return from "@.is_prefix_of(line@),
            },
    {
        proof {
            reveal_strlit("return from ");
        }
        Self::get_func_name_from_line(line, "return from ")
    }

    /// The function name of an `unwind from` line.
    pub fn get_func_name_from_unwind_guard(line: &str) -> (r: Result<&str, GuardParseError>)
        ensures
            match r {
                Ok(name) => "unwind from "@.is_prefix_of(line@) && name@
                    == crate::action::func_name_spec(line@, "unwind from "@.len() as int),
                Err(_) => !"unwind from "@.is_prefix_of(line@),
            },
    {
        proof {
            reveal_strlit("unwind from ");
        }
        Self::get_func_name_from_line(line, "unwind from ")
    }
}

pub struct FuncAction {
    act_type: FuncActionType,
    func_name: String,
}

impl View for FuncAction {
    type V = FuncActModel;

    closed spec fn view(&self) -> FuncActModel {
        FuncActModel { typ: self.act_type@, name: self.func_name@ }
    }
}

/// The optional `Function Invocation:<loc> ` prefix of an `enter` line:
/// the parsed location and the number of characters it consumed.
pub open spec fn invoc_part_spec(line: Seq<char>) -> Option<(LocModel, int)> {
    let plen = "Function Invocation:"@.len() as int;
    if !"Function Invocation:"@.is_prefix_of(line) || line.len() < plen + 1 {
        None
    } else {
        let part = line.skip(plen + 1);
        match first_space_index(part) {
            None => None,
            Some(pos) => match parse_loc_spec(part.take(pos)) {
                None => None,
                Some(loc) => Some((loc, pos + 1 + plen + 1)),
            },
        }
    }
}

/// What `parse_call_guard` yields: the parsed pair, or a skip signal
/// telling the caller to reclassify the line after `skip` characters.
pub enum CallParse {
    Parsed(Option<LocModel>, Seq<char>),
    Skip(int),
}

/// One call-guard line: an optional invocation-location prefix, then an
/// `enter <name>(` part.  When the name part does not follow, the
/// characters consumed by the prefix become a skip signal.
pub open spec fn call_guard_spec(line: Seq<char>) -> CallParse {
    let consumed = match invoc_part_spec(line) {
        Some((_, k)) => k,
        None => 0,
    };
    let entry = line.skip(consumed);
    if "enter "@.is_prefix_of(entry) {
        CallParse::Parsed(
            match invoc_part_spec(line) {
                Some((l, _)) => Some(l),
                None => None,
            },
            crate::action::func_name_spec(entry, "enter "@.len() as int),
        )
    } else {
        CallParse::Skip(consumed)
    }
}

impl FuncAction {
    pub fn new(act_type: FuncActionType, func_name: String) -> (r: Self)
        ensures
            r@ == (FuncActModel { typ: act_type@, name: func_name@ }),
    {
        Self { act_type, func_name }
    }

    pub fn get_name(&self) -> (r: &str)
        ensures
            r@ == self@.name,
    {
        self.func_name.as_str()
    }

    pub fn is_call(&self) -> (r: bool)
        ensures
            r == (self@.typ is Call),
    {
        matches!(self.act_type, FuncActionType::Call { .. })
    }

    pub fn is_return(&self) -> (r: bool)
        ensures
            r == (self@.typ is Return),
    {
        matches!(self.act_type, FuncActionType::Return)
    }

    pub fn get_child_ptr(&self) -> (r: Option<NodeIdx>)
        ensures
            match r {
                Some(c) => self@.typ matches FuncTypeModel::Call { child, .. } && c == child,
                None => !(self@.typ is Call),
            },
    {
        if let FuncActionType::Call { child_ptr, invoc_loc: _ } = &self.act_type {
            Some(*child_ptr)
        } else {
            None
        }
    }

    /// A render label carrying the action kind and a caller-chosen
    /// counter value.
    pub fn get_dot_id(&self, cnt: usize) -> (r: String)
        ensures
            r@ == match self@.typ {
                FuncTypeModel::Call { .. } => "Function_Call_Action_"@ + decimal_of(cnt as nat),
                FuncTypeModel::Return => "Function_Return_Action_"@ + decimal_of(cnt as nat),
                FuncTypeModel::Unwind => "Function_Unwind_Action_"@ + decimal_of(cnt as nat),
            },
    {
        let num = usize_to_decimal(cnt);
        match &self.act_type {
            FuncActionType::Call { .. } => String::from_str("Function_Call_Action_").concat(
                num.as_str(),
            ),
            FuncActionType::Return => String::from_str("Function_Return_Action_").concat(
                num.as_str(),
            ),
            FuncActionType::Unwind => String::from_str("Function_Unwind_Action_").concat(
                num.as_str(),
            ),
        }
    }

    pub fn parse_return_guard(line: &str) -> (r: Result<Self, GuardParseError>)
        ensures
            match r {
                Ok(a) => "return from "@.is_prefix_of(line@) && a@ == (FuncActModel {
                    typ: FuncTypeModel::Return,
                    name: crate::action::func_name_spec(line@, "return from "@.len() as int),
                }),
                Err(_) => !"return from "@.is_prefix_of(line@),
            },
    {
        let func_name = match FuncActionType::get_func_name_from_return_guard(line) {
            Ok(n) => n,
            Err(e) => {
                return Err(e);
            },
        };
        Ok(Self { act_type: FuncActionType::Return, func_name: String::from_str(func_name) })
    }

    pub fn parse_unwind_guard(line: &str) -> (r: Result<Self, GuardParseError>)
        ensures
            match r {
                Ok(a) => "unwind from "@.is_prefix_of(line@) && a@ == (FuncActModel {
                    typ: FuncTypeModel::Unwind,
                    name: crate::action::func_name_spec(line@, "unwind from "@.len() as int),
                }),
                Err(_) => !"unwind from "@.is_prefix_of(line@),
            },
    {
        let func_name = match FuncActionType::get_func_name_from_unwind_guard(line) {
            Ok(n) => n,
            Err(e) => {
                return Err(e);
            },
        };
        Ok(Self { act_type: FuncActionType::Unwind, func_name: String::from_str(func_name) })
    }

    /// The invocation-location prefix of `line`: the location and how
    /// many characters it consumed, including the space after it.
    fn parse_invoc_part(line: &str) -> (r: Result<(SrcLoc, usize), GuardParseError>)
        ensures
            match r {
                Ok((loc, k)) => invoc_part_spec(line@) == Some((loc@, k as int)),
                Err(_) => invoc_part_spec(line@) is None,
            },
    {
        if !str_starts_with(line, "Function Invocation:") {
            return Err(
                GuardParseError::as_parse_err(
                    String::from_str("line does not start with the invocation prefix"),
                ),
            );
        }
        let plen: usize = "Function Invocation:".unicode_len();
        let n: usize = line.unicode_len();
        if n <= plen {
            return Err(
                GuardParseError::as_parse_err(
                    String::from_str("nothing follows the invocation prefix"),
                ),
            );
        }
        let invoc_part = line.substring_char(plen + 1, n);
        proof {
            assert(invoc_part@ =~= line@.skip(plen + 1));
        }
        let loc_end_pos = match find_space_idx(invoc_part) {
            Some(p) => p,
            None => {
                return Err(
                    GuardParseError::as_parse_err(
                        String::from_str("no whitespace in the invocation part"),
                    ),
                );
            },
        };
        proof {
            crate::strutil::lemma_first_space_index(invoc_part@);
        }
        let loc_str = invoc_part.substring_char(0, loc_end_pos);
        proof {
            assert(loc_str@ =~= invoc_part@.take(loc_end_pos as int));
        }
        let loc = match SrcLoc::from_str(loc_str) {
            Ok(l) => l,
            Err(e) => {
                return Err(e);
            },
        };
        Ok((loc, loc_end_pos + 1 + plen + 1))
    }

    /// A call-guard line: the optional invocation location and the
    /// function name, or a skip signal naming how many characters the
    /// invocation prefix consumed.
    pub fn parse_call_guard(line: &str) -> (r: Result<(Option<SrcLoc>, String), GuardParseError>)
        ensures
            match r {
                Ok((loc_op, name)) => call_guard_spec(line@) == CallParse::Parsed(
                    match loc_op {
                        Some(l) => Some(l@),
                        None => None,
                    },
                    name@,
                ),
                Err(e) => e matches GuardParseError::SkipError { skip_num, .. }
                    && call_guard_spec(line@) == CallParse::Skip(skip_num as int),
            },
    {
        let (invoc_loc_op, pref_len): (Option<SrcLoc>, usize) = match Self::parse_invoc_part(
            line,
        ) {
            Ok((loc, len)) => (Some(loc), len),
            Err(_) => (None, 0),
        };
        let n: usize = line.unicode_len();
        proof {
            match invoc_part_spec(line@) {
                Some((l, k)) => {
                    assert(k <= line@.len()) by {
                        crate::strutil::lemma_first_space_index(
                            line@.skip("Function Invocation:"@.len() as int + 1),
                        );
                    }
                },
                None => {},
            }
        }
        let entry_part = line.substring_char(pref_len, n);
        proof {
            assert(entry_part@ =~= line@.skip(pref_len as int));
        }
        let func_name = match crate::action::FuncActionType::get_func_name(entry_part) {
            Ok(name) => name,
            Err(_) => {
                return Err(
                    GuardParseError::as_skip_err(
                        String::from_str("no function entry after the invocation prefix"),
                        pref_len,
                    ),
                );
            },
        };
        if !str_starts_with(entry_part, "enter ") {
            return Err(
                GuardParseError::as_skip_err(
                    String::from_str("no function entry after the invocation prefix"),
                    pref_len,
                ),
            );
        }
        proof {
            reveal_strlit("enter ");
            reveal_strlit("return from ");
        }
        Ok((invoc_loc_op, String::from_str(func_name)))
    }
}

#[derive(Clone, Copy)]
pub enum JumpActionType {
    BrGuard,
    SwitchGuard,
    IndirectGuard,
}

/// The branch kind named by a guard prefix, if any.
pub open spec fn jump_type_spec(prefix: Seq<char>) -> Option<JumpActionType> {
    if prefix == "Merge Br Guard:"@ {
        Some(JumpActionType::BrGuard)
    } else if prefix == "Switch Guard:"@ {
        Some(JumpActionType::SwitchGuard)
    } else if prefix == "IndirectBr Guard:"@ {
        Some(JumpActionType::IndirectGuard)
    } else {
        None
    }
}

impl JumpActionType {
    pub fn from_prefix(prefix: &str) -> (r: Option<Self>)
        ensures
            r == jump_type_spec(prefix@),
    {
        if str_eq(prefix, "Merge Br Guard:") {
            Some(JumpActionType::BrGuard)
        } else if str_eq(prefix, "Switch Guard:") {
            Some(JumpActionType::SwitchGuard)
        } else if str_eq(prefix, "IndirectBr Guard:") {
            Some(JumpActionType::IndirectGuard)
        } else {
            None
        }
    }
}

/// Mathematical model of a branch action.
pub struct JumpModel {
    pub kind: JumpActionType,
    pub cond: LocModel,
    pub taken: bool,
    pub dest: LocModel,
}

pub struct JumpAction {
    intra_type: JumpActionType,
    cond_loc: SrcLoc,
    cond_val: bool,
    dest_loc: SrcLoc,
}

impl View for JumpAction {
    type V = JumpModel;

    closed spec fn view(&self) -> JumpModel {
        JumpModel {
            kind: self.intra_type,
            cond: self.cond_loc@,
            taken: self.cond_val,
            dest: self.dest_loc@,
        }
    }
}

/// The `<loc> <0|1> <loc>` field grammar, with a known branch kind.
/// Tokens past the third are ignored.
pub open spec fn jump_fields_spec(kind: JumpActionType, s: Seq<char>) -> Option<JumpModel> {
    let tok1 = crate::strutil::head_token(s);
    let rest1 = crate::strutil::rest_after_token(s);
    let tok2 = crate::strutil::head_token(rest1);
    let rest2 = crate::strutil::rest_after_token(rest1);
    let tok3 = crate::strutil::head_token(rest2);
    if tok1.len() == 0 || tok2.len() == 0 || tok3.len() == 0 {
        None
    } else {
        match (parse_loc_spec(tok1), parse_loc_spec(tok3)) {
            (Some(cond), Some(dest)) => if tok2 == "1"@ {
                Some(JumpModel { kind, cond, taken: true, dest })
            } else if tok2 == "0"@ {
                Some(JumpModel { kind, cond, taken: false, dest })
            } else {
                None
            },
            _ => None,
        }
    }
}

/// The field grammar standing alone: exactly three tokens.
pub open spec fn jump_slice_spec(s: Seq<char>) -> Option<JumpModel> {
    let rest1 = crate::strutil::rest_after_token(s);
    let rest2 = crate::strutil::rest_after_token(rest1);
    let rest3 = crate::strutil::rest_after_token(rest2);
    if crate::strutil::head_token(rest3).len() > 0 {
        None
    } else {
        jump_fields_spec(JumpActionType::BrGuard, s)
    }
}

/// One simple branch-guard line: a kind prefix, then the field grammar.
pub open spec fn jump_guard_spec(line: Seq<char>) -> ParseOutcome<JumpModel> {
    match first_index_of(line, ':') {
        None => ParseOutcome::NoPrefix,
        Some(ci) => {
            let prefix = line.take(ci + 1);
            match jump_type_spec(prefix) {
                None => ParseOutcome::NoPrefix,
                Some(kind) => match jump_fields_spec(kind, trimmed(line.skip(ci + 1))) {
                    Some(m) => ParseOutcome::Parsed(m),
                    None => ParseOutcome::Malformed,
                },
            }
        },
    }
}

/// Read the `<loc> <0|1> <loc>` fields from `s`, as kind `kind`.
fn parse_jump_fields(kind: JumpActionType, s: &str) -> (r: Result<JumpAction, GuardParseError>)
    ensures
        match r {
            Ok(a) => jump_fields_spec(kind, s@) == Some(a@),
            Err(e) => jump_fields_spec(kind, s@) is None && e is ParseError,
        },
{
    let (tok1, rest1) = crate::strutil::split_token(s);
    let (tok2, rest2) = crate::strutil::split_token(rest1);
    let (tok3, _rest3) = crate::strutil::split_token(rest2);
    if tok1.unicode_len() == 0 || tok2.unicode_len() == 0 || tok3.unicode_len() == 0 {
        return Err(GuardParseError::as_parse_err(String::from_str("missing branch-guard field")));
    }
    let cond_loc = match SrcLoc::from_str(tok1) {
        Ok(l) => l,
        Err(e) => {
            return Err(e);
        },
    };
    let dest_loc = match SrcLoc::from_str(tok3) {
        Ok(l) => l,
        Err(e) => {
            return Err(e);
        },
    };
    let cond_val: bool = if str_eq(tok2, "1") {
        true
    } else if str_eq(tok2, "0") {
        false
    } else {
        return Err(GuardParseError::as_parse_err(String::from_str("unexpected condition value")));
    };
    Ok(JumpAction { intra_type: kind, cond_loc, cond_val, dest_loc })
}

impl JumpAction {
    /// A render label carrying the branch kind and a caller-chosen
    /// counter value.
    pub fn get_dot_id(&self, cnt: usize) -> (r: String)
        ensures
            r@ == match self@.kind {
                JumpActionType::BrGuard => "Branch_Guard_Action_"@ + decimal_of(cnt as nat),
                JumpActionType::SwitchGuard => "Switch_Guard_Action_"@ + decimal_of(cnt as nat),
                JumpActionType::IndirectGuard => "Indirect_Branch_Guard_Action_"@ + decimal_of(
                    cnt as nat,
                ),
            },
    {
        let num = usize_to_decimal(cnt);
        match self.intra_type {
            JumpActionType::BrGuard => String::from_str("Branch_Guard_Action_").concat(
                num.as_str(),
            ),
            JumpActionType::SwitchGuard => String::from_str("Switch_Guard_Action_").concat(
                num.as_str(),
            ),
            JumpActionType::IndirectGuard => String::from_str(
                "Indirect_Branch_Guard_Action_",
            ).concat(num.as_str()),
        }
    }

    /// One branch-guard line whose prefix names its kind.
    pub fn parse_simple_guard(line: &str) -> (r: Result<Self, GuardParseError>)
        ensures
            match r {
                Ok(a) => jump_guard_spec(line@) == ParseOutcome::Parsed(a@),
                Err(e) => match e {
                    GuardParseError::PrefixError { .. } => jump_guard_spec(line@) is NoPrefix,
                    GuardParseError::ParseError { .. } => jump_guard_spec(line@) is Malformed,
                    GuardParseError::SkipError { .. } => false,
                },
            },
    {
        let prefix = match crate::action::get_prefix(line) {
            Ok(p) => p,
            Err(e) => {
                return Err(e);
            },
        };
        let kind = match JumpActionType::from_prefix(prefix) {
            Some(k) => k,
            None => {
                return Err(
                    GuardParseError::as_prefix_err(
                        String::from_str("unknown branch-guard prefix"),
                    ),
                );
            },
        };
        let n: usize = line.unicode_len();
        let plen: usize = prefix.unicode_len();
        proof {
            crate::strutil::lemma_first_index_of(line@, ':');
        }
        let line_cont = trim(line.substring_char(plen, n));
        proof {
            assert(line@.subrange(plen as int, n as int) =~= line@.skip(plen as int));
        }
        parse_jump_fields(kind, line_cont)
    }

    /// The field grammar alone, with nothing after its three tokens, as a
    /// plain branch guard; used by the combined value-and-branch rule.
    pub fn from_slice(slice: &str) -> (r: Result<Self, GuardParseError>)
        ensures
            match r {
                Ok(a) => jump_slice_spec(slice@) == Some(a@),
                Err(e) => jump_slice_spec(slice@) is None && e is ParseError,
            },
    {
        let (_tok1, rest1) = crate::strutil::split_token(slice);
        let (_tok2, rest2) = crate::strutil::split_token(rest1);
        let (_tok3, rest3) = crate::strutil::split_token(rest2);
        let (tok4, _rest4) = crate::strutil::split_token(rest3);
        if tok4.unicode_len() != 0 {
            return Err(
                GuardParseError::as_parse_err(
                    String::from_str("expected exactly three branch-guard fields"),
                ),
            );
        }
        parse_jump_fields(JumpActionType::BrGuard, slice)
    }
}

/// Mathematical model of a thread-creation action.
pub struct ThreadModel {
    pub loc: LocModel,
    pub tid: nat,
}

pub struct ThreadAction {
    loc: SrcLoc,
    tid: Tid,
}

impl View for ThreadAction {
    type V = ThreadModel;

    closed spec fn view(&self) -> ThreadModel {
        ThreadModel { loc: self.loc@, tid: self.tid as nat }
    }
}

/// One `Thread Creation:<loc> <tid>` line: exactly two fields.
pub open spec fn thread_guard_spec(line: Seq<char>) -> ParseOutcome<ThreadModel> {
    if !"Thread Creation:"@.is_prefix_of(line) {
        ParseOutcome::NoPrefix
    } else {
        let content = trimmed(line.skip("Thread Creation:"@.len() as int));
        let tok1 = crate::strutil::head_token(content);
        let rest1 = crate::strutil::rest_after_token(content);
        let tok2 = crate::strutil::head_token(rest1);
        let rest2 = crate::strutil::rest_after_token(rest1);
        let tok3 = crate::strutil::head_token(rest2);
        if tok1.len() == 0 || tok2.len() == 0 || tok3.len() > 0 {
            ParseOutcome::Malformed
        } else {
            match parse_loc_spec(tok1) {
                None => ParseOutcome::Malformed,
                Some(loc) => {
                    if crate::strutil::is_digit_seq(tok2) && crate::strutil::digit_seq_val(tok2)
                        <= usize::MAX {
                        ParseOutcome::Parsed(
                            ThreadModel { loc, tid: crate::strutil::digit_seq_val(tok2) },
                        )
                    } else {
                        ParseOutcome::Malformed
                    }
                },
            }
        }
    }
}

impl ThreadAction {
    pub fn get_thread_id(&self) -> (r: Tid)
        ensures
            r as nat == self@.tid,
    {
        self.tid
    }

    pub fn get_loc(&self) -> (r: &SrcLoc)
        ensures
            r@ == self@.loc,
    {
        &self.loc
    }

    /// One thread-creation line: its location and the new thread's id.
    pub fn parse_thread_guard(line: &str) -> (r: Result<Self, GuardParseError>)
        ensures
            match r {
                Ok(a) => thread_guard_spec(line@) == ParseOutcome::Parsed(a@),
                Err(e) => match e {
                    GuardParseError::PrefixError { .. } => thread_guard_spec(line@) is NoPrefix,
                    GuardParseError::ParseError { .. } => thread_guard_spec(line@) is Malformed,
                    GuardParseError::SkipError { .. } => false,
                },
            },
    {
        if !str_starts_with(line, "Thread Creation:") {
            return Err(
                GuardParseError::as_prefix_err(
                    String::from_str("line does not announce a thread creation"),
                ),
            );
        }
        let n: usize = line.unicode_len();
        let plen: usize = "Thread Creation:".unicode_len();
        let content = trim(line.substring_char(plen, n));
        proof {
            assert(line@.subrange(plen as int, n as int) =~= line@.skip(plen as int));
        }
        let (tok1, rest1) = crate::strutil::split_token(content);
        let (tok2, rest2) = crate::strutil::split_token(rest1);
        let (tok3, _rest3) = crate::strutil::split_token(rest2);
        if tok1.unicode_len() == 0 || tok2.unicode_len() == 0 || tok3.unicode_len() != 0 {
            return Err(
                GuardParseError::as_parse_err(
                    String::from_str("expected exactly two thread-creation fields"),
                ),
            );
        }
        let loc = match SrcLoc::from_str(tok1) {
            Ok(l) => l,
            Err(e) => {
                return Err(e);
            },
        };
        let tid = match crate::strutil::parse_usize(tok2) {
            Some(t) => t,
            None => {
                return Err(
                    GuardParseError::as_parse_err(String::from_str("malformed thread id")),
                );
            },
        };
        Ok(Self { loc, tid })
    }
}

pub enum RecurAction {
    Locked,
    Released,
}

/// One recursion-lock line: one of the two exact literals.
pub open spec fn recur_guard_spec(line: Seq<char>) -> ParseOutcome<bool> {
    if line == "Recur Lock locked"@ {
        ParseOutcome::Parsed(true)
    } else if line == "Recur Lock released"@ {
        ParseOutcome::Parsed(false)
    } else {
        ParseOutcome::NoPrefix
    }
}

impl RecurAction {
    pub fn is_locked(&self) -> (r: bool)
        ensures
            r == (self is Locked),
    {
        matches!(self, RecurAction::Locked)
    }

    pub fn parse_recur_guard(line: &str) -> (r: Result<Self, GuardParseError>)
        ensures
            match r {
                Ok(a) => recur_guard_spec(line@) == ParseOutcome::Parsed(a is Locked),
                Err(e) => recur_guard_spec(line@) is NoPrefix && e is PrefixError,
            },
    {
        if str_eq(line, "Recur Lock locked") {
            Ok(RecurAction::Locked)
        } else if str_eq(line, "Recur Lock released") {
            Ok(RecurAction::Released)
        } else {
            Err(
                GuardParseError::as_prefix_err(
                    String::from_str("line does not match a recursion-lock action"),
                ),
            )
        }
    }
}

/// Mathematical model of a loop action's kind.
pub enum LoopKindModel {
    Hit { count: nat },
    Exceed { count: nat },
    Out { out: LocModel, count: nat },
    NoStart { out: LocModel },
}

/// Mathematical model of a loop action.
pub struct LoopModel {
    pub kind: LoopKindModel,
    pub header: LocModel,
}

#[derive(Clone, Copy)]
enum LoopEntryType {
    Hit,
    Exceed,
}

enum LoopEndType {
    Out { count: usize },
    NoStart,
}

enum LoopActionType {
    LoopEntry { count: usize, entry_type: LoopEntryType },
    LoopEnd { out_loc: SrcLoc, end_type: LoopEndType },
}

pub struct LoopAction {
    la_type: LoopActionType,
    header_loc: SrcLoc,
}

impl View for LoopAction {
    type V = LoopModel;

    closed spec fn view(&self) -> LoopModel {
        LoopModel {
            kind: match &self.la_type {
                LoopActionType::LoopEntry { count, entry_type: LoopEntryType::Hit } =>
                    LoopKindModel::Hit { count: *count as nat },
                LoopActionType::LoopEntry { count, entry_type: LoopEntryType::Exceed } =>
                    LoopKindModel::Exceed { count: *count as nat },
                LoopActionType::LoopEnd { out_loc, end_type: LoopEndType::Out { count } } =>
                    LoopKindModel::Out { out: out_loc@, count: *count as nat },
                LoopActionType::LoopEnd { out_loc, end_type: LoopEndType::NoStart } =>
                    LoopKindModel::NoStart { out: out_loc@ },
            },
            header: self.header_loc@,
        }
    }
}

/// A header location, an exit location, and a loop count.
pub open spec fn header_out_count_spec(s: Seq<char>) -> Option<(LocModel, LocModel, nat)> {
    let t = trimmed(s);
    match first_space_index(t) {
        None => None,
        Some(pos) => {
            match parse_loc_spec(t.take(pos)) {
                None => None,
                Some(header) => {
                    let t2 = trimmed(t.skip(pos));
                    match first_space_index(t2) {
                        None => None,
                        Some(pos2) => match (parse_loc_spec(t2.take(pos2)), crate::action::loop_cnt_spec(
                            t2.skip(pos2),
                        )) {
                            (Some(out), Some(c)) => Some((header, out, c)),
                            _ => None,
                        },
                    }
                },
            }
        },
    }
}

/// A header location and an exit location, with no count; the exit
/// location is the next token, or the rest of the text when no
/// whitespace follows it.
pub open spec fn header_out_spec(s: Seq<char>) -> Option<(LocModel, LocModel)> {
    let t = trimmed(s);
    match first_space_index(t) {
        None => None,
        Some(pos) => {
            match parse_loc_spec(t.take(pos)) {
                None => None,
                Some(header) => {
                    let t2 = trimmed(t.skip(pos));
                    let out_part = match first_space_index(t2) {
                        Some(pos2) => t2.take(pos2),
                        None => t2,
                    };
                    match parse_loc_spec(out_part) {
                        Some(out) => Some((header, out)),
                        None => None,
                    }
                },
            }
        },
    }
}

/// One loop-guard line: one of the four loop prefixes, then its fields.
pub open spec fn loop_guard_spec(line: Seq<char>) -> ParseOutcome<LoopModel> {
    match first_index_of(line, ':') {
        None => ParseOutcome::NoPrefix,
        Some(ci) => {
            let prefix = line.take(ci + 1);
            let rest = line.skip(ci + 1);
            if prefix == "Loop Hit:"@ {
                match crate::action::content_with_count_spec(rest) {
                    Some((h, c)) => ParseOutcome::Parsed(
                        LoopModel { kind: LoopKindModel::Hit { count: c }, header: h },
                    ),
                    None => ParseOutcome::Malformed,
                }
            } else if prefix == "Loop Limit Exceed:"@ {
                match crate::action::content_with_count_spec(rest) {
                    Some((h, c)) => ParseOutcome::Parsed(
                        LoopModel { kind: LoopKindModel::Exceed { count: c }, header: h },
                    ),
                    None => ParseOutcome::Malformed,
                }
            } else if prefix == "Out of Loop:"@ {
                match header_out_count_spec(rest) {
                    Some((h, o, c)) => ParseOutcome::Parsed(
                        LoopModel { kind: LoopKindModel::Out { out: o, count: c }, header: h },
                    ),
                    None => ParseOutcome::Malformed,
                }
            } else if prefix == "Loop end without loop start:"@ {
                match header_out_spec(rest) {
                    Some((h, o)) => ParseOutcome::Parsed(
                        LoopModel { kind: LoopKindModel::NoStart { out: o }, header: h },
                    ),
                    None => ParseOutcome::Malformed,
                }
            } else {
                ParseOutcome::NoPrefix
            }
        },
    }
}

/// The count of a loop-action model, where its kind carries one.
pub open spec fn loop_count_of(kind: LoopKindModel) -> Option<nat> {
    match kind {
        LoopKindModel::Hit { count } => Some(count),
        LoopKindModel::Exceed { count } => Some(count),
        LoopKindModel::Out { count, .. } => Some(count),
        LoopKindModel::NoStart { .. } => None,
    }
}

/// Read a header location and a count from the text after a loop prefix.
fn parse_header_loc_with_count(content_slice: &str) -> (r: Result<
    (SrcLoc, usize),
    GuardParseError,
>)
    ensures
        match r {
            Ok((loc, n)) => crate::action::content_with_count_spec(content_slice@) == Some(
                (loc@, n as nat),
            ),
            Err(e) => crate::action::content_with_count_spec(content_slice@) is None && e
                is ParseError,
        },
{
    let t = trim(content_slice);
    let n: usize = t.unicode_len();
    let pos = match find_space_idx(t) {
        Some(p) => p,
        None => {
            return Err(
                GuardParseError::as_parse_err(
                    String::from_str("loop guard content has no whitespace"),
                ),
            );
        },
    };
    proof {
        crate::strutil::lemma_first_space_index(t@);
    }
    let loc_part = t.substring_char(0, pos);
    let cnt_part = t.substring_char(pos, n);
    proof {
        assert(loc_part@ =~= t@.take(pos as int));
        assert(cnt_part@ =~= t@.skip(pos as int));
    }
    let header_loc = match SrcLoc::from_str(loc_part) {
        Ok(l) => l,
        Err(e) => {
            return Err(e);
        },
    };
    let count = match crate::action::parse_loop_cnt(cnt_part) {
        Ok(c) => c,
        Err(e) => {
            return Err(e);
        },
    };
    Ok((header_loc, count))
}

/// Read a header location, an exit location, and a count.
fn parse_header_out_loc_with_count(content_slice: &str) -> (r: Result<
    (SrcLoc, SrcLoc, usize),
    GuardParseError,
>)
    ensures
        match r {
            Ok((h, o, n)) => header_out_count_spec(content_slice@) == Some((h@, o@, n as nat)),
            Err(e) => header_out_count_spec(content_slice@) is None && e is ParseError,
        },
{
    let t = trim(content_slice);
    let n: usize = t.unicode_len();
    let pos = match find_space_idx(t) {
        Some(p) => p,
        None => {
            return Err(
                GuardParseError::as_parse_err(
                    String::from_str("loop guard content has no whitespace"),
                ),
            );
        },
    };
    proof {
        crate::strutil::lemma_first_space_index(t@);
    }
    let loc_part = t.substring_char(0, pos);
    let header_loc = match SrcLoc::from_str(loc_part) {
        Ok(l) => l,
        Err(e) => {
            proof {
                assert(loc_part@ =~= t@.take(pos as int));
            }
            return Err(e);
        },
    };
    proof {
        assert(loc_part@ =~= t@.take(pos as int));
    }
    let t2 = trim(t.substring_char(pos, n));
    proof {
        assert(t@.subrange(pos as int, n as int) =~= t@.skip(pos as int));
    }
    let n2: usize = t2.unicode_len();
    let pos2 = match find_space_idx(t2) {
        Some(p) => p,
        None => {
            return Err(
                GuardParseError::as_parse_err(
                    String::from_str("loop guard content has no exit location"),
                ),
            );
        },
    };
    proof {
        crate::strutil::lemma_first_space_index(t2@);
    }
    let out_part = t2.substring_char(0, pos2);
    let cnt_part = t2.substring_char(pos2, n2);
    proof {
        assert(out_part@ =~= t2@.take(pos2 as int));
        assert(cnt_part@ =~= t2@.skip(pos2 as int));
    }
    let out_loc = match SrcLoc::from_str(out_part) {
        Ok(l) => l,
        Err(e) => {
            return Err(e);
        },
    };
    let count = match crate::action::parse_loop_cnt(cnt_part) {
        Ok(c) => c,
        Err(e) => {
            return Err(e);
        },
    };
    Ok((header_loc, out_loc, count))
}

/// Read a header location and an exit location, with no count.
fn parse_header_out_loc_wo_count(content_slice: &str) -> (r: Result<
    (SrcLoc, SrcLoc),
    GuardParseError,
>)
    ensures
        match r {
            Ok((h, o)) => header_out_spec(content_slice@) == Some((h@, o@)),
            Err(e) => header_out_spec(content_slice@) is None && e is ParseError,
        },
{
    let t = trim(content_slice);
    let n: usize = t.unicode_len();
    let pos = match find_space_idx(t) {
        Some(p) => p,
        None => {
            return Err(
                GuardParseError::as_parse_err(
                    String::from_str("loop guard content has no whitespace"),
                ),
            );
        },
    };
    proof {
        crate::strutil::lemma_first_space_index(t@);
    }
    let loc_part = t.substring_char(0, pos);
    proof {
        assert(loc_part@ =~= t@.take(pos as int));
    }
    let header_loc = match SrcLoc::from_str(loc_part) {
        Ok(l) => l,
        Err(e) => {
            return Err(e);
        },
    };
    let t2 = trim(t.substring_char(pos, n));
    proof {
        assert(t@.subrange(pos as int, n as int) =~= t@.skip(pos as int));
    }
    let n2: usize = t2.unicode_len();
    let pos2: usize = match find_space_idx(t2) {
        Some(p) => p,
        None => n2,
    };
    proof {
        crate::strutil::lemma_first_space_index(t2@);
    }
    let out_part = t2.substring_char(0, pos2);
    proof {
        match first_space_index(t2@) {
            Some(_) => {
                assert(out_part@ =~= t2@.take(pos2 as int));
            },
            None => {
                assert(out_part@ =~= t2@);
            },
        }
    }
    let out_loc = match SrcLoc::from_str(out_part) {
        Ok(l) => l,
        Err(e) => {
            return Err(e);
        },
    };
    Ok((header_loc, out_loc))
}

impl LoopAction {
    /// One loop-guard line, dispatched on the four loop prefixes.
    pub fn parse_loop_guard(line: &str) -> (r: Result<Self, GuardParseError>)
        ensures
            match r {
                Ok(a) => loop_guard_spec(line@) == ParseOutcome::Parsed(a@),
                Err(e) => match e {
                    GuardParseError::PrefixError { .. } => loop_guard_spec(line@) is NoPrefix,
                    GuardParseError::ParseError { .. } => loop_guard_spec(line@) is Malformed,
                    GuardParseError::SkipError { .. } => false,
                },
            },
    {
        let prefix = match crate::action::get_prefix(line) {
            Ok(p) => p,
            Err(e) => {
                return Err(e);
            },
        };
        let n: usize = line.unicode_len();
        let plen: usize = prefix.unicode_len();
        proof {
            crate::strutil::lemma_first_index_of(line@, ':');
        }
        let rest = line.substring_char(plen, n);
        proof {
            assert(rest@ =~= line@.skip(plen as int));
        }
        if str_eq(prefix, "Loop Hit:") {
            let (header_loc, count) = match parse_header_loc_with_count(rest) {
                Ok(p) => p,
                Err(e) => {
                    return Err(e);
                },
            };
            Ok(
                Self {
                    la_type: LoopActionType::LoopEntry { count, entry_type: LoopEntryType::Hit },
                    header_loc,
                },
            )
        } else if str_eq(prefix, "Loop Limit Exceed:") {
            let (header_loc, count) = match parse_header_loc_with_count(rest) {
                Ok(p) => p,
                Err(e) => {
                    return Err(e);
                },
            };
            Ok(
                Self {
                    la_type: LoopActionType::LoopEntry {
                        count,
                        entry_type: LoopEntryType::Exceed,
                    },
                    header_loc,
                },
            )
        } else if str_eq(prefix, "Out of Loop:") {
            let (header_loc, out_loc, count) = match parse_header_out_loc_with_count(rest) {
                Ok(p) => p,
                Err(e) => {
                    return Err(e);
                },
            };
            Ok(
                Self {
                    la_type: LoopActionType::LoopEnd {
                        out_loc,
                        end_type: LoopEndType::Out { count },
                    },
                    header_loc,
                },
            )
        } else if str_eq(prefix, "Loop end without loop start:") {
            let (header_loc, out_loc) = match parse_header_out_loc_wo_count(rest) {
                Ok(p) => p,
                Err(e) => {
                    return Err(e);
                },
            };
            Ok(
                Self {
                    la_type: LoopActionType::LoopEnd { out_loc, end_type: LoopEndType::NoStart },
                    header_loc,
                },
            )
        } else {
            Err(
                GuardParseError::as_prefix_err(
                    String::from_str("line does not match a loop action"),
                ),
            )
        }
    }

    pub fn get_header_loc(&self) -> (r: &SrcLoc)
        ensures
            r@ == self@.header,
    {
        &self.header_loc
    }

    pub fn get_out_loc(&self) -> (r: Option<&SrcLoc>)
        ensures
            match r {
                Some(o) => match self@.kind {
                    LoopKindModel::Out { out, .. } => o@ == out,
                    LoopKindModel::NoStart { out } => o@ == out,
                    _ => false,
                },
                None => self@.kind is Hit || self@.kind is Exceed,
            },
    {
        match &self.la_type {
            LoopActionType::LoopEntry { .. } => None,
            LoopActionType::LoopEnd { out_loc, .. } => Some(out_loc),
        }
    }

    pub fn get_count(&self) -> (r: Option<usize>)
        ensures
            loop_count_of(self@.kind) == match r {
                Some(n) => Some(n as nat),
                None => None::<nat>,
            },
    {
        match &self.la_type {
            LoopActionType::LoopEntry { count, entry_type: _ } => Some(*count),
            LoopActionType::LoopEnd { out_loc: _, end_type: LoopEndType::Out { count } } => Some(
                *count,
            ),
            _ => None,
        }
    }

    pub fn get_type_name(&self) -> (r: &'static str)
        ensures
            r@ == match self@.kind {
                LoopKindModel::Hit { .. } => "LoopEntryHit"@,
                LoopKindModel::Exceed { .. } => "LoopEntryExceed"@,
                LoopKindModel::Out { .. } => "LoopEndOut"@,
                LoopKindModel::NoStart { .. } => "LoopEndNoStart"@,
            },
    {
        match &self.la_type {
            LoopActionType::LoopEntry { count: _, entry_type } => match entry_type {
                LoopEntryType::Exceed => "LoopEntryExceed",
                LoopEntryType::Hit => "LoopEntryHit",
            },
            LoopActionType::LoopEnd { out_loc: _, end_type } => match end_type {
                LoopEndType::NoStart => "LoopEndNoStart",
                LoopEndType::Out { .. } => "LoopEndOut",
            },
        }
    }
}

/// Mathematical model of one classified action.
pub enum ActModel {
    Func(FuncActModel),
    Intra(JumpModel),
    Loop(LoopModel),
    Recur(bool),
    Thread(ThreadModel),
}

pub enum ExecAction {
    Func(FuncAction),
    Intra(JumpAction),
    Loop(LoopAction),
    Recur(RecurAction),
    Thread(ThreadAction),
}

impl View for ExecAction {
    type V = ActModel;

    open spec fn view(&self) -> ActModel {
        match self {
            ExecAction::Func(a) => ActModel::Func(a@),
            ExecAction::Intra(a) => ActModel::Intra(a@),
            ExecAction::Loop(a) => ActModel::Loop(a@),
            ExecAction::Recur(a) => ActModel::Recur(a is Locked),
            ExecAction::Thread(a) => ActModel::Thread(a@),
        }
    }
}

/// Whether a model action is a function call.
pub open spec fn act_is_call(m: ActModel) -> bool {
    m matches ActModel::Func(f) && f.typ is Call
}

impl ExecAction {
    pub fn is_func_call(&self) -> (r: bool)
        ensures
            r == act_is_call(self@),
    {
        match self {
            ExecAction::Func(func_act) => func_act.is_call(),
            _ => false,
        }
    }

    /// The function action behind a call; unlike its first-generation
    /// counterpart, a plain return or unwind yields `None` here too.
    pub fn get_func_call_act(&self) -> (r: Option<&FuncAction>)
        ensures
            match r {
                Some(f) => self@ matches ActModel::Func(m) && f@ == m && m.typ is Call,
                None => !act_is_call(self@),
            },
    {
        if let ExecAction::Func(func_act) = self {
            if func_act.is_call() {
                Some(func_act)
            } else {
                None
            }
        } else {
            None
        }
    }

    /// A render label carrying the action kind and a caller-chosen
    /// counter value.
    pub fn get_dot_id(&self, cnt: usize) -> (r: String)
        ensures
            r@ == match self@ {
                ActModel::Func(f) => match f.typ {
                    FuncTypeModel::Call { .. } => "Function_Call_Action_"@ + decimal_of(
                        cnt as nat,
                    ),
                    FuncTypeModel::Return => "Function_Return_Action_"@ + decimal_of(cnt as nat),
                    FuncTypeModel::Unwind => "Function_Unwind_Action_"@ + decimal_of(cnt as nat),
                },
                ActModel::Intra(j) => match j.kind {
                    JumpActionType::BrGuard => "Branch_Guard_Action_"@ + decimal_of(cnt as nat),
                    JumpActionType::SwitchGuard => "Switch_Guard_Action_"@ + decimal_of(
                        cnt as nat,
                    ),
                    JumpActionType::IndirectGuard => "Indirect_Branch_Guard_Action_"@
                        + decimal_of(cnt as nat),
                },
                ActModel::Loop(_) => "Loop_Action_"@ + decimal_of(cnt as nat),
                ActModel::Recur(locked) => if locked {
                    "Recur_Lock_Action_"@ + decimal_of(cnt as nat)
                } else {
                    "Recur_Release_Action_"@ + decimal_of(cnt as nat)
                },
                ActModel::Thread(_) => "Thread_Action_"@ + decimal_of(cnt as nat),
            },
    {
        match self {
            ExecAction::Func(func_act) => func_act.get_dot_id(cnt),
            ExecAction::Intra(intra_act) => intra_act.get_dot_id(cnt),
            ExecAction::Loop(_) => String::from_str("Loop_Action_").concat(
                usize_to_decimal(cnt).as_str(),
            ),
            ExecAction::Recur(recur_act) => match recur_act {
                RecurAction::Locked => String::from_str("Recur_Lock_Action_").concat(
                    usize_to_decimal(cnt).as_str(),
                ),
                RecurAction::Released => String::from_str("Recur_Release_Action_").concat(
                    usize_to_decimal(cnt).as_str(),
                ),
            },
            ExecAction::Thread(_) => String::from_str("Thread_Action_").concat(
                usize_to_decimal(cnt).as_str(),
            ),
        }
    }
}

} // verus!
