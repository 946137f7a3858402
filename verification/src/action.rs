//! First-generation guard-line actions: function calls and returns,
//! branch guards, and loop guards.
//!
//! Each parser holds one line against one rule.  A rule whose fixed
//! prefix does not match reports a recoverable mismatch; a rule whose
//! prefix matches but whose fields are malformed reports a fatal format
//! error.

use vstd::prelude::*;

use crate::error::{GuardParseError, ParseOutcome};
use crate::loc::{parse_loc_spec, LocModel, SrcLoc};
use crate::strutil::{
    find_char_idx, find_space_idx, first_index_of, first_space_index, str_eq, str_starts_with,
    trim, trimmed,
};
use crate::tree::NodeIdx;

verus! {

/// The prefix of `line` up to and including its first colon; a line
/// without a colon matches no colon-prefixed rule.
pub fn get_prefix(line: &str) -> (r: Result<&str, GuardParseError>)
    ensures
        match r {
            Ok(p) => first_index_of(line@, ':') matches Some(i) && p@ == line@.take(i + 1),
            Err(e) => first_index_of(line@, ':') is None && e is PrefixError,
        },
{
    // the measured length bounds the colon's index within usize
    let _n: usize = line.unicode_len();
    match find_char_idx(line, ':') {
        Some(pos) => {
            proof {
                crate::strutil::lemma_first_index_of(line@, ':');
            }
            Ok(line.substring_char(0, pos + 1))
        },
        None => Err(
            GuardParseError::as_prefix_err(String::from_str("line does not contain a colon")),
        ),
    }
}

pub enum FuncActionType {
    Call { child_ptr: NodeIdx },
    Return,
}

/// The name after `prefix`, read up to the first `(` of the line.
pub open spec fn func_name_spec(line: Seq<char>, plen: int) -> Seq<char> {
    match first_index_of(line, '(') {
        Some(e) => line.subrange(plen, e),
        None => line.skip(plen),
    }
}

impl FuncActionType {
    pub fn is_call_guard(line: &str) -> (r: bool)
        ensures
            r == "enter "@.is_prefix_of(line@),
    {
        str_starts_with(line, "enter ")
    }

    pub fn is_return_guard(line: &str) -> (r: bool)
        ensures
            r == "return from "@.is_prefix_of(line@),
    {
        str_starts_with(line, "return from ")
    }

    fn get_func_name_from_line<'a>(line: &'a str, prefix: &'a str) -> (r: Result<
        &'a str,
        GuardParseError,
    >)
        requires
            forall|k: int| 0 <= k < prefix@.len() ==> prefix@[k] != '(',
        ensures
            match r {
                Ok(name) => prefix@.is_prefix_of(line@) && name@ == func_name_spec(
                    line@,
                    prefix@.len() as int,
                ),
                Err(e) => !prefix@.is_prefix_of(line@) && e is ParseError,
            },
    {
        if !str_starts_with(line, prefix) {
            return Err(
                GuardParseError::as_parse_err(
                    String::from_str("line does not start with the expected prefix"),
                ),
            );
        }
        let start: usize = prefix.unicode_len();
        let n: usize = line.unicode_len();
        let end: usize = match find_char_idx(line, '(') {
            Some(e) => e,
            None => n,
        };
        proof {
            crate::strutil::lemma_first_index_of(line@, '(');
            match first_index_of(line@, '(') {
                Some(e) => {
                    if e < start {
                        assert(line@[e] == prefix@[e]);
                    }
                },
                None => {},
            }
        }
        let name = line.substring_char(start, end);
        proof {
            if first_index_of(line@, '(') is None {
                assert(name@ =~= line@.skip(start as int));
            }
        }
        Ok(name)
    }

    /// The function name of an `enter` or `return from` line; an error
    /// when the line is neither.
    pub fn get_func_name(line: &str) -> (r: Result<&str, GuardParseError>)
        ensures
            match r {
                Ok(name) => {
                    ||| "enter "@.is_prefix_of(line@) && name@ == func_name_spec(
                        line@,
                        "enter "@.len() as int,
                    )
                    ||| !"enter "@.is_prefix_of(line@) && "return from "@.is_prefix_of(line@)
                        && name@ == func_name_spec(line@, "return from "@.len() as int)
                },
                Err(_) => !"enter "@.is_prefix_of(line@) && !"return from "@.is_prefix_of(line@),
            },
    {
        if !Self::is_call_guard(line) && !Self::is_return_guard(line) {
            return Err(
                GuardParseError::as_parse_err(
                    String::from_str("line does not match a function action"),
                ),
            );
        }
        proof {
            reveal_strlit("enter ");
            reveal_strlit("return from ");
        }
        if Self::is_call_guard(line) {
            Self::get_func_name_from_line(line, "enter ")
        } else {
            Self::get_func_name_from_line(line, "return from ")
        }
    }
}

/// Mathematical model of a function action.
pub struct FuncActModel {
    pub typ: FuncActionType,
    pub name: Seq<char>,
}

pub struct FuncAction {
    act_type: FuncActionType,
    func_name: String,
}

impl View for FuncAction {
    type V = FuncActModel;

    closed spec fn view(&self) -> FuncActModel {
        FuncActModel { typ: self.act_type, name: self.func_name@ }
    }
}

impl FuncAction {
    pub fn new(act_type: FuncActionType, func_name: String) -> (r: Self)
        ensures
            r@ == (FuncActModel { typ: act_type, name: func_name@ }),
    {
        Self { act_type, func_name }
    }

    pub fn get_name(&self) -> (r: &str)
        ensures
            r@ == self@.name,
    {
        self.func_name.as_str()
    }

    pub fn is_call(&self) -> (r: bool)
        ensures
            r == (self@.typ is Call),
    {
        matches!(self.act_type, FuncActionType::Call { .. })
    }

    pub fn is_return(&self) -> (r: bool)
        ensures
            r == (self@.typ is Return),
    {
        matches!(self.act_type, FuncActionType::Return)
    }

    pub fn get_child_ptr(&self) -> (r: Option<NodeIdx>)
        ensures
            match r {
                Some(c) => self@.typ == (FuncActionType::Call { child_ptr: c }),
                None => !(self@.typ is Call),
            },
    {
        if let FuncActionType::Call { child_ptr } = &self.act_type {
            Some(*child_ptr)
        } else {
            None
        }
    }
}

#[derive(Clone, Copy)]
pub enum IntraActionType {
    BrGuard,
    SwitchGuard,
    IndirectGuard,
}

/// The branch kind named by a guard prefix, if any.
pub open spec fn intra_type_spec(prefix: Seq<char>) -> Option<IntraActionType> {
    if prefix == "Merge Br Guard:"@ {
        Some(IntraActionType::BrGuard)
    } else if prefix == "Switch Guard:"@ {
        Some(IntraActionType::SwitchGuard)
    } else if prefix == "IndirectBr Guard:"@ {
        Some(IntraActionType::IndirectGuard)
    } else {
        None
    }
}

impl IntraActionType {
    pub fn from_prefix(prefix: &str) -> (r: Option<Self>)
        ensures
            r == intra_type_spec(prefix@),
    {
        if str_eq(prefix, "Merge Br Guard:") {
            Some(IntraActionType::BrGuard)
        } else if str_eq(prefix, "Switch Guard:") {
            Some(IntraActionType::SwitchGuard)
        } else if str_eq(prefix, "IndirectBr Guard:") {
            Some(IntraActionType::IndirectGuard)
        } else {
            None
        }
    }
}

/// Mathematical model of a branch action: kind, condition location,
/// taken value, destination location.
pub struct JumpModel {
    pub kind: IntraActionType,
    pub cond: LocModel,
    pub taken: bool,
    pub dest: LocModel,
}

pub struct IntraAction {
    intra_type: IntraActionType,
    cond_loc: SrcLoc,
    cond_val: bool,
    dest_loc: SrcLoc,
}

impl View for IntraAction {
    type V = JumpModel;

    closed spec fn view(&self) -> JumpModel {
        JumpModel {
            kind: self.intra_type,
            cond: self.cond_loc@,
            taken: self.cond_val,
            dest: self.dest_loc@,
        }
    }
}

/// The `<loc> <0|1> <loc>` field grammar, with a known branch kind.
/// Tokens past the third are ignored.
pub open spec fn jump_fields_spec(kind: IntraActionType, s: Seq<char>) -> Option<JumpModel> {
    let tok1 = crate::strutil::head_token(s);
    let rest1 = crate::strutil::rest_after_token(s);
    let tok2 = crate::strutil::head_token(rest1);
    let rest2 = crate::strutil::rest_after_token(rest1);
    let tok3 = crate::strutil::head_token(rest2);
    if tok1.len() == 0 || tok2.len() == 0 || tok3.len() == 0 {
        None
    } else {
        match (parse_loc_spec(tok1), parse_loc_spec(tok3)) {
            (Some(cond), Some(dest)) => if tok2 == "1"@ {
                Some(JumpModel { kind, cond, taken: true, dest })
            } else if tok2 == "0"@ {
                Some(JumpModel { kind, cond, taken: false, dest })
            } else {
                None
            },
            _ => None,
        }
    }
}

/// One simple branch-guard line: a kind prefix, then the field grammar.
pub open spec fn jump_guard_spec(line: Seq<char>) -> ParseOutcome<JumpModel> {
    match first_index_of(line, ':') {
        None => ParseOutcome::NoPrefix,
        Some(ci) => {
            let prefix = line.take(ci + 1);
            match intra_type_spec(prefix) {
                None => ParseOutcome::NoPrefix,
                Some(kind) => match jump_fields_spec(kind, trimmed(line.skip(ci + 1))) {
                    Some(m) => ParseOutcome::Parsed(m),
                    None => ParseOutcome::Malformed,
                },
            }
        },
    }
}

/// The field grammar standing alone: exactly three tokens.
pub open spec fn jump_slice_spec(s: Seq<char>) -> Option<JumpModel> {
    let rest1 = crate::strutil::rest_after_token(s);
    let rest2 = crate::strutil::rest_after_token(rest1);
    let rest3 = crate::strutil::rest_after_token(rest2);
    if crate::strutil::head_token(rest3).len() > 0 {
        None
    } else {
        jump_fields_spec(IntraActionType::BrGuard, s)
    }
}

/// Read the `<loc> <0|1> <loc>` fields from `s`, as kind `kind`.
fn parse_jump_fields(kind: IntraActionType, s: &str) -> (r: Result<IntraAction, GuardParseError>)
    ensures
        match r {
            Ok(a) => jump_fields_spec(kind, s@) == Some(a@),
            Err(e) => jump_fields_spec(kind, s@) is None && e is ParseError,
        },
{
    let (tok1, rest1) = crate::strutil::split_token(s);
    let (tok2, rest2) = crate::strutil::split_token(rest1);
    let (tok3, _rest3) = crate::strutil::split_token(rest2);
    if tok1.unicode_len() == 0 || tok2.unicode_len() == 0 || tok3.unicode_len() == 0 {
        return Err(GuardParseError::as_parse_err(String::from_str("missing branch-guard field")));
    }
    let cond_loc = match SrcLoc::from_str(tok1) {
        Ok(l) => l,
        Err(e) => {
            return Err(e);
        },
    };
    let dest_loc = match SrcLoc::from_str(tok3) {
        Ok(l) => l,
        Err(e) => {
            return Err(e);
        },
    };
    let cond_val: bool = if str_eq(tok2, "1") {
        true
    } else if str_eq(tok2, "0") {
        false
    } else {
        return Err(
            GuardParseError::as_parse_err(String::from_str("unexpected condition value")),
        );
    };
    Ok(IntraAction { intra_type: kind, cond_loc, cond_val, dest_loc })
}

impl IntraAction {
    /// One branch-guard line whose prefix names its kind.
    pub fn parse_simple_guard(line: &str) -> (r: Result<Self, GuardParseError>)
        ensures
            match r {
                Ok(a) => jump_guard_spec(line@) == ParseOutcome::Parsed(a@),
                Err(e) => match e {
                    GuardParseError::PrefixError { .. } => jump_guard_spec(line@) is NoPrefix,
                    GuardParseError::ParseError { .. } => jump_guard_spec(line@) is Malformed,
                    GuardParseError::SkipError { .. } => false,
                },
            },
    {
        let prefix = match get_prefix(line) {
            Ok(p) => p,
            Err(e) => {
                return Err(e);
            },
        };
        let kind = match IntraActionType::from_prefix(prefix) {
            Some(k) => k,
            None => {
                return Err(
                    GuardParseError::as_prefix_err(
                        String::from_str("unknown branch-guard prefix"),
                    ),
                );
            },
        };
        let n: usize = line.unicode_len();
        let plen: usize = prefix.unicode_len();
        proof {
            crate::strutil::lemma_first_index_of(line@, ':');
        }
        let line_cont = trim(line.substring_char(plen, n));
        proof {
            assert(line@.subrange(plen as int, n as int) =~= line@.skip(plen as int));
        }
        parse_jump_fields(kind, line_cont)
    }

    /// The field grammar alone, with nothing after its three tokens, as a
    /// plain branch guard; used by the combined value-and-branch rule.
    pub fn from_slice(slice: &str) -> (r: Result<Self, GuardParseError>)
        ensures
            match r {
                Ok(a) => jump_slice_spec(slice@) == Some(a@),
                Err(e) => jump_slice_spec(slice@) is None && e is ParseError,
            },
    {
        let (_tok1, rest1) = crate::strutil::split_token(slice);
        let (_tok2, rest2) = crate::strutil::split_token(rest1);
        let (_tok3, rest3) = crate::strutil::split_token(rest2);
        let (tok4, _rest4) = crate::strutil::split_token(rest3);
        if tok4.unicode_len() != 0 {
            return Err(
                GuardParseError::as_parse_err(
                    String::from_str("expected exactly three branch-guard fields"),
                ),
            );
        }
        parse_jump_fields(IntraActionType::BrGuard, slice)
    }
}

#[derive(Clone, Copy)]
enum LoopEntryType {
    Hit,
    Exceed,
}

#[derive(Clone, Copy)]
enum LoopEndType {
    Out { count: usize },
    NoStart,
}

#[derive(Clone, Copy)]
enum LoopActionType {
    LoopEntry { count: usize, entry_type: LoopEntryType },
    LoopEnd(LoopEndType),
}

/// Mathematical model of a loop action's kind.
pub enum LoopKindModel {
    Hit { count: nat },
    Exceed { count: nat },
    Out { count: nat },
    NoStart,
}

/// Mathematical model of a loop action.
pub struct LoopModel {
    pub kind: LoopKindModel,
    pub header: LocModel,
}

pub struct LoopAction {
    la_type: LoopActionType,
    header_loc: SrcLoc,
}

impl View for LoopAction {
    type V = LoopModel;

    closed spec fn view(&self) -> LoopModel {
        LoopModel {
            kind: match self.la_type {
                LoopActionType::LoopEntry { count, entry_type: LoopEntryType::Hit } =>
                    LoopKindModel::Hit { count: count as nat },
                LoopActionType::LoopEntry { count, entry_type: LoopEntryType::Exceed } =>
                    LoopKindModel::Exceed { count: count as nat },
                LoopActionType::LoopEnd(LoopEndType::Out { count }) => LoopKindModel::Out {
                    count: count as nat,
                },
                LoopActionType::LoopEnd(LoopEndType::NoStart) => LoopKindModel::NoStart,
            },
            header: self.header_loc@,
        }
    }
}

/// The loop count after the fixed `at count` text: the trimmed slice
/// must open with exactly that text, and what follows must be a decimal
/// number; anything else is a malformed field.
pub open spec fn loop_cnt_spec(s: Seq<char>) -> Option<nat> {
    let t = trimmed(s);
    if t.len() < "at count"@.len() || t.take("at count"@.len() as int) != "at count"@ {
        None
    } else {
        let d = trimmed(t.skip("at count"@.len() as int));
        if crate::strutil::is_digit_seq(d) && crate::strutil::digit_seq_val(d) <= usize::MAX {
            Some(crate::strutil::digit_seq_val(d))
        } else {
            None
        }
    }
}

/// A header location followed by a loop count.
pub open spec fn content_with_count_spec(s: Seq<char>) -> Option<(LocModel, nat)> {
    let t = trimmed(s);
    match first_space_index(t) {
        None => None,
        Some(pos) => match (parse_loc_spec(t.take(pos)), loop_cnt_spec(t.skip(pos))) {
            (Some(h), Some(c)) => Some((h, c)),
            _ => None,
        },
    }
}

/// A header location standing alone.
pub open spec fn content_wo_count_spec(s: Seq<char>) -> Option<LocModel> {
    let t = trimmed(s);
    if t.len() == 0 {
        None
    } else {
        parse_loc_spec(t)
    }
}

/// One loop-guard line: one of the four loop prefixes, then its fields.
pub open spec fn loop_guard_spec(line: Seq<char>) -> ParseOutcome<LoopModel> {
    match first_index_of(line, ':') {
        None => ParseOutcome::NoPrefix,
        Some(ci) => {
            let prefix = line.take(ci + 1);
            let rest = line.skip(ci + 1);
            if prefix == "Loop Hit:"@ {
                match content_with_count_spec(rest) {
                    Some((h, c)) => ParseOutcome::Parsed(
                        LoopModel { kind: LoopKindModel::Hit { count: c }, header: h },
                    ),
                    None => ParseOutcome::Malformed,
                }
            } else if prefix == "Loop Limit Exceed:"@ {
                match content_with_count_spec(rest) {
                    Some((h, c)) => ParseOutcome::Parsed(
                        LoopModel { kind: LoopKindModel::Exceed { count: c }, header: h },
                    ),
                    None => ParseOutcome::Malformed,
                }
            } else if prefix == "Out of Loop:"@ {
                match content_with_count_spec(rest) {
                    Some((h, c)) => ParseOutcome::Parsed(
                        LoopModel { kind: LoopKindModel::Out { count: c }, header: h },
                    ),
                    None => ParseOutcome::Malformed,
                }
            } else if prefix == "Loop end without loop start:"@ {
                match content_wo_count_spec(rest) {
                    Some(h) => ParseOutcome::Parsed(
                        LoopModel { kind: LoopKindModel::NoStart, header: h },
                    ),
                    None => ParseOutcome::Malformed,
                }
            } else {
                ParseOutcome::NoPrefix
            }
        },
    }
}

/// The count of a loop-action model, where its kind carries one.
pub open spec fn loop_count_of(kind: LoopKindModel) -> Option<nat> {
    match kind {
        LoopKindModel::Hit { count } => Some(count),
        LoopKindModel::Exceed { count } => Some(count),
        LoopKindModel::Out { count } => Some(count),
        LoopKindModel::NoStart => None,
    }
}

pub(crate) fn parse_loop_cnt(slice: &str) -> (r: Result<usize, GuardParseError>)
    ensures
        match r {
            Ok(n) => loop_cnt_spec(slice@) == Some(n as nat),
            Err(e) => loop_cnt_spec(slice@) is None && e is ParseError,
        },
{
    let s = trim(slice);
    let n: usize = s.unicode_len();
    let plen: usize = "at count".unicode_len();
    if n < plen {
        return Err(
            GuardParseError::as_parse_err(String::from_str("loop count text is too short")),
        );
    }
    if !str_eq(s.substring_char(0, plen), "at count") {
        proof {
            assert(s@.subrange(0, plen as int) =~= s@.take("at count"@.len() as int));
        }
        return Err(
            GuardParseError::as_parse_err(String::from_str("loop count text is malformed")),
        );
    }
    proof {
        assert(s@.subrange(0, plen as int) =~= s@.take("at count"@.len() as int));
    }
    let cnt_slice = trim(s.substring_char(plen, n));
    proof {
        assert(s@.subrange(plen as int, n as int) =~= s@.skip("at count"@.len() as int));
    }
    match crate::strutil::parse_usize(cnt_slice) {
        Some(v) => Ok(v),
        None => Err(GuardParseError::as_parse_err(String::from_str("malformed loop count"))),
    }
}

/// Read a header location and a count from the text after a loop prefix.
fn parse_content_with_count(content_slice: &str) -> (r: Result<(SrcLoc, usize), GuardParseError>)
    ensures
        match r {
            Ok((loc, n)) => content_with_count_spec(content_slice@) == Some((loc@, n as nat)),
            Err(e) => content_with_count_spec(content_slice@) is None && e is ParseError,
        },
{
    let t = trim(content_slice);
    let n: usize = t.unicode_len();
    let pos = match find_space_idx(t) {
        Some(p) => p,
        None => {
            return Err(
                GuardParseError::as_parse_err(
                    String::from_str("loop guard content has no whitespace"),
                ),
            );
        },
    };
    proof {
        crate::strutil::lemma_first_space_index(t@);
    }
    let loc_part = t.substring_char(0, pos);
    let cnt_part = t.substring_char(pos, n);
    proof {
        assert(loc_part@ =~= t@.take(pos as int));
        assert(cnt_part@ =~= t@.skip(pos as int));
    }
    let header_loc = match SrcLoc::from_str(loc_part) {
        Ok(l) => l,
        Err(e) => {
            return Err(e);
        },
    };
    let count = match parse_loop_cnt(cnt_part) {
        Ok(c) => c,
        Err(e) => {
            return Err(e);
        },
    };
    Ok((header_loc, count))
}

/// Read a header location standing alone after a loop prefix.
fn parse_content_wo_count(content_slice: &str) -> (r: Result<SrcLoc, GuardParseError>)
    ensures
        match r {
            Ok(loc) => content_wo_count_spec(content_slice@) == Some(loc@),
            Err(e) => content_wo_count_spec(content_slice@) is None && e is ParseError,
        },
{
    let t = trim(content_slice);
    if t.unicode_len() == 0 {
        return Err(
            GuardParseError::as_parse_err(String::from_str("loop guard content is empty")),
        );
    }
    SrcLoc::from_str(t)
}

impl LoopAction {
    /// One loop-guard line, dispatched on the four loop prefixes.
    pub fn parse_loop_guard(line: &str) -> (r: Result<Self, GuardParseError>)
        ensures
            match r {
                Ok(a) => loop_guard_spec(line@) == ParseOutcome::Parsed(a@),
                Err(e) => match e {
                    GuardParseError::PrefixError { .. } => loop_guard_spec(line@) is NoPrefix,
                    GuardParseError::ParseError { .. } => loop_guard_spec(line@) is Malformed,
                    GuardParseError::SkipError { .. } => false,
                },
            },
    {
        let prefix = match get_prefix(line) {
            Ok(p) => p,
            Err(e) => {
                return Err(e);
            },
        };
        let n: usize = line.unicode_len();
        let plen: usize = prefix.unicode_len();
        proof {
            crate::strutil::lemma_first_index_of(line@, ':');
        }
        let rest = line.substring_char(plen, n);
        proof {
            assert(rest@ =~= line@.skip(plen as int));
        }
        if str_eq(prefix, "Loop Hit:") {
            let (header_loc, count) = match parse_content_with_count(rest) {
                Ok(p) => p,
                Err(e) => {
                    return Err(e);
                },
            };
            Ok(
                Self {
                    la_type: LoopActionType::LoopEntry { count, entry_type: LoopEntryType::Hit },
                    header_loc,
                },
            )
        } else if str_eq(prefix, "Loop Limit Exceed:") {
            let (header_loc, count) = match parse_content_with_count(rest) {
                Ok(p) => p,
                Err(e) => {
                    return Err(e);
                },
            };
            Ok(
                Self {
                    la_type: LoopActionType::LoopEntry {
                        count,
                        entry_type: LoopEntryType::Exceed,
                    },
                    header_loc,
                },
            )
        } else if str_eq(prefix, "Out of Loop:") {
            let (header_loc, count) = match parse_content_with_count(rest) {
                Ok(p) => p,
                Err(e) => {
                    return Err(e);
                },
            };
            Ok(
                Self {
                    la_type: LoopActionType::LoopEnd(LoopEndType::Out { count }),
                    header_loc,
                },
            )
        } else if str_eq(prefix, "Loop end without loop start:") {
            let header_loc = match parse_content_wo_count(rest) {
                Ok(l) => l,
                Err(e) => {
                    return Err(e);
                },
            };
            Ok(Self { la_type: LoopActionType::LoopEnd(LoopEndType::NoStart), header_loc })
        } else {
            Err(
                GuardParseError::as_prefix_err(
                    String::from_str("line does not match a loop action"),
                ),
            )
        }
    }

    pub fn get_header_loc(&self) -> (r: &SrcLoc)
        ensures
            r@ == self@.header,
    {
        &self.header_loc
    }

    pub fn get_count(&self) -> (r: Option<usize>)
        ensures
            loop_count_of(self@.kind) == match r {
                Some(n) => Some(n as nat),
                None => None::<nat>,
            },
    {
        match self.la_type {
            LoopActionType::LoopEntry { count, entry_type: _ } => Some(count),
            LoopActionType::LoopEnd(LoopEndType::Out { count }) => Some(count),
            _ => None,
        }
    }

    pub fn get_type_name(&self) -> (r: &'static str)
        ensures
            r@ == match self@.kind {
                LoopKindModel::Hit { .. } => "LoopEntryHit"@,
                LoopKindModel::Exceed { .. } => "LoopEntryExceed"@,
                LoopKindModel::Out { .. } => "LoopEndOut"@,
                LoopKindModel::NoStart => "LoopEndNoStart"@,
            },
    {
        match &self.la_type {
            LoopActionType::LoopEntry { count: _, entry_type } => match entry_type {
                LoopEntryType::Exceed => "LoopEntryExceed",
                LoopEntryType::Hit => "LoopEntryHit",
            },
            LoopActionType::LoopEnd(end_type) => match end_type {
                LoopEndType::NoStart => "LoopEndNoStart",
                LoopEndType::Out { .. } => "LoopEndOut",
            },
        }
    }
}

impl crate::tree::DotId for FuncAction {
    fn get_dot_id(&self) -> &str {
        match &self.act_type {
            FuncActionType::Call { .. } => "Function Call Action",
            FuncActionType::Return => "Function Return Action",
        }
    }
}

impl crate::tree::DotId for IntraAction {
    fn get_dot_id(&self) -> &str {
        match self.intra_type {
            IntraActionType::BrGuard => "Branch Guard Action",
            IntraActionType::SwitchGuard => "Switch Guard Action",
            IntraActionType::IndirectGuard => "Indirect Branch Guard Action",
        }
    }
}

/// Mathematical model of one classified action.
pub enum ActModel {
    Func(FuncActModel),
    Intra(JumpModel),
    Loop(LoopModel),
}

pub enum ExecAction {
    Func(FuncAction),
    Intra(IntraAction),
    Loop(LoopAction),
}

impl View for ExecAction {
    type V = ActModel;

    open spec fn view(&self) -> ActModel {
        match self {
            ExecAction::Func(a) => ActModel::Func(a@),
            ExecAction::Intra(a) => ActModel::Intra(a@),
            ExecAction::Loop(a) => ActModel::Loop(a@),
        }
    }
}

/// Whether a model action is a function call.
pub open spec fn act_is_call(m: ActModel) -> bool {
    m matches ActModel::Func(f) && f.typ is Call
}

impl ExecAction {
    pub fn is_func_call(&self) -> (r: bool)
        ensures
            r == act_is_call(self@),
    {
        match self {
            ExecAction::Func(func_act) => func_act.is_call(),
            ExecAction::Intra(_) => false,
            ExecAction::Loop(_) => false,
        }
    }

    pub fn get_func_call_act(&self) -> (r: Option<&FuncAction>)
        ensures
            match r {
                Some(f) => self@ matches ActModel::Func(m) && f@ == m,
                None => !(self@ is Func),
            },
    {
        if let ExecAction::Func(func_act) = self {
            Some(func_act)
        } else {
            None
        }
    }
}

impl crate::tree::DotId for ExecAction {
    fn get_dot_id(&self) -> &str {
        match self {
            ExecAction::Func(func_act) => crate::tree::DotId::get_dot_id(func_act),
            ExecAction::Intra(intra_act) => crate::tree::DotId::get_dot_id(intra_act),
            ExecAction::Loop(_) => "Loop Action",
        }
    }
}

} // verus!
