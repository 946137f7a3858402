//! The source-statement model: query-engine locations and the typed
//! statements built from query rows.
//!
//! A query location is `file://path:start_line:start_col:end_line:end_col`
//! with 1-based, positive coordinates and the start not after the end.
//! The structural checks live here; whether the file exists, or belongs
//! to the project under analysis, is the caller's concern.

use vstd::prelude::*;

use crate::code_query::{ElseRecMap, ForPartMap, ForRecord, IfRecord, WhileRecord};
use crate::strutil::{
    digit_seq_val, first_index_of, is_digit_seq, lemma_first_index_of, parse_usize, str_eq,
    str_starts_with,
};

verus! {

/// Why a location string was rejected: its shape, or a field's value.
#[derive(Debug)]
pub enum LocParseError {
    FormatErr(String),
    ValueErr(String),
}

/// Mathematical model of a query location.
pub struct QLLocModel {
    pub path: Seq<char>,
    pub start_line: nat,
    pub start_column: nat,
    pub end_line: nat,
    pub end_column: nat,
}

/// A query location: a file and a start/end coordinate pair in it.
pub struct QLLoc {
    pub file_path: String,
    start_line: usize,
    start_column: usize,
    end_line: usize,
    end_column: usize,
}

impl View for QLLoc {
    type V = QLLocModel;

    closed spec fn view(&self) -> QLLocModel {
        QLLocModel {
            path: self.file_path@,
            start_line: self.start_line as nat,
            start_column: self.start_column as nat,
            end_line: self.end_line as nat,
            end_column: self.end_column as nat,
        }
    }
}

/// The result of reading a location string, `None` on any malformed or
/// out-of-range field: the `file://` prefix, then exactly five
/// colon-separated fields, the last four positive numbers, the start not
/// after the end.
pub open spec fn parse_qlloc(s: Seq<char>) -> Option<QLLocModel> {
    if !"file://"@.is_prefix_of(s) {
        None
    } else {
        let rest = s.skip("file://"@.len() as int);
        match first_index_of(rest, ':') {
            None => None,
            Some(i1) => {
                let path = rest.take(i1);
                let r1 = rest.skip(i1 + 1);
                match first_index_of(r1, ':') {
                    None => None,
                    Some(i2) => {
                        let sl = r1.take(i2);
                        let r2 = r1.skip(i2 + 1);
                        match first_index_of(r2, ':') {
                            None => None,
                            Some(i3) => {
                                let sc = r2.take(i3);
                                let r3 = r2.skip(i3 + 1);
                                match first_index_of(r3, ':') {
                                    None => None,
                                    Some(i4) => {
                                        let el = r3.take(i4);
                                        let ec = r3.skip(i4 + 1);
                                        if first_index_of(ec, ':') is Some {
                                            None
                                        } else {
                                            qlloc_fields(path, sl, sc, el, ec)
                                        }
                                    },
                                }
                            },
                        }
                    },
                }
            },
        }
    }
}

/// The numeric checks of the four coordinate fields.
pub open spec fn qlloc_fields(
    path: Seq<char>,
    sl: Seq<char>,
    sc: Seq<char>,
    el: Seq<char>,
    ec: Seq<char>,
) -> Option<QLLocModel> {
    if is_digit_seq(sl) && digit_seq_val(sl) <= usize::MAX && is_digit_seq(sc) && digit_seq_val(
        sc,
    ) <= usize::MAX && is_digit_seq(el) && digit_seq_val(el) <= usize::MAX && is_digit_seq(ec)
        && digit_seq_val(ec) <= usize::MAX {
        let m = QLLocModel {
            path,
            start_line: digit_seq_val(sl),
            start_column: digit_seq_val(sc),
            end_line: digit_seq_val(el),
            end_column: digit_seq_val(ec),
        };
        if m.start_line > 0 && m.start_column > 0 && m.end_line > 0 && m.end_column > 0 && (
        m.start_line < m.end_line || (m.start_line == m.end_line && m.start_column
            <= m.end_column)) {
            Some(m)
        } else {
            None
        }
    } else {
        None
    }
}

/// Character order on names, shortest first among prefixes.
pub open spec fn lex_cmp(a: Seq<char>, b: Seq<char>) -> core::cmp::Ordering
    decreases a.len(),
{
    if a.len() == 0 && b.len() == 0 {
        core::cmp::Ordering::Equal
    } else if a.len() == 0 {
        core::cmp::Ordering::Less
    } else if b.len() == 0 {
        core::cmp::Ordering::Greater
    } else if a[0] != b[0] {
        if a[0] < b[0] {
            core::cmp::Ordering::Less
        } else {
            core::cmp::Ordering::Greater
        }
    } else {
        lex_cmp(a.drop_first(), b.drop_first())
    }
}

/// Compare two names character by character.
pub fn str_cmp(a: &str, b: &str) -> (r: core::cmp::Ordering)
    ensures
        r == lex_cmp(a@, b@),
    decreases a@.len(),
{
    let an: usize = a.unicode_len();
    let bn: usize = b.unicode_len();
    let mut i: usize = 0;
    proof {
        assert(a@.skip(0) =~= a@);
        assert(b@.skip(0) =~= b@);
    }
    while i < an && i < bn
        invariant
            an == a@.len(),
            bn == b@.len(),
            i <= an,
            i <= bn,
            lex_cmp(a@, b@) == lex_cmp(a@.skip(i as int), b@.skip(i as int)),
        decreases an - i,
    {
        let ca = a.get_char(i);
        let cb = b.get_char(i);
        proof {
            assert(a@.skip(i as int)[0] == a@[i as int]);
            assert(b@.skip(i as int)[0] == b@[i as int]);
            assert(a@.skip(i as int).drop_first() =~= a@.skip(i as int + 1));
            assert(b@.skip(i as int).drop_first() =~= b@.skip(i as int + 1));
        }
        if ca != cb {
            if ca < cb {
                return core::cmp::Ordering::Less;
            } else {
                return core::cmp::Ordering::Greater;
            }
        }
        i = i + 1;
    }
    proof {
        if i >= an {
            assert(a@.skip(i as int).len() == 0);
        } else {
            assert(b@.skip(i as int).len() == 0);
        }
    }
    if an == bn {
        core::cmp::Ordering::Equal
    } else if an < bn {
        core::cmp::Ordering::Less
    } else {
        core::cmp::Ordering::Greater
    }
}

/// The order of two query locations: by file, then start line, start
/// column, end line, end column.
pub open spec fn qlloc_cmp(a: QLLocModel, b: QLLocModel) -> core::cmp::Ordering {
    if lex_cmp(a.path, b.path) != core::cmp::Ordering::Equal {
        lex_cmp(a.path, b.path)
    } else if a.start_line != b.start_line {
        if a.start_line < b.start_line {
            core::cmp::Ordering::Less
        } else {
            core::cmp::Ordering::Greater
        }
    } else if a.start_column != b.start_column {
        if a.start_column < b.start_column {
            core::cmp::Ordering::Less
        } else {
            core::cmp::Ordering::Greater
        }
    } else if a.end_line != b.end_line {
        if a.end_line < b.end_line {
            core::cmp::Ordering::Less
        } else {
            core::cmp::Ordering::Greater
        }
    } else if a.end_column != b.end_column {
        if a.end_column < b.end_column {
            core::cmp::Ordering::Less
        } else {
            core::cmp::Ordering::Greater
        }
    } else {
        core::cmp::Ordering::Equal
    }
}

impl QLLoc {
    /// Whether this location ends strictly before `other` starts.
    pub fn end_before(&self, other: &QLLoc) -> (r: bool)
        ensures
            r == (self@.end_line < other@.start_line || (self@.end_line == other@.start_line
                && self@.end_column < other@.start_column)),
    {
        self.end_line < other.start_line || (self.end_line == other.start_line && self.end_column
            < other.start_column)
    }

    /// Whether this location starts strictly after `other` ends.
    pub fn start_after(&self, other: &QLLoc) -> (r: bool)
        ensures
            r == (self@.start_line > other@.end_line || (self@.start_line == other@.end_line
                && self@.start_column > other@.end_column)),
    {
        self.start_line > other.end_line || (self.start_line == other.end_line
            && self.start_column > other.end_column)
    }

    /// Whether this location starts strictly before `other` starts.
    pub fn start_before(&self, other: &QLLoc) -> (r: bool)
        ensures
            r == (self@.start_line < other@.start_line || (self@.start_line == other@.start_line
                && self@.start_column < other@.start_column)),
    {
        self.start_line < other.start_line || (self.start_line == other.start_line
            && self.start_column < other.start_column)
    }

    /// Whether this location ends strictly after `other` ends.
    pub fn end_after(&self, other: &QLLoc) -> (r: bool)
        ensures
            r == (self@.end_line > other@.end_line || (self@.end_line == other@.end_line
                && self@.end_column > other@.end_column)),
    {
        self.end_line > other.end_line || (self.end_line == other.end_line && self.end_column
            > other.end_column)
    }

    /// Whether this location strictly contains `other`.
    pub fn contains(&self, other: &QLLoc) -> (r: bool)
        ensures
            r == ((self@.start_line < other@.start_line || (self@.start_line == other@.start_line
                && self@.start_column < other@.start_column)) && (self@.end_line > other@.end_line
                || (self@.end_line == other@.end_line && self@.end_column > other@.end_column))),
    {
        self.start_before(other) && self.end_after(other)
    }

    /// The order of two locations: by file, then coordinates.
    pub fn compare(&self, other: &QLLoc) -> (r: core::cmp::Ordering)
        ensures
            r == qlloc_cmp(self@, other@),
    {
        let path_ord = str_cmp(self.file_path.as_str(), other.file_path.as_str());
        match path_ord {
            core::cmp::Ordering::Equal => {
                if self.start_line != other.start_line {
                    if self.start_line < other.start_line {
                        core::cmp::Ordering::Less
                    } else {
                        core::cmp::Ordering::Greater
                    }
                } else if self.start_column != other.start_column {
                    if self.start_column < other.start_column {
                        core::cmp::Ordering::Less
                    } else {
                        core::cmp::Ordering::Greater
                    }
                } else if self.end_line != other.end_line {
                    if self.end_line < other.end_line {
                        core::cmp::Ordering::Less
                    } else {
                        core::cmp::Ordering::Greater
                    }
                } else if self.end_column != other.end_column {
                    if self.end_column < other.end_column {
                        core::cmp::Ordering::Less
                    } else {
                        core::cmp::Ordering::Greater
                    }
                } else {
                    core::cmp::Ordering::Equal
                }
            },
            _ => path_ord,
        }
    }

    /// Read a location string; the structural checks only.
    pub fn from_str(loc_str: &str) -> (r: Result<Self, LocParseError>)
        ensures
            match r {
                Ok(l) => parse_qlloc(loc_str@) == Some(l@),
                Err(_) => parse_qlloc(loc_str@) is None,
            },
    {
        if !str_starts_with(loc_str, "file://") {
            return Err(
                LocParseError::FormatErr(
                    String::from_str("location string lacks the file prefix"),
                ),
            );
        }
        let n: usize = loc_str.unicode_len();
        let plen: usize = "file://".unicode_len();
        let rest = loc_str.substring_char(plen, n);
        proof {
            assert(rest@ =~= loc_str@.skip("file://"@.len() as int));
        }
        let (path_str, r1) = match split_colon(rest) {
            Some(p) => p,
            None => {
                return Err(
                    LocParseError::FormatErr(String::from_str("missing coordinate fields")),
                );
            },
        };
        let (sl_str, r2) = match split_colon(r1) {
            Some(p) => p,
            None => {
                return Err(
                    LocParseError::FormatErr(String::from_str("missing coordinate fields")),
                );
            },
        };
        let (sc_str, r3) = match split_colon(r2) {
            Some(p) => p,
            None => {
                return Err(
                    LocParseError::FormatErr(String::from_str("missing coordinate fields")),
                );
            },
        };
        let (el_str, ec_str) = match split_colon(r3) {
            Some(p) => p,
            None => {
                return Err(
                    LocParseError::FormatErr(String::from_str("missing coordinate fields")),
                );
            },
        };
        match crate::strutil::find_char_idx(ec_str, ':') {
            Some(_) => {
                return Err(
                    LocParseError::FormatErr(String::from_str("too many coordinate fields")),
                );
            },
            None => {},
        }
        let start_line = match parse_usize(sl_str) {
            Some(v) => v,
            None => {
                return Err(LocParseError::FormatErr(String::from_str("malformed start line")));
            },
        };
        let start_column = match parse_usize(sc_str) {
            Some(v) => v,
            None => {
                return Err(LocParseError::FormatErr(String::from_str("malformed start column")));
            },
        };
        let end_line = match parse_usize(el_str) {
            Some(v) => v,
            None => {
                return Err(LocParseError::FormatErr(String::from_str("malformed end line")));
            },
        };
        let end_column = match parse_usize(ec_str) {
            Some(v) => v,
            None => {
                return Err(LocParseError::FormatErr(String::from_str("malformed end column")));
            },
        };
        if start_line == 0 || start_column == 0 || end_line == 0 || end_column == 0 {
            return Err(
                LocParseError::ValueErr(String::from_str("coordinates must be positive")),
            );
        }
        if start_line > end_line || (start_line == end_line && start_column > end_column) {
            return Err(
                LocParseError::ValueErr(
                    String::from_str("start location must not lie after end location"),
                ),
            );
        }
        Ok(Self { file_path: String::from_str(path_str), start_line, start_column, end_line, end_column })
    }
}

/// The statement kinds a query row can name.
#[derive(PartialEq, Eq, Structural, Clone, Copy)]
pub enum StmtType {
    If,
    Switch,
    For,
    While,
    Do,
    Block,
    Decl,
    Expr,
    Return,
    Other,
}

/// The kind named by a row's statement-type field; an unknown name is
/// `Other`.
pub open spec fn stmt_type_spec(s: Seq<char>) -> StmtType {
    if s == "IfStmt"@ {
        StmtType::If
    } else if s == "SwitchStmt"@ {
        StmtType::Switch
    } else if s == "ForStmt"@ {
        StmtType::For
    } else if s == "WhileStmt"@ {
        StmtType::While
    } else if s == "DoStmt"@ {
        StmtType::Do
    } else if s == "BlockStmt"@ {
        StmtType::Block
    } else if s == "DeclStmt"@ {
        StmtType::Decl
    } else if s == "ExprStmt"@ {
        StmtType::Expr
    } else if s == "ReturnStmt"@ {
        StmtType::Return
    } else {
        StmtType::Other
    }
}

impl StmtType {
    pub fn from_str(type_str: &str) -> (r: Self)
        ensures
            r == stmt_type_spec(type_str@),
    {
        if str_eq(type_str, "IfStmt") {
            StmtType::If
        } else if str_eq(type_str, "SwitchStmt") {
            StmtType::Switch
        } else if str_eq(type_str, "ForStmt") {
            StmtType::For
        } else if str_eq(type_str, "WhileStmt") {
            StmtType::While
        } else if str_eq(type_str, "DoStmt") {
            StmtType::Do
        } else if str_eq(type_str, "BlockStmt") {
            StmtType::Block
        } else if str_eq(type_str, "DeclStmt") {
            StmtType::Decl
        } else if str_eq(type_str, "ExprStmt") {
            StmtType::Expr
        } else if str_eq(type_str, "ReturnStmt") {
            StmtType::Return
        } else {
            StmtType::Other
        }
    }
}

/// The construct a block belongs to.
#[derive(PartialEq, Eq, Structural, Clone, Copy)]
pub enum BlockType {
    If,
    Else,
    Switch,
    For,
    While,
    Do,
    Function,
    Scoped,
}

/// The block kind named by a row's field, if the name is known.
pub open spec fn block_type_spec(s: Seq<char>) -> Option<BlockType> {
    if s == "IfBlock"@ {
        Some(BlockType::If)
    } else if s == "ElseBlock"@ {
        Some(BlockType::Else)
    } else if s == "SwitchBlock"@ {
        Some(BlockType::Switch)
    } else if s == "ForBlock"@ {
        Some(BlockType::For)
    } else if s == "WhileBlock"@ {
        Some(BlockType::While)
    } else if s == "DoBlock"@ {
        Some(BlockType::Do)
    } else if s == "FunctionBlock"@ {
        Some(BlockType::Function)
    } else if s == "ScopedBlock"@ {
        Some(BlockType::Scoped)
    } else {
        None
    }
}

impl BlockType {
    pub fn from_str(type_str: &str) -> (r: Result<Self, LocParseError>)
        ensures
            match r {
                Ok(b) => block_type_spec(type_str@) == Some(b),
                Err(_) => block_type_spec(type_str@) is None,
            },
    {
        if str_eq(type_str, "IfBlock") {
            Ok(BlockType::If)
        } else if str_eq(type_str, "ElseBlock") {
            Ok(BlockType::Else)
        } else if str_eq(type_str, "SwitchBlock") {
            Ok(BlockType::Switch)
        } else if str_eq(type_str, "ForBlock") {
            Ok(BlockType::For)
        } else if str_eq(type_str, "WhileBlock") {
            Ok(BlockType::While)
        } else if str_eq(type_str, "DoBlock") {
            Ok(BlockType::Do)
        } else if str_eq(type_str, "FunctionBlock") {
            Ok(BlockType::Function)
        } else if str_eq(type_str, "ScopedBlock") {
            Ok(BlockType::Scoped)
        } else {
            Err(LocParseError::FormatErr(String::from_str("unknown block type")))
        }
    }
}

/// Whether an `if` carries an `else`.
#[derive(PartialEq, Eq, Structural, Clone, Copy)]
pub enum IfType {
    If,
    IfElse,
}

impl IfType {
    pub fn from_str(type_str: &str) -> (r: Result<Self, LocParseError>)
        ensures
            match r {
                Ok(t) => (t is If && type_str@ == "If"@) || (t is IfElse && type_str@
                    == "If-Else"@),
                Err(_) => type_str@ != "If"@ && type_str@ != "If-Else"@,
            },
    {
        if str_eq(type_str, "If") {
            Ok(IfType::If)
        } else if str_eq(type_str, "If-Else") {
            Ok(IfType::IfElse)
        } else {
            Err(LocParseError::FormatErr(String::from_str("unknown if type")))
        }
    }
}

/// A head-controlled or foot-controlled loop.
#[derive(PartialEq, Eq, Structural, Clone, Copy)]
pub enum WhileType {
    While,
    Do,
}

impl WhileType {
    pub fn from_str(type_str: &str) -> (r: Result<Self, LocParseError>)
        ensures
            match r {
                Ok(t) => (t is While && type_str@ == "While"@) || (t is Do && type_str@ == "Do"@),
                Err(_) => type_str@ != "While"@ && type_str@ != "Do"@,
            },
    {
        if str_eq(type_str, "While") {
            Ok(WhileType::While)
        } else if str_eq(type_str, "Do") {
            Ok(WhileType::Do)
        } else {
            Err(LocParseError::FormatErr(String::from_str("unknown while type")))
        }
    }
}

/// Whether a `for` opens with an initialiser.
#[derive(PartialEq, Eq, Structural, Clone, Copy)]
pub enum ForType {
    InitFor,
    NoInitFor,
}

impl ForType {
    pub fn from_str(type_str: &str) -> (r: Result<Self, LocParseError>)
        ensures
            match r {
                Ok(t) => (t is InitFor && type_str@ == "InitFor"@) || (t is NoInitFor && type_str@
                    == "NoInitFor"@),
                Err(_) => type_str@ != "InitFor"@ && type_str@ != "NoInitFor"@,
            },
    {
        if str_eq(type_str, "InitFor") {
            Ok(ForType::InitFor)
        } else if str_eq(type_str, "NoInitFor") {
            Ok(ForType::NoInitFor)
        } else {
            Err(LocParseError::FormatErr(String::from_str("unknown for type")))
        }
    }
}

/// A child statement: its location and kind.
pub struct ChildEntry {
    pub loc: QLLoc,
    pub stmt_type: StmtType,
}

impl ChildEntry {
    /// Build a child entry from a location row and a kind name.
    pub fn from_loc_and_type(loc_str: &str, type_str: &str) -> (r: Result<Self, LocParseError>)
        ensures
            match r {
                Ok(e) => parse_qlloc(loc_str@) == Some(e.loc@) && e.stmt_type == stmt_type_spec(
                    type_str@,
                ),
                Err(_) => parse_qlloc(loc_str@) is None,
            },
    {
        let loc = match QLLoc::from_str(loc_str) {
            Ok(l) => l,
            Err(e) => {
                return Err(e);
            },
        };
        let stmt_type = StmtType::from_str(type_str);
        Ok(Self { loc, stmt_type })
    }

    /// The entry standing for a block statement.
    pub fn from_block_stmt(block: &BlockStmt) -> (r: Self)
        ensures
            r.loc@ == block.loc@,
            r.stmt_type is Block,
    {
        Self { loc: clone_qlloc(&block.loc), stmt_type: StmtType::Block }
    }
}

/// A block statement: its span and what construct owns it.
pub struct BlockStmt {
    pub loc: QLLoc,
    pub block_type: BlockType,
}

impl BlockStmt {
    pub fn from_loc_and_type(loc_str: &str, type_str: &str) -> (r: Result<Self, LocParseError>)
        ensures
            match r {
                Ok(b) => parse_qlloc(loc_str@) == Some(b.loc@) && block_type_spec(type_str@)
                    == Some(b.block_type),
                Err(_) => parse_qlloc(loc_str@) is None || block_type_spec(type_str@) is None,
            },
    {
        let loc = match QLLoc::from_str(loc_str) {
            Ok(l) => l,
            Err(e) => {
                return Err(e);
            },
        };
        let block_type = match BlockType::from_str(type_str) {
            Ok(b) => b,
            Err(e) => {
                return Err(e);
            },
        };
        Ok(Self { loc, block_type })
    }

    pub fn is_function_block(&self) -> (r: bool)
        ensures
            r == (self.block_type is Function),
    {
        matches!(self.block_type, BlockType::Function)
    }
}

/// An `if` statement: its span, its condition, its branches.
pub struct IfStmt {
    pub loc: QLLoc,
    pub if_type: IfType,
    pub cond_loc: QLLoc,
    pub then_entry: ChildEntry,
    pub else_entry: Option<ChildEntry>,
}

impl IfStmt {
    /// Build an `if` from its row; an `If-Else` row reads its branch
    /// from the first `else` row bound to the same location.  An error
    /// is owed exactly when the span, kind, condition or then-branch
    /// field is malformed, or an `If-Else` row finds no bound `else`
    /// row, or the bound row's branch location is malformed.
    pub fn from_if_else_record(if_record: &IfRecord, else_map: &ElseRecMap) -> (r: Result<
        Self,
        LocParseError,
    >)
        ensures
            match r {
                Ok(s) => parse_qlloc(if_record.loc@) == Some(s.loc@) && ((s.if_type is If
                    && if_record.if_type@ == "If"@) || (s.if_type is IfElse && if_record.if_type@
                    == "If-Else"@)) && parse_qlloc(if_record.condition_loc@) == Some(s.cond_loc@)
                    && parse_qlloc(if_record.then_stmt_loc@) == Some(s.then_entry.loc@)
                    && s.then_entry.stmt_type == stmt_type_spec(if_record.then_stmt_type@) && (
                s.if_type is If ==> s.else_entry is None) && (s.if_type is IfElse ==> (
                crate::code_query::first_else(
                    crate::code_query::else_models(else_map@),
                    if_record.loc@,
                ) matches Some(eb) && s.else_entry matches Some(e) && parse_qlloc(eb.0) == Some(
                    e.loc@,
                ) && e.stmt_type == stmt_type_spec(eb.1))),
                Err(_) => parse_qlloc(if_record.loc@) is None || (if_record.if_type@ != "If"@
                    && if_record.if_type@ != "If-Else"@) || parse_qlloc(if_record.condition_loc@)
                    is None || parse_qlloc(if_record.then_stmt_loc@) is None || (
                if_record.if_type@ == "If-Else"@ && match crate::code_query::first_else(
                    crate::code_query::else_models(else_map@),
                    if_record.loc@,
                ) {
                    Some(eb) => parse_qlloc(eb.0) is None,
                    None => true,
                }),
            },
    {
        let loc = match QLLoc::from_str(if_record.loc.as_str()) {
            Ok(l) => l,
            Err(e) => {
                return Err(e);
            },
        };
        let if_type = match IfType::from_str(if_record.if_type.as_str()) {
            Ok(t) => t,
            Err(e) => {
                return Err(e);
            },
        };
        let cond_loc = match QLLoc::from_str(if_record.condition_loc.as_str()) {
            Ok(l) => l,
            Err(e) => {
                return Err(e);
            },
        };
        let then_entry = match ChildEntry::from_loc_and_type(
            if_record.then_stmt_loc.as_str(),
            if_record.then_stmt_type.as_str(),
        ) {
            Ok(t) => t,
            Err(e) => {
                return Err(e);
            },
        };
        let else_entry: Option<ChildEntry> = if matches!(if_type, IfType::IfElse) {
            match crate::code_query::lookup_else(else_map, if_record.loc.as_str()) {
                Some(else_record) => {
                    match ChildEntry::from_loc_and_type(
                        else_record.else_stmt_loc.as_str(),
                        else_record.else_stmt_type.as_str(),
                    ) {
                        Ok(e) => Some(e),
                        Err(e) => {
                            return Err(e);
                        },
                    }
                },
                None => {
                    return Err(
                        LocParseError::ValueErr(
                            String::from_str("an if-else row has no matching else row"),
                        ),
                    );
                },
            }
        } else {
            None
        };
        Ok(Self { loc, if_type, cond_loc, then_entry, else_entry })
    }
}

/// A `switch` statement: its span and its selector expression.
pub struct SwitchStmt {
    pub loc: QLLoc,
    pub expr_loc: QLLoc,
}

impl SwitchStmt {
    pub fn from_loc_and_expr(loc_str: &str, expr_loc_str: &str) -> (r: Result<
        Self,
        LocParseError,
    >)
        ensures
            match r {
                Ok(s) => parse_qlloc(loc_str@) == Some(s.loc@) && parse_qlloc(expr_loc_str@)
                    == Some(s.expr_loc@),
                Err(_) => parse_qlloc(loc_str@) is None || parse_qlloc(expr_loc_str@) is None,
            },
    {
        let loc = match QLLoc::from_str(loc_str) {
            Ok(l) => l,
            Err(e) => {
                return Err(e);
            },
        };
        let expr_loc = match QLLoc::from_str(expr_loc_str) {
            Ok(l) => l,
            Err(e) => {
                return Err(e);
            },
        };
        Ok(Self { loc, expr_loc })
    }
}

/// A `while` or `do` loop: its span, its condition, its body.
pub struct WhileStmt {
    pub loc: QLLoc,
    pub while_type: WhileType,
    pub cond_loc: QLLoc,
    pub body_entry: ChildEntry,
}

impl WhileStmt {
    /// Build a loop from its row; an error is owed exactly when the
    /// span, kind, condition or body field is malformed.
    pub fn from_record(record: &WhileRecord) -> (r: Result<Self, LocParseError>)
        ensures
            match r {
                Ok(s) => parse_qlloc(record.loc@) == Some(s.loc@) && ((s.while_type is While
                    && record.while_type@ == "While"@) || (s.while_type is Do
                    && record.while_type@ == "Do"@)) && parse_qlloc(record.cond_loc@) == Some(
                    s.cond_loc@,
                ) && parse_qlloc(record.body_loc@) == Some(s.body_entry.loc@)
                    && s.body_entry.stmt_type == stmt_type_spec(record.body_type@),
                Err(_) => parse_qlloc(record.loc@) is None || (record.while_type@ != "While"@
                    && record.while_type@ != "Do"@) || parse_qlloc(record.cond_loc@) is None
                    || parse_qlloc(record.body_loc@) is None,
            },
    {
        let loc = match QLLoc::from_str(record.loc.as_str()) {
            Ok(l) => l,
            Err(e) => {
                return Err(e);
            },
        };
        let while_type = match WhileType::from_str(record.while_type.as_str()) {
            Ok(t) => t,
            Err(e) => {
                return Err(e);
            },
        };
        let cond_loc = match QLLoc::from_str(record.cond_loc.as_str()) {
            Ok(l) => l,
            Err(e) => {
                return Err(e);
            },
        };
        let body_entry = match ChildEntry::from_loc_and_type(
            record.body_loc.as_str(),
            record.body_type.as_str(),
        ) {
            Ok(t) => t,
            Err(e) => {
                return Err(e);
            },
        };
        Ok(Self { loc, while_type, cond_loc, body_entry })
    }
}

/// A `for` loop: its span, its optional header parts, its body.
pub struct ForStmt {
    pub loc: QLLoc,
    pub init_loc: Option<QLLoc>,
    pub cond_loc: Option<QLLoc>,
    pub update_loc: Option<QLLoc>,
    pub body_entry: ChildEntry,
}

impl ForStmt {
    /// Build a `for` from its row; each header part comes from the
    /// first row its map binds to the statement's location, an absent
    /// binding meaning an empty part.  An error is owed exactly when the
    /// span or body field, or a bound part's location, is malformed.
    pub fn from_for_record_and_maps(
        record: &ForRecord,
        init_map: &ForPartMap,
        cond_map: &ForPartMap,
        update_map: &ForPartMap,
    ) -> (r: Result<Self, LocParseError>)
        ensures
            match r {
                Ok(s) => parse_qlloc(record.loc@) == Some(s.loc@) && parse_qlloc(record.body_loc@)
                    == Some(s.body_entry.loc@) && s.body_entry.stmt_type == stmt_type_spec(
                    record.body_type@,
                ) && for_part_built(
                    s.init_loc,
                    crate::code_query::first_part(
                        crate::code_query::part_models(init_map@),
                        record.loc@,
                    ),
                ) && for_part_built(
                    s.cond_loc,
                    crate::code_query::first_part(
                        crate::code_query::part_models(cond_map@),
                        record.loc@,
                    ),
                ) && for_part_built(
                    s.update_loc,
                    crate::code_query::first_part(
                        crate::code_query::part_models(update_map@),
                        record.loc@,
                    ),
                ),
                Err(_) => parse_qlloc(record.loc@) is None || parse_qlloc(record.body_loc@)
                    is None || for_part_bad(
                    crate::code_query::first_part(
                        crate::code_query::part_models(init_map@),
                        record.loc@,
                    ),
                ) || for_part_bad(
                    crate::code_query::first_part(
                        crate::code_query::part_models(cond_map@),
                        record.loc@,
                    ),
                ) || for_part_bad(
                    crate::code_query::first_part(
                        crate::code_query::part_models(update_map@),
                        record.loc@,
                    ),
                ),
            },
    {
        let loc = match QLLoc::from_str(record.loc.as_str()) {
            Ok(l) => l,
            Err(e) => {
                return Err(e);
            },
        };
        let body_entry = match ChildEntry::from_loc_and_type(
            record.body_loc.as_str(),
            record.body_type.as_str(),
        ) {
            Ok(t) => t,
            Err(e) => {
                return Err(e);
            },
        };
        let init_loc = match crate::code_query::lookup_part(init_map, record.loc.as_str()) {
            Some(init_loc_str) => {
                match QLLoc::from_str(init_loc_str.as_str()) {
                    Ok(l) => Some(l),
                    Err(e) => {
                        return Err(e);
                    },
                }
            },
            None => None,
        };
        let cond_loc = match crate::code_query::lookup_part(cond_map, record.loc.as_str()) {
            Some(cond_loc_str) => {
                match QLLoc::from_str(cond_loc_str.as_str()) {
                    Ok(l) => Some(l),
                    Err(e) => {
                        return Err(e);
                    },
                }
            },
            None => None,
        };
        let update_loc = match crate::code_query::lookup_part(update_map, record.loc.as_str()) {
            Some(update_loc_str) => {
                match QLLoc::from_str(update_loc_str.as_str()) {
                    Ok(l) => Some(l),
                    Err(e) => {
                        return Err(e);
                    },
                }
            },
            None => None,
        };
        Ok(Self { loc, init_loc, cond_loc, update_loc, body_entry })
    }
}

/// A built header part matches its binding: absent where unbound, else
/// the parse of the bound location string.
pub open spec fn for_part_built(part: Option<QLLoc>, bound: Option<Seq<char>>) -> bool {
    match bound {
        None => part is None,
        Some(loc_str) => part matches Some(l) && parse_qlloc(loc_str) == Some(l@),
    }
}

/// A bound header part whose location string is malformed.
pub open spec fn for_part_bad(bound: Option<Seq<char>>) -> bool {
    bound matches Some(loc_str) && parse_qlloc(loc_str) is None
}

/// A structural copy of a query location.
fn clone_qlloc(l: &QLLoc) -> (r: QLLoc)
    ensures
        r@ == l@,
{
    QLLoc {
        file_path: l.file_path.clone(),
        start_line: l.start_line,
        start_column: l.start_column,
        end_line: l.end_line,
        end_column: l.end_column,
    }
}

/// Split a slice at its first colon.
fn split_colon(s: &str) -> (r: Option<(&str, &str)>)
    ensures
        match r {
            Some((a, b)) => first_index_of(s@, ':') matches Some(i) && a@ == s@.take(i) && b@
                == s@.skip(i + 1),
            None => first_index_of(s@, ':') is None,
        },
{
    let n: usize = s.unicode_len();
    match crate::strutil::find_char_idx(s, ':') {
        Some(i) => {
            proof {
                lemma_first_index_of(s@, ':');
            }
            Some((s.substring_char(0, i), s.substring_char(i + 1, n)))
        },
        None => None,
    }
}

} // verus!
