//! Source locations carried by guard-trace lines.
//!
//! A location is either the null literal (`NullLoc`/`null`, in any case)
//! or `path:line:col` with 1-based line and column.

use vstd::prelude::*;

use crate::error::GuardParseError;
use crate::strutil::{
    digit_seq_val, eq_lowered, is_digit_seq, lower_seq, parse_usize, rfind_char, trim, trimmed,
};

verus! {

/// A pair `[line, column]`.
pub type Loc = [usize; 2];

/// A source range `[start_line, start_col, end_line, end_col]`.
pub type Range = [usize; 4];

/// `[line, col]` order: by line, then by column.
pub open spec fn loc_le(a: Seq<usize>, b: Seq<usize>) -> bool {
    a[0] < b[0] || (a[0] == b[0] && a[1] <= b[1])
}

pub trait LocTrait {
    fn is_less_equal(&self, loc: &Loc) -> (r: bool)
        ensures
            r == loc_le(self.loc_view(), loc@),
    ;

    spec fn loc_view(&self) -> Seq<usize>;
}

impl LocTrait for Loc {
    open spec fn loc_view(&self) -> Seq<usize> {
        self@
    }

    fn is_less_equal(&self, loc: &Loc) -> (r: bool) {
        if self[0] != loc[0] {
            return self[0] < loc[0];
        }
        self[1] <= loc[1]
    }
}

/// Mathematical model of a source location.
pub enum LocModel {
    Null,
    At { path: Seq<char>, line: nat, col: nat },
}

pub enum SrcLoc {
    NullLoc,
    Valid { fpath: String, line: usize, col: usize },
}

impl View for SrcLoc {
    type V = LocModel;

    open spec fn view(&self) -> LocModel {
        match self {
            SrcLoc::NullLoc => LocModel::Null,
            SrcLoc::Valid { fpath, line, col } => LocModel::At {
                path: fpath@,
                line: *line as nat,
                col: *col as nat,
            },
        }
    }
}

/// A model location that names a real place: a non-empty path and
/// 1-based line and column.
pub open spec fn loc_model_valid(m: LocModel) -> bool {
    match m {
        LocModel::Null => false,
        LocModel::At { path, line, col } => path.len() > 0 && line > 0 && col > 0,
    }
}

/// Index of the last occurrence of `c` in `s`, if any.
pub open spec fn last_index_of(s: Seq<char>, c: char) -> Option<int>
    decreases s.len(),
{
    if s.len() == 0 {
        None
    } else if s.last() == c {
        Some(s.len() - 1)
    } else {
        last_index_of(s.drop_last(), c)
    }
}

pub proof fn lemma_last_index_of(s: Seq<char>, c: char)
    ensures
        match last_index_of(s, c) {
            Some(i) => 0 <= i < s.len() && s[i] == c && forall|j: int| i < j < s.len() ==> s[j] != c,
            None => forall|j: int| 0 <= j < s.len() ==> s[j] != c,
        },
    decreases s.len(),
{
    if s.len() > 0 && s.last() != c {
        lemma_last_index_of(s.drop_last(), c);
        assert(forall|j: int| 0 <= j < s.len() - 1 ==> #[trigger] s[j] == s.drop_last()[j]);
    }
}

/// The result of reading a location string: `None` on a malformed field.
pub open spec fn parse_loc_spec(s: Seq<char>) -> Option<LocModel> {
    if lower_seq(s) == "nullloc"@ || lower_seq(s) == "null"@ {
        Some(LocModel::Null)
    } else {
        match last_index_of(s, ':') {
            None => None,
            Some(i) => {
                let col_s = s.subrange(i + 1, s.len() as int);
                let rest = s.subrange(0, i);
                match last_index_of(rest, ':') {
                    None => None,
                    Some(j) => {
                        let line_s = rest.subrange(j + 1, rest.len() as int);
                        let path_s = rest.subrange(0, j);
                        if is_digit_seq(col_s) && digit_seq_val(col_s) <= usize::MAX
                            && is_digit_seq(line_s) && digit_seq_val(line_s) <= usize::MAX {
                            Some(
                                LocModel::At {
                                    path: path_s,
                                    line: digit_seq_val(line_s),
                                    col: digit_seq_val(col_s),
                                },
                            )
                        } else {
                            None
                        }
                    },
                }
            },
        }
    }
}

impl SrcLoc {
    pub fn get_src_path(&self) -> (r: Option<&String>)
        ensures
            match r {
                Some(p) => self@ matches LocModel::At { path, .. } && p@ == path,
                None => self@ is Null,
            },
    {
        match self {
            SrcLoc::NullLoc => None,
            SrcLoc::Valid { fpath, .. } => Some(fpath),
        }
    }

    pub fn get_line(&self) -> (r: Option<usize>)
        ensures
            match r {
                Some(n) => self@ matches LocModel::At { line, .. } && n == line,
                None => self@ is Null,
            },
    {
        match self {
            SrcLoc::NullLoc => None,
            SrcLoc::Valid { line, .. } => Some(*line),
        }
    }

    pub fn get_col(&self) -> (r: Option<usize>)
        ensures
            match r {
                Some(n) => self@ matches LocModel::At { col, .. } && n == col,
                None => self@ is Null,
            },
    {
        match self {
            SrcLoc::NullLoc => None,
            SrcLoc::Valid { col, .. } => Some(*col),
        }
    }

    pub fn is_valid(&self) -> (r: bool)
        ensures
            r == loc_model_valid(self@),
    {
        match self {
            SrcLoc::NullLoc => false,
            SrcLoc::Valid { fpath, line, col } => fpath.as_str().unicode_len() > 0 && *line > 0
                && *col > 0,
        }
    }

    /// Whether this location lies inside `rng` of the file `fpath`:
    /// only a valid location in that same file, at or after the range's
    /// start and at or before its end.
    pub fn inside_range(&self, rng: &Range, fpath: &str) -> (r: bool)
        ensures
            r == loc_inside_range(self@, rng@, fpath@),
    {
        if !self.is_valid() {
            return false;
        }
        match self {
            SrcLoc::NullLoc => false,
            SrcLoc::Valid { fpath: own_path, line, col } => {
                if !crate::strutil::str_eq(own_path.as_str(), fpath) {
                    return false;
                }
                let sloc: Loc = [rng[0], rng[1]];
                let eloc: Loc = [rng[2], rng[3]];
                let here: Loc = [*line, *col];
                let r = sloc.is_less_equal(&here) && here.is_less_equal(&eloc);
                proof {
                    assert(sloc@ =~= seq![rng@[0], rng@[1]]);
                    assert(eloc@ =~= seq![rng@[2], rng@[3]]);
                    assert(here@ =~= seq![*line, *col]);
                }
                r
            },
        }
    }

    /// Read a location string: the null literal in any case, or
    /// `path:line:col` split at the last two colons.
    pub fn from_str(s: &str) -> (r: Result<Self, GuardParseError>)
        ensures
            match r {
                Ok(loc) => parse_loc_spec(s@) == Some(loc@),
                Err(e) => parse_loc_spec(s@) is None && e is ParseError,
            },
    {
        if eq_lowered(s, "nullloc") || eq_lowered(s, "null") {
            return Ok(SrcLoc::NullLoc);
        }
        proof {
            lemma_last_index_of(s@, ':');
        }
        let i = match rfind_char(s, ':') {
            Some(i) => i,
            None => {
                return Err(
                    GuardParseError::as_parse_err(
                        String::from_str("missing column in source location"),
                    ),
                );
            },
        };
        assert(last_index_of(s@, ':') == Some(i as int));
        let n: usize = s.unicode_len();
        let col_str = s.substring_char(i + 1, n);
        let rest = s.substring_char(0, i);
        proof {
            lemma_last_index_of(rest@, ':');
        }
        let j = match rfind_char(rest, ':') {
            Some(j) => j,
            None => {
                return Err(
                    GuardParseError::as_parse_err(
                        String::from_str("missing file path in source location"),
                    ),
                );
            },
        };
        assert(last_index_of(rest@, ':') == Some(j as int));
        let line_str = rest.substring_char(j + 1, rest.unicode_len());
        let fpath_str = rest.substring_char(0, j);
        let col = match parse_usize(col_str) {
            Some(c) => c,
            None => {
                return Err(
                    GuardParseError::as_parse_err(String::from_str("malformed column number")),
                );
            },
        };
        let line = match parse_usize(line_str) {
            Some(l) => l,
            None => {
                return Err(
                    GuardParseError::as_parse_err(String::from_str("malformed line number")),
                );
            },
        };
        Ok(SrcLoc::Valid { fpath: String::from_str(fpath_str), line, col })
    }

    /// Read a location that must stand after `prefix` on the line;
    /// a line that does not start with `prefix` is a recoverable mismatch.
    pub fn parse_line_with_prefix(line: &str, prefix: &str) -> (r: Result<Self, GuardParseError>)
        ensures
            match r {
                Ok(loc) => prefix@.is_prefix_of(line@) && parse_loc_spec(
                    trimmed(line@.skip(prefix@.len() as int)),
                ) == Some(loc@),
                Err(e) => match e {
                    GuardParseError::PrefixError { .. } => !prefix@.is_prefix_of(line@),
                    GuardParseError::ParseError { .. } => prefix@.is_prefix_of(line@)
                        && parse_loc_spec(trimmed(line@.skip(prefix@.len() as int))) is None,
                    GuardParseError::SkipError { .. } => false,
                },
            },
{
        if !crate::strutil::str_starts_with(line, prefix) {
            return Err(
                GuardParseError::as_prefix_err(
                    String::from_str("line does not start with the expected prefix"),
                ),
            );
        }
        let tail = line.substring_char(prefix.unicode_len(), line.unicode_len());
        assert(tail@ =~= line@.skip(prefix@.len() as int));
        let loc_str = trim(tail);
        Self::from_str(loc_str)
    }

    /// A location built from a coverage pair on a known file.
    pub fn from_cov_loc(cov_loc: &Loc, fpath: &str) -> (r: Self)
        ensures
            r@ == (LocModel::At {
                path: fpath@,
                line: cov_loc@[0] as nat,
                col: cov_loc@[1] as nat,
            }),
    {
        SrcLoc::Valid { fpath: String::from_str(fpath), line: cov_loc[0], col: cov_loc[1] }
    }
}

/// Whether model location `m` lies inside range `rng` of file `fpath`.
pub open spec fn loc_inside_range(m: LocModel, rng: Seq<usize>, fpath: Seq<char>) -> bool {
    match m {
        LocModel::Null => false,
        LocModel::At { path, line, col } => loc_model_valid(m) && path == fpath && (rng[0] < line
            || (rng[0] == line && rng[1] <= col)) && (line < rng[2] || (line == rng[2] && col
            <= rng[3])),
    }
}

/// A contiguous region of one source file, with the function that owns it.
pub struct SrcRegion {
    start: SrcLoc,
    end: SrcLoc,
    func_name: String,
}

/// Mathematical model of a source region.
pub struct RegionModel {
    pub start: LocModel,
    pub end: LocModel,
    pub func_name: Seq<char>,
}

impl View for SrcRegion {
    type V = RegionModel;

    closed spec fn view(&self) -> RegionModel {
        RegionModel { start: self.start@, end: self.end@, func_name: self.func_name@ }
    }
}

impl SrcRegion {
    /// Build a region of `fpath` from a coverage range; the start must
    /// not lie after the end.
    pub fn from_range(rng: &Range, fpath: &str, func_name: &str) -> (r: Result<
        Self,
        GuardParseError,
    >)
        ensures
            match r {
                Ok(region) => loc_le(seq![rng@[0], rng@[1]], seq![rng@[2], rng@[3]])
                    && region@.start == (LocModel::At {
                    path: fpath@,
                    line: rng@[0] as nat,
                    col: rng@[1] as nat,
                }) && region@.end == (LocModel::At {
                    path: fpath@,
                    line: rng@[2] as nat,
                    col: rng@[3] as nat,
                }) && region@.func_name == func_name@,
                Err(_) => !loc_le(seq![rng@[0], rng@[1]], seq![rng@[2], rng@[3]]),
            },
    {
        let sloc: Loc = [rng[0], rng[1]];
        let eloc: Loc = [rng[2], rng[3]];
        proof {
            assert(sloc@ =~= seq![rng@[0], rng@[1]]);
            assert(eloc@ =~= seq![rng@[2], rng@[3]]);
        }
        if !sloc.is_less_equal(&eloc) {
            return Err(
                GuardParseError::as_parse_err(
                    String::from_str("start location must not lie after end location"),
                ),
            );
        }
        let start_loc = SrcLoc::from_cov_loc(&sloc, fpath);
        let end_loc = SrcLoc::from_cov_loc(&eloc, fpath);
        Ok(Self { start: start_loc, end: end_loc, func_name: String::from_str(func_name) })
    }

    pub fn get_src_fpath(&self) -> (r: Option<String>)
        ensures
            match r {
                Some(p) => self@.start matches LocModel::At { path, .. } && p@ == path,
                None => self@.start is Null,
            },
    {
        match self.start.get_src_path() {
            Some(p) => Some(p.clone()),
            None => None,
        }
    }

    pub fn get_func_name(&self) -> (r: &String)
        ensures
            r@ == self@.func_name,
    {
        &self.func_name
    }

    /// Whether this region belongs to a constraint: same source file,
    /// same owning function.
    pub fn is_related_to_cons(&self, cons: &crate::constraints::Constraint) -> (r: bool)
        ensures
            r == (self@.start matches LocModel::At { path, .. } && path == cons@.fpath
                && self@.func_name == cons@.func_name),
    {
        match self.start.get_src_path() {
            None => false,
            Some(p) => crate::strutil::str_eq(p.as_str(), cons.get_fpath().as_str())
                && crate::strutil::str_eq(self.func_name.as_str(), cons.get_func_name().as_str()),
        }
    }
}

} // verus!
