//! The constraint a replay is held against: a source file and a range in
//! it.  A value-hit whose location falls inside the range counts toward
//! the replay's truncation threshold.

use vstd::prelude::*;

use crate::loc::{loc_inside_range, LocModel, Range};
use crate::strutil::is_space_char;

verus! {

/// Mathematical model of a constraint.
pub struct ConsModel {
    pub cond_expr: Seq<char>,
    pub res: bool,
    pub fpath: Seq<char>,
    pub range: Seq<usize>,
    pub func_name: Seq<char>,
    pub slice: Seq<char>,
    pub macro_mapping: Seq<(Seq<char>, Seq<char>)>,
}

/// One branch condition of the target source, with the file and range it
/// spans, the function that holds it, and the macro expansions seen in it.
pub struct Constraint {
    cond_expr: String,
    res: bool,
    fpath: String,
    range: Range,
    func_name: String,
    slice: String,
    macro_mapping: Vec<(String, String)>,
}

impl View for Constraint {
    type V = ConsModel;

    closed spec fn view(&self) -> ConsModel {
        ConsModel {
            cond_expr: self.cond_expr@,
            res: self.res,
            fpath: self.fpath@,
            range: self.range@,
            func_name: self.func_name@,
            slice: self.slice@,
            macro_mapping: self.macro_mapping@.map_values(|p: (String, String)| (p.0@, p.1@)),
        }
    }
}

/// Whether a value-hit location counts for constraint `c`.
pub open spec fn cons_is_hit(c: ConsModel, v: LocModel) -> bool {
    loc_inside_range(v, c.range, c.fpath)
}

/// An ASCII character kept as-is in a constraint-derived file name.
pub open spec fn fname_keeps_char(c: char) -> bool {
    ('a' <= c && c <= 'z') || ('A' <= c && c <= 'Z') || ('0' <= c && c <= '9') || is_space_char(c)
}

/// Relies on `String::from_utf8`: bytes below 128 decode to the
/// characters with the same code points.
#[verifier::external_body]
fn ascii_bytes_to_string(v: &Vec<u8>) -> (r: String)
    requires
        forall|i: int| 0 <= i < v@.len() ==> v@[i] < 128,
    ensures
        r@ == v@.map_values(|b: u8| b as char),
{
    String::from_utf8(v.clone()).unwrap_or_default()
}

impl Constraint {
    pub fn new(
        cond_expr: String,
        res: bool,
        fpath: String,
        range: Range,
        func_name: String,
        slice: String,
        macro_mapping: Vec<(String, String)>,
    ) -> (r: Self)
        ensures
            r@ == (ConsModel {
                cond_expr: cond_expr@,
                res,
                fpath: fpath@,
                range: range@,
                func_name: func_name@,
                slice: slice@,
                macro_mapping: macro_mapping@.map_values(|p: (String, String)| (p.0@, p.1@)),
            }),
    {
        Self { cond_expr, res, fpath, range, func_name, slice, macro_mapping }
    }

    pub fn get_func_name(&self) -> (r: &String)
        ensures
            r@ == self@.func_name,
    {
        &self.func_name
    }

    pub fn get_fpath(&self) -> (r: &String)
        ensures
            r@ == self@.fpath,
    {
        &self.fpath
    }

    pub fn get_range(&self) -> (r: &Range)
        ensures
            r@ == self@.range,
    {
        &self.range
    }

    /// Whether a value hit falls inside this constraint's range of its
    /// file; such a hit counts toward the truncation threshold.
    pub fn is_hit(&self, val_hit: &crate::tree::ValueHit) -> (r: bool)
        ensures
            r == cons_is_hit(self@, val_hit@),
    {
        val_hit.get_loc().inside_range(&self.range, self.fpath.as_str())
    }

    /// The condition expression with every character that is not an
    /// ASCII letter, digit or whitespace replaced by `%`, so that it can
    /// stand in a file name.
    pub fn get_cond_expr_in_fname(&self) -> (r: String)
        ensures
            r@ == self@.cond_expr.map_values(
                |c: char| if fname_keeps_char(c) { c } else { '%' },
            ),
    {
        let s = self.cond_expr.as_str();
        let n: usize = s.unicode_len();
        let mut out: Vec<u8> = Vec::new();
        let mut i: usize = 0;
        while i < n
            invariant
                n == s@.len(),
                i <= n,
                out@.len() == i,
                forall|j: int| 0 <= j < i ==> out@[j] < 128,
                forall|j: int| 0 <= j < i ==> #[trigger] (out@[j] as char) == (
                if fname_keeps_char(s@[j]) { s@[j] } else { '%' }),
            decreases n - i,
        {
            let c = s.get_char(i);
            let keep: bool = ('a' <= c && c <= 'z') || ('A' <= c && c <= 'Z') || ('0' <= c && c
                <= '9') || crate::strutil::is_space(c);
            if keep {
                out.push(c as u8);
                proof {
                    assert((c as u8) as char == c);
                }
            } else {
                out.push('%' as u8);
                proof {
                    assert(('%' as u8) as char == '%');
                }
            }
            i = i + 1;
        }
        let r = ascii_bytes_to_string(&out);
        proof {
            assert(r@ =~= self@.cond_expr.map_values(
                |c: char| if fname_keeps_char(c) { c } else { '%' },
            ));
        }
        r
    }

    /// One `key: value` line per macro expansion, in recorded order.
    pub fn get_macro_map_str(&self) -> (r: String)
        ensures
            r@ == macro_lines(self@.macro_mapping, self@.macro_mapping.len() as int),
    {
        let mut res = String::new();
        let n: usize = self.macro_mapping.len();
        let mut i: usize = 0;
        while i < n
            invariant
                n == self.macro_mapping@.len(),
                i <= n,
                res@ == macro_lines(self@.macro_mapping, i as int),
            decreases n - i,
        {
            let pair = &self.macro_mapping[i];
            res.append(pair.0.as_str());
            res.append(": ");
            res.append(pair.1.as_str());
            res.append("\n");
            i = i + 1;
        }
        res
    }

    /// A named fenced section of a report.
    pub fn show_section(sec_name: &str, sec_content: &str) -> (r: String)
        ensures
            r@ == "\n### "@ + sec_name@ + "\n\n```c\n"@ + sec_content@ + "\n```\n"@,
    {
        let mut res = String::new();
        res.append("\n### ");
        res.append(sec_name);
        res.append("\n\n```c\n");
        res.append(sec_content);
        res.append("\n```\n");
        res
    }
}

/// The first `k` macro pairs rendered as `key: value` lines.
pub open spec fn macro_lines(pairs: Seq<(Seq<char>, Seq<char>)>, k: int) -> Seq<char>
    decreases k,
{
    if k <= 0 {
        Seq::empty()
    } else {
        macro_lines(pairs, k - 1) + pairs[k - 1].0 + ": "@ + pairs[k - 1].1 + "\n"@
    }
}

} // verus!
