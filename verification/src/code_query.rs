//! Plain records as an external source-query engine reports them: one
//! row per statement, every field a string.  The statement model in
//! `stmts` is built from these.

use vstd::prelude::*;

verus! {

pub struct IfRecord {
    pub loc: String,
    pub if_type: String,
    pub condition_loc: String,
    pub then_stmt_loc: String,
    pub then_stmt_type: String,
    pub function: String,
    pub file_path: String,
}

pub struct ElseRecord {
    pub loc: String,
    pub else_stmt_loc: String,
    pub else_stmt_type: String,
    pub function: String,
    pub file_path: String,
}

pub struct WhileRecord {
    pub loc: String,
    pub while_type: String,
    pub cond_loc: String,
    pub body_loc: String,
    pub body_type: String,
    pub func_name: String,
    pub file_path: String,
}

pub struct ForRecord {
    pub loc: String,
    pub body_loc: String,
    pub body_type: String,
    pub func_name: String,
    pub file_path: String,
}

pub struct ForInitRecord {
    pub loc: String,
    pub init_loc: String,
    pub func_name: String,
    pub file_path: String,
}

pub struct ForCondRecord {
    pub loc: String,
    pub cond_loc: String,
    pub func_name: String,
    pub file_path: String,
}

pub struct ForUpdateRecord {
    pub loc: String,
    pub update_loc: String,
    pub func_name: String,
    pub file_path: String,
}

/// A keyed list of `else` rows, looked up by the `if` statement's
/// location string.
pub type ElseRecMap = Vec<(String, ElseRecord)>;

/// A keyed list of location strings, one per `for` statement.
pub type ForPartMap = Vec<(String, String)>;

/// The models of the `for`-part rows: key and bound location string.
pub open spec fn part_models(map: Seq<(String, String)>) -> Seq<(Seq<char>, Seq<char>)> {
    map.map_values(|p: (String, String)| (p.0@, p.1@))
}

/// The first binding of `key` in a keyed list of strings.
pub open spec fn first_part(ms: Seq<(Seq<char>, Seq<char>)>, key: Seq<char>) -> Option<Seq<char>>
    decreases ms.len(),
{
    if ms.len() == 0 {
        None
    } else if ms[0].0 == key {
        Some(ms[0].1)
    } else {
        first_part(ms.drop_first(), key)
    }
}

/// The models of the `else` rows: key, then the branch's location and
/// kind strings.
pub open spec fn else_models(map: Seq<(String, ElseRecord)>) -> Seq<
    (Seq<char>, (Seq<char>, Seq<char>)),
> {
    map.map_values(|p: (String, ElseRecord)| (p.0@, (p.1.else_stmt_loc@, p.1.else_stmt_type@)))
}

/// The first binding of `key` in a keyed list of `else` rows.
pub open spec fn first_else(
    ms: Seq<(Seq<char>, (Seq<char>, Seq<char>))>,
    key: Seq<char>,
) -> Option<(Seq<char>, Seq<char>)>
    decreases ms.len(),
{
    if ms.len() == 0 {
        None
    } else if ms[0].0 == key {
        Some(ms[0].1)
    } else {
        first_else(ms.drop_first(), key)
    }
}

/// The first binding of `key` among the `for`-part rows, if any.
pub fn lookup_part<'a>(map: &'a ForPartMap, key: &str) -> (r: Option<&'a String>)
    ensures
        match r {
            Some(v) => first_part(part_models(map@), key@) == Some(v@),
            None => first_part(part_models(map@), key@) is None,
        },
{
    let ghost ms = part_models(map@);
    let n: usize = map.len();
    let mut i: usize = 0;
    proof {
        assert(ms.skip(0) =~= ms);
    }
    while i < n
        invariant
            ms == part_models(map@),
            n == map@.len(),
            i <= n,
            first_part(ms, key@) == first_part(ms.skip(i as int), key@),
        decreases n - i,
    {
        proof {
            assert(ms.skip(i as int)[0] == ms[i as int]);
            assert(ms[i as int] == (map@[i as int].0@, map@[i as int].1@));
            assert(ms.skip(i as int).drop_first() =~= ms.skip(i as int + 1));
        }
        if crate::strutil::str_eq(map[i].0.as_str(), key) {
            return Some(&map[i].1);
        }
        i = i + 1;
    }
    proof {
        assert(ms.skip(n as int).len() == 0);
    }
    None
}

/// The first `else` row bound to an `if` location, if any.
pub fn lookup_else<'a>(map: &'a ElseRecMap, key: &str) -> (r: Option<&'a ElseRecord>)
    ensures
        match r {
            Some(v) => first_else(else_models(map@), key@) == Some(
                (v.else_stmt_loc@, v.else_stmt_type@),
            ),
            None => first_else(else_models(map@), key@) is None,
        },
{
    let ghost ms = else_models(map@);
    let n: usize = map.len();
    let mut i: usize = 0;
    proof {
        assert(ms.skip(0) =~= ms);
    }
    while i < n
        invariant
            ms == else_models(map@),
            n == map@.len(),
            i <= n,
            first_else(ms, key@) == first_else(ms.skip(i as int), key@),
        decreases n - i,
    {
        proof {
            assert(ms.skip(i as int)[0] == ms[i as int]);
            assert(ms[i as int] == (
                map@[i as int].0@,
                (map@[i as int].1.else_stmt_loc@, map@[i as int].1.else_stmt_type@),
            ));
            assert(ms.skip(i as int).drop_first() =~= ms.skip(i as int + 1));
        }
        if crate::strutil::str_eq(map[i].0.as_str(), key) {
            return Some(&map[i].1);
        }
        i = i + 1;
    }
    proof {
        assert(ms.skip(n as int).len() == 0);
    }
    None
}

} // verus!
