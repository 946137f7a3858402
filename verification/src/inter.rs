//! Inter-procedural chains: from a plain per-thread stack trace, the
//! call chain from the entry point down to a target function.
//!
//! These files hold only `enter` and `return from` lines; the stack is
//! replayed until the target function is entered, and the live stack at
//! that moment is the chain.

use vstd::prelude::*;

use crate::action::func_name_spec;
use crate::constraints::Constraint;
use crate::error::GuardParseError;
use crate::strutil::str_starts_with;

verus! {

/// A call chain: function names from the outermost frame down.
pub type FuncChain = Vec<String>;

/// The replay of chain lines from a given stack: an `enter` pushes and,
/// on the target, yields the stack; a `return from` must match the top
/// and pops; any other line, a mismatched return, a return on an empty
/// stack, or an exhausted file fails.
pub open spec fn chain_fold(
    stack: Seq<Seq<char>>,
    lines: Seq<Seq<char>>,
    target: Seq<char>,
) -> Option<Seq<Seq<char>>>
    decreases lines.len(),
{
    if lines.len() == 0 {
        None
    } else {
        let line = lines[0];
        if "enter "@.is_prefix_of(line) {
            let nm = func_name_spec(line, "enter "@.len() as int);
            if nm == target {
                Some(stack.push(nm))
            } else {
                chain_fold(stack.push(nm), lines.drop_first(), target)
            }
        } else if "return from "@.is_prefix_of(line) {
            let nm = func_name_spec(line, "return from "@.len() as int);
            if stack.len() == 0 || stack.last() != nm {
                None
            } else {
                chain_fold(stack.drop_last(), lines.drop_first(), target)
            }
        } else {
            None
        }
    }
}

/// A found chain always holds at least the target frame, and ends on it.
pub proof fn lemma_chain_nonempty(stack: Seq<Seq<char>>, lines: Seq<Seq<char>>, target: Seq<char>)
    ensures
        chain_fold(stack, lines, target) matches Some(c) ==> c.len() >= 1 && c.last() == target,
    decreases lines.len(),
{
    if lines.len() > 0 {
        let line = lines[0];
        if "enter "@.is_prefix_of(line) {
            let nm = func_name_spec(line, "enter "@.len() as int);
            if nm != target {
                lemma_chain_nonempty(stack.push(nm), lines.drop_first(), target);
            }
        } else if "return from "@.is_prefix_of(line) {
            let nm = func_name_spec(line, "return from "@.len() as int);
            if stack.len() > 0 && stack.last() == nm {
                lemma_chain_nonempty(stack.drop_last(), lines.drop_first(), target);
            }
        }
    }
}

/// A live call stack replayed toward one target function.
pub struct FuncStack {
    target_func: String,
    sta: Vec<String>,
}

impl FuncStack {
    pub closed spec fn target_view(&self) -> Seq<char> {
        self.target_func@
    }

    pub closed spec fn stack_view(&self) -> Seq<Seq<char>> {
        self.sta@.map_values(|s: String| s@)
    }

    pub fn new(target_func: &str) -> (r: Self)
        ensures
            r.target_view() == target_func@,
            r.stack_view() == Seq::<Seq<char>>::empty(),
    {
        let r = Self { target_func: String::from_str(target_func), sta: Vec::new() };
        proof {
            assert(r.stack_view() =~= Seq::<Seq<char>>::empty());
        }
        r
    }

    /// Replay `lines` and yield the chain at the target's entry; an
    /// error reports a malformed file or a file that never enters the
    /// target.
    pub fn get_chain(&mut self, lines: &Vec<String>) -> (r: Result<FuncChain, GuardParseError>)
        ensures
            final(self).target_view() == old(self).target_view(),
            match r {
                Ok(c) => chain_fold(
                    old(self).stack_view(),
                    lines@.map_values(|s: String| s@),
                    old(self).target_view(),
                ) == Some(c@.map_values(|s: String| s@)),
                Err(_) => chain_fold(
                    old(self).stack_view(),
                    lines@.map_values(|s: String| s@),
                    old(self).target_view(),
                ) is None,
            },
    {
        let ghost full = lines@.map_values(|s: String| s@);
        let ghost target = self.target_func@;
        let n: usize = lines.len();
        let mut idx: usize = 0;
        proof {
            assert(full.skip(0) =~= full);
        }
        while idx < n
            invariant
                n == lines@.len(),
                full == lines@.map_values(|s: String| s@),
                target == self.target_func@,
                self.target_func@ == old(self).target_view(),
                idx <= n,
                chain_fold(old(self).stack_view(), full, target) == chain_fold(
                    self.stack_view(),
                    full.skip(idx as int),
                    target,
                ),
            decreases n - idx,
        {
            let line: &str = lines[idx].as_str();
            proof {
                assert(full[idx as int] == line@);
                assert(full.skip(idx as int)[0] == full[idx as int]);
                assert(full.skip(idx as int).drop_first() =~= full.skip(idx as int + 1));
            }
            if str_starts_with(line, "enter ") {
                let func_name = match crate::action::FuncActionType::get_func_name(line) {
                    Ok(nm) => nm,
                    Err(e) => {
                        proof {
                            assert(false);
                        }
                        return Err(e);
                    },
                };
                proof {
                    reveal_strlit("enter ");
                    reveal_strlit("return from ");
                }
                let ghost stack0 = self.stack_view();
                self.sta.push(String::from_str(func_name));
                proof {
                    assert(self.stack_view() =~= stack0.push(func_name@));
                }
                if crate::strutil::str_eq(func_name, self.target_func.as_str()) {
                    let chain = clone_string_vec(&self.sta);
                    proof {
                        assert(chain@.map_values(|s: String| s@) == self.stack_view());
                    }
                    return Ok(chain);
                }
            } else if str_starts_with(line, "return from ") {
                let func_name = match crate::action::FuncActionType::get_func_name(line) {
                    Ok(nm) => nm,
                    Err(e) => {
                        proof {
                            assert(false);
                        }
                        return Err(e);
                    },
                };
                proof {
                    reveal_strlit("enter ");
                }
                if self.sta.len() == 0 {
                    return Err(
                        GuardParseError::as_parse_err(
                            String::from_str("attempted to return from an empty function stack"),
                        ),
                    );
                }
                let top_idx = self.sta.len() - 1;
                proof {
                    assert(self.stack_view().last() == self.sta@[top_idx as int]@);
                }
                if !crate::strutil::str_eq(self.sta[top_idx].as_str(), func_name) {
                    return Err(
                        GuardParseError::as_parse_err(
                            String::from_str("return does not match the top of the stack"),
                        ),
                    );
                }
                let ghost stack0 = self.stack_view();
                self.sta.pop();
                proof {
                    assert(self.stack_view() =~= stack0.drop_last());
                }
            } else {
                return Err(
                    GuardParseError::as_parse_err(
                        String::from_str("unexpected line in function stack file"),
                    ),
                );
            }
            idx = idx + 1;
        }
        proof {
            assert(full.skip(n as int).len() == 0);
        }
        Err(GuardParseError::as_parse_err(String::from_str("target function never entered")))
    }
}

/// A structural copy of a list of names.
fn clone_string_vec(v: &Vec<String>) -> (r: Vec<String>)
    ensures
        r@.map_values(|s: String| s@) == v@.map_values(|s: String| s@),
{
    let n: usize = v.len();
    let mut out: Vec<String> = Vec::new();
    let mut i: usize = 0;
    while i < n
        invariant
            n == v@.len(),
            i <= n,
            out@.len() == i,
            forall|j: int| 0 <= j < i ==> (#[trigger] out@[j])@ == v@[j]@,
        decreases n - i,
    {
        out.push(v[i].clone());
        i = i + 1;
    }
    proof {
        assert(out@.map_values(|s: String| s@) =~= v@.map_values(|s: String| s@));
    }
    out
}

/// The chains of the files that yield one, in file order.
pub open spec fn chains_fold(files: Seq<Seq<Seq<char>>>, target: Seq<char>) -> Seq<
    Seq<Seq<char>>,
>
    decreases files.len(),
{
    if files.len() == 0 {
        Seq::empty()
    } else {
        let rest = chains_fold(files.drop_first(), target);
        match chain_fold(Seq::empty(), files[0], target) {
            Some(c) => seq![c] + rest,
            None => rest,
        }
    }
}

/// One recorded execution: its name and the directory its per-thread
/// stack files live in.
pub struct Exec {
    exec_name: String,
    fs_dir: String,
}

impl Exec {
    pub fn new(exec_name: String, fs_dir: String) -> (r: Self)
        ensures
            r.name_view() == exec_name@,
            r.dir_view() == fs_dir@,
    {
        Self { exec_name, fs_dir }
    }

    pub closed spec fn name_view(&self) -> Seq<char> {
        self.exec_name@
    }

    pub closed spec fn dir_view(&self) -> Seq<char> {
        self.fs_dir@
    }

    pub fn get_exec_name(&self) -> (r: &String)
        ensures
            r@ == self.name_view(),
    {
        &self.exec_name
    }

    pub fn get_fs_dir(&self) -> (r: &String)
        ensures
            r@ == self.dir_view(),
    {
        &self.fs_dir
    }
}

/// Builds the dataflow context of one constraint: the constraint itself
/// and the directory the execution records live in.
pub struct ConsDFBuilder {
    cons: Constraint,
    work_dir: String,
}

impl ConsDFBuilder {
    pub fn new(cons: Constraint, work_dir: String) -> (r: Self)
        ensures
            r.cons_view() == cons@,
            r.work_dir_view() == work_dir@,
    {
        Self { cons, work_dir }
    }

    pub closed spec fn cons_view(&self) -> crate::constraints::ConsModel {
        self.cons@
    }

    pub closed spec fn work_dir_view(&self) -> Seq<char> {
        self.work_dir@
    }

    pub fn get_cons(&self) -> (r: &Constraint)
        ensures
            r@ == self.cons_view(),
    {
        &self.cons
    }

    pub fn get_work_dir(&self) -> (r: &String)
        ensures
            r@ == self.work_dir_view(),
    {
        &self.work_dir
    }

    /// The function chains of one execution: each thread's stack file,
    /// replayed toward the constraint's function; files that never reach
    /// it, or that are malformed, are passed over.  An execution with no
    /// chain at all is an error.
    pub fn extract_func_chain(&self, files: &Vec<Vec<String>>) -> (r: Result<
        Vec<FuncChain>,
        GuardParseError,
    >)
        ensures
            match r {
                Ok(cs) => cs@.map_values(|c: FuncChain| c@.map_values(|s: String| s@))
                    == chains_fold(
                    files@.map_values(|f: Vec<String>| f@.map_values(|s: String| s@)),
                    self.cons_view().func_name,
                ) && cs@.len() > 0,
                Err(_) => chains_fold(
                    files@.map_values(|f: Vec<String>| f@.map_values(|s: String| s@)),
                    self.cons_view().func_name,
                ).len() == 0,
            },
    {
        let ghost fmodels = files@.map_values(|f: Vec<String>| f@.map_values(|s: String| s@));
        let ghost target = self.cons_view().func_name;
        let n: usize = files.len();
        let mut chain_list: Vec<FuncChain> = Vec::new();
        let mut i: usize = 0;
        proof {
            assert(chain_list@.map_values(|c: FuncChain| c@.map_values(|s: String| s@))
                =~= Seq::<Seq<Seq<char>>>::empty());
        }
        while i < n
            invariant
                n == files@.len(),
                fmodels == files@.map_values(|f: Vec<String>| f@.map_values(|s: String| s@)),
                target == self.cons_view().func_name,
                i <= n,
                chain_list@.map_values(|c: FuncChain| c@.map_values(|s: String| s@))
                    == chains_fold(fmodels.take(i as int), target),
            decreases n - i,
        {
            proof {
                assert(fmodels[i as int] == files@[i as int]@.map_values(|s: String| s@));
                lemma_chains_fold_snoc(fmodels, target, i as int);
            }
            let mut func_stack = FuncStack::new(self.get_cons().get_func_name().as_str());
            match func_stack.get_chain(&files[i]) {
                Ok(chain) => {
                    let ghost cl0 = chain_list@;
                    chain_list.push(chain);
                    proof {
                        assert(chain_list@.map_values(
                            |c: FuncChain| c@.map_values(|s: String| s@),
                        ) =~= cl0.map_values(|c: FuncChain| c@.map_values(|s: String| s@)).push(
                            chain_fold(Seq::empty(), fmodels[i as int], target)->0,
                        ));
                    }
                },
                Err(_) => {},
            }
            i = i + 1;
        }
        proof {
            assert(fmodels.take(n as int) =~= fmodels);
        }
        if chain_list.len() == 0 {
            return Err(
                GuardParseError::as_parse_err(
                    String::from_str("no function chains found for this execution"),
                ),
            );
        }
        Ok(chain_list)
    }
}

/// Folding one more file appends its chain, if it yields one.
proof fn lemma_chains_fold_snoc(files: Seq<Seq<Seq<char>>>, target: Seq<char>, i: int)
    requires
        0 <= i < files.len(),
    ensures
        chains_fold(files.take(i + 1), target) == (match chain_fold(
            Seq::empty(),
            files[i],
            target,
        ) {
            Some(c) => chains_fold(files.take(i), target).push(c),
            None => chains_fold(files.take(i), target),
        }),
    decreases i,
{
    let pre = files.take(i);
    let cur = files.take(i + 1);
    assert(cur[0] == files[0]);
    if i == 0 {
        assert(cur.drop_first() =~= Seq::<Seq<Seq<char>>>::empty());
        assert(chains_fold(cur.drop_first(), target) =~= Seq::<Seq<Seq<char>>>::empty());
        match chain_fold(Seq::empty(), files[0], target) {
            Some(c) => {
                assert(chains_fold(cur, target) =~= Seq::<Seq<Seq<char>>>::empty().push(c));
                assert(pre =~= Seq::<Seq<Seq<char>>>::empty());
            },
            None => {
                assert(pre =~= Seq::<Seq<Seq<char>>>::empty());
            },
        }
    } else {
        lemma_chains_fold_snoc(files.drop_first(), target, i - 1);
        assert(cur.drop_first() =~= files.drop_first().take(i));
        assert(pre.drop_first() =~= files.drop_first().take(i - 1));
        assert(pre[0] == files[0]);
        assert(files.drop_first()[i - 1] == files[i]);
        match chain_fold(Seq::empty(), files[0], target) {
            Some(c0) => {
                match chain_fold(Seq::empty(), files[i], target) {
                    Some(c) => {
                        assert(chains_fold(cur, target) =~= chains_fold(pre, target).push(c));
                    },
                    None => {},
                }
            },
            None => {
                match chain_fold(Seq::empty(), files[i], target) {
                    Some(c) => {
                        assert(chains_fold(cur, target) =~= chains_fold(pre, target).push(c));
                    },
                    None => {},
                }
            },
        }
    }
}

} // verus!
