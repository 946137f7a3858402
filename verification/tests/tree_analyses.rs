//! Replay, analyses and forest behaviour on concrete traces.

use constraint_fuzz::code_query::{ElseRecord, ForRecord, IfRecord, WhileRecord};
use constraint_fuzz::constraints::Constraint;
use constraint_fuzz::loc::SrcRegion;
use constraint_fuzz::stmts::{BlockStmt, ChildEntry, IfStmt, LocParseError, StmtType, SwitchStmt, WhileStmt};
use constraint_fuzz::tree::ValueHit;
use constraint_fuzz::exec_tree::thread_tree::ThreadExecTree;
use constraint_fuzz::exec_tree::analyze::FuncIter;
use constraint_fuzz::exec_tree::{ExecForest, GuardFile};
use constraint_fuzz::inter::{ConsDFBuilder, FuncStack};
use constraint_fuzz::stmts::QLLoc;
use constraint_fuzz::tree::ExecTree;

fn lines(v: &[&str]) -> Vec<String> {
    v.iter().map(|s| s.to_string()).collect()
}

const NO_TRUNC: usize = 1000000;

fn build(v: &[&str]) -> ThreadExecTree {
    let (tree, _) = ThreadExecTree::from_guard_lines(1, &lines(v), None, NO_TRUNC).unwrap();
    tree
}

#[test]
fn first_generation_tree_builds() {
    let t = ExecTree::new();
    assert_eq!(t.get_root_ptr(), 0);
    assert_eq!(t.node_count(), 1);
    let t2 = ExecTree::from_guard_lines(
        &lines(&["enter a()", "Merge Br Guard:/a.c:1:2 1 /a.c:3:4", "return from a()"]),
        None,
        NO_TRUNC,
    )
    .unwrap();
    assert_eq!(t2.node_count(), 2);
    assert_eq!(t2.get_node(1).get_func_name(), Some("a"));
    assert!(t2.get_node(0).is_init());
    assert!(t2.get_node(1).is_regular());
    assert_eq!(t2.get_node(1).get_parent_ptr(), Some(0));
}

#[test]
fn first_generation_rejects_return_past_root() {
    let r = ExecTree::from_guard_lines(&lines(&["return from a()"]), None, NO_TRUNC);
    assert!(r.is_err());
}

#[test]
fn sub_function_order_follows_call_order() {
    let t = build(&[
        "enter a()",
        "enter b()",
        "return from b()",
        "enter c()",
        "return from c()",
        "return from a()",
    ]);
    assert_eq!(t.node_count(), 4);
    assert_eq!(t.sub_funcs(0), vec![1]);
    assert_eq!(t.sub_funcs(1), vec![2, 3]);
    assert_eq!(t.get_node(2).get_func_name_or_init(), "b");
    assert_eq!(t.get_node(3).get_func_name_or_init(), "c");
    let mut it = FuncIter::new(1);
    assert_eq!(it.next(&t), Some(2));
    assert_eq!(it.next(&t), Some(3));
    assert_eq!(it.next(&t), None);
}

#[test]
fn max_depth_matches_nesting() {
    let t = build(&[
        "enter f()",
        "enter g()",
        "enter f()",
        "return from f()",
        "return from g()",
        "return from f()",
    ]);
    assert_eq!(t.get_max_depth(), 3);
    assert_eq!(t.get_depth(), 0);
    let shallow = build(&["enter f()", "return from f()", "enter g()", "return from g()"]);
    assert_eq!(shallow.get_max_depth(), 1);
}

#[test]
fn bfs_count_is_one_plus_enters() {
    let t = build(&[
        "enter a()",
        "enter b()",
        "return from b()",
        "enter c()",
        "enter d()",
        "return from d()",
        "return from c()",
        "return from a()",
    ]);
    assert_eq!(t.node_count(), 5);
    let order = t.bfs_nodes();
    assert_eq!(order.len(), 5);
    assert_eq!(order[0], 0);
    let mut seen = order.clone();
    seen.sort();
    assert_eq!(seen, vec![0, 1, 2, 3, 4]);
}

#[test]
fn recursion_entry_cycle_and_parent() {
    let t = build(&[
        "enter f()",
        "enter g()",
        "enter f()",
        "return from f()",
        "return from g()",
        "return from f()",
    ]);
    let entries = t.collect_recur_entries();
    assert_eq!(entries.len(), 1);
    let cycle: Vec<&str> = entries[0].get_func_cycle().iter().map(|s| s.as_str()).collect();
    assert_eq!(cycle, vec!["f", "g", "f"]);
    assert_eq!(entries[0].get_parent_func(), "init_node");
}

#[test]
fn recursion_entries_deduplicate() {
    let t = build(&[
        "enter f()",
        "enter f()",
        "return from f()",
        "enter f()",
        "return from f()",
        "return from f()",
    ]);
    let entries = t.collect_recur_entries();
    assert_eq!(entries.len(), 1);
    let cycle: Vec<&str> = entries[0].get_func_cycle().iter().map(|s| s.as_str()).collect();
    assert_eq!(cycle, vec!["f", "f"]);
}

#[test]
fn lca_resolves_to_common_ancestor() {
    let t = build(&[
        "enter a()",
        "enter f()",
        "return from f()",
        "enter f()",
        "return from f()",
        "return from a()",
    ]);
    // nodes: 0 root, 1 a, 2 f, 3 f
    assert_eq!(t.get_common_parent_ptr(2, 3), Some(1));
    // walking two roots of different depth chains can fail
    assert_eq!(t.get_common_parent_ptr(0, 0), None);
}

#[test]
fn lca_across_trees_fails_without_panicking() {
    let files = vec![
        GuardFile { fname: String::from("11_main"), lines: lines(&["enter a()", "enter f()"]) },
        GuardFile { fname: String::from("22"), lines: lines(&["enter b()", "enter f()"]) },
    ];
    let forest = ExecForest::from_guard_inputs(&files, None, NO_TRUNC);
    assert_eq!(forest.len(), 2);
    assert_eq!(forest.common_parent_across_trees(0, 2, 1, 2), None);
    assert_eq!(forest.common_parent_across_trees(0, 2, 0, 2), Some(1));
}

#[test]
fn truncation_stops_at_the_threshold() {
    let cons = Constraint::new(
        String::from("x > 0"),
        true,
        String::from("/a.c"),
        [1, 1, 100, 80],
        String::from("f"),
        String::new(),
        Vec::new(),
    );
    let trace = &[
        "enter a()",
        "Unconditional Branch Value:/a.c:5:5",
        "enter b()",
        "Unconditional Branch Value:/a.c:6:6",
        "enter c()",
        "enter d()",
    ];
    let (t, _) = ThreadExecTree::from_guard_lines(1, &lines(trace), Some(&cons), 2).unwrap();
    // replay stops right after the second hit: only a and b were entered
    assert_eq!(t.node_count(), 3);
    let (all, _) = ThreadExecTree::from_guard_lines(1, &lines(trace), Some(&cons), 3).unwrap();
    assert_eq!(all.node_count(), 5);
    // hits outside the constraint's file never count
    let other = Constraint::new(
        String::from("x > 0"),
        true,
        String::from("/b.c"),
        [1, 1, 100, 80],
        String::from("f"),
        String::new(),
        Vec::new(),
    );
    let (u, _) = ThreadExecTree::from_guard_lines(1, &lines(trace), Some(&other), 2).unwrap();
    assert_eq!(u.node_count(), 5);
}

#[test]
fn a_bad_file_never_disturbs_the_others() {
    let files = vec![
        GuardFile { fname: String::from("7"), lines: lines(&["return from ghost()"]) },
        GuardFile { fname: String::from("9_main"), lines: lines(&["enter a()"]) },
        GuardFile { fname: String::from("not a tid"), lines: lines(&["enter a()"]) },
    ];
    let forest = ExecForest::from_guard_inputs(&files, None, NO_TRUNC);
    assert_eq!(forest.len(), 1);
    assert_eq!(forest.get_main_idx(), 0);
    assert_eq!(forest.get_tree(0).get_tid(), 9);
    assert_eq!(forest.get_tree_idx_by_tid(9), Some(0));
    assert_eq!(forest.get_tree_idx_by_tid(7), None);
    assert_eq!(forest.get_main_root_ptr(), 0);
}

#[test]
fn analyses_are_repeatable() {
    let t = build(&[
        "enter a()",
        "enter b()",
        "return from b()",
        "enter b()",
        "return from b()",
        "return from a()",
    ]);
    let c1 = t.collect_func_call_counts();
    let c2 = t.collect_func_call_counts();
    assert_eq!(c1, c2);
    let l1 = t.collect_most_hit_loop_headers();
    let l2 = t.collect_most_hit_loop_headers();
    assert_eq!(l1.len(), l2.len());
    let f1 = t.collect_func_with_most_childs();
    let f2 = t.collect_func_with_most_childs();
    assert_eq!(f1, f2);
    let b1 = t.bfs_nodes();
    let b2 = t.bfs_nodes();
    assert_eq!(b1, b2);
}

#[test]
fn call_counts_are_exact() {
    let t = build(&[
        "enter a()",
        "enter b()",
        "return from b()",
        "enter b()",
        "return from b()",
        "return from a()",
    ]);
    let counts = t.collect_func_call_counts();
    let find = |nm: &str| counts.iter().find(|p| p.0.as_str() == nm).map(|p| p.1);
    assert_eq!(find("init_node"), None);
    assert_eq!(find("a"), Some(1));
    assert_eq!(find("b"), Some(2));
    assert_eq!(counts.len(), 2);
}

#[test]
fn most_called_ranking_is_sorted() {
    let t = build(&[
        "enter a()",
        "enter b()",
        "return from b()",
        "enter b()",
        "return from b()",
        "return from a()",
    ]);
    let list = t.collect_most_called_funcs();
    let entries = list.entries();
    assert_eq!(entries.len(), 2);
    assert_eq!(entries[0].get_func_name(), "b");
    assert_eq!(entries[0].get_len(), 2);
    assert_eq!(entries[1].get_func_name(), "a");
    assert_eq!(entries[1].get_len(), 1);
    let parents = t.parents_of_name("b", 5);
    assert_eq!(parents.len(), 2);
    assert_eq!(parents[0].as_str(), "a");
    assert_eq!(parents[1].as_str(), "a");
    let capped = t.parents_of_name("b", 1);
    assert_eq!(capped.len(), 1);
}

#[test]
fn longest_invocation_ranking_keeps_ten() {
    let mut v: Vec<String> = Vec::new();
    for i in 0..12 {
        v.push(format!("enter f{}()", i));
        for _ in 0..i {
            v.push(String::from("Recur Lock locked"));
        }
        v.push(format!("return from f{}()", i));
    }
    let refs: Vec<&str> = v.iter().map(|s| s.as_str()).collect();
    let t = build(&refs);
    let list = t.collect_long_func_nodes();
    let entries = list.entries();
    assert_eq!(entries.len(), 10);
    // the root holds every call action and tops the list
    assert_eq!(entries[0].get_func_name(), "init_node");
    for w in 1..entries.len() {
        assert!(entries[w - 1].get_len() >= entries[w].get_len());
    }
}

#[test]
fn loop_headers_are_tallied_by_location() {
    let t = build(&[
        "enter a()",
        "Loop Hit:/a.c:7:3 at count1",
        "Loop Hit:/a.c:7:3 at count2",
        "Loop Hit:/b.c:9:1 at count1",
        "return from a()",
    ]);
    let tallies = t.collect_most_hit_loop_headers();
    assert_eq!(tallies.len(), 2);
    let find = |line: usize| {
        tallies.iter().find(|p| p.0.get_line() == Some(line)).map(|p| p.1)
    };
    assert_eq!(find(7), Some(2));
    assert_eq!(find(9), Some(1));
}

#[test]
fn fan_out_uses_the_first_occurrence() {
    let t = build(&[
        "enter a()",
        "enter b()",
        "enter c()",
        "return from c()",
        "enter c()",
        "return from c()",
        "return from b()",
        "enter b()",
        "return from b()",
        "return from a()",
    ]);
    let fan = t.collect_func_with_most_childs();
    let find = |nm: &str| fan.iter().find(|p| p.0.as_str() == nm).map(|p| p.1);
    // the synthetic root records no fan-out of its own
    assert_eq!(find("init_node"), None);
    assert_eq!(find("a"), Some(2));
    // the first b in breadth-first order has two children; the later one has none
    assert_eq!(find("b"), Some(2));
    assert_eq!(find("c"), Some(0));
    assert_eq!(fan.len(), 3);
    let ranked = t.collect_widest_fan_out();
    let entries = ranked.entries();
    assert_eq!(entries.len(), 3);
    for w in 1..entries.len() {
        assert!(entries[w - 1].get_len() >= entries[w].get_len());
    }
}

#[test]
fn skip_signal_recovers_the_entry() {
    let t = build(&["Function Invocation:/a.c:3:9 enter callee(void)"]);
    assert_eq!(t.node_count(), 2);
    assert_eq!(t.get_node(1).get_func_name_or_init(), "callee");
    // an invocation prefix followed by a return is retried and replays as a return
    let r = ThreadExecTree::from_guard_lines(
        1,
        &lines(&["enter f()", "Function Invocation:/a.c:3:9 return from f()"]),
        None,
        NO_TRUNC,
    );
    let (t2, _) = r.unwrap();
    assert_eq!(t2.get_depth(), 0);
    assert_eq!(t2.node_count(), 2);
}

#[test]
fn thread_creation_points_are_recorded() {
    let (t, thcp) = ThreadExecTree::from_guard_lines(
        5,
        &lines(&["enter a()", "Thread Creation:/a.c:4:2 77", "return from a()"]),
        None,
        NO_TRUNC,
    )
    .unwrap();
    assert_eq!(t.get_tid(), 5);
    assert_eq!(thcp.len(), 1);
    assert_eq!(thcp[0].0, 77);
    assert_eq!(thcp[0].1.node_ptr, 1);
    assert_eq!(thcp[0].1.act_index, 0);
}

#[test]
fn chains_reach_the_target() {
    let mut fs = FuncStack::new("g");
    let chain = fs
        .get_chain(&lines(&["enter main()", "enter f()", "return from f()", "enter g()"]))
        .unwrap();
    let names: Vec<&str> = chain.iter().map(|s| s.as_str()).collect();
    assert_eq!(names, vec!["main", "g"]);
    let mut fs2 = FuncStack::new("missing");
    assert!(fs2.get_chain(&lines(&["enter main()", "return from main()"])).is_err());
    let mut fs3 = FuncStack::new("g");
    assert!(fs3.get_chain(&lines(&["enter main()", "return from other()"])).is_err());
}

#[test]
fn builder_extracts_chains_per_file() {
    let cons = Constraint::new(
        String::from("x"),
        false,
        String::from("/a.c"),
        [1, 1, 2, 2],
        String::from("g"),
        String::new(),
        Vec::new(),
    );
    let builder = ConsDFBuilder::new(cons, String::from("/tmp/work"));
    assert_eq!(builder.get_work_dir().as_str(), "/tmp/work");
    let files = vec![
        lines(&["enter main()", "enter g()"]),
        lines(&["enter other()", "return from other()"]),
    ];
    let chains = builder.extract_func_chain(&files).unwrap();
    assert_eq!(chains.len(), 1);
    assert_eq!(chains[0].len(), 2);
    let none = builder.extract_func_chain(&vec![lines(&["enter x()"])]);
    assert!(none.is_err());
}

#[test]
fn constraint_text_helpers() {
    let cons = Constraint::new(
        String::from("a+b <= 3"),
        true,
        String::from("/a.c"),
        [1, 1, 2, 2],
        String::from("f"),
        String::from("body"),
        vec![(String::from("MAX"), String::from("10"))],
    );
    assert_eq!(cons.get_cond_expr_in_fname().as_str(), "a%b %% 3");
    assert_eq!(cons.get_macro_map_str().as_str(), "MAX: 10\n");
    assert_eq!(
        Constraint::show_section("Name", "body").as_str(),
        "\n### Name\n\n```c\nbody\n```\n"
    );
    assert_eq!(cons.get_func_name().as_str(), "f");
    assert_eq!(cons.get_fpath().as_str(), "/a.c");
}

#[test]
fn query_locations_compare_and_contain() {
    let outer = QLLoc::from_str("file:///x/a.c:10:1:20:80").unwrap();
    let inner = QLLoc::from_str("file:///x/a.c:11:2:19:5").unwrap();
    assert!(outer.contains(&inner));
    assert!(!inner.contains(&outer));
    assert!(inner.start_after(&QLLoc::from_str("file:///x/a.c:1:1:2:2").unwrap()));
    assert!(outer.start_before(&inner));
    assert!(outer.end_after(&inner));
    assert!(QLLoc::from_str("file:///x/a.c:1:1:2:2")
        .unwrap()
        .end_before(&outer));
    assert_eq!(outer.compare(&inner), std::cmp::Ordering::Less);
    assert_eq!(outer.compare(&outer), std::cmp::Ordering::Equal);
    let other_file = QLLoc::from_str("file:///x/b.c:1:1:2:2").unwrap();
    assert_eq!(outer.compare(&other_file), std::cmp::Ordering::Less);
    assert!(QLLoc::from_str("/x/a.c:1:1:2:2").is_err());
    assert!(QLLoc::from_str("file:///x/a.c:1:1:2").is_err());
    assert!(QLLoc::from_str("file:///x/a.c:0:1:2:2").is_err());
    assert!(QLLoc::from_str("file:///x/a.c:3:1:2:2").is_err());
}

#[test]
fn statement_rows_build_statements() {
    let entry = ChildEntry::from_loc_and_type("file:///a.c:1:1:2:2", "IfStmt").unwrap();
    assert!(matches!(entry.stmt_type, StmtType::If));
    let block = BlockStmt::from_loc_and_type("file:///a.c:1:1:2:2", "FunctionBlock").unwrap();
    assert!(block.is_function_block());
    let sw = SwitchStmt::from_loc_and_expr("file:///a.c:1:1:9:9", "file:///a.c:1:8:1:9").unwrap();
    assert_eq!(sw.loc.compare(&sw.expr_loc), std::cmp::Ordering::Less);
    let w = WhileStmt::from_record(&WhileRecord {
        loc: String::from("file:///a.c:5:1:9:2"),
        while_type: String::from("While"),
        cond_loc: String::from("file:///a.c:5:8:5:12"),
        body_loc: String::from("file:///a.c:6:1:8:2"),
        body_type: String::from("BlockStmt"),
        func_name: String::from("f"),
        file_path: String::from("/a.c"),
    })
    .unwrap();
    assert!(matches!(w.body_entry.stmt_type, StmtType::Block));
    let if_rec = IfRecord {
        loc: String::from("file:///a.c:5:1:9:2"),
        if_type: String::from("If-Else"),
        condition_loc: String::from("file:///a.c:5:5:5:9"),
        then_stmt_loc: String::from("file:///a.c:6:1:6:9"),
        then_stmt_type: String::from("ExprStmt"),
        function: String::from("f"),
        file_path: String::from("/a.c"),
    };
    let else_map = vec![(
        String::from("file:///a.c:5:1:9:2"),
        ElseRecord {
            loc: String::from("file:///a.c:5:1:9:2"),
            else_stmt_loc: String::from("file:///a.c:8:1:8:9"),
            else_stmt_type: String::from("ReturnStmt"),
            function: String::from("f"),
            file_path: String::from("/a.c"),
        },
    )];
    let ifs = IfStmt::from_if_else_record(&if_rec, &else_map).unwrap();
    assert!(ifs.else_entry.is_some());
    let ifs2 = IfStmt::from_if_else_record(&if_rec, &Vec::new());
    assert!(ifs2.is_err());
    let f = constraint_fuzz::stmts::ForStmt::from_for_record_and_maps(
        &ForRecord {
            loc: String::from("file:///a.c:5:1:9:2"),
            body_loc: String::from("file:///a.c:6:1:8:2"),
            body_type: String::from("BlockStmt"),
            func_name: String::from("f"),
            file_path: String::from("/a.c"),
        },
        &vec![(
            String::from("file:///a.c:5:1:9:2"),
            String::from("file:///a.c:5:6:5:12"),
        )],
        &Vec::new(),
        &Vec::new(),
    )
    .unwrap();
    assert!(f.init_loc.is_some());
    assert!(f.cond_loc.is_none());
}

#[test]
fn an_empty_trace_leaves_only_the_root() {
    let t = build(&[]);
    assert_eq!(t.node_count(), 1);
    assert_eq!(t.get_max_depth(), 0);
    assert_eq!(t.bfs_nodes(), vec![0]);
    // the synthetic root is not a function: nothing to count
    let counts = t.collect_func_call_counts();
    assert!(counts.is_empty());
    assert!(t.collect_most_called_funcs().entries().is_empty());
    assert!(t.collect_recur_entries().is_empty());
    assert!(t.collect_most_hit_loop_headers().is_empty());
    assert!(t.collect_top_loop_headers().entries().is_empty());
    assert!(t.collect_widest_fan_out().entries().is_empty());
}

#[test]
fn query_location_error_kinds() {
    assert!(matches!(
        QLLoc::from_str("file:///a.c:1:x:2:2"),
        Err(LocParseError::FormatErr(_))
    ));
    assert!(matches!(
        QLLoc::from_str("file:///a.c:0:1:2:2"),
        Err(LocParseError::ValueErr(_))
    ));
    assert!(matches!(
        QLLoc::from_str("file:///a.c:3:9:2:2"),
        Err(LocParseError::ValueErr(_))
    ));
}

#[test]
fn recursion_continues_past_a_recursive_node_with_children() {
    let t = build(&[
        "enter f()",
        "enter g()",
        "enter f()",
        "enter g()",
        "return from g()",
        "return from f()",
        "return from g()",
        "return from f()",
    ]);
    let entries = t.collect_recur_entries();
    assert_eq!(entries.len(), 2);
    let c0: Vec<&str> = entries[0].get_func_cycle().iter().map(|s| s.as_str()).collect();
    assert_eq!(c0, vec!["f", "g", "f"]);
    assert_eq!(entries[0].get_parent_func(), "init_node");
    let c1: Vec<&str> = entries[1].get_func_cycle().iter().map(|s| s.as_str()).collect();
    assert_eq!(c1, vec!["g", "f", "g"]);
    assert_eq!(entries[1].get_parent_func(), "f");
}

#[test]
fn top_loop_headers_rank_descending_with_labels() {
    let t = build(&[
        "enter a()",
        "Loop Hit:/a.c:7:3 at count1",
        "Loop Hit:/a.c:7:3 at count2",
        "Loop Hit:/b.c:9:1 at count1",
        "return from a()",
    ]);
    let top = t.collect_top_loop_headers();
    let entries = top.entries();
    assert_eq!(entries.len(), 2);
    assert_eq!(entries[0].get_func_name(), "/a.c:7:3");
    assert_eq!(entries[0].get_len(), 2);
    assert_eq!(entries[1].get_func_name(), "/b.c:9:1");
    assert_eq!(entries[1].get_len(), 1);
}

#[test]
fn ancestor_diagnostics() {
    let t = build(&[
        "enter a()",
        "enter f()",
        "return from f()",
        "enter f()",
        "return from f()",
        "return from a()",
    ]);
    assert_eq!(t.first_two_with_name("f"), Some((2, 3)));
    assert_eq!(t.first_two_with_name("a"), None);
    assert_eq!(t.first_two_with_name("missing"), None);
    let chain = t.chain_to_root(2);
    let names: Vec<&str> = chain.iter().map(|s| s.as_str()).collect();
    assert_eq!(names, vec!["f", "a", "init_node"]);
}

#[test]
fn region_and_value_hits() {
    let rgn = SrcRegion::from_range(&[2, 1, 5, 10], "/a.c", "f").unwrap();
    assert_eq!(rgn.get_func_name().as_str(), "f");
    assert_eq!(rgn.get_src_fpath().unwrap().as_str(), "/a.c");
    assert!(SrcRegion::from_range(&[5, 1, 2, 10], "/a.c", "f").is_err());
    let hit = ValueHit::parse_value_guard("Unconditional Branch Value:/a.c:5:5").unwrap();
    assert_eq!(hit.get_line(), Some(5));
    assert_eq!(hit.get_src_path().unwrap().as_str(), "/a.c");
    assert!(ValueHit::parse_value_guard("enter f()").is_err());
}
