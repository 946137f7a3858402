//! Line-classifier behaviour on concrete guard lines.

use constraint_fuzz::action::{get_prefix, FuncActionType, IntraAction, LoopAction};
use constraint_fuzz::error::GuardParseError;
use constraint_fuzz::exec_tree::action::LoopAction as FullLoopAction;
use constraint_fuzz::exec_tree::action::{
    FuncAction, JumpAction, JumpActionType, RecurAction, ThreadAction,
};
use constraint_fuzz::loc::SrcLoc;
use constraint_fuzz::strutil::{parse_usize, str_ends_with, str_eq, str_starts_with, trim};

#[test]
fn parse_usize_reads_decimal_numbers() {
    assert_eq!(parse_usize("0"), Some(0));
    assert_eq!(parse_usize("12345"), Some(12345));
    assert_eq!(parse_usize(""), None);
    assert_eq!(parse_usize("12a"), None);
    assert_eq!(parse_usize("99999999999999999999999999"), None);
}

#[test]
fn string_helpers_behave() {
    assert!(str_eq("abc", "abc"));
    assert!(!str_eq("abc", "abd"));
    assert!(str_starts_with("enter main(", "enter "));
    assert!(!str_starts_with("ent", "enter "));
    assert!(str_ends_with("1234_main", "_main"));
    assert!(!str_ends_with("1234", "_main"));
    assert_eq!(trim("  a b  "), "a b");
    assert_eq!(trim(""), "");
}

#[test]
fn src_loc_parses_null_and_valid_forms() {
    assert!(matches!(SrcLoc::from_str("NullLoc"), Ok(SrcLoc::NullLoc)));
    assert!(matches!(SrcLoc::from_str("null"), Ok(SrcLoc::NullLoc)));
    assert!(matches!(SrcLoc::from_str("NULLLOC"), Ok(SrcLoc::NullLoc)));
    let loc = SrcLoc::from_str("/path/to/file.c:123:45").unwrap();
    assert_eq!(loc.get_line(), Some(123));
    assert_eq!(loc.get_col(), Some(45));
    assert_eq!(loc.get_src_path().unwrap().as_str(), "/path/to/file.c");
    assert!(loc.is_valid());
    assert!(SrcLoc::from_str("no colons here").is_err());
    assert!(SrcLoc::from_str("one:colon").is_err());
    assert!(SrcLoc::from_str("/p:12:x").is_err());
    let zero = SrcLoc::from_str("/p:0:0").unwrap();
    assert!(!zero.is_valid());
}

#[test]
fn src_loc_range_membership() {
    let loc = SrcLoc::from_str("/a.c:10:5").unwrap();
    assert!(loc.inside_range(&[10, 1, 12, 80], "/a.c"));
    assert!(!loc.inside_range(&[10, 6, 12, 80], "/a.c"));
    assert!(!loc.inside_range(&[10, 1, 12, 80], "/b.c"));
    assert!(!loc.inside_range(&[1, 1, 9, 80], "/a.c"));
}

#[test]
fn get_prefix_reads_up_to_first_colon() {
    assert_eq!(get_prefix("Loop Hit:/a.c:1:2 at count3").unwrap(), "Loop Hit:");
    assert!(matches!(
        get_prefix("no colon at all"),
        Err(GuardParseError::PrefixError { .. })
    ));
}

#[test]
fn func_name_extraction() {
    assert_eq!(FuncActionType::get_func_name("enter foo(int, char)").unwrap(), "foo");
    assert_eq!(FuncActionType::get_func_name("return from bar()").unwrap(), "bar");
    assert_eq!(FuncActionType::get_func_name("enter noparen").unwrap(), "noparen");
    assert!(FuncActionType::get_func_name("neither kind").is_err());
    assert!(FuncActionType::is_call_guard("enter f()"));
    assert!(FuncActionType::is_return_guard("return from f()"));
}

#[test]
fn branch_guard_lines_parse() {
    let a = IntraAction::parse_simple_guard("Merge Br Guard:/a.c:1:2 1 /a.c:3:4").unwrap();
    let _ = a;
    assert!(matches!(
        IntraAction::parse_simple_guard("Some Other Guard:/a.c:1:2 1 /a.c:3:4"),
        Err(GuardParseError::PrefixError { .. })
    ));
    assert!(matches!(
        IntraAction::parse_simple_guard("Switch Guard:/a.c:1:2 2 /a.c:3:4"),
        Err(GuardParseError::ParseError { .. })
    ));
    assert!(matches!(
        IntraAction::parse_simple_guard("IndirectBr Guard:/a.c:1:2 1"),
        Err(GuardParseError::ParseError { .. })
    ));
}

#[test]
fn loop_guard_lines_parse_first_generation() {
    let hit = LoopAction::parse_loop_guard("Loop Hit:/a.c:7:3 at count42").unwrap();
    assert_eq!(hit.get_count(), Some(42));
    assert_eq!(hit.get_type_name(), "LoopEntryHit");
    assert_eq!(hit.get_header_loc().get_line(), Some(7));
    let exceed = LoopAction::parse_loop_guard("Loop Limit Exceed:/a.c:7:3 at count100").unwrap();
    assert_eq!(exceed.get_type_name(), "LoopEntryExceed");
    assert!(matches!(
        LoopAction::parse_loop_guard("Loop Hit:/a.c:7:3"),
        Err(GuardParseError::ParseError { .. })
    ));
    assert!(matches!(
        LoopAction::parse_loop_guard("Quite another line: x"),
        Err(GuardParseError::PrefixError { .. })
    ));
    // the text before the count must be the literal `at count`
    assert!(matches!(
        LoopAction::parse_loop_guard("Loop Hit:/a.c:7:3 xx yyyyy42"),
        Err(GuardParseError::ParseError { .. })
    ));
}

#[test]
fn loop_guard_lines_parse_second_generation() {
    let out = FullLoopAction::parse_loop_guard("Out of Loop:/a.c:7:3 /a.c:9:1 at count5").unwrap();
    assert_eq!(out.get_count(), Some(5));
    assert_eq!(out.get_type_name(), "LoopEndOut");
    assert_eq!(out.get_out_loc().unwrap().get_line(), Some(9));
    let ns = FullLoopAction::parse_loop_guard("Loop end without loop start:/a.c:7:3 /a.c:9:1")
        .unwrap();
    assert_eq!(ns.get_count(), None);
    assert_eq!(ns.get_type_name(), "LoopEndNoStart");
    let hit = FullLoopAction::parse_loop_guard("Loop Hit:/a.c:7:3 at count2").unwrap();
    assert_eq!(hit.get_out_loc().map(|_| ()), None);
}

#[test]
fn thread_and_recur_lines_parse() {
    let t = ThreadAction::parse_thread_guard("Thread Creation:/a.c:4:2 77").unwrap();
    assert_eq!(t.get_thread_id(), 77);
    assert!(matches!(
        ThreadAction::parse_thread_guard("Thread Creation:/a.c:4:2 77 extra"),
        Err(GuardParseError::ParseError { .. })
    ));
    assert!(ThreadAction::parse_thread_guard("enter f()").is_err());
    let l = RecurAction::parse_recur_guard("Recur Lock locked").unwrap();
    assert!(l.is_locked());
    let r = RecurAction::parse_recur_guard("Recur Lock released").unwrap();
    assert!(!r.is_locked());
    assert!(RecurAction::parse_recur_guard("Recur Lock somethingelse").is_err());
}

#[test]
fn call_guard_with_invocation_prefix() {
    let (loc, name) =
        FuncAction::parse_call_guard("Function Invocation:/a.c:3:9 enter callee(void)").unwrap();
    assert_eq!(loc.unwrap().get_line(), Some(3));
    assert_eq!(name.as_str(), "callee");
    let (loc2, name2) = FuncAction::parse_call_guard("enter plain()").unwrap();
    assert!(loc2.is_none());
    assert_eq!(name2.as_str(), "plain");
    match FuncAction::parse_call_guard("Function Invocation:/a.c:3:9 return from x()") {
        Err(GuardParseError::SkipError { skip_num, .. }) => {
            assert_eq!(skip_num, "Function Invocation:/a.c:3:9 ".len());
        }
        _ => panic!("expected a skip signal"),
    }
}

#[test]
fn unwind_guard_parses() {
    let a = FuncAction::parse_unwind_guard("unwind from panicky(int)").unwrap();
    assert_eq!(a.get_name(), "panicky");
    assert!(!a.is_call());
    assert!(!a.is_return());
    let r = FuncAction::parse_return_guard("return from f()").unwrap();
    assert!(r.is_return());
}

#[test]
fn jump_kind_prefixes() {
    assert!(matches!(
        JumpActionType::from_prefix("Merge Br Guard:"),
        Some(JumpActionType::BrGuard)
    ));
    assert!(matches!(
        JumpActionType::from_prefix("Switch Guard:"),
        Some(JumpActionType::SwitchGuard)
    ));
    assert!(matches!(
        JumpActionType::from_prefix("IndirectBr Guard:"),
        Some(JumpActionType::IndirectGuard)
    ));
    assert!(JumpActionType::from_prefix("Br Guard:").is_none());
}

#[test]
fn dot_ids_carry_the_counter() {
    let a = JumpAction::parse_simple_guard("Switch Guard:/a.c:1:2 0 /a.c:3:4").unwrap();
    assert_eq!(a.get_dot_id(7).as_str(), "Switch_Guard_Action_7");
    let f = FuncAction::parse_return_guard("return from f()").unwrap();
    assert_eq!(f.get_dot_id(12).as_str(), "Function_Return_Action_12");
}

#[test]
fn error_accessors() {
    let e = GuardParseError::as_skip_err(String::from("s"), 9);
    assert!(e.is_skip_err());
    assert!(!e.is_prefix_err());
    assert_eq!(e.get_data().as_str(), "s");
    let p = GuardParseError::as_prefix_err(String::from("p"));
    assert!(p.is_prefix_err());
    let q = GuardParseError::as_parse_err(String::from("q"));
    assert!(!q.is_skip_err());
    assert_eq!(q.get_data().as_str(), "q");
}
