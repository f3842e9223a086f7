use deet::debugger::{Debugger, SessionError};
use deet::linked_list::LinkedList;
use deet::process::{fd_numbers, Process};
use deet::symbols::{FunctionInfo, LineInfo, SymbolTable};

fn session() -> Debugger {
    let symbols = SymbolTable {
        functions: vec![FunctionInfo { name: "main".to_string(), low: 0x1000, high: 0x1100 }],
        lines: vec![LineInfo { file: "prog.c".to_string(), number: 5, address: 0x1010 }],
    };
    Debugger::new("./prog".to_string(), symbols)
}

fn no_poke(_pid: i32, _addr: usize, _word: u64) -> bool {
    false
}

#[test]
fn break_without_process_registers_address() {
    let mut d = session();
    assert!(d.break_at(&vec!["main".to_string()], &no_poke) == Ok(0));
    assert!(d.break_at(&vec!["5".to_string()], &no_poke) == Ok(1));
    assert!(d.break_at(&vec!["*0x1010".to_string()], &no_poke) == Ok(2));
    assert_eq!(d.breakpoints, vec![0x1000, 0x1010, 0x1010]);
}

#[test]
fn unresolved_break_leaves_registry_alone() {
    let mut d = session();
    assert!(d.break_at(&vec!["main".to_string()], &no_poke) == Ok(0));
    assert!(d.break_at(&vec!["nosuch".to_string()], &no_poke) == Err(SessionError::BreakpointSpecUnresolved));
    assert!(d.break_at(&vec!["77".to_string()], &no_poke) == Err(SessionError::BreakpointSpecUnresolved));
    assert!(d.break_at(&vec!["*0xzz".to_string()], &no_poke) == Err(SessionError::BreakpointSpecUnresolved));
    assert_eq!(d.breakpoints.len(), 1);
    assert!(d.inferior.is_none());
}

#[test]
fn break_needs_exactly_one_argument() {
    let mut d = session();
    assert!(d.break_at(&vec![], &no_poke) == Err(SessionError::Usage));
    assert!(d.break_at(&vec!["a".to_string(), "b".to_string()], &no_poke) == Err(SessionError::Usage));
    assert!(d.breakpoints.is_empty());
}

#[test]
fn commands_without_process_fail() {
    let mut d = session();
    assert!(matches!(d.cont(&no_poke), Err(SessionError::NoActiveProcess)));
    assert!(matches!(d.backtrace(), Err(SessionError::NoActiveProcess)));
    assert!(d.quit() == Ok(()));
    assert!(d.inferior.is_none());
}

#[test]
fn failed_spawn_leaves_no_process() {
    let mut d = session();
    assert!(d.break_at(&vec!["main".to_string()], &no_poke) == Ok(0));
    let spawn = || -> Option<i32> { None };
    assert!(matches!(d.run(&spawn, &no_poke), Err(SessionError::SpawnFailure)));
    assert!(d.inferior.is_none());
    assert_eq!(d.breakpoints, vec![0x1000]);
}

#[test]
fn linked_list_is_last_in_first_out() {
    let mut list: LinkedList<u32> = LinkedList::new();
    assert!(list.is_empty());
    assert_eq!(list.get_size(), 0);
    for i in 1..12 {
        list.push_front(i);
    }
    assert_eq!(list.get_size(), 11);
    assert_eq!(list.pop_front(), Some(11));
    assert_eq!(list.pop_front(), Some(10));
    assert_eq!(list.get_size(), 9);
    let mut empty: LinkedList<u32> = LinkedList::new();
    assert_eq!(empty.pop_front(), None);
    assert!(empty.is_empty());
}

#[test]
fn process_keeps_its_fields() {
    let p = Process::new(42, 1, "sleep".to_string());
    assert_eq!(p.pid, 42);
    assert_eq!(p.ppid, 1);
    assert_eq!(p.command, "sleep");
}

#[test]
fn spawn_with_bad_pid_is_refused() {
    let mut d = session();
    let spawn = || -> Option<i32> { Some(0) };
    assert!(matches!(d.run(&spawn, &no_poke), Err(SessionError::SpawnFailure)));
    let spawn_all = || -> Option<i32> { Some(-1) };
    assert!(matches!(d.run(&spawn_all, &no_poke), Err(SessionError::SpawnFailure)));
    assert!(d.inferior.is_none());
}

#[test]
fn break_literal_address_is_appended_without_dedup() {
    let mut d = session();
    assert!(d.break_at(&vec!["*0x4000".to_string()], &no_poke) == Ok(0));
    assert!(d.break_at(&vec!["*0x4000".to_string()], &no_poke) == Ok(1));
    assert_eq!(d.breakpoints, vec![0x4000, 0x4000]);
}

#[test]
fn fd_names_become_sorted_numbers() {
    let names: Vec<String> = vec!["10", "0", "2", "cwd", "1", "+3", "", "4x"].into_iter().map(|s| s.to_string()).collect();
    assert_eq!(fd_numbers(&names), vec![0, 1, 2, 3, 10]);
    assert!(fd_numbers(&vec![]).is_empty());
}

