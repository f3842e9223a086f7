use deet::backtrace::{walk_frames, StackMemory, MAX_FRAMES};
use deet::breakpoint::{breakpoint_address, parse_address, parse_unsigned_in};
use deet::command::DebuggerCommand;
use deet::memory::{align_addr_to_word, patch_word, TRAP_OPCODE};
use deet::status::{status_after_wait, translate_wait, Status, TraceError};
use deet::symbols::{FunctionInfo, LineInfo, SymbolTable};
use deet::text::lines_2_words;
use deet::primes::is_prime;
use deet::trace::WaitOutcome;

fn table() -> SymbolTable {
    SymbolTable {
        functions: vec![
            FunctionInfo { name: "main".to_string(), low: 0x1000, high: 0x1100 },
            FunctionInfo { name: "g".to_string(), low: 0x1100, high: 0x1200 },
            FunctionInfo { name: "f".to_string(), low: 0x1200, high: 0x1300 },
        ],
        lines: vec![
            LineInfo { file: "prog.c".to_string(), number: 10, address: 0x1000 },
            LineInfo { file: "prog.c".to_string(), number: 11, address: 0x1040 },
            LineInfo { file: "prog.c".to_string(), number: 20, address: 0x1100 },
            LineInfo { file: "prog.c".to_string(), number: 30, address: 0x1200 },
            LineInfo { file: "prog.c".to_string(), number: 31, address: 0x1230 },
        ],
    }
}

#[test]
fn align_rounds_down_to_word() {
    assert_eq!(align_addr_to_word(0x1003), 0x1000);
    assert_eq!(align_addr_to_word(0x1008), 0x1008);
    assert_eq!(align_addr_to_word(7), 0);
}

#[test]
fn patch_word_replaces_one_byte() {
    let (w, orig) = patch_word(0x1122334455667788, 0x1002, TRAP_OPCODE);
    assert_eq!(orig, 0x66);
    assert_eq!(w, 0x1122334455cc7788);
    let (w0, orig0) = patch_word(0x1122334455667788, 0x1000, 0xcc);
    assert_eq!(orig0, 0x88);
    assert_eq!(w0, 0x11223344556677cc);
    let (w7, orig7) = patch_word(0x1122334455667788, 0x1007, 0xcc);
    assert_eq!(orig7, 0x11);
    assert_eq!(w7, 0xcc22334455667788);
}

#[test]
fn patch_then_restore_gives_back_the_word() {
    let original: u64 = 0x0123456789abcdef;
    for addr in 0x2000usize..0x2008 {
        let (patched, saved) = patch_word(original, addr, TRAP_OPCODE);
        let (restored, trap) = patch_word(patched, addr, saved);
        assert_eq!(trap, TRAP_OPCODE);
        assert_eq!(restored, original);
    }
}

#[test]
fn parse_commands() {
    assert!(matches!(DebuggerCommand::from_tokens(&vec!["q"]), Some(DebuggerCommand::Quit)));
    assert!(matches!(DebuggerCommand::from_tokens(&vec!["quit"]), Some(DebuggerCommand::Quit)));
    assert!(matches!(DebuggerCommand::from_tokens(&vec!["continue"]), Some(DebuggerCommand::Cont)));
    assert!(matches!(DebuggerCommand::from_tokens(&vec!["c"]), Some(DebuggerCommand::Cont)));
    assert!(matches!(DebuggerCommand::from_tokens(&vec!["bt"]), Some(DebuggerCommand::Back)));
    assert!(matches!(DebuggerCommand::from_tokens(&vec!["backtrace"]), Some(DebuggerCommand::Back)));
    match DebuggerCommand::from_tokens(&vec!["break", "*0x401000"]) {
        Some(DebuggerCommand::BreakPoint(args)) => assert_eq!(args, vec!["*0x401000".to_string()]),
        _ => panic!("expected a break command"),
    }
    match DebuggerCommand::from_tokens(&vec!["r", "a", "b"]) {
        Some(DebuggerCommand::Run(args)) => assert_eq!(args, vec!["a".to_string(), "b".to_string()]),
        _ => panic!("expected a run command"),
    }
    match DebuggerCommand::from_tokens(&vec!["run"]) {
        Some(DebuggerCommand::Run(args)) => assert!(args.is_empty()),
        _ => panic!("expected a run command"),
    }
    assert!(DebuggerCommand::from_tokens(&vec!["quitt"]).is_none());
    assert!(DebuggerCommand::from_tokens(&vec!["x", "y"]).is_none());
}

#[test]
fn parse_numbers() {
    assert_eq!(parse_unsigned_in("42", 10), Some(42));
    assert_eq!(parse_unsigned_in("+42", 10), Some(42));
    assert_eq!(parse_unsigned_in("", 10), None);
    assert_eq!(parse_unsigned_in("+", 10), None);
    assert_eq!(parse_unsigned_in("4a", 10), None);
    assert_eq!(parse_unsigned_in("ff", 16), Some(255));
    assert_eq!(parse_unsigned_in("18446744073709551615", 10), Some(usize::MAX));
    assert_eq!(parse_unsigned_in("18446744073709551616", 10), None);
    assert_eq!(parse_unsigned_in("10000000000000000", 16), None);
}

#[test]
fn parse_hex_addresses() {
    assert_eq!(parse_address("0x401000"), Some(0x401000));
    assert_eq!(parse_address("0X1F"), Some(0x1f));
    assert_eq!(parse_address("deadBEEF"), Some(0xdeadbeef));
    assert_eq!(parse_address("0x"), None);
    assert_eq!(parse_address("0xzz"), None);
}

#[test]
fn lookups_in_symbol_table() {
    let t = table();
    assert_eq!(t.function_name_for_address(0x1234), Some("f".to_string()));
    assert_eq!(t.function_name_for_address(0x1300), None);
    assert_eq!(t.address_for_function("g"), Some(0x1100));
    assert_eq!(t.address_for_function("h"), None);
    assert_eq!(t.address_for_line(31), Some(0x1230));
    assert_eq!(t.address_for_line(99), None);
    assert_eq!(t.line_index_for_address(0x1050), Some(1));
    assert_eq!(t.line_index_for_address(0x0fff), None);
}

#[test]
fn resolve_breakpoint_tokens() {
    let t = table();
    assert_eq!(breakpoint_address(&t, "*0x1234"), Some(0x1234));
    assert_eq!(breakpoint_address(&t, "*1234"), Some(0x1234));
    assert_eq!(breakpoint_address(&t, "f"), Some(0x1200));
    assert_eq!(breakpoint_address(&t, "11"), Some(0x1040));
    assert_eq!(breakpoint_address(&t, "nosuch"), None);
    assert_eq!(breakpoint_address(&t, "12"), None);
    assert_eq!(breakpoint_address(&t, "*0xq"), None);
}

#[test]
fn wait_outcomes_translate() {
    assert!(matches!(translate_wait(WaitOutcome::Exited(3), 0), Ok(Status::Exited(3))));
    assert!(matches!(translate_wait(WaitOutcome::Signaled(9), 0), Ok(Status::Signaled(9))));
    assert!(matches!(translate_wait(WaitOutcome::Stopped(5), 0x1234), Ok(Status::Stopped(5, 0x1234))));
    assert!(matches!(translate_wait(WaitOutcome::Other, 0), Err(TraceError::UnexpectedWaitResult)));
}

#[test]
fn backtrace_of_call_chain_ends_at_main() {
    let t = table();
    // f's frame base is 0x7000: [0x7000] = g's frame base, [0x7008] = return into g.
    // g's frame base is 0x7100: [0x7100] = main's frame base, [0x7108] = return into main.
    let mem = StackMemory {
        pid: None,
        words: vec![(0x7000, 0x7100), (0x7008, 0x1110), (0x7100, 0x7200), (0x7108, 0x1050), (0x7200, 0), (0x7208, 0x9999)],
    };
    let frames = walk_frames(&t, &mem, 0x1234, 0x7000);
    let names: Vec<&str> = frames.iter().map(|f| f.function.as_str()).collect();
    assert_eq!(names, vec!["f", "g", "main"]);
    assert_eq!(frames[0].line, 31);
    assert_eq!(frames[1].line, 20);
    assert_eq!(frames[2].line, 11);
    assert_eq!(frames[2].file, "prog.c");
}

#[test]
fn backtrace_stops_at_unresolved_or_unreadable() {
    let t = table();
    let empty = StackMemory { pid: None, words: vec![] };
    assert!(walk_frames(&t, &empty, 0x50, 0x7000).is_empty());
    let frames = walk_frames(&t, &empty, 0x1234, 0x7000);
    assert_eq!(frames.len(), 1);
    assert_eq!(frames[0].function, "f");
}

#[test]
fn backtrace_of_frame_cycle_is_bounded() {
    let t = table();
    let mem = StackMemory { pid: None, words: vec![(0x7000, 0x7000), (0x7008, 0x1234)] };
    let frames = walk_frames(&t, &mem, 0x1234, 0x7000);
    assert_eq!(frames.len(), MAX_FRAMES);
}

#[test]
fn count_words_and_bytes() {
    let lines = vec!["hello world".to_string(), "a  b".to_string(), "".to_string(), "h\u{e9}llo".to_string()];
    assert_eq!(lines_2_words(&lines), (7, 21));
    assert_eq!(lines_2_words(&vec![]), (0, 0));
}

#[test]
fn trial_division_primality() {
    assert!(!is_prime(0));
    assert!(!is_prime(1));
    assert!(is_prime(2));
    assert!(is_prime(3));
    assert!(is_prime(7));
    assert!(!is_prime(12));
    assert!(!is_prime(21));
    assert!(is_prime(4294967291));
    assert!(!is_prime(4294967295));
    assert!(!is_prime(4));
    assert!(!is_prime(9));
    assert!(!is_prime(25));
    assert!(!is_prime(49));
    assert!(is_prime(65521));
    assert!(!is_prime(4293001441));
}

#[test]
fn stop_needs_its_registers() {
    assert!(matches!(status_after_wait(WaitOutcome::Stopped(5), Some(0x40)), Ok(Status::Stopped(5, 0x40))));
    assert!(matches!(status_after_wait(WaitOutcome::Stopped(5), None), Err(TraceError::CallFailed)));
    assert!(matches!(status_after_wait(WaitOutcome::Exited(0), None), Ok(Status::Exited(0))));
    assert!(matches!(status_after_wait(WaitOutcome::Other, Some(1)), Err(TraceError::UnexpectedWaitResult)));
}
