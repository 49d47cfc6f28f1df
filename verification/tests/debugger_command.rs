use balancebeam::debugger_command::DebuggerCommand;

#[test]
fn quit_in_both_spellings() {
    assert!(matches!(DebuggerCommand::from_tokens(&vec!["q"]), Some(DebuggerCommand::Quit)));
    assert!(matches!(DebuggerCommand::from_tokens(&vec!["quit"]), Some(DebuggerCommand::Quit)));
    assert!(matches!(
        DebuggerCommand::from_tokens(&vec!["quit", "now"]),
        Some(DebuggerCommand::Quit)
    ));
}

#[test]
fn run_takes_the_remaining_tokens_as_arguments() {
    match DebuggerCommand::from_tokens(&vec!["r"]) {
        Some(DebuggerCommand::Run(args)) => assert!(args.is_empty()),
        _ => panic!("run was expected"),
    }
    match DebuggerCommand::from_tokens(&vec!["run", "a", "--b", "c d"]) {
        Some(DebuggerCommand::Run(args)) => {
            assert_eq!(args, vec!["a".to_string(), "--b".to_string(), "c d".to_string()])
        }
        _ => panic!("run was expected"),
    }
}

#[test]
fn continue_and_backtrace_in_all_spellings() {
    assert!(matches!(DebuggerCommand::from_tokens(&vec!["c"]), Some(DebuggerCommand::Continue)));
    assert!(matches!(DebuggerCommand::from_tokens(&vec!["cont"]), Some(DebuggerCommand::Continue)));
    assert!(matches!(DebuggerCommand::from_tokens(&vec!["bt"]), Some(DebuggerCommand::Backtrace)));
    assert!(matches!(DebuggerCommand::from_tokens(&vec!["back"]), Some(DebuggerCommand::Backtrace)));
    assert!(matches!(
        DebuggerCommand::from_tokens(&vec!["backtrace"]),
        Some(DebuggerCommand::Backtrace)
    ));
}

#[test]
fn break_keeps_the_address_behind_the_star() {
    match DebuggerCommand::from_tokens(&vec!["b", "*0x401136"]) {
        Some(DebuggerCommand::Break(target)) => assert_eq!(target, "0x401136"),
        _ => panic!("break was expected"),
    }
    match DebuggerCommand::from_tokens(&vec!["break", "*main", "ignored"]) {
        Some(DebuggerCommand::Break(target)) => assert_eq!(target, "main"),
        _ => panic!("break was expected"),
    }
    match DebuggerCommand::from_tokens(&vec!["b", "*"]) {
        Some(DebuggerCommand::Break(target)) => assert_eq!(target, ""),
        _ => panic!("break was expected"),
    }
    match DebuggerCommand::from_tokens(&vec!["b", "*\u{e9}t\u{e9}"]) {
        Some(DebuggerCommand::Break(target)) => assert_eq!(target, "\u{e9}t\u{e9}"),
        _ => panic!("break was expected"),
    }
}

#[test]
fn unknown_words_give_no_command() {
    assert!(DebuggerCommand::from_tokens(&vec!["x"]).is_none());
    assert!(DebuggerCommand::from_tokens(&vec![""]).is_none());
    assert!(DebuggerCommand::from_tokens(&vec!["Q"]).is_none());
    assert!(DebuggerCommand::from_tokens(&vec!["quit "]).is_none());
    assert!(DebuggerCommand::from_tokens(&vec!["continue"]).is_none());
    assert!(DebuggerCommand::from_tokens(&vec!["brea", "*1"]).is_none());
}
