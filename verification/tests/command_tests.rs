use maeve::command::MaeveCommand;

fn parse(s: &str) -> Option<MaeveCommand> {
    assert!(!MaeveCommand::parse_overflows(s));
    MaeveCommand::parse_str(s)
}

#[test]
fn add_takes_the_rest_of_the_message() {
    match parse("!add music/fadaei*") {
        Some(MaeveCommand::Add(q)) => assert_eq!(q, "music/fadaei*"),
        other => panic!("unexpected {:?}", other),
    }
    match parse("!add two words here") {
        Some(MaeveCommand::Add(q)) => assert_eq!(q, "two words here"),
        other => panic!("unexpected {:?}", other),
    }
    match parse("!add ") {
        Some(MaeveCommand::Add(q)) => assert_eq!(q, ""),
        other => panic!("unexpected {:?}", other),
    }
    match parse("!add ünïcödé") {
        Some(MaeveCommand::Add(q)) => assert_eq!(q, "ünïcödé"),
        other => panic!("unexpected {:?}", other),
    }
}

#[test]
fn add_without_argument_is_not_a_command() {
    assert!(parse("!add").is_none());
}

#[test]
fn plain_commands() {
    assert!(matches!(parse("!play"), Some(MaeveCommand::Play)));
    assert!(matches!(parse("!pause"), Some(MaeveCommand::Pause)));
    assert!(matches!(parse("!help"), Some(MaeveCommand::Help)));
    assert!(matches!(parse("!next"), Some(MaeveCommand::Next)));
    assert!(matches!(parse("!past"), Some(MaeveCommand::Past)));
    assert!(matches!(parse("!list"), Some(MaeveCommand::List)));
    assert!(matches!(parse("!clear"), Some(MaeveCommand::Clear)));
    assert!(matches!(parse("!queue-clear"), Some(MaeveCommand::QueueClear)));
    assert!(matches!(parse("!shuffle"), Some(MaeveCommand::Shuffle)));
    assert!(matches!(parse("!sort"), Some(MaeveCommand::Sort)));
    assert!(matches!(parse("!loop"), Some(MaeveCommand::Loop)));
    assert!(matches!(parse("!play now"), Some(MaeveCommand::Play)));
}

#[test]
fn messages_that_are_not_commands() {
    assert!(parse("").is_none());
    assert!(parse("play").is_none());
    assert!(parse("!").is_none());
    assert!(parse("!unknown").is_none());
    assert!(parse("!Play").is_none());
    assert!(parse(" !play").is_none());
    assert!(parse("!playlist").is_none());
}

#[test]
fn jump_reads_an_index() {
    assert!(matches!(parse("!jump 5"), Some(MaeveCommand::Jump(5))));
    assert!(matches!(parse("!jump 007"), Some(MaeveCommand::Jump(7))));
    assert!(matches!(parse("!jump +12"), Some(MaeveCommand::Jump(12))));
    assert!(parse("!jump").is_none());
    assert!(parse("!jump ").is_none());
    assert!(parse("!jump x").is_none());
    assert!(parse("!jump -1").is_none());
    assert!(parse("!jump +").is_none());
    assert!(parse("!jump 3 4").is_none());
    assert!(matches!(
        parse("!jump 18446744073709551615"),
        Some(MaeveCommand::Jump(usize::MAX))
    ));
    assert!(parse("!jump 18446744073709551616").is_none());
}

#[test]
fn remove_one_index() {
    match parse("!remove 3") {
        Some(MaeveCommand::Remove(r)) => assert_eq!(r, 3..4),
        other => panic!("unexpected {:?}", other),
    }
}

#[test]
fn remove_a_range_in_either_order() {
    match parse("!remove 2..5") {
        Some(MaeveCommand::Remove(r)) => assert_eq!(r, 2..6),
        other => panic!("unexpected {:?}", other),
    }
    match parse("!remove 5..2") {
        Some(MaeveCommand::Remove(r)) => assert_eq!(r, 2..6),
        other => panic!("unexpected {:?}", other),
    }
    match parse("!remove 4..4") {
        Some(MaeveCommand::Remove(r)) => assert_eq!(r, 4..5),
        other => panic!("unexpected {:?}", other),
    }
}

#[test]
fn remove_with_a_bad_end_removes_the_start_alone() {
    match parse("!remove 2..x") {
        Some(MaeveCommand::Remove(r)) => assert_eq!(r, 2..3),
        other => panic!("unexpected {:?}", other),
    }
    match parse("!remove 1...3") {
        Some(MaeveCommand::Remove(r)) => assert_eq!(r, 1..2),
        other => panic!("unexpected {:?}", other),
    }
    match parse("!remove 7..") {
        Some(MaeveCommand::Remove(r)) => assert_eq!(r, 7..8),
        other => panic!("unexpected {:?}", other),
    }
}

#[test]
fn remove_without_a_start_is_not_a_command() {
    assert!(parse("!remove").is_none());
    assert!(parse("!remove x").is_none());
    assert!(parse("!remove ..3").is_none());
    assert!(parse("!remove 1 2").is_none());
}

#[test]
fn remove_whose_end_does_not_fit_is_flagged() {
    assert!(MaeveCommand::parse_overflows("!remove 18446744073709551615"));
    assert!(MaeveCommand::parse_overflows("!remove 3..18446744073709551615"));
    assert!(MaeveCommand::parse_overflows("!remove 18446744073709551615..3"));
    assert!(!MaeveCommand::parse_overflows("!remove 18446744073709551614"));
    assert!(!MaeveCommand::parse_overflows("!remove 3..18446744073709551616"));
    assert!(!MaeveCommand::parse_overflows("!jump 18446744073709551615"));
    assert!(!MaeveCommand::parse_overflows("remove 18446744073709551615"));
    match parse("!remove 18446744073709551614") {
        Some(MaeveCommand::Remove(r)) => assert_eq!(r, usize::MAX - 1..usize::MAX),
        other => panic!("unexpected {:?}", other),
    }
}

#[test]
fn help_lists_the_commands() {
    let text = MaeveCommand::help();
    assert!(text.starts_with("\nMaeve commands:\n"));
    assert!(text.contains("!loop -- toggle between playlist loop, song loop, and no loop"));
    assert!(text.contains("[COLOR=#FFD700]made by ostad 007[/COLOR]"));
    assert_eq!(text, maeve::command::HELP_TEXT);
}
