use maeve::command::MaeveCommand;
use maeve::dispatch::{apply_command, enqueue_found, playback_step, PlaybackAction, Reply};
use maeve::state::{MaeveState, Song};
use maeve::utils::lines_of;
use tsproto_packets::packets::{Direction, OutPacket};

fn song(name: &str, hash: u64) -> Song {
    let packets = vec![OutPacket::new_from_data(Direction::C2S, vec![9, 8, 7])];
    Song { packets, name: name.to_string(), hash }
}

fn three_songs() -> MaeveState {
    let mut s = MaeveState::new();
    s.add_song(song("music/a", 1));
    s.add_song(song("music/b", 2));
    s.add_song(song("music/c", 3));
    s
}

#[test]
fn play_and_pause_commands() {
    let mut s = MaeveState::new();
    assert!(matches!(apply_command(&mut s, MaeveCommand::Play), Reply::Nothing));
    assert!(!s.playing());
    assert!(matches!(apply_command(&mut s, MaeveCommand::Play), Reply::Resumed));
    assert!(s.playing());
    assert!(matches!(apply_command(&mut s, MaeveCommand::Pause), Reply::Nothing));
    assert!(!s.playing());
}

#[test]
fn moving_commands_change_the_current_song() {
    let mut s = three_songs();
    assert!(matches!(apply_command(&mut s, MaeveCommand::Jump(1)), Reply::Moved));
    assert_eq!(s.current_index(), 1);
    assert_eq!(s.current_hash(), 2);
    assert!(matches!(apply_command(&mut s, MaeveCommand::Next), Reply::Moved));
    assert_eq!(s.current_index(), 2);
    assert_eq!(s.current_hash(), 3);
    assert!(matches!(apply_command(&mut s, MaeveCommand::Past), Reply::Moved));
    assert_eq!(s.current_index(), 1);
    assert!(matches!(apply_command(&mut s, MaeveCommand::Remove(0..1)), Reply::Moved));
    assert_eq!(s.current_index(), 1);
    assert_eq!(s.current_song().unwrap().name, "music/c");
    assert!(matches!(apply_command(&mut s, MaeveCommand::Clear), Reply::Moved));
    assert!(s.current_song().is_none());
}

#[test]
fn asking_commands_leave_the_state_alone() {
    let mut s = three_songs();
    s.queue_add("music/q".to_string());
    let before = s.pl_list();
    assert!(matches!(apply_command(&mut s, MaeveCommand::Help), Reply::HelpText));
    match apply_command(&mut s, MaeveCommand::Add("x*".to_string())) {
        Reply::LookUp(q) => assert_eq!(q, "x*"),
        _ => panic!("an add is looked up"),
    }
    match apply_command(&mut s, MaeveCommand::List) {
        Reply::Listing(text) => assert_eq!(text, before),
        _ => panic!("a list is answered with the listing"),
    }
    assert_eq!(s.pl_list(), before);
}

#[test]
fn mode_and_order_commands() {
    let mut s = three_songs();
    s.queue_add("music/q".to_string());
    assert!(matches!(apply_command(&mut s, MaeveCommand::Loop), Reply::Nothing));
    assert!(s.loop_playlist());
    assert!(matches!(apply_command(&mut s, MaeveCommand::Sort), Reply::Nothing));
    assert!(matches!(apply_command(&mut s, MaeveCommand::Shuffle), Reply::Nothing));
    assert_eq!(s.current_index(), 0);
    assert!(matches!(apply_command(&mut s, MaeveCommand::QueueClear), Reply::Nothing));
    assert!(s.queue_front().is_none());
}

#[test]
fn nothing_found_changes_nothing() {
    let mut s = three_songs();
    let before = s.pl_list();
    let text = enqueue_found(&mut s, "zzz", Vec::new());
    assert_eq!(text, "using \"zzz\" [COLOR=#ff0000]NO FILE WAS FOUND[/COLOR]");
    assert_eq!(s.pl_list(), before);
    assert!(s.queue_front().is_none());
}

#[test]
fn found_files_are_queued_in_order() {
    let mut s = MaeveState::new();
    s.queue_add("music/first".to_string());
    let found = vec!["music/x".to_string(), "music/y".to_string()];
    let text = enqueue_found(&mut s, "*", found);
    assert_eq!(text, s.pl_list());
    assert!(text.ends_with(
        "\nqueued:\n[COLOR=#FF69B4]0[/COLOR] music/first\n\
         [COLOR=#FF69B4]1[/COLOR] music/x\n[COLOR=#FF69B4]2[/COLOR] music/y\n"
    ));
    assert_eq!(s.queue_front().unwrap(), "music/first");
    s.queue_pop_front();
    assert_eq!(s.queue_front().unwrap(), "music/x");
    s.queue_pop_front();
    assert_eq!(s.queue_front().unwrap(), "music/y");
}

#[test]
fn playback_steps() {
    assert!(matches!(playback_step(1, 1, true, true), PlaybackAction::Send));
    assert!(matches!(playback_step(1, 1, false, true), PlaybackAction::Wait));
    assert!(matches!(playback_step(1, 2, true, true), PlaybackAction::Restart));
    assert!(matches!(playback_step(1, 2, false, true), PlaybackAction::Restart));
    assert!(matches!(playback_step(1, 1, true, false), PlaybackAction::Advance));
    assert!(matches!(playback_step(1, 2, false, false), PlaybackAction::Advance));
}

#[test]
fn output_lines_drop_their_endings() {
    let lines = lines_of(b"music/a.mp3\nmusic/b c.ogg\r\n\nlast\r");
    assert_eq!(lines, vec!["music/a.mp3", "music/b c.ogg", "", "last\r"]);
    assert!(lines_of(b"").is_empty());
    assert_eq!(lines_of(b"one\n"), vec!["one"]);
    assert_eq!(lines_of(b"\n"), vec![""]);
}

#[test]
fn output_lines_replace_bad_bytes() {
    let lines = lines_of(b"caf\xc3\xa9\nbad\xffbyte\n");
    assert_eq!(lines, vec!["caf\u{e9}", "bad\u{fffd}byte"]);
}
