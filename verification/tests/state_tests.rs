use maeve::state::{MaeveState, Song};
use tsproto_packets::packets::{Direction, OutPacket};

fn packets() -> Vec<OutPacket> {
    vec![OutPacket::new_from_data(Direction::C2S, vec![1, 2, 3])]
}

fn song(name: &str, hash: u64) -> Song {
    Song { packets: packets(), name: name.to_string(), hash }
}

/// The names of the first `n` songs, read through `jump` and `current_song`; the current index
/// is set back afterwards.
fn names(state: &mut MaeveState, n: usize) -> Vec<String> {
    let keep = state.current_index();
    let mut out = Vec::new();
    for i in 0..n {
        state.jump(i);
        out.push(state.current_song().expect("song in range").name);
    }
    state.jump(keep);
    out
}

fn state_with(list: &[(&str, u64)]) -> MaeveState {
    let mut s = MaeveState::new();
    for (n, h) in list {
        s.add_song(song(n, *h));
    }
    s
}

#[test]
fn a_new_player_is_empty_and_playing() {
    let s: MaeveState = MaeveState::new();
    assert!(s.playing());
    assert_eq!(s.current_index(), 0);
    assert_eq!(s.current_hash(), 0);
    assert!(!s.loop_song());
    assert!(!s.loop_playlist());
    assert!(s.current_song().is_none());
    assert!(s.queue_front().is_none());
}

#[test]
fn play_toggles_and_pause_stops() {
    let mut s: MaeveState = MaeveState::new();
    assert!(!s.play());
    assert!(!s.playing());
    assert!(s.play());
    assert!(s.playing());
    s.pause();
    assert!(!s.playing());
    s.pause();
    assert!(!s.playing());
    assert!(s.play());
    assert!(s.playing());
}

#[test]
fn loop_cycles_through_three_modes() {
    let mut s: MaeveState = MaeveState::new();
    s.loop_cycle();
    assert!(s.loop_playlist() && !s.loop_song());
    s.loop_cycle();
    assert!(!s.loop_playlist() && s.loop_song());
    s.loop_cycle();
    assert!(!s.loop_playlist() && !s.loop_song());
    s.loop_cycle();
    assert!(s.loop_playlist() && !s.loop_song());
}

#[test]
fn jump_takes_the_hash_of_the_song_there() {
    let mut s = state_with(&[("a", 10), ("b", 20), ("c", 30)]);
    s.jump(2);
    assert_eq!(s.current_index(), 2);
    assert_eq!(s.current_hash(), 30);
    s.jump(7);
    assert_eq!(s.current_index(), 7);
    assert_eq!(s.current_hash(), 0);
    assert!(s.current_song().is_none());
}

#[test]
fn adding_a_song_does_not_retake_the_hash() {
    let mut s: MaeveState = MaeveState::new();
    s.add_song(song("a", 10));
    assert_eq!(s.current_hash(), 0);
    let cur = s.current_song().unwrap();
    assert_eq!(cur.name, "a");
    assert_eq!(cur.hash, 10);
    assert_eq!(cur.packets, packets());
}

#[test]
fn next_and_past_wrap() {
    let mut s = state_with(&[("a", 10), ("b", 20)]);
    s.next();
    assert_eq!(s.current_index(), 1);
    assert_eq!(s.current_hash(), 20);
    s.past();
    assert_eq!(s.current_index(), 0);
    assert_eq!(s.current_hash(), 10);
    s.past();
    assert_eq!(s.current_index(), usize::MAX);
    assert_eq!(s.current_hash(), 0);
    s.next();
    assert_eq!(s.current_index(), 0);
    assert_eq!(s.current_hash(), 10);
}

#[test]
fn remove_range_moves_the_current_index() {
    let list = [("a", 1), ("b", 2), ("c", 3), ("d", 4), ("e", 5)];

    let mut s = state_with(&list);
    s.jump(4);
    s.remove_range(1..3);
    assert_eq!(names(&mut s, 3), vec!["a", "d", "e"]);
    assert_eq!(s.current_index(), 2);
    assert_eq!(s.current_hash(), 5);

    let mut s = state_with(&list);
    s.jump(2);
    s.remove_range(1..3);
    assert_eq!(s.current_index(), 1);
    assert_eq!(s.current_hash(), 4);

    let mut s = state_with(&list);
    s.jump(0);
    s.remove_range(1..3);
    assert_eq!(s.current_index(), 0);
    assert_eq!(s.current_hash(), 1);

    // an index at the end of the range stays where it is
    let mut s = state_with(&list);
    s.jump(3);
    s.remove_range(1..3);
    assert_eq!(s.current_index(), 3);
    assert_eq!(s.current_hash(), 0);
}

#[test]
fn remove_range_is_cut_at_the_end_of_the_playlist() {
    let mut s = state_with(&[("a", 1), ("b", 2), ("c", 3), ("d", 4), ("e", 5)]);
    s.jump(4);
    s.remove_range(2..100);
    assert_eq!(names(&mut s, 2), vec!["a", "b"]);
    assert_eq!(s.current_index(), 2);
    assert_eq!(s.current_hash(), 0);
    s.remove_range(2..2);
    assert_eq!(s.current_index(), 2);
}

#[test]
fn sort_is_stable_by_name() {
    let mut s = state_with(&[("b", 1), ("a", 2), ("c", 3), ("a", 4), ("B", 5)]);
    s.jump(1);
    s.sort();
    assert_eq!(names(&mut s, 5), vec!["B", "a", "a", "b", "c"]);
    s.jump(1);
    assert_eq!(s.current_hash(), 2);
    s.jump(2);
    assert_eq!(s.current_hash(), 4);
    s.jump(0);
    assert_eq!(s.current_hash(), 5);
}

#[test]
fn sort_orders_by_bytes() {
    let mut s = state_with(&[("é", 1), ("z", 2), ("ab", 3), ("a", 4)]);
    s.sort();
    assert_eq!(names(&mut s, 4), vec!["a", "ab", "z", "é"]);
    let before = names(&mut s, 4);
    s.sort();
    assert_eq!(names(&mut s, 4), before);
}

#[test]
fn shuffle_keeps_the_songs() {
    let list: Vec<(String, u64)> = (0..20).map(|i| (format!("s{i:02}"), i)).collect();
    let mut changed = false;
    for _ in 0..5 {
        let mut s = MaeveState::new();
        for (n, h) in &list {
            s.add_song(song(n, *h));
        }
        s.jump(3);
        s.shuffle();
        assert_eq!(s.current_index(), 3);
        assert_eq!(s.current_hash(), 3);
        let mut got = names(&mut s, 20);
        if got != list.iter().map(|(n, _)| n.clone()).collect::<Vec<_>>() {
            changed = true;
        }
        got.sort();
        assert_eq!(got, list.iter().map(|(n, _)| n.clone()).collect::<Vec<_>>());
    }
    assert!(changed);
}

#[test]
fn queue_is_first_in_first_out() {
    let mut s: MaeveState = MaeveState::new();
    s.queue_pop_front();
    assert!(s.queue_front().is_none());
    s.queue_add("music/one".to_string());
    s.queue_add("music/two".to_string());
    assert_eq!(s.queue_front().unwrap(), "music/one");
    s.queue_pop_front();
    assert_eq!(s.queue_front().unwrap(), "music/two");
    s.queue_add("music/three".to_string());
    s.queue_clear();
    assert!(s.queue_front().is_none());
}

#[test]
fn clear_empties_the_playlist() {
    let mut s = state_with(&[("a", 1), ("b", 2)]);
    s.jump(1);
    s.queue_add("music/q".to_string());
    s.pl_clear();
    assert_eq!(s.current_index(), 0);
    assert_eq!(s.current_hash(), 0);
    assert!(s.current_song().is_none());
    assert_eq!(s.queue_front().unwrap(), "music/q");
}

#[test]
fn listing_of_an_empty_player() {
    let s: MaeveState = MaeveState::new();
    assert_eq!(s.pl_list(), "\ncurrent playlist:\n\n\n");
}

#[test]
fn listing_marks_the_current_song_and_numbers_the_queue() {
    let mut s = state_with(&[("music/a", 1), ("music/b", 2)]);
    s.jump(1);
    s.queue_add("music/c".to_string());
    s.loop_cycle();
    assert_eq!(
        s.pl_list(),
        "\ncurrent playlist:\n> looping playlist\n\n\
         [COLOR=#00ffff]0[/COLOR] music/a\n\
         > [COLOR=#0fff0f]1[/COLOR] [B]music/b[/B]\n\
         \nqueued:\n\
         [COLOR=#FF69B4]2[/COLOR] music/c\n"
    );
    s.play();
    s.loop_cycle();
    let text = s.pl_list();
    assert!(text.starts_with("\ncurrent playlist:\n> looping current song\n\n"));
    assert!(text.contains("| [COLOR=#0fff0f]1[/COLOR] [B]music/b[/B]\n"));
}

#[test]
fn listing_numbers_in_decimal() {
    let mut s: MaeveState = MaeveState::new();
    for i in 0..12 {
        s.add_song(song(&format!("n{i}"), i));
    }
    s.jump(100);
    let text = s.pl_list();
    assert!(text.contains("[COLOR=#00ffff]10[/COLOR] n10\n"));
    assert!(text.contains("[COLOR=#00ffff]11[/COLOR] n11\n"));
    assert!(!text.contains("0fff0f"));
}

#[test]
fn song_hash_depends_on_name_and_size() {
    let a = Song::hash("music/a", 10);
    assert_eq!(a, Song::hash("music/a", 10));
    assert_ne!(a, Song::hash("music/b", 10));
    assert_ne!(a, Song::hash("music/a", 11));
}

#[test]
fn remove_range_bounds_are_checked_before_removing() {
    let mut s = state_with(&[("a", 1), ("b", 2), ("c", 3), ("d", 4), ("e", 5)]);
    assert!(s.remove_range_in_bounds(&(1..3)));
    assert!(s.remove_range_in_bounds(&(5..9)));
    assert!(s.remove_range_in_bounds(&(2..2)));
    assert!(!s.remove_range_in_bounds(&(6..9)));
    assert!(!s.remove_range_in_bounds(&(3..2)));
    s.jump(4);
    s.remove_range(5..9);
    assert_eq!(names(&mut s, 5), vec!["a", "b", "c", "d", "e"]);
    assert_eq!(s.current_index(), 4);
}
