use maeve::audio::{audio_packets, pcm_frames, samples_from_be_bytes, FRAME_SAMPLES};
use maeve::number::{chars_of, parse_usize_chars, push_decimal};
use maeve::utils::{split_at_line, split_at_line_terminates};
use tsproto_packets::packets::{AudioData, CodecType, OutAudio};

#[test]
fn split_cuts_before_the_last_newline_that_fits() {
    assert_eq!(split_at_line("abc\ndef", 5), vec!["abc", "\ndef"]);
    assert_eq!(split_at_line("line one\nline two\nline three", 12), vec!["line one", "\nline two", "\nline three"]);
}

#[test]
fn split_without_newline_cuts_at_the_limit() {
    assert_eq!(split_at_line("abcdefgh", 3), vec!["abc", "def", "gh"]);
}

#[test]
fn split_keeps_characters_whole() {
    assert_eq!(split_at_line("ééé", 3), vec!["é", "é", "é"]);
    assert_eq!(split_at_line("aéb", 2), vec!["a", "é", "b"]);
}

#[test]
fn split_of_short_and_empty_text() {
    assert_eq!(split_at_line("hello", 10), vec!["hello"]);
    assert_eq!(split_at_line("hello", 5), vec!["hello"]);
    assert!(split_at_line("", 4).is_empty());
}

#[test]
fn split_pieces_rejoin_to_the_text() {
    let text = "current playlist:\n0 music/a\n1 music/b with a long name\n2 ünïcödé\n3 x\n";
    for max in [32usize, 40, 64, 200] {
        assert!(split_at_line_terminates(text, max));
        let chunks = split_at_line(text, max);
        assert_eq!(chunks.concat(), text);
        assert!(chunks.len() > 1 || max >= text.len());
        for c in &chunks {
            assert!(!c.is_empty() && c.len() <= max);
        }
    }
}

#[test]
fn decimal_notation() {
    let mut out = String::from("n=");
    push_decimal(&mut out, 0);
    assert_eq!(out, "n=0");
    let mut out = String::new();
    push_decimal(&mut out, 1234567890);
    assert_eq!(out, "1234567890");
    let mut out = String::new();
    push_decimal(&mut out, u128::MAX);
    assert_eq!(out, u128::MAX.to_string());
    let mut out = String::new();
    push_decimal(&mut out, usize::MAX as u128);
    assert_eq!(out, usize::MAX.to_string());
}

#[test]
fn decimal_notation_reads_back() {
    for n in [0usize, 7, 10, 99, 100, 65535, usize::MAX] {
        let mut out = String::new();
        push_decimal(&mut out, n as u128);
        let cs = chars_of(&out);
        assert_eq!(parse_usize_chars(&cs, 0, cs.len()), Some(n));
    }
}

#[test]
fn parse_numbers_as_std_does() {
    for text in ["0", "42", "+42", "", "+", "-1", "4 2", "0042", "18446744073709551615", "18446744073709551616", "x1"] {
        let cs = chars_of(text);
        assert_eq!(parse_usize_chars(&cs, 0, cs.len()), text.parse::<u64>().ok().map(|v| v as usize), "{text}");
    }
}

#[test]
fn samples_are_big_endian_and_an_odd_byte_is_dropped() {
    let samples = samples_from_be_bytes(&[0x01, 0x02, 0xff, 0xfe, 0x80, 0x00, 0x7f, 0xff, 0x55]);
    assert_eq!(samples, vec![258, -2, i16::MIN, i16::MAX]);
    assert!(samples_from_be_bytes(&[]).is_empty());
}

#[test]
fn frames_hold_full_chunks() {
    let samples: Vec<i16> = (0..(2 * FRAME_SAMPLES) as i32).map(|i| (i % 1000) as i16).collect();
    let frames = pcm_frames(&samples);
    assert_eq!(frames.len(), 2);
    assert_eq!(frames[0], samples[..FRAME_SAMPLES].to_vec());
    assert_eq!(frames[1], samples[FRAME_SAMPLES..].to_vec());
}

#[test]
fn a_partial_last_frame_keeps_the_rest_of_the_buffer() {
    let samples: Vec<i16> = (0..(FRAME_SAMPLES + 10) as i32).map(|i| (i % 3000) as i16).collect();
    let frames = pcm_frames(&samples);
    assert_eq!(frames.len(), 2);
    assert_eq!(&frames[1][..10], &samples[FRAME_SAMPLES..]);
    assert_eq!(&frames[1][10..], &samples[10..FRAME_SAMPLES]);

    let short: Vec<i16> = vec![5, 6, 7];
    let frames = pcm_frames(&short);
    assert_eq!(frames.len(), 1);
    assert_eq!(&frames[0][..3], &[5, 6, 7]);
    assert!(frames[0][3..].iter().all(|&s| s == 0));
    assert!(pcm_frames(&[]).is_empty());
}

#[test]
fn packets_count_their_ids_up() {
    let encoded = vec![vec![1u8, 2, 3], vec![], vec![9u8; 40]];
    let packets = audio_packets(&encoded);
    assert_eq!(packets.len(), 3);
    for (i, data) in encoded.iter().enumerate() {
        let expected = OutAudio::new(&AudioData::C2S { id: i as u16, codec: CodecType::OpusMusic, data });
        assert_eq!(packets[i], expected);
    }
    assert_ne!(packets[0].content(), &encoded[0][..]);
}

#[test]
fn split_that_would_not_end_is_flagged() {
    assert!(split_at_line_terminates("abc\ndef", 5));
    assert!(split_at_line_terminates("abcdefgh", 3));
    assert!(split_at_line_terminates("", 4));
    assert!(split_at_line_terminates("ééé", 3));
    assert!(!split_at_line_terminates("\nabcdefgh", 5));
    assert!(!split_at_line_terminates("ab\ncdefghij", 5));
    assert!(!split_at_line_terminates("é", 1));
    assert!(!split_at_line_terminates("abc", 0));
    assert!(!split_at_line_terminates("", 0));
    let text = "current playlist:\n0 music/a\n1 music/b with a long name\n";
    assert!(!split_at_line_terminates(text, 8));
    assert!(split_at_line_terminates(text, 40));
}
