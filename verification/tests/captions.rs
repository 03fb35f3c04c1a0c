use courseforge::captions::{render_srt, srt_timecode, Cue};

fn cue(start_ms: u64, end_ms: u64, words: &[&str]) -> Cue {
    Cue { start_ms, end_ms, words: words.iter().map(|w| w.to_string()).collect() }
}

#[test]
fn timecodes_are_zero_padded_hh_mm_ss_comma_mmm() {
    assert_eq!(srt_timecode(0), "00:00:00,000");
    assert_eq!(srt_timecode(65_123), "00:01:05,123");
    assert_eq!(srt_timecode(3_723_004), "01:02:03,004");
    assert_eq!(srt_timecode(100 * 3_600_000 + 1), "100:00:00,001");
}

#[test]
fn srt_timecodes_are_zero_padded_hh_mm_ss_comma_mmm() {
    let srt = render_srt(&vec![cue(0, 65_123, &["one-long-word"])]);
    assert!(srt.contains("00:00:00,000 --> 00:01:05,123"), "got: {srt}");
}

#[test]
fn one_cue_reads_as_a_numbered_block() {
    let srt = render_srt(&vec![cue(0, 1000, &["Hello", " world"])]);
    assert_eq!(srt, "1\n00:00:00,000 --> 00:00:01,000\nHello world\n\n");
}

#[test]
fn cue_text_is_trimmed_and_blank_cues_take_no_number() {
    let srt = render_srt(&vec![
        cue(0, 500, &[" first "]),
        cue(500, 900, &["  ", "\t"]),
        cue(1000, 1500, &[" second"]),
    ]);
    assert_eq!(
        srt,
        "1\n00:00:00,000 --> 00:00:00,500\nfirst\n\n2\n00:00:01,000 --> 00:00:01,500\nsecond\n\n"
    );
}

#[test]
fn no_cues_make_an_empty_file() {
    assert_eq!(render_srt(&Vec::new()), "");
    assert_eq!(render_srt(&vec![cue(0, 10, &[])]), "");
}
