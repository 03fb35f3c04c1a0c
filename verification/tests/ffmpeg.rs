use courseforge::ffmpeg::{parse_progress_line, parse_u64, trim_concat_filter, ProgressLine};

fn ranges(rs: &[(f64, f64)]) -> Vec<(String, String)> {
    rs.iter().map(|(s, e)| (format!("{s:.6}"), format!("{e:.6}"))).collect()
}

#[test]
fn build_trim_concat_filter_for_one_range_has_one_trim_and_concat_n1() {
    let f = trim_concat_filter(&ranges(&[(0.0, 10.0)]));
    assert!(f.contains("trim=start=0.000000:end=10.000000"));
    assert!(f.contains("atrim=start=0.000000:end=10.000000"));
    assert!(f.contains("concat=n=1:v=1:a=1[outv][outa]"));
}

#[test]
fn build_trim_concat_filter_for_multiple_ranges_chains_them_in_order() {
    let f = trim_concat_filter(&ranges(&[(0.0, 2.0), (4.0, 7.0), (8.0, 10.0)]));
    assert_eq!(f.matches("trim=start=").count() - f.matches("atrim=start=").count(), 3);
    assert!(f.contains("[v0][a0][v1][a1][v2][a2]concat=n=3:v=1:a=1[outv][outa]"));
}

#[test]
fn the_filter_graph_reads_in_full() {
    let f = trim_concat_filter(&ranges(&[(1.5, 2.25)]));
    assert_eq!(
        f,
        "[0:v]trim=start=1.500000:end=2.250000,setpts=PTS-STARTPTS[v0];\
         [0:a]atrim=start=1.500000:end=2.250000,asetpts=PTS-STARTPTS[a0];\
         [v0][a0]concat=n=1:v=1:a=1[outv][outa]"
    );
    assert_eq!(trim_concat_filter(&Vec::new()), "concat=n=0:v=1:a=1[outv][outa]");
}

#[test]
fn progress_lines_give_the_output_time_or_the_end() {
    assert_eq!(parse_progress_line("out_time_us=1500000\n"), ProgressLine::OutTime(1_500_000));
    assert_eq!(parse_progress_line("  out_time_ms=42  "), ProgressLine::OutTime(42));
    assert_eq!(parse_progress_line("progress=end"), ProgressLine::End);
    assert_eq!(parse_progress_line("progress=continue"), ProgressLine::Other);
    assert_eq!(parse_progress_line("out_time_us=N/A"), ProgressLine::Other);
    assert_eq!(parse_progress_line("frame=12"), ProgressLine::Other);
    assert_eq!(parse_progress_line(""), ProgressLine::Other);
}

#[test]
fn unsigned_numbers_parse_as_the_standard_library_does() {
    for s in ["0", "7", "+7", "0042", "18446744073709551615", "", "+", "-1", "1a", " 1", "18446744073709551616"] {
        assert_eq!(parse_u64(s), s.parse::<u64>().ok(), "for {s:?}");
    }
}

#[test]
fn a_number_written_in_decimal_reads_back() {
    for n in [0u64, 9, 10, 12_345, u64::MAX] {
        assert_eq!(parse_u64(&n.to_string()), Some(n));
    }
}
