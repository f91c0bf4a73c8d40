use log_error_rate::aggregator::Aggregator;
use log_error_rate::analysis::{analyze_bytes, analyze_lines, split_bytes_lines, split_text_lines};
use log_error_rate::gzip::{analyze, analyze_gz, is_compressed_name};
use log_error_rate::matcher::contains_keyword;
use log_error_rate::report::{format_total_line, u64_to_string};
use log_error_rate::timestamp::{extract_key, find_timestamp};
use std::io::Write;

fn analyze_str(input: &str, keyword: &str) -> Vec<String> {
    analyze_bytes(input.as_bytes(), keyword)
}

#[test]
fn concrete_scenario_three_lines() {
    let input = "2024-01-01 10:15:00-00 Error: disk full\n\
                 2024-01-01 10:42:00-00 Info: ok\n\
                 2024-01-01 11:00:05-00 Error: timeout\n";
    let out = analyze_str(input, "Error");
    assert_eq!(
        out,
        vec![
            "2024-01-01, Hour: 10 - Error Count: 1".to_string(),
            "Total error count for current log: 2".to_string(),
        ]
    );
}

#[test]
fn no_timestamp_lines_have_no_effect() {
    let with_noise = "noise Error without timestamp\n\
                      2024-01-01 10:15:00-00 Error: disk full\n\
                      another Error line, no timestamp\n\
                      2024-01-01 11:00:05-00 Info: ok\n";
    let clean = "2024-01-01 10:15:00-00 Error: disk full\n\
                 2024-01-01 11:00:05-00 Info: ok\n";
    assert_eq!(analyze_str(with_noise, "Error"), analyze_str(clean, "Error"));
}

#[test]
fn same_key_accumulates_until_key_changes() {
    let input = "2024-01-01 10:00:00-00 Error: a\n\
                 2024-01-01 10:20:00-00 Error: b\n\
                 2024-01-01 10:40:00-00 Error: c\n\
                 2024-01-01 12:00:00-00 Info: ok\n";
    let out = analyze_str(input, "Error");
    assert_eq!(
        out,
        vec![
            "2024-01-01, Hour: 10 - Error Count: 3".to_string(),
            "Total error count for current log: 3".to_string(),
        ]
    );
}

#[test]
fn rerun_is_bit_identical() {
    let input = "2024-01-01 10:15:00-00 Error: x\njunk\n2024-01-02 10:00:00-00 ok\n";
    let first = analyze_str(input, "Error");
    let second = analyze_str(input, "Error");
    assert_eq!(first, second);
}

#[test]
fn final_bucket_is_never_printed_but_counts_in_total() {
    let input = "2024-01-01 10:15:00-00 Error: a\n\
                 2024-01-01 11:00:00-00 Error: b\n";
    let out = analyze_str(input, "Error");
    // The 11 bucket opened last: no per-bucket line for it, yet its error is
    // part of the grand total.
    assert_eq!(
        out,
        vec![
            "2024-01-01, Hour: 10 - Error Count: 1".to_string(),
            "Total error count for current log: 2".to_string(),
        ]
    );
}

#[test]
fn keyword_matching_is_case_sensitive() {
    let input = "2024-01-01 10:15:00-00 error: lowercase\n\
                 2024-01-01 11:00:00-00 Info: ok\n";
    let out = analyze_str(input, "Error");
    assert_eq!(
        out,
        vec![
            "2024-01-01, Hour: 10 - Error Count: 0".to_string(),
            "Total error count for current log: 0".to_string(),
        ]
    );
}

#[test]
fn timestamp_with_empty_remainder_is_bucketed() {
    let input = "2024-01-01 10:15:00-00\n\
                 2024-01-01 11:00:00-00 Error: x\n";
    let out = analyze_str(input, "Error");
    assert_eq!(
        out,
        vec![
            "2024-01-01, Hour: 10 - Error Count: 0".to_string(),
            "Total error count for current log: 1".to_string(),
        ]
    );
}

#[test]
fn same_hour_on_different_dates_opens_two_buckets() {
    let input = "2024-01-01 10:00:00-00 Error: a\n\
                 2024-01-02 10:00:00-00 Error: b\n\
                 2024-01-02 11:00:00-00 Info: ok\n";
    let out = analyze_str(input, "Error");
    assert_eq!(
        out,
        vec![
            "2024-01-01, Hour: 10 - Error Count: 1".to_string(),
            "2024-01-02, Hour: 10 - Error Count: 1".to_string(),
            "Total error count for current log: 2".to_string(),
        ]
    );
}

#[test]
fn empty_input_prints_only_the_total() {
    assert_eq!(
        analyze_str("", "Error"),
        vec!["Total error count for current log: 0".to_string()]
    );
}

#[test]
fn find_timestamp_takes_the_first_match() {
    let line = "x 2024-01-01 10:15:00-00 then 2025-02-02 12:00:00-00";
    assert_eq!(find_timestamp(line), Some(2));
    let key = extract_key(line).unwrap();
    assert_eq!(key.date, "2024-01-01");
    assert_eq!(key.hour, "10");
}

#[test]
fn find_timestamp_rejects_near_misses() {
    assert_eq!(find_timestamp("2024-01-01 10:15:00"), None);
    assert_eq!(find_timestamp("2024/01/01 10:15:00-00"), None);
    assert_eq!(find_timestamp("short"), None);
    assert_eq!(find_timestamp(""), None);
}

#[test]
fn contains_keyword_cases() {
    assert!(contains_keyword("an Error here", "Error"));
    assert!(!contains_keyword("an error here", "Error"));
    assert!(contains_keyword("Error", "Error"));
    assert!(!contains_keyword("Erro", "Error"));
    assert!(contains_keyword("anything", ""));
}

#[test]
fn split_lines_strips_newline_and_carriage_return() {
    let got = split_bytes_lines(b"a\nbb\r\nc");
    assert_eq!(got, vec![b"a".to_vec(), b"bb".to_vec(), b"c".to_vec()]);
    assert_eq!(split_bytes_lines(b""), Vec::<Vec<u8>>::new());
    assert_eq!(split_bytes_lines(b"\n"), vec![b"".to_vec()]);
    assert_eq!(split_bytes_lines(b"a\n"), vec![b"a".to_vec()]);
}

#[test]
fn split_text_lines_matches_byte_splitting() {
    let got = split_text_lines("one\ntwo\r\nthree");
    assert_eq!(got, vec!["one".to_string(), "two".to_string(), "three".to_string()]);
}

#[test]
fn undecodable_line_is_skipped_and_run_continues() {
    let mut data = Vec::new();
    data.extend_from_slice(b"2024-01-01 10:15:00-00 Error: a\n");
    data.extend_from_slice(&[0xff, 0xfe, b'\n']);
    data.extend_from_slice(b"2024-01-01 11:00:00-00 Info: ok\n");
    let out = analyze_bytes(&data, "Error");
    assert_eq!(
        out,
        vec![
            "2024-01-01, Hour: 10 - Error Count: 1".to_string(),
            "Total error count for current log: 1".to_string(),
        ]
    );
}

#[test]
fn decimal_rendering_is_exact() {
    assert_eq!(u64_to_string(0), "0");
    assert_eq!(u64_to_string(7), "7");
    assert_eq!(u64_to_string(10), "10");
    assert_eq!(u64_to_string(905), "905");
    assert_eq!(u64_to_string(u64::MAX), "18446744073709551615");
    assert_eq!(format_total_line(42), "Total error count for current log: 42");
}

#[test]
fn aggregator_streaming_matches_whole_buffer_analysis() {
    let lines = vec![
        "2024-01-01 10:15:00-00 Error: a".to_string(),
        "junk".to_string(),
        "2024-01-01 11:00:00-00 Error: b".to_string(),
    ];
    let mut agg = Aggregator::new();
    let mut emitted = Vec::new();
    for line in &lines {
        if agg.total() < u64::MAX {
            if let Some(e) = agg.advance(line, "Error") {
                emitted.push((e.date, e.hour, e.count));
            }
        }
    }
    assert_eq!(emitted, vec![("2024-01-01".to_string(), "10".to_string(), 1)]);
    assert_eq!(agg.total(), 2);
    let out = analyze_lines(&lines, "Error");
    assert_eq!(out.last().unwrap(), "Total error count for current log: 2");
}

#[test]
fn compressed_name_needs_the_gz_suffix() {
    assert!(is_compressed_name("logs.gz"));
    assert!(is_compressed_name("a.tar.gz"));
    assert!(!is_compressed_name("logs.txt"));
    assert!(!is_compressed_name("gz"));
    assert!(!is_compressed_name(""));
}

fn gzip_bytes(plain: &[u8]) -> Vec<u8> {
    let mut enc = flate2::write::GzEncoder::new(Vec::new(), flate2::Compression::default());
    enc.write_all(plain).unwrap();
    enc.finish().unwrap()
}

#[test]
fn gzip_round_trip_yields_identical_output() {
    let plain = b"2024-01-01 10:15:00-00 Error: disk full\n\
                  2024-01-01 10:42:00-00 Info: ok\n\
                  2024-01-01 11:00:05-00 Error: timeout\n";
    let gz = gzip_bytes(plain);
    let via_gz = analyze_gz(&gz, "Error").unwrap();
    let direct = analyze_bytes(plain, "Error");
    assert_eq!(via_gz, direct);
    assert_eq!(analyze(&gz, true, "Error").unwrap(), direct);
    assert_eq!(analyze(plain, false, "Error").unwrap(), direct);
}

#[test]
fn malformed_gzip_content_is_an_error() {
    assert_eq!(analyze_gz(b"this is not a gzip stream", "Error"), None);
}
