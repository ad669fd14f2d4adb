use calibraw_core::diagnostics::{
    clear, fnv1a_step, format_event_line, record, sample_indices, sampled_cfa_counts,
    sampled_u16_fingerprint, sampled_u8_fingerprint, set_device_info, set_gpu_info, snapshot,
    DiagnosticState, FINGERPRINT_SAMPLES, FNV_OFFSET_BASIS, MAX_EVENTS,
};
use calibraw_core::pixel_map::CompactPixelMap;

fn event_text(state: &DiagnosticState) -> String {
    snapshot(state, "")
}

#[test]
fn event_lines_pad_seconds_and_milliseconds() {
    assert_eq!(format_event_line(3, 7, "opened"), "[+    3.007s] opened");
    assert_eq!(format_event_line(123456, 999, "x"), "[+123456.999s] x");
    assert_eq!(format_event_line(0, 0, ""), "[+    0.000s] ");
}

#[test]
fn log_keeps_the_newest_lines() {
    let mut state = DiagnosticState::new();
    for index in 0..(MAX_EVENTS + 5) {
        state.push_at(0, 0, &format!("event {index}"));
    }
    let text = event_text(&state);
    assert!(!text.contains("] event 4\n"));
    assert!(text.contains("] event 5\n"));
    assert!(text.contains(&format!("] event {}\n", MAX_EVENTS + 4)));
    assert_eq!(text.lines().filter(|line| line.starts_with("[+")).count(), MAX_EVENTS);
}

#[test]
fn record_and_info_setters_log_their_events() {
    let mut state = DiagnosticState::new();
    record(&mut state, "RAW opened");
    set_gpu_info(&mut state, "  Adapter X  \n".to_owned());
    set_device_info(&mut state, "Pixel".to_owned());
    let text = snapshot(&state, "CalibRaw test\n");
    assert!(text.starts_with("CalibRaw test\n\n[Android device]\nPixel\n\n[GPU adapter]\nAdapter X\n\n[Events]\n"));
    assert!(text.contains("] RAW opened\n"));
    assert!(text.contains("] GPU adapter information captured\n"));
    assert!(text.contains("] Android device information captured\n"));
}

#[test]
fn clear_leaves_only_its_own_event() {
    let mut state = DiagnosticState::new();
    record(&mut state, "one");
    record(&mut state, "two");
    clear(&mut state);
    let text = event_text(&state);
    assert!(!text.contains("] one"));
    assert_eq!(text.lines().filter(|line| line.starts_with("[+")).count(), 1);
    assert!(text.ends_with("] Diagnostic event log cleared\n"));
}

#[test]
fn empty_log_reports_no_events() {
    let state = DiagnosticState::new();
    assert_eq!(
        snapshot(&state, "P\n"),
        "P\n\n[Events]\nNo diagnostic events yet. Open a RAW or start an export.\n"
    );
}

#[test]
fn sample_indices_spread_from_first_to_last() {
    assert_eq!(sample_indices(0), Vec::<usize>::new());
    assert_eq!(sample_indices(1), vec![0]);
    assert_eq!(sample_indices(5), vec![0, 1, 2, 3, 4]);
    let many = sample_indices(100_000);
    assert_eq!(many.len(), FINGERPRINT_SAMPLES);
    assert_eq!(many[0], 0);
    assert_eq!(*many.last().unwrap(), 99_999);
    assert!(many.windows(2).all(|pair| pair[0] <= pair[1]));
}

#[test]
fn fnv1a_matches_reference_values() {
    // FNV-1a 64 of "a" is 0xaf63dc4c8601ec8c.
    assert_eq!(fnv1a_step(FNV_OFFSET_BASIS, b'a'), 0xaf63dc4c8601ec8c);
    assert_eq!(sampled_u16_fingerprint(&[]), FNV_OFFSET_BASIS);
    // The little-endian bytes of 0x6261 are "ab": FNV-1a 64 of "ab".
    assert_eq!(sampled_u16_fingerprint(&[0x6261]), 0x089c4407b545986a);
}

#[test]
fn byte_map_fingerprint_and_cfa_counts() {
    let map = CompactPixelMap::repeating(4, 2, 2, 1, vec![0u8, 1]);
    let expected = [0u8, 1, 0, 1, 0, 1, 0, 1]
        .iter()
        .fold(FNV_OFFSET_BASIS, |hash, &byte| fnv1a_step(hash, byte));
    assert_eq!(sampled_u8_fingerprint(&map), expected);
    assert_eq!(sampled_cfa_counts(&map), [4, 4, 0, 0]);
    let odd = CompactPixelMap::dense(3, 1, vec![2u8, 7, 3]);
    assert_eq!(sampled_cfa_counts(&odd), [0, 0, 1, 1]);
}

#[test]
fn recorded_messages_keep_the_last_ones_in_order() {
    let mut state = DiagnosticState::new();
    for index in 0..(MAX_EVENTS + 7) {
        record(&mut state, &format!("message {index}"));
    }
    let text = event_text(&state);
    let lines: Vec<&str> = text.lines().filter(|line| line.starts_with("[+")).collect();
    assert_eq!(lines.len(), MAX_EVENTS);
    for (k, line) in lines.iter().enumerate() {
        assert!(line.ends_with(&format!("s] message {}", k + 7)), "{line}");
    }
}

#[test]
fn cleared_report_shows_the_gpu_and_one_line() {
    let mut state = DiagnosticState::new();
    set_gpu_info(&mut state, "  Adapter Y \n".to_owned());
    record(&mut state, "between");
    clear(&mut state);
    let text = snapshot(&state, "CalibRaw 1.0\n");
    assert!(text.starts_with("CalibRaw "));
    assert!(text.contains("\n[GPU adapter]\nAdapter Y\n"));
    let events = text.split("\n[Events]\n").nth(1).unwrap();
    assert_eq!(events.lines().count(), 1);
    assert!(events.ends_with("Diagnostic event log cleared\n"));
}
