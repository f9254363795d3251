use blocking_reader::matching::{contains_bytes, is_line_match_all_patterns};
use blocking_reader::scan::scan_lines;
use blocking_reader::store::OffsetStore;
use blocking_reader::tail::{clamp_offset, file_key, ReadEvent, ReadFailure, TailOutcome, Tailer};

/// One poll of an in-memory file, done the way a caller does it with a real one.
fn poll(t: &mut Tailer, path: &str, created: u64, file: &[u8], patterns: &Vec<&str>) -> TailOutcome {
    let key = file_key(path, created, 0);
    let start = t.start_offset(&key, file.len() as u64);
    let data = file[start as usize..].to_vec();
    t.finish(key, start, ReadEvent::Data(data), patterns)
}

fn matched(o: TailOutcome) -> Vec<String> {
    match o {
        TailOutcome::Matched(lines) => lines,
        other => panic!("expected matched lines, got {:?}", other),
    }
}

#[test]
fn contains_finds_inner_and_edge_positions() {
    assert!(contains_bytes(b"hello world", b"world"));
    assert!(contains_bytes(b"hello world", b"hello"));
    assert!(contains_bytes(b"hello world", b"o w"));
    assert!(contains_bytes(b"abc", b""));
    assert!(contains_bytes(b"", b""));
    assert!(!contains_bytes(b"abc", b"abcd"));
    assert!(!contains_bytes(b"hello", b"hellp"));
}

#[test]
fn all_patterns_are_required() {
    let pats = vec!["ERROR", "db"];
    assert!(is_line_match_all_patterns(b"ERROR: db down", &pats));
    assert!(!is_line_match_all_patterns(b"ERROR: disk full", &pats));
    assert!(!is_line_match_all_patterns(b"INFO: db up", &pats));
    assert!(is_line_match_all_patterns(b"anything", &vec![]));
    assert!(is_line_match_all_patterns(b"", &vec![]));
}

#[test]
fn substring_and_semantics_in_a_scan() {
    let data = b"ERROR db timeout\nERROR disk\ndb slow\nwarn: db ERROR\n".to_vec();
    let r = scan_lines(&data, &vec!["ERROR", "db"]);
    assert_eq!(r.lines, vec!["ERROR db timeout".to_string(), "warn: db ERROR".to_string()]);
    assert_eq!(r.consumed, data.len());
    let all = scan_lines(&data, &vec![]);
    assert_eq!(all.lines.len(), 4);
}

#[test]
fn scan_leaves_partial_line() {
    let data = b"one\ntwo\npart".to_vec();
    let r = scan_lines(&data, &vec![]);
    assert_eq!(r.lines, vec!["one".to_string(), "two".to_string()]);
    assert_eq!(r.consumed, 8);
}

#[test]
fn scan_of_nothing_is_empty() {
    let r = scan_lines(&Vec::new(), &vec![]);
    assert!(r.lines.is_empty());
    assert_eq!(r.consumed, 0);
    let r = scan_lines(&b"no newline yet".to_vec(), &vec![]);
    assert!(r.lines.is_empty());
    assert_eq!(r.consumed, 0);
}

#[test]
fn scan_strips_crlf_and_keeps_empty_lines() {
    let r = scan_lines(&b"a\r\n\nb\n".to_vec(), &vec![]);
    assert_eq!(r.lines, vec!["a".to_string(), String::new(), "b".to_string()]);
    assert_eq!(r.consumed, 6);
}

#[test]
fn scan_skips_lines_that_are_not_text() {
    let r = scan_lines(&vec![b'x', 0xff, b'\n', 0xc3, 0xa9, b'\n'], &vec![]);
    assert_eq!(r.lines, vec!["\u{e9}".to_string()]);
    assert_eq!(r.consumed, 6);
}

#[test]
fn store_defaults_to_zero_and_remembers() {
    let mut s = OffsetStore::new();
    let k = file_key("/var/log/a", 10, 5);
    assert_eq!(s.get(&k), 0);
    s.set(k.clone(), 42);
    assert_eq!(s.get(&k), 42);
    s.set(k.clone(), 50);
    assert_eq!(s.get(&k), 50);
    assert_eq!(s.get(&file_key("/var/log/a", 10, 6)), 0);
}

#[test]
fn file_key_holds_path_and_creation_time() {
    assert_eq!(file_key("/tmp/x.log", 7, 9), ("/tmp/x.log".to_string(), 7, 9));
}

#[test]
fn end_to_end_append() {
    let mut t = Tailer::new();
    let mut file = b"a\nb\nc\n".to_vec();
    let first = matched(poll(&mut t, "f.log", 1, &file, &vec![]));
    assert_eq!(first, vec!["a".to_string(), "b".to_string(), "c".to_string()]);
    file.extend_from_slice(b"d\n");
    let second = matched(poll(&mut t, "f.log", 1, &file, &vec![]));
    assert_eq!(second, vec!["d".to_string()]);
}

#[test]
fn second_poll_without_growth_is_empty() {
    let mut t = Tailer::new();
    let file = b"x\ny\n".to_vec();
    assert_eq!(matched(poll(&mut t, "g.log", 1, &file, &vec![])).len(), 2);
    assert!(matches!(poll(&mut t, "g.log", 1, &file, &vec![]), TailOutcome::NoNewData));
}

#[test]
fn partial_line_waits_for_its_newline() {
    let mut t = Tailer::new();
    let mut file = b"start\n".to_vec();
    assert_eq!(matched(poll(&mut t, "p.log", 1, &file, &vec![])), vec!["start".to_string()]);
    file.extend_from_slice(b"partial");
    assert!(matches!(poll(&mut t, "p.log", 1, &file, &vec![]), TailOutcome::NoNewData));
    file.extend_from_slice(b"-line\n");
    assert_eq!(matched(poll(&mut t, "p.log", 1, &file, &vec![])), vec!["partial-line".to_string()]);
}

#[test]
fn rotation_starts_over() {
    let mut t = Tailer::new();
    let file = b"same\n".to_vec();
    assert_eq!(matched(poll(&mut t, "r.log", 1, &file, &vec![])), vec!["same".to_string()]);
    assert_eq!(t.start_offset(&file_key("r.log", 1, 0), 5), 5);
    // the file was replaced: a new creation time, the same content
    assert_eq!(t.start_offset(&file_key("r.log", 2, 0), 5), 0);
    assert_eq!(matched(poll(&mut t, "r.log", 2, &file, &vec![])), vec!["same".to_string()]);
}

#[test]
fn truncated_file_is_read_from_its_end() {
    let mut t = Tailer::new();
    let file = b"0123456789\n".to_vec();
    matched(poll(&mut t, "s.log", 1, &file, &vec![]));
    assert_eq!(t.start_offset(&file_key("s.log", 1, 0), 4), 4);
}

#[test]
fn timeout_and_failure_record_nothing() {
    let mut t = Tailer::new();
    let key = file_key("t.log", 3, 0);
    let pats = vec![];
    let r = t.finish(key.clone(), 0, ReadEvent::Data(b"a\nb\n".to_vec()), &pats);
    assert_eq!(matched(r).len(), 2);
    assert_eq!(t.start_offset(&key, 100), 4);
    let r = t.finish(key.clone(), 4, ReadEvent::TimedOut, &pats);
    assert!(matches!(r, TailOutcome::DeadlineExceeded));
    assert_eq!(t.start_offset(&key, 100), 4);
    let r = t.finish(key.clone(), 4, ReadEvent::Failed(ReadFailure::Open), &pats);
    assert!(matches!(r, TailOutcome::ReadFailed(ReadFailure::Open)));
    let r = t.finish(key.clone(), 4, ReadEvent::Failed(ReadFailure::Metadata), &pats);
    assert!(matches!(r, TailOutcome::ReadFailed(ReadFailure::Metadata)));
    let r = t.finish(key.clone(), 4, ReadEvent::Failed(ReadFailure::Read), &pats);
    assert!(matches!(r, TailOutcome::ReadFailed(ReadFailure::Read)));
    assert_eq!(t.start_offset(&key, 100), 4);
}

#[test]
fn new_lines_that_do_not_match_give_empty_match() {
    let mut t = Tailer::with_capacity(16);
    let file = b"info\n".to_vec();
    let r = matched(poll(&mut t, "m.log", 1, &file, &vec!["ERROR"]));
    assert!(r.is_empty());
    assert!(matches!(poll(&mut t, "m.log", 1, &file, &vec!["ERROR"]), TailOutcome::NoNewData));
}

#[test]
fn offset_continues_from_nonzero_start() {
    let mut t = Tailer::new();
    let key = file_key("o.log", 1, 0);
    let r = t.finish(key.clone(), 100, ReadEvent::Data(b"x\ny".to_vec()), &vec![]);
    assert_eq!(matched(r), vec!["x".to_string()]);
    assert_eq!(t.start_offset(&key, 1000), 102);
}

#[test]
fn clamp_keeps_offsets_inside_the_file() {
    assert_eq!(clamp_offset(5, 10), 5);
    assert_eq!(clamp_offset(10, 10), 10);
    assert_eq!(clamp_offset(11, 10), 10);
    assert_eq!(clamp_offset(0, 0), 0);
}

#[test]
fn store_of_no_capacity_keeps_nothing() {
    let mut s = OffsetStore::with_capacity(0);
    let k = file_key("z.log", 1, 0);
    s.set(k.clone(), 9);
    assert_eq!(s.get(&k), 0);
}

#[test]
fn other_files_keep_their_offsets() {
    let mut t = Tailer::new();
    let f1 = b"one\n".to_vec();
    let f2 = b"two\nthree\n".to_vec();
    matched(poll(&mut t, "a.log", 1, &f1, &vec![]));
    matched(poll(&mut t, "b.log", 1, &f2, &vec![]));
    assert_eq!(t.start_offset(&file_key("a.log", 1, 0), 100), 4);
    assert_eq!(t.start_offset(&file_key("b.log", 1, 0), 100), 10);
}
