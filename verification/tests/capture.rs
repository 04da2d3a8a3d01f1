use colmena::capture::{capture_line, capture_stream, trim_terminator, StreamStep};

fn reads(list: &[&str]) -> Vec<String> {
    list.iter().map(|r| r.to_string()).collect()
}

#[test]
fn line_feed_is_stripped() {
    assert_eq!(trim_terminator("building\n"), "building");
    assert_eq!(trim_terminator("\n"), "");
}

#[test]
fn carriage_return_and_line_feed_are_stripped_together() {
    assert_eq!(trim_terminator("building\r\n"), "building");
    assert_eq!(trim_terminator("\r\n"), "");
}

#[test]
fn only_one_terminator_is_stripped() {
    assert_eq!(trim_terminator("a\n\n"), "a\n");
    assert_eq!(trim_terminator("a\r\n\r\n"), "a\r\n");
    assert_eq!(trim_terminator("a\r\r\n"), "a\r");
}

#[test]
fn line_without_terminator_is_left_alone() {
    assert_eq!(trim_terminator("last line"), "last line");
    assert_eq!(trim_terminator(""), "");
    assert_eq!(trim_terminator("a\r"), "a\r");
    assert_eq!(trim_terminator("a\nb"), "a\nb");
}

#[test]
fn trailing_blanks_belong_to_the_line() {
    assert_eq!(trim_terminator("a  \n"), "a  ");
    assert_eq!(trim_terminator("a\t\r\n"), "a\t");
    assert_eq!(trim_terminator("  "), "  ");
}

#[test]
fn stripping_counts_characters_not_bytes() {
    assert_eq!(trim_terminator("héllo€\n"), "héllo€");
    assert_eq!(trim_terminator("héllo€\r\n"), "héllo€");
}

#[test]
fn a_line_is_forwarded_and_logged() {
    let mut log = String::new();
    match capture_line(&mut log, "one\n") {
        StreamStep::Forward(line) => assert_eq!(line, "one"),
        StreamStep::Done => panic!("a line was taken for the end of the data"),
    }
    assert_eq!(log, "one\n");
    match capture_line(&mut log, "two\r\n") {
        StreamStep::Forward(line) => assert_eq!(line, "two"),
        StreamStep::Done => panic!("a line was taken for the end of the data"),
    }
    assert_eq!(log, "one\ntwo\n");
}

#[test]
fn an_empty_line_is_still_a_line() {
    let mut log = String::from("x\n");
    match capture_line(&mut log, "\n") {
        StreamStep::Forward(line) => assert_eq!(line, ""),
        StreamStep::Done => panic!("an empty line was taken for the end of the data"),
    }
    assert_eq!(log, "x\n\n");
}

#[test]
fn an_empty_read_ends_the_data() {
    let mut log = String::from("x\n");
    assert!(matches!(capture_line(&mut log, ""), StreamStep::Done));
    assert_eq!(log, "x\n");
}

#[test]
fn last_line_without_terminator_gets_one_in_the_log() {
    let mut log = String::new();
    match capture_line(&mut log, "tail") {
        StreamStep::Forward(line) => assert_eq!(line, "tail"),
        StreamStep::Done => panic!("a line was taken for the end of the data"),
    }
    assert_eq!(log, "tail\n");
}

#[test]
fn stream_log_is_what_was_written() {
    let written = reads(&["first\n", "second\n", "\n", "  indented \n"]);
    let captured = capture_stream(&written);
    assert_eq!(captured.log, written.concat());
    assert_eq!(captured.log, "first\nsecond\n\n  indented \n");
    assert_eq!(captured.forwarded, vec!["first", "second", "", "  indented "]);
}

#[test]
fn every_line_is_forwarded_once_and_in_order() {
    let captured = capture_stream(&reads(&["b\n", "a\n", "b\n", "a\r\n", "c"]));
    assert_eq!(captured.forwarded, vec!["b", "a", "b", "a", "c"]);
    assert_eq!(captured.log, "b\na\nb\na\nc\n");
}

#[test]
fn stream_ends_at_the_first_empty_read() {
    let captured = capture_stream(&reads(&["a\n", "", "never read\n"]));
    assert_eq!(captured.forwarded, vec!["a"]);
    assert_eq!(captured.log, "a\n");
}

#[test]
fn stream_without_data_leaves_an_empty_log() {
    let nothing = capture_stream(&Vec::new());
    assert_eq!(nothing.log, "");
    assert!(nothing.forwarded.is_empty());
    let ended = capture_stream(&reads(&[""]));
    assert_eq!(ended.log, "");
    assert!(ended.forwarded.is_empty());
}
