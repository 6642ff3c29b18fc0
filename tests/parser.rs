use wican_log_viewer::record::{line_from_datagram, line_from_text, parse_line, LogLine};

fn fields(l: &LogLine) -> (u64, char, String, String, String) {
    (l.ts_ms, l.level, l.task.clone(), l.tag.clone(), l.msg.clone())
}

#[test]
fn parses_all_four_fields() {
    let l = parse_line("[1000][I][main][net] started");
    assert_eq!(l.raw, "[1000][I][main][net] started");
    assert_eq!(
        fields(&l),
        (1000, 'I', "main".to_string(), "net".to_string(), "started".to_string())
    );
    assert!(l.complete);
}

#[test]
fn level_takes_first_character() {
    let l = parse_line("[5][Warn][t][g]x");
    assert_eq!(l.level, 'W');
    assert_eq!(l.msg, "x");
}

#[test]
fn empty_level_is_unknown() {
    let l = parse_line("[5][][t][g] x");
    assert_eq!(l.level, '?');
    assert_eq!(l.task, "t");
}

#[test]
fn non_numeric_timestamp_is_zero() {
    assert_eq!(parse_line("[abc][E][a][b] m").ts_ms, 0);
    assert_eq!(parse_line("[][E][a][b] m").ts_ms, 0);
    assert_eq!(parse_line("[18446744073709551616][E][a][b] m").ts_ms, 0);
    assert_eq!(parse_line("[18446744073709551615][E][a][b] m").ts_ms, u64::MAX);
    assert_eq!(parse_line("[+42][E][a][b] m").ts_ms, 42);
    assert_eq!(parse_line("[-1][E][a][b] m").ts_ms, 0);
    assert_eq!(parse_line("[+][E][a][b] m").ts_ms, 0);
}

#[test]
fn plain_text_keeps_defaults() {
    let l = parse_line("  hello world");
    assert_eq!(l.raw, "  hello world");
    assert_eq!(
        fields(&l),
        (0, '?', String::new(), String::new(), "hello world".to_string())
    );
    assert!(!l.complete);
}

#[test]
fn missing_bracket_shifts_fields() {
    // The second field lacks its `[`: its text is skipped up to the `]`, and
    // the following brackets fill the task and tag.
    let l = parse_line("[7]I][main][net] go");
    assert_eq!(
        fields(&l),
        (7, '?', "main".to_string(), "net".to_string(), "go".to_string())
    );
    assert!(!l.complete);
}

#[test]
fn empty_input_parses() {
    let l = parse_line("");
    assert_eq!(l.raw, "");
    assert_eq!(fields(&l), (0, '?', String::new(), String::new(), String::new()));
}

#[test]
fn message_keeps_unicode_and_inner_spaces() {
    let l = parse_line("[1][D][tâsk][ß]\u{3000} grüße  dir ");
    assert_eq!(l.task, "tâsk");
    assert_eq!(l.tag, "ß");
    assert_eq!(l.msg, "grüße  dir ");
}

#[test]
fn datagram_line_ending_is_dropped() {
    let l = line_from_datagram(b"[1][E][a][b] boom\r\n").unwrap();
    assert_eq!(l.raw, "[1][E][a][b] boom");
    assert_eq!(l.msg, "boom");
    assert_eq!(l.level, 'E');
}

#[test]
fn empty_datagram_gives_nothing() {
    assert!(line_from_datagram(b"").is_none());
    assert!(line_from_datagram(b"\r\n\n").is_none());
}

#[test]
fn invalid_utf8_is_replaced() {
    let l = line_from_datagram(&[b'a', 0xff, b'b', b'\n']).unwrap();
    assert_eq!(l.raw, "a\u{fffd}b");
}

#[test]
fn text_line_endings_are_dropped() {
    let l = line_from_text("[3][V][x][y]\tz\n\r\n").unwrap();
    assert_eq!(l.raw, "[3][V][x][y]\tz");
    assert_eq!(l.msg, "z");
    assert!(line_from_text("\r").is_none());
}

#[test]
fn root_exports() {
    assert_eq!(wican_log_viewer::parse_line("[9][E][a][b]").ts_ms, 9);
    assert_eq!(wican_log_viewer::level_order('D'), 3);
}
