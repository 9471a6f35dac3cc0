use littify::{
    escape_bytes, escape_process, scan_escapes, CycleOutcome, EscapeScan, ESCAPE, EXIT, LINE_FEED,
    NEWLINE,
};

fn go_on(text: &str) -> CycleOutcome<String> {
    CycleOutcome::Continue(text.to_string())
}

fn stop(text: &str) -> CycleOutcome<String> {
    CycleOutcome::Terminate(text.to_string())
}

#[test]
fn test_marker_bytes() {
    assert_eq!(ESCAPE, b'!');
    assert_eq!(EXIT, b'e');
    assert_eq!(NEWLINE, b'n');
    assert_eq!(LINE_FEED, b'\n');
}

#[test]
fn test_escape_literal() {
    assert_eq!(escape_process("a!!b".to_string()), go_on("a!b"));
}

#[test]
fn test_escape_terminate() {
    assert_eq!(escape_process("abc!edef".to_string()), stop("abc"));
}

#[test]
fn test_escape_newline() {
    assert_eq!(escape_process("a!nb".to_string()), go_on("a\nb"));
}

#[test]
fn test_escape_trailing_lone_marker() {
    assert_eq!(escape_process("abc!".to_string()), go_on("abc!"));
}

#[test]
fn test_escape_terminate_after_literal_marker() {
    // `!!` gives a `!`; the `!e` behind it still ends the line, and what is
    // kept is the line as typed up to that `!e`
    assert_eq!(escape_process("a!!!eb".to_string()), stop("a!!"));
    assert_eq!(
        scan_escapes("a!!!eb".as_bytes()),
        EscapeScan::Exit(3)
    );
}

#[test]
fn test_escape_literal_marker_takes_its_second_byte() {
    assert_eq!(escape_process("a!!eb".to_string()), go_on("a!eb"));
    assert_eq!(escape_process("!!n".to_string()), go_on("!n"));
    assert_eq!(escape_process("!!!!".to_string()), go_on("!!"));
    assert_eq!(escape_process("!!!".to_string()), go_on("!!"));
}

#[test]
fn test_escape_unknown_directive_is_dropped() {
    assert_eq!(escape_process("a!xb".to_string()), go_on("ab"));
    assert_eq!(escape_process("!x".to_string()), go_on(""));
    assert_eq!(escape_process("! !".to_string()), go_on("!"));
    assert_eq!(escape_process("!E".to_string()), go_on(""));
    assert_eq!(escape_process("!N".to_string()), go_on(""));
}

#[test]
fn test_escape_plain_lines() {
    assert_eq!(escape_process(String::new()), go_on(""));
    assert_eq!(escape_process("plain text".to_string()), go_on("plain text"));
    assert_eq!(escape_process("ünïcödé 京".to_string()), go_on("ünïcödé 京"));
    assert_eq!(escape_process("!".to_string()), go_on("!"));
}

#[test]
fn test_escape_terminate_positions() {
    assert_eq!(escape_process("!e".to_string()), stop(""));
    assert_eq!(escape_process("!erest".to_string()), stop(""));
    assert_eq!(escape_process("one!e!e".to_string()), stop("one"));
    assert_eq!(escape_process("a!nb!ec".to_string()), stop("a!nb"));
    assert_eq!(escape_process("é京!e京".to_string()), stop("é京"));
}

#[test]
fn test_escape_terminate_keeps_the_line_as_typed() {
    // the directives before the end are not resolved in what is kept
    assert_eq!(escape_process("x!!y!nz!e".to_string()), stop("x!!y!nz"));
}

#[test]
fn test_escape_bytes_results() {
    assert_eq!(
        escape_bytes("a!!b".to_string()),
        EscapeScan::Decoded("a!b".to_string())
    );
    assert_eq!(escape_bytes("abc!edef".to_string()), EscapeScan::Exit(3));
    assert_eq!(escape_bytes("é!e".to_string()), EscapeScan::Exit(2));
    assert_eq!(
        escape_bytes(String::new()),
        EscapeScan::Decoded(String::new())
    );
}

#[test]
fn test_scan_escapes_bytes() {
    assert_eq!(
        scan_escapes(b"a!nb"),
        EscapeScan::Decoded(vec![b'a', b'\n', b'b'])
    );
    assert_eq!(scan_escapes(b"!"), EscapeScan::Decoded(vec![b'!']));
    assert_eq!(scan_escapes(b""), EscapeScan::Decoded(Vec::new()));
    assert_eq!(scan_escapes(b"!e"), EscapeScan::Exit(0));
    assert_eq!(scan_escapes(b"!q!e"), EscapeScan::Exit(2));
    assert_eq!(
        scan_escapes(&[0xff, 0x21, 0x21, 0x80]),
        EscapeScan::Decoded(vec![0xff, 0x21, 0x80])
    );
}

#[test]
fn test_escape_dropped_byte_of_a_character() {
    // the byte after the marker is dropped even where it is the first byte
    // of a longer character; what is left of that character is replaced
    assert_eq!(escape_process("!é".to_string()), go_on("\u{fffd}"));
    assert_eq!(escape_process("a!京b".to_string()), go_on("a\u{fffd}\u{fffd}b"));
    assert_eq!(
        escape_bytes("!é".to_string()),
        EscapeScan::Decoded("\u{fffd}".to_string())
    );
}

#[test]
fn test_escape_every_second_byte() {
    for code in 0u8..128 {
        let c = code as char;
        let got = escape_process(format!("x!{}y", c));
        let want = match c {
            '!' => go_on("x!y"),
            'n' => go_on("x\ny"),
            'e' => stop("x"),
            _ => go_on("xy"),
        };
        assert_eq!(got, want);
    }
}

#[test]
fn test_escape_terminate_is_prefix_of_line() {
    for line in ["!e", "a!e", "ab!!!ec", "é!n京!e!e", "!x!e"] {
        match escape_process(line.to_string()) {
            CycleOutcome::Terminate(head) => assert!(line.starts_with(head.as_str())),
            CycleOutcome::Continue(_) => panic!("the line ends the session"),
        }
    }
}
